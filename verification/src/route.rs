//! Addresses and the way out of the machine.

use crate::addr::{dotted, dotted_text};
use crate::text::same_text;
use netlink_bindings::utils::Ipv6Addr;
use vstd::prelude::*;

verus! {

/// An address, as the number that its bytes denote from the first to the last.
#[derive(Clone, Copy, Debug, PartialEq, Eq, Structural)]
pub enum IpAddr {
    V4(u32),
    V6(u128),
}

/// The notation of an IPv6 address.
pub uninterp spec fn ipv6_notation(bits: u128) -> Seq<char>;

/// The `Display` of an IPv6 address of the standard library, which depends on
/// the address alone.
#[verifier::external_body]
fn ipv6_text(bits: u128) -> (r: String)
    ensures
        r@ == ipv6_notation(bits),
{
    format!("{}", Ipv6Addr::from_bits(bits))
}

impl IpAddr {
    /// The notation of an address.
    pub open spec fn notation(self) -> Seq<char> {
        match self {
            IpAddr::V4(a) => dotted(a),
            IpAddr::V6(a) => ipv6_notation(a),
        }
    }

    /// The notation of an address.
    pub fn text(self) -> (r: String)
        ensures
            r@ == self.notation(),
    {
        match self {
            IpAddr::V4(a) => dotted_text(a),
            IpAddr::V6(a) => ipv6_text(a),
        }
    }
}

/// A device and what is known of the way out through it.
#[derive(Debug)]
pub struct Route {
    pub is_up: bool,
    pub ifindex: u32,
    pub ifname: String,
    pub addrs: Vec<IpAddr>,
    pub gateway: Option<IpAddr>,
}

/// What a route says.
pub struct RouteView {
    pub is_up: bool,
    pub ifindex: u32,
    pub ifname: Seq<char>,
    pub addrs: Seq<IpAddr>,
    pub gateway: Option<IpAddr>,
}

impl View for Route {
    type V = RouteView;

    open spec fn view(&self) -> RouteView {
        RouteView {
            is_up: self.is_up,
            ifindex: self.ifindex,
            ifname: self.ifname@,
            addrs: self.addrs@,
            gateway: self.gateway,
        }
    }
}

impl Clone for Route {
    fn clone(&self) -> (r: Self)
        ensures
            r@ == self@,
    {
        let addrs = self.addrs.clone();
        assert(addrs@ =~= self.addrs@);
        Route {
            is_up: self.is_up,
            ifindex: self.ifindex,
            ifname: self.ifname.clone(),
            addrs,
            gateway: self.gateway,
        }
    }
}

/// Whether two optional addresses are the same.
fn same_gateway(a: &Option<IpAddr>, b: &Option<IpAddr>) -> (r: bool)
    ensures
        r == (*a == *b),
{
    match (a, b) {
        (Some(x), Some(y)) => *x == *y,
        (None, None) => true,
        _ => false,
    }
}

impl Route {
    /// Whether two routes say the same.
    pub fn same(&self, other: &Route) -> (r: bool)
        ensures
            r == (self@ == other@),
    {
        if self.is_up != other.is_up || self.ifindex != other.ifindex || !same_text(
            self.ifname.as_str(),
            other.ifname.as_str(),
        ) || !same_gateway(&self.gateway, &other.gateway) || self.addrs.len()
            != other.addrs.len() {
            return false;
        }
        let mut i: usize = 0;
        while i < self.addrs.len()
            invariant
                i <= self.addrs@.len(),
                self.addrs@.len() == other.addrs@.len(),
                forall|j: int| 0 <= j < i ==> self.addrs@[j] == other.addrs@[j],
            decreases self.addrs.len() - i,
        {
            if self.addrs[i] != other.addrs[i] {
                assert(self@.addrs[i as int] != other@.addrs[i as int]);
                return false;
            }
            i += 1;
        }
        assert(self.addrs@ =~= other.addrs@);
        true
    }
}

/// An IPv4 address is written in dotted notation.
pub proof fn addresses_are_dotted(a: u32)
    ensures
        IpAddr::V4(a).notation() == dotted(a),
{
}

} // verus!
