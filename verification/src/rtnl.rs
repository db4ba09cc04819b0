//! Requests to the routing side of the kernel, and its replies, as bytes.

use crate::attrs::{attr_from, behind, big_number, number, with_attr, word_under, zero_filled, Fits};
use crate::bytes::{word_at, word_bytes, Machine, Order};
use crate::route::IpAddr;
use netlink_bindings::traits::{NetlinkRequest, Protocol};
use netlink_bindings::utils::{Ipv4Addr, Ipv6Addr};
use netlink_bindings::{rt_addr, rt_link, rt_route, rt_rule};
use vstd::prelude::*;

verus! {

/// The family of IPv4.
pub const AF_INET: u8 = 2;

/// The family of link layers.
pub const AF_PACKET: u8 = 17;

/// Asks for something to be made.
pub const CREATE: u16 = 0x400;

/// Asks for something to be made that is not there yet.
pub const CREATE_NEW: u16 = 0x600;

/// Asks for all entries.
pub const DUMP: u16 = 0x300;

/// A rule that looks up a table.
pub const TO_TABLE: u8 = 1;

/// A rule that makes the destination unreachable.
pub const UNREACHABLE: u8 = 7;

/// The main table.
pub const MAIN_TABLE: u32 = 254;

/// A route that was set up while booting, and not by the kernel.
pub const BOOT: u8 = 3;

/// A route to one host.
pub const UNICAST: u8 = 1;

/// The scope of what is on the link.
pub const SCOPE_LINK: u8 = 253;

/// The scope that leads nowhere.
pub const SCOPE_NOWHERE: u8 = 255;

/// A request: its type, its flags, and what follows the message header.
#[derive(Debug)]
pub struct Request {
    pub kind: u16,
    pub flags: u16,
    pub payload: Vec<u8>,
}

/// The bytes of a number, the highest one first.
pub open spec fn big_bytes(x: nat, n: nat) -> Seq<u8>
    decreases n,
{
    if n == 0 {
        Seq::empty()
    } else {
        big_bytes(x / 256, (n - 1) as nat).push((x % 256) as u8)
    }
}

/// The bytes of an address.
pub open spec fn ip_bytes(a: IpAddr) -> Seq<u8> {
    match a {
        IpAddr::V4(a) => word_bytes(Order::Big, a),
        IpAddr::V6(a) => big_bytes(a as nat, 16),
    }
}

/// The address that four or sixteen bytes denote.
pub open spec fn ip_of(s: Seq<u8>) -> IpAddr {
    if s.len() == 4 {
        IpAddr::V4(word_at(Order::Big, s, 0))
    } else {
        IpAddr::V6(big_number(s) as u128)
    }
}

/// The address under a kind of attribute.
pub open spec fn ip_under(order: Order, b: Seq<u8>, kind: nat) -> Option<IpAddr> {
    match attr_from(order, b, 0, kind, Fits::Address) {
        None => None,
        Some(a) => Some(ip_of(b.subrange(a.start, a.start + a.len))),
    }
}

/// The header of a rule.
pub open spec fn rule_header(family: u8, dst_len: u8, src_len: u8, action: u8) -> Seq<u8> {
    seq![family, dst_len, src_len, 0, 0, 0, 0, action, 0, 0, 0, 0]
}

/// The header of a route.
pub open spec fn route_header(
    family: u8,
    dst_len: u8,
    table: u8,
    protocol: u8,
    scope: u8,
    kind: u8,
) -> Seq<u8> {
    seq![family, dst_len, 0, 0, table, protocol, scope, kind, 0, 0, 0, 0]
}

/// The header of a link.
pub open spec fn link_header(order: Order, family: u8, index: u32) -> Seq<u8> {
    seq![family, 0, 0, 0] + word_bytes(order, index) + seq![0, 0, 0, 0, 0, 0, 0, 0]
}

/// The header of an address.
pub open spec fn addr_header(family: u8, scope: u8) -> Seq<u8> {
    seq![family, 0, 0, scope, 0, 0, 0, 0]
}

/// `rt_rule::Request::op_newrule_do`: a request for a rule, without attributes.
#[verifier::external_body]
pub(crate) fn newrule(flags: u16, family: u8, dst_len: u8, src_len: u8, action: u8) -> (r: Request)
    ensures
        r.kind == 32,
        r.flags == flags,
        r.payload@ == rule_header(family, dst_len, src_len, action),
{
    let h = rt_rule::FibRuleHdr { family, dst_len, src_len, action, ..Default::default() };
    let r = rt_rule::Request::new().set_flags(flags).op_newrule_do(&h);
    let kind = match r.protocol() {
        Protocol::Raw { request_type, .. } => request_type,
        Protocol::Generic(_) => 0,
    };
    Request { kind, flags: r.flags(), payload: r.payload().to_vec() }
}

/// `rt_rule::Request::op_delrule_do`: a request to take away a rule, without
/// attributes.
#[verifier::external_body]
pub(crate) fn delrule(family: u8) -> (r: Request)
    ensures
        r.kind == 33,
        r.flags == 0,
        r.payload@ == rule_header(family, 0, 0, 0),
{
    let h = rt_rule::FibRuleHdr { family, ..Default::default() };
    let r = rt_rule::Request::new().op_delrule_do(&h);
    let kind = match r.protocol() {
        Protocol::Raw { request_type, .. } => request_type,
        Protocol::Generic(_) => 0,
    };
    Request { kind, flags: r.flags(), payload: r.payload().to_vec() }
}

/// `rt_rule::PushFibRuleAttrs::push_dst`.
#[verifier::external_body]
pub(crate) fn rule_dst(m: &Machine, buf: &mut Vec<u8>, dst: u32)
    ensures
        final(buf)@ == with_attr(m.layout(), old(buf)@, 1, word_bytes(Order::Big, dst)),
{
    rt_rule::PushFibRuleAttrs::new(buf).push_dst(Ipv4Addr::from_bits(dst).into());
}

/// `rt_rule::PushFibRuleAttrs::push_src`.
#[verifier::external_body]
pub(crate) fn rule_src(m: &Machine, buf: &mut Vec<u8>, src: IpAddr)
    ensures
        final(buf)@ == with_attr(m.layout(), old(buf)@, 2, ip_bytes(src)),
{
    let src = match src {
        IpAddr::V4(a) => Ipv4Addr::from_bits(a).into(),
        IpAddr::V6(a) => Ipv6Addr::from_bits(a).into(),
    };
    rt_rule::PushFibRuleAttrs::new(buf).push_src(src);
}

/// `rt_rule::PushFibRuleAttrs::push_priority`.
#[verifier::external_body]
pub(crate) fn rule_priority(m: &Machine, buf: &mut Vec<u8>, priority: u32)
    ensures
        final(buf)@ == with_attr(m.layout(), old(buf)@, 6, word_bytes(m.layout(), priority)),
{
    rt_rule::PushFibRuleAttrs::new(buf).push_priority(priority);
}

/// `rt_rule::PushFibRuleAttrs::push_fwmark`.
#[verifier::external_body]
pub(crate) fn rule_fwmark(m: &Machine, buf: &mut Vec<u8>, mark: u32)
    ensures
        final(buf)@ == with_attr(m.layout(), old(buf)@, 10, word_bytes(m.layout(), mark)),
{
    rt_rule::PushFibRuleAttrs::new(buf).push_fwmark(mark);
}

/// `rt_rule::PushFibRuleAttrs::push_table`.
#[verifier::external_body]
pub(crate) fn rule_table(m: &Machine, buf: &mut Vec<u8>, table: u32)
    ensures
        final(buf)@ == with_attr(m.layout(), old(buf)@, 15, word_bytes(m.layout(), table)),
{
    rt_rule::PushFibRuleAttrs::new(buf).push_table(table);
}

/// `rt_rule::PushFibRuleAttrs::push_fwmask`.
#[verifier::external_body]
pub(crate) fn rule_fwmask(m: &Machine, buf: &mut Vec<u8>, mask: u32)
    ensures
        final(buf)@ == with_attr(m.layout(), old(buf)@, 16, word_bytes(m.layout(), mask)),
{
    rt_rule::PushFibRuleAttrs::new(buf).push_fwmask(mask);
}

/// `rt_route::Request::op_newroute_do`: a request for a route, without
/// attributes.
#[verifier::external_body]
pub(crate) fn newroute(flags: u16, family: u8, dst_len: u8, protocol: u8, kind: u8) -> (r: Request)
    ensures
        r.kind == 24,
        r.flags == flags,
        r.payload@ == route_header(family, dst_len, 0, protocol, 0, kind),
{
    let h = rt_route::Rtmsg {
        rtm_family: family,
        rtm_dst_len: dst_len,
        rtm_protocol: protocol,
        rtm_type: kind,
        ..Default::default()
    };
    let r = rt_route::Request::new().set_flags(flags).op_newroute_do(&h);
    let kind = match r.protocol() {
        Protocol::Raw { request_type, .. } => request_type,
        Protocol::Generic(_) => 0,
    };
    Request { kind, flags: r.flags(), payload: r.payload().to_vec() }
}

/// `rt_route::Request::op_delroute_do`: a request to take away a route, without
/// attributes.
#[verifier::external_body]
pub(crate) fn delroute(family: u8, dst_len: u8, scope: u8, kind: u8) -> (r: Request)
    ensures
        r.kind == 25,
        r.flags == 0,
        r.payload@ == route_header(family, dst_len, 0, 0, scope, kind),
{
    let h = rt_route::Rtmsg {
        rtm_family: family,
        rtm_dst_len: dst_len,
        rtm_scope: scope,
        rtm_type: kind,
        ..Default::default()
    };
    let r = rt_route::Request::new().op_delroute_do(&h);
    let kind = match r.protocol() {
        Protocol::Raw { request_type, .. } => request_type,
        Protocol::Generic(_) => 0,
    };
    Request { kind, flags: r.flags(), payload: r.payload().to_vec() }
}

/// `rt_route::Request::op_getroute_do`: a request for the route to somewhere,
/// without attributes.
#[verifier::external_body]
pub(crate) fn getroute(family: u8, dst_len: u8) -> (r: Request)
    ensures
        r.kind == 26,
        r.flags == 0,
        r.payload@ == route_header(family, dst_len, 0, 0, 0, 0),
{
    let h = rt_route::Rtmsg { rtm_family: family, rtm_dst_len: dst_len, ..Default::default() };
    let r = rt_route::Request::new().op_getroute_do(&h);
    let kind = match r.protocol() {
        Protocol::Raw { request_type, .. } => request_type,
        Protocol::Generic(_) => 0,
    };
    Request { kind, flags: r.flags(), payload: r.payload().to_vec() }
}

/// `rt_route::Request::op_getroute_dump`: a request for all routes, without
/// attributes.
#[verifier::external_body]
pub(crate) fn getroute_dump(flags: u16, family: u8, table: u8) -> (r: Request)
    ensures
        r.kind == 26,
        r.flags == flags | DUMP,
        r.payload@ == route_header(family, 0, table, 0, 0, 0),
{
    let h = rt_route::Rtmsg { rtm_family: family, rtm_table: table, ..Default::default() };
    let r = rt_route::Request::new().set_flags(flags).op_getroute_dump(&h);
    let kind = match r.protocol() {
        Protocol::Raw { request_type, .. } => request_type,
        Protocol::Generic(_) => 0,
    };
    Request { kind, flags: r.flags(), payload: r.payload().to_vec() }
}

/// `rt_route::PushRouteAttrs::push_dst`.
#[verifier::external_body]
pub(crate) fn route_dst(m: &Machine, buf: &mut Vec<u8>, dst: IpAddr)
    ensures
        final(buf)@ == with_attr(m.layout(), old(buf)@, 1, ip_bytes(dst)),
{
    let dst = match dst {
        IpAddr::V4(a) => Ipv4Addr::from_bits(a).into(),
        IpAddr::V6(a) => Ipv6Addr::from_bits(a).into(),
    };
    rt_route::PushRouteAttrs::new(buf).push_dst(dst);
}

/// `rt_route::PushRouteAttrs::push_oif`.
#[verifier::external_body]
pub(crate) fn route_oif(m: &Machine, buf: &mut Vec<u8>, index: u32)
    ensures
        final(buf)@ == with_attr(m.layout(), old(buf)@, 4, word_bytes(m.layout(), index)),
{
    rt_route::PushRouteAttrs::new(buf).push_oif(index);
}

/// `rt_route::PushRouteAttrs::push_gateway`.
#[verifier::external_body]
pub(crate) fn route_gateway(m: &Machine, buf: &mut Vec<u8>, gateway: IpAddr)
    ensures
        final(buf)@ == with_attr(m.layout(), old(buf)@, 5, ip_bytes(gateway)),
{
    let gateway = match gateway {
        IpAddr::V4(a) => Ipv4Addr::from_bits(a).into(),
        IpAddr::V6(a) => Ipv6Addr::from_bits(a).into(),
    };
    rt_route::PushRouteAttrs::new(buf).push_gateway(gateway);
}

/// `rt_route::PushRouteAttrs::push_prefsrc`.
#[verifier::external_body]
pub(crate) fn route_prefsrc(m: &Machine, buf: &mut Vec<u8>, src: IpAddr)
    ensures
        final(buf)@ == with_attr(m.layout(), old(buf)@, 7, ip_bytes(src)),
{
    let src = match src {
        IpAddr::V4(a) => Ipv4Addr::from_bits(a).into(),
        IpAddr::V6(a) => Ipv6Addr::from_bits(a).into(),
    };
    rt_route::PushRouteAttrs::new(buf).push_prefsrc(src);
}

/// `rt_route::PushRouteAttrs::push_table`.
#[verifier::external_body]
pub(crate) fn route_table(m: &Machine, buf: &mut Vec<u8>, table: u32)
    ensures
        final(buf)@ == with_attr(m.layout(), old(buf)@, 15, word_bytes(m.layout(), table)),
{
    rt_route::PushRouteAttrs::new(buf).push_table(table);
}

/// `rt_link::Request::op_getlink_do`: a request for a device, without
/// attributes.
#[verifier::external_body]
pub(crate) fn getlink(m: &Machine, family: u8, index: u32) -> (r: Request)
    ensures
        r.kind == 18,
        r.flags == 0,
        r.payload@ == link_header(m.layout(), family, index),
{
    let h = rt_link::Ifinfomsg { ifi_family: family, ifi_index: index as i32, ..Default::default() };
    let r = rt_link::Request::new().op_getlink_do(&h);
    let kind = match r.protocol() {
        Protocol::Raw { request_type, .. } => request_type,
        Protocol::Generic(_) => 0,
    };
    Request { kind, flags: r.flags(), payload: r.payload().to_vec() }
}

/// `rt_link::PushLinkAttrs::push_ifname_bytes`: the name and a zero behind it.
#[verifier::external_body]
pub(crate) fn link_ifname(m: &Machine, buf: &mut Vec<u8>, name: &Vec<u8>)
    requires
        name@.len() <= 65530,
    ensures
        final(buf)@ == with_attr(m.layout(), old(buf)@, 3, name@.push(0)),
{
    rt_link::PushLinkAttrs::new(buf).push_ifname_bytes(name);
}

/// `rt_addr::Request::op_getaddr_dump`: a request for all addresses.
#[verifier::external_body]
pub(crate) fn getaddr_dump(family: u8, scope: u8) -> (r: Request)
    ensures
        r.kind == 22,
        r.flags == DUMP,
        r.payload@ == addr_header(family, scope),
{
    let h = rt_addr::Ifaddrmsg { ifa_family: family, ifa_scope: scope, ..Default::default() };
    let r = rt_addr::Request::new().op_getaddr_dump(&h);
    let kind = match r.protocol() {
        Protocol::Raw { request_type, .. } => request_type,
        Protocol::Generic(_) => 0,
    };
    Request { kind, flags: r.flags(), payload: r.payload().to_vec() }
}

/// What is read of a reply about a route.
#[derive(Clone, Copy, Debug, PartialEq, Eq, Structural)]
pub struct RouteReply {
    pub dst_len: u8,
    pub dst: Option<IpAddr>,
    pub oif: Option<u32>,
    pub gateway: Option<IpAddr>,
    pub prefsrc: Option<IpAddr>,
    pub table: Option<u32>,
}

/// What a reply about a route says.
pub open spec fn route_said(order: Order, b: Seq<u8>) -> RouteReply {
    let attrs = behind(b, 12);
    RouteReply {
        dst_len: if b.len() < 12 {
            0
        } else {
            b[1]
        },
        dst: ip_under(order, attrs, 1),
        oif: word_under(order, attrs, 4),
        gateway: ip_under(order, attrs, 5),
        prefsrc: ip_under(order, attrs, 7),
        table: word_under(order, attrs, 15),
    }
}

/// `OpGetrouteDo::decode_reply` of `rt_route`, and the getters of its attributes:
/// each gives the first attribute of its kind that can be read, or none.
#[verifier::external_body]
pub(crate) fn route_reply(m: &Machine, b: &Vec<u8>) -> (r: RouteReply)
    ensures
        r == route_said(m.layout(), b@),
{
    let (h, a) = rt_route::OpGetrouteDo::decode_reply(b);
    let ip = |ip| match ip {
        netlink_bindings::utils::IpAddr::V4(a) => IpAddr::V4(a.to_bits()),
        netlink_bindings::utils::IpAddr::V6(a) => IpAddr::V6(a.to_bits()),
    };
    RouteReply {
        dst_len: h.rtm_dst_len,
        dst: a.get_dst().ok().map(ip),
        oif: a.get_oif().ok(),
        gateway: a.get_gateway().ok().map(ip),
        prefsrc: a.get_prefsrc().ok().map(ip),
        table: a.get_table().ok(),
    }
}

/// What is read of a reply about a device.
#[derive(Debug)]
pub struct LinkReply {
    pub index: i32,
    pub flags: u32,
    pub ifname: Option<Vec<u8>>,
    /// Bytes sent and received.
    pub stats: Option<(u64, u64)>,
}

/// The word in the header of a message, zero where the header is not whole.
pub open spec fn header_word(order: Order, b: Seq<u8>, header: int, at: int) -> u32 {
    if b.len() < header {
        0
    } else {
        word_at(order, b, at)
    }
}

/// The text under a kind of attribute, without the zero behind it.
pub open spec fn text_under(order: Order, b: Seq<u8>, kind: nat) -> Option<Seq<u8>> {
    match attr_from(order, b, 0, kind, Fits::Text) {
        None => None,
        Some(a) => Some(b.subrange(a.start, a.start + a.len - 1)),
    }
}

/// The numbers of bytes sent and received among the statistics of a device.
pub open spec fn stats_under(order: Order, b: Seq<u8>, kind: nat) -> Option<(u64, u64)> {
    match attr_from(order, b, 0, kind, Fits::Any) {
        None => None,
        Some(a) => {
            let v = zero_filled(b.subrange(a.start, a.start + a.len), 32);
            Some(
                (
                    number(order, v.subrange(24, 32)) as u64,
                    number(order, v.subrange(16, 24)) as u64,
                ),
            )
        },
    }
}

impl LinkReply {
    /// Whether this is what a reply about a device says.
    pub open spec fn says(self, order: Order, b: Seq<u8>) -> bool {
        let attrs = behind(b, 16);
        &&& self.index == header_word(order, b, 16, 4) as i32
        &&& self.flags == header_word(order, b, 16, 8)
        &&& match self.ifname {
            Some(n) => text_under(order, attrs, 3) == Some(n@),
            None => text_under(order, attrs, 3) is None,
        }
        &&& self.stats == stats_under(order, attrs, 23)
    }
}

/// `OpGetlinkDo::decode_reply` of `rt_link`, and the getters of its attributes:
/// each gives the first attribute of its kind that can be read, or none. Of the
/// statistics only the numbers of bytes are kept.
#[verifier::external_body]
pub(crate) fn link_reply(m: &Machine, b: &Vec<u8>) -> (r: LinkReply)
    ensures
        r.says(m.layout(), b@),
{
    let (h, a) = rt_link::OpGetlinkDo::decode_reply(b);
    LinkReply {
        index: h.ifi_index,
        flags: h.ifi_flags,
        ifname: a.get_ifname().ok().map(|n| n.to_bytes().to_vec()),
        stats: a.get_stats64().ok().map(|s| (s.tx_bytes, s.rx_bytes)),
    }
}

/// What is read of a reply about an address.
#[derive(Clone, Copy, Debug, PartialEq, Eq, Structural)]
pub struct AddrReply {
    pub index: u32,
    pub local: Option<IpAddr>,
}

/// What a reply about an address says.
pub open spec fn addr_said(order: Order, b: Seq<u8>) -> AddrReply {
    AddrReply {
        index: header_word(order, b, 8, 4),
        local: ip_under(order, behind(b, 8), 2),
    }
}

/// `OpGetaddrDump::decode_reply` of `rt_addr`, and the getter of the local
/// address: the first that can be read, or none.
#[verifier::external_body]
pub(crate) fn addr_reply(m: &Machine, b: &Vec<u8>) -> (r: AddrReply)
    ensures
        r == addr_said(m.layout(), b@),
{
    let (h, a) = rt_addr::OpGetaddrDump::decode_reply(b);
    let local = a.get_local().ok().map(|ip| match ip {
        netlink_bindings::utils::IpAddr::V4(a) => IpAddr::V4(a.to_bits()),
        netlink_bindings::utils::IpAddr::V6(a) => IpAddr::V6(a.to_bits()),
    });
    AddrReply { index: h.ifa_index, local }
}

} // verus!
