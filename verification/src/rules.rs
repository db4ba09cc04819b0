//! The rules and routes that are asked of the kernel.

use crate::attrs::{attr_is_local, attrs_bytes, with_attr};
use crate::bytes::{word_bytes, Machine, Order};
use crate::route::{IpAddr, Route, RouteView};
use crate::rtnl::{
    addr_header, delroute, delrule, getaddr_dump, getlink, getroute, getroute_dump, ip_bytes,
    link_header, link_ifname, newroute, newrule, route_dst, route_gateway, route_header, route_oif,
    route_prefsrc, route_table, rule_dst, rule_fwmark, rule_fwmask, rule_header, rule_priority,
    rule_src, rule_table, Request, AF_INET, BOOT, CREATE, CREATE_NEW, DUMP, SCOPE_LINK,
    SCOPE_NOWHERE, TO_TABLE, UNICAST, UNREACHABLE,
};
use vstd::prelude::*;
use vstd::string::StrSliceExecFns;
use vstd::utf8::encode_utf8;

verus! {

/// What a request says: its type, its flags, its header and its attributes.
pub struct RequestView {
    pub kind: u16,
    pub flags: u16,
    pub header: Seq<u8>,
    pub attrs: Seq<(u16, Seq<u8>)>,
}

impl Request {
    /// Whether the bytes of the request are what it is meant to say.
    pub open spec fn says(self, order: Order, v: RequestView) -> bool {
        &&& self.kind == v.kind
        &&& self.flags == v.flags
        &&& self.payload@ == v.header + attrs_bytes(order, v.attrs)
    }
}

/// A request to which attributes are added.
struct Draft {
    request: Request,
    view: Ghost<RequestView>,
}

/// One more attribute behind a header and attributes.
proof fn attr_is_pushed(
    order: Order,
    header: Seq<u8>,
    attrs: Seq<(u16, Seq<u8>)>,
    kind: u16,
    value: Seq<u8>,
)
    requires
        header.len() % 4 == 0,
    ensures
        with_attr(order, header + attrs_bytes(order, attrs), kind, value) == header + attrs_bytes(
            order,
            attrs.push((kind, value)),
        ),
{
    reveal(attrs_bytes);
    attr_is_local(header, order, attrs_bytes(order, attrs), kind, value);
    assert(attrs.push((kind, value)).drop_last() =~= attrs);
}

impl Draft {
    spec fn wf(self, order: Order) -> bool {
        &&& self.request.says(order, self.view@)
        &&& self.view@.header.len() % 4 == 0
    }

    spec fn plus(self, kind: u16, value: Seq<u8>) -> RequestView {
        RequestView { attrs: self.view@.attrs.push((kind, value)), ..self.view@ }
    }

    fn new(m: &Machine, request: Request, Ghost(header): Ghost<Seq<u8>>) -> (r: Draft)
        requires
            request.payload@ == header,
            header.len() % 4 == 0,
        ensures
            r.wf(m.layout()),
            r.view@ == (RequestView {
                kind: request.kind,
                flags: request.flags,
                header,
                attrs: seq![],
            }),
    {
        let ghost view = RequestView {
            kind: request.kind,
            flags: request.flags,
            header,
            attrs: seq![],
        };
        proof {
            reveal(attrs_bytes);
            assert(header + attrs_bytes(m.layout(), view.attrs) =~= header);
        }
        Draft { request, view: Ghost(view) }
    }

    fn rule_dst(self, m: &Machine, dst: u32) -> (r: Draft)
        requires
            self.wf(m.layout()),
        ensures
            r.wf(m.layout()),
            r.view@ == self.plus(1, word_bytes(Order::Big, dst)),
    {
        let mut d = self;
        let ghost v = self.view@;
        rule_dst(m, &mut d.request.payload, dst);
        proof {
            attr_is_pushed(m.layout(), v.header, v.attrs, 1, word_bytes(Order::Big, dst));
        }
        Draft { request: d.request, view: Ghost(self.plus(1, word_bytes(Order::Big, dst))) }
    }

    fn rule_src(self, m: &Machine, src: IpAddr) -> (r: Draft)
        requires
            self.wf(m.layout()),
        ensures
            r.wf(m.layout()),
            r.view@ == self.plus(2, ip_bytes(src)),
    {
        let mut d = self;
        let ghost v = self.view@;
        rule_src(m, &mut d.request.payload, src);
        proof {
            attr_is_pushed(m.layout(), v.header, v.attrs, 2, ip_bytes(src));
        }
        Draft { request: d.request, view: Ghost(self.plus(2, ip_bytes(src))) }
    }

    fn rule_priority(self, m: &Machine, priority: u32) -> (r: Draft)
        requires
            self.wf(m.layout()),
        ensures
            r.wf(m.layout()),
            r.view@ == self.plus(6, word_bytes(m.layout(), priority)),
    {
        let mut d = self;
        let ghost v = self.view@;
        rule_priority(m, &mut d.request.payload, priority);
        proof {
            attr_is_pushed(m.layout(), v.header, v.attrs, 6, word_bytes(m.layout(), priority));
        }
        Draft { request: d.request, view: Ghost(self.plus(6, word_bytes(m.layout(), priority))) }
    }

    fn rule_fwmark(self, m: &Machine, mark: u32) -> (r: Draft)
        requires
            self.wf(m.layout()),
        ensures
            r.wf(m.layout()),
            r.view@ == self.plus(10, word_bytes(m.layout(), mark)),
    {
        let mut d = self;
        let ghost v = self.view@;
        rule_fwmark(m, &mut d.request.payload, mark);
        proof {
            attr_is_pushed(m.layout(), v.header, v.attrs, 10, word_bytes(m.layout(), mark));
        }
        Draft { request: d.request, view: Ghost(self.plus(10, word_bytes(m.layout(), mark))) }
    }

    fn rule_table(self, m: &Machine, table: u32) -> (r: Draft)
        requires
            self.wf(m.layout()),
        ensures
            r.wf(m.layout()),
            r.view@ == self.plus(15, word_bytes(m.layout(), table)),
    {
        let mut d = self;
        let ghost v = self.view@;
        rule_table(m, &mut d.request.payload, table);
        proof {
            attr_is_pushed(m.layout(), v.header, v.attrs, 15, word_bytes(m.layout(), table));
        }
        Draft { request: d.request, view: Ghost(self.plus(15, word_bytes(m.layout(), table))) }
    }

    fn rule_fwmask(self, m: &Machine, mask: u32) -> (r: Draft)
        requires
            self.wf(m.layout()),
        ensures
            r.wf(m.layout()),
            r.view@ == self.plus(16, word_bytes(m.layout(), mask)),
    {
        let mut d = self;
        let ghost v = self.view@;
        rule_fwmask(m, &mut d.request.payload, mask);
        proof {
            attr_is_pushed(m.layout(), v.header, v.attrs, 16, word_bytes(m.layout(), mask));
        }
        Draft { request: d.request, view: Ghost(self.plus(16, word_bytes(m.layout(), mask))) }
    }

    fn route_dst(self, m: &Machine, dst: IpAddr) -> (r: Draft)
        requires
            self.wf(m.layout()),
        ensures
            r.wf(m.layout()),
            r.view@ == self.plus(1, ip_bytes(dst)),
    {
        let mut d = self;
        let ghost v = self.view@;
        route_dst(m, &mut d.request.payload, dst);
        proof {
            attr_is_pushed(m.layout(), v.header, v.attrs, 1, ip_bytes(dst));
        }
        Draft { request: d.request, view: Ghost(self.plus(1, ip_bytes(dst))) }
    }

    fn route_oif(self, m: &Machine, index: u32) -> (r: Draft)
        requires
            self.wf(m.layout()),
        ensures
            r.wf(m.layout()),
            r.view@ == self.plus(4, word_bytes(m.layout(), index)),
    {
        let mut d = self;
        let ghost v = self.view@;
        route_oif(m, &mut d.request.payload, index);
        proof {
            attr_is_pushed(m.layout(), v.header, v.attrs, 4, word_bytes(m.layout(), index));
        }
        Draft { request: d.request, view: Ghost(self.plus(4, word_bytes(m.layout(), index))) }
    }

    fn route_gateway(self, m: &Machine, gateway: IpAddr) -> (r: Draft)
        requires
            self.wf(m.layout()),
        ensures
            r.wf(m.layout()),
            r.view@ == self.plus(5, ip_bytes(gateway)),
    {
        let mut d = self;
        let ghost v = self.view@;
        route_gateway(m, &mut d.request.payload, gateway);
        proof {
            attr_is_pushed(m.layout(), v.header, v.attrs, 5, ip_bytes(gateway));
        }
        Draft { request: d.request, view: Ghost(self.plus(5, ip_bytes(gateway))) }
    }

    fn route_prefsrc(self, m: &Machine, src: IpAddr) -> (r: Draft)
        requires
            self.wf(m.layout()),
        ensures
            r.wf(m.layout()),
            r.view@ == self.plus(7, ip_bytes(src)),
    {
        let mut d = self;
        let ghost v = self.view@;
        route_prefsrc(m, &mut d.request.payload, src);
        proof {
            attr_is_pushed(m.layout(), v.header, v.attrs, 7, ip_bytes(src));
        }
        Draft { request: d.request, view: Ghost(self.plus(7, ip_bytes(src))) }
    }

    fn route_table(self, m: &Machine, table: u32) -> (r: Draft)
        requires
            self.wf(m.layout()),
        ensures
            r.wf(m.layout()),
            r.view@ == self.plus(15, word_bytes(m.layout(), table)),
    {
        let mut d = self;
        let ghost v = self.view@;
        route_table(m, &mut d.request.payload, table);
        proof {
            attr_is_pushed(m.layout(), v.header, v.attrs, 15, word_bytes(m.layout(), table));
        }
        Draft { request: d.request, view: Ghost(self.plus(15, word_bytes(m.layout(), table))) }
    }

    fn link_ifname(self, m: &Machine, name: &Vec<u8>) -> (r: Draft)
        requires
            self.wf(m.layout()),
            name@.len() <= 65530,
        ensures
            r.wf(m.layout()),
            r.view@ == self.plus(3, name@.push(0)),
    {
        let mut d = self;
        let ghost v = self.view@;
        link_ifname(m, &mut d.request.payload, name);
        proof {
            attr_is_pushed(m.layout(), v.header, v.attrs, 3, name@.push(0));
        }
        Draft { request: d.request, view: Ghost(self.plus(3, name@.push(0))) }
    }
}

/// An attribute that holds a word.
pub open spec fn word_attr(order: Order, kind: u16, x: u32) -> (u16, Seq<u8>) {
    (kind, word_bytes(order, x))
}

/// An attribute that holds an address.
pub open spec fn ip_attr(kind: u16, a: IpAddr) -> (u16, Seq<u8>) {
    (kind, ip_bytes(a))
}

/// A request for a rule.
pub open spec fn rule_view(
    flags: u16,
    dst_len: u8,
    src_len: u8,
    action: u8,
    attrs: Seq<(u16, Seq<u8>)>,
) -> RequestView {
    RequestView { kind: 32, flags, header: rule_header(AF_INET, dst_len, src_len, action), attrs }
}

/// `ip rule add from <addr> lookup <table> prio 0`
pub open spec fn from_rule(order: Order, addr: IpAddr, table: u32) -> RequestView {
    rule_view(
        CREATE_NEW,
        0,
        32,
        TO_TABLE,
        seq![ip_attr(2, addr), word_attr(order, 15, table), word_attr(order, 6, 0)],
    )
}

/// Traffic from an address looks up a table first.
pub fn rule_from(m: &Machine, addr: IpAddr, table: u32) -> (r: Request)
    ensures
        r.says(m.layout(), from_rule(m.layout(), addr, table)),
{
    let ghost header = rule_header(AF_INET, 0, 32, TO_TABLE);
    let r = newrule(CREATE_NEW, AF_INET, 0, 32, TO_TABLE);
    let d = Draft::new(m, r, Ghost(header)).rule_src(m, addr).rule_table(m, table).rule_priority(
        m,
        0,
    );
    assert(d.view@.attrs =~= from_rule(m.layout(), addr, table).attrs);
    d.request
}

/// `ip rule add fwmark <mark> table <mark> prio 0`
pub open spec fn mark_rule(order: Order, mark: u32) -> RequestView {
    rule_view(
        CREATE_NEW,
        0,
        0,
        TO_TABLE,
        seq![word_attr(order, 10, mark), word_attr(order, 15, mark), word_attr(order, 6, 0)],
    )
}

/// Traffic with a mark looks up the table of that number first.
pub fn rule_marked(m: &Machine, mark: u32) -> (r: Request)
    ensures
        r.says(m.layout(), mark_rule(m.layout(), mark)),
{
    let ghost header = rule_header(AF_INET, 0, 0, TO_TABLE);
    let r = newrule(CREATE_NEW, AF_INET, 0, 0, TO_TABLE);
    let d = Draft::new(m, r, Ghost(header)).rule_fwmark(m, mark).rule_table(m, mark).rule_priority(
        m,
        0,
    );
    assert(d.view@.attrs =~= mark_rule(m.layout(), mark).attrs);
    d.request
}

/// `ip rule add to <dst>/<len> table <table> prio 0`, with a mark under a mask of
/// zero, which changes nothing but tells by whom the rule was made.
pub open spec fn to_rule(order: Order, dst: u32, len: u8, table: u32, mark: u32) -> RequestView {
    rule_view(
        0x400,
        len,
        0,
        TO_TABLE,
        seq![
            word_attr(order, 15, table),
            ip_attr(1, IpAddr::V4(dst)),
            word_attr(order, 6, 0),
            word_attr(order, 10, mark),
            word_attr(order, 16, 0),
        ],
    )
}

/// Traffic to a network looks up a table first.
pub fn rule_to(m: &Machine, dst: u32, len: u8, table: u32, mark: u32) -> (r: Request)
    ensures
        r.says(m.layout(), to_rule(m.layout(), dst, len, table, mark)),
{
    let ghost header = rule_header(AF_INET, len, 0, TO_TABLE);
    let r = newrule(CREATE, AF_INET, len, 0, TO_TABLE);
    let d = Draft::new(m, r, Ghost(header)).rule_table(m, table).rule_dst(m, dst).rule_priority(
        m,
        0,
    ).rule_fwmark(m, mark).rule_fwmask(m, 0);
    assert(d.view@.attrs =~= to_rule(m.layout(), dst, len, table, mark).attrs);
    d.request
}

/// `ip rule add fwmark <mark> unreachable`, at the front or not.
pub open spec fn unreachable_rule(order: Order, mark: u32, first: bool) -> RequestView {
    let attrs = seq![word_attr(order, 10, mark), word_attr(order, 15, mark)];
    rule_view(
        CREATE_NEW,
        0,
        0,
        UNREACHABLE,
        if first {
            attrs.push(word_attr(order, 6, 0))
        } else {
            attrs
        },
    )
}

/// Traffic with a mark goes nowhere.
pub fn rule_unreachable(m: &Machine, mark: u32, first: bool) -> (r: Request)
    ensures
        r.says(m.layout(), unreachable_rule(m.layout(), mark, first)),
{
    let ghost header = rule_header(AF_INET, 0, 0, UNREACHABLE);
    let r = newrule(CREATE_NEW, AF_INET, 0, 0, UNREACHABLE);
    let d = Draft::new(m, r, Ghost(header)).rule_fwmark(m, mark).rule_table(m, mark);
    let d = if first {
        d.rule_priority(m, 0)
    } else {
        d
    };
    assert(d.view@.attrs =~= unreachable_rule(m.layout(), mark, first).attrs);
    d.request
}

/// `ip rule add table <table> prio 0`
pub open spec fn static_rule(order: Order, table: u32) -> RequestView {
    rule_view(
        CREATE_NEW,
        0,
        0,
        TO_TABLE,
        seq![word_attr(order, 6, 0), ip_attr(2, IpAddr::V4(0)), word_attr(order, 15, table)],
    )
}

/// All traffic looks up a table first.
pub fn rule_static(m: &Machine, table: u32) -> (r: Request)
    ensures
        r.says(m.layout(), static_rule(m.layout(), table)),
{
    let ghost header = rule_header(AF_INET, 0, 0, TO_TABLE);
    let r = newrule(CREATE_NEW, AF_INET, 0, 0, TO_TABLE);
    let d = Draft::new(m, r, Ghost(header)).rule_priority(m, 0).rule_src(
        m,
        IpAddr::V4(0),
    ).rule_table(m, table);
    assert(d.view@.attrs =~= static_rule(m.layout(), table).attrs);
    d.request
}

/// A request to take away a rule.
pub open spec fn rule_gone_view(attrs: Seq<(u16, Seq<u8>)>) -> RequestView {
    RequestView { kind: 33, flags: 0, header: rule_header(AF_INET, 0, 0, 0), attrs }
}

/// `ip rule del table <table>`
pub fn rule_gone_by_table(m: &Machine, table: u32) -> (r: Request)
    ensures
        r.says(m.layout(), rule_gone_view(seq![word_attr(m.layout(), 15, table)])),
{
    let ghost header = rule_header(AF_INET, 0, 0, 0);
    let d = Draft::new(m, delrule(AF_INET), Ghost(header)).rule_table(m, table);
    assert(d.view@.attrs =~= seq![word_attr(m.layout(), 15, table)]);
    d.request
}

/// `ip rule del fwmark <mark>/0`
pub fn rule_gone_by_mark(m: &Machine, mark: u32) -> (r: Request)
    ensures
        r.says(
            m.layout(),
            rule_gone_view(seq![word_attr(m.layout(), 10, mark), word_attr(m.layout(), 16, 0)]),
        ),
{
    let ghost header = rule_header(AF_INET, 0, 0, 0);
    let d = Draft::new(m, delrule(AF_INET), Ghost(header)).rule_fwmark(m, mark).rule_fwmask(m, 0);
    assert(d.view@.attrs =~= seq![word_attr(m.layout(), 10, mark), word_attr(m.layout(), 16, 0)]);
    d.request
}

/// The destination of a route, if it is one host.
pub open spec fn dst_attrs(dst: Option<u32>) -> Seq<(u16, Seq<u8>)> {
    match dst {
        Some(a) => seq![ip_attr(1, IpAddr::V4(a))],
        None => seq![],
    }
}

/// The way out through a device: the device, the first of its addresses as
/// source, and the gateway, as far as there are any.
pub open spec fn way_attrs(order: Order, table: u32, way: RouteView) -> Seq<(u16, Seq<u8>)> {
    let base = seq![word_attr(order, 15, table), word_attr(order, 4, way.ifindex)];
    let src = if way.addrs.len() > 0 {
        seq![ip_attr(7, way.addrs[0])]
    } else {
        seq![]
    };
    let gateway = match way.gateway {
        Some(g) => seq![ip_attr(5, g)],
        None => seq![],
    };
    base + src + gateway
}

/// `ip route add <dst> dev <device> table <table>`, `dst` being everything or
/// one host.
pub open spec fn out_route(order: Order, dst: Option<u32>, table: u32, way: RouteView) -> RequestView {
    RequestView {
        kind: 24,
        flags: CREATE_NEW,
        header: route_header(
            AF_INET,
            if dst is Some {
                32
            } else {
                0
            },
            0,
            BOOT,
            0,
            UNICAST,
        ),
        attrs: dst_attrs(dst) + way_attrs(order, table, way),
    }
}

/// What goes to everywhere, or to one host, leaves through a device.
pub fn route_out(m: &Machine, dst: Option<u32>, table: u32, way: &Route) -> (r: Request)
    ensures
        r.says(m.layout(), out_route(m.layout(), dst, table, way@)),
{
    let len: u8 = match dst {
        Some(_) => 32,
        None => 0,
    };
    let ghost header = route_header(AF_INET, len, 0, BOOT, 0, UNICAST);
    let r = newroute(CREATE_NEW, AF_INET, len, BOOT, UNICAST);
    let d = Draft::new(m, r, Ghost(header));
    let d = match dst {
        Some(a) => d.route_dst(m, IpAddr::V4(a)),
        None => d,
    };
    let d = d.route_table(m, table).route_oif(m, way.ifindex);
    let d = if way.addrs.len() > 0 {
        d.route_prefsrc(m, way.addrs[0])
    } else {
        d
    };
    let d = match way.gateway {
        Some(g) => d.route_gateway(m, g),
        None => d,
    };
    assert(d.view@.attrs =~= out_route(m.layout(), dst, table, way@).attrs);
    d.request
}

/// A request for all routes.
pub open spec fn routes_view(table: u8, attrs: Seq<(u16, Seq<u8>)>) -> RequestView {
    RequestView {
        kind: 26,
        flags: DUMP,
        header: route_header(AF_INET, 0, table, 0, 0, 0),
        attrs,
    }
}

/// `ip route show table <table>`
pub fn routes_in_table(m: &Machine, table: u32) -> (r: Request)
    ensures
        r.says(m.layout(), routes_view(0, seq![word_attr(m.layout(), 15, table)])),
{
    assert(0x300u16 | 0x300u16 == 0x300u16) by (bit_vector);
    let ghost header = route_header(AF_INET, 0, 0, 0, 0, 0);
    let d = Draft::new(m, getroute_dump(0x300, AF_INET, 0), Ghost(header)).route_table(m, table);
    assert(d.view@.attrs =~= seq![word_attr(m.layout(), 15, table)]);
    d.request
}

/// `ip route show table main`
pub fn routes_of_main(m: &Machine) -> (r: Request)
    ensures
        r.says(m.layout(), routes_view(254, seq![])),
{
    assert(0u16 | 0x300u16 == 0x300u16) by (bit_vector);
    let ghost header = route_header(AF_INET, 0, 254, 0, 0, 0);
    let d = Draft::new(m, getroute_dump(0, AF_INET, 254), Ghost(header));
    d.request
}

/// `ip route show table main dev <device>`
pub fn routes_of_device(m: &Machine, ifindex: u32) -> (r: Request)
    ensures
        r.says(m.layout(), routes_view(254, seq![word_attr(m.layout(), 4, ifindex)])),
{
    assert(0u16 | 0x300u16 == 0x300u16) by (bit_vector);
    let ghost header = route_header(AF_INET, 0, 254, 0, 0, 0);
    let d = Draft::new(m, getroute_dump(0, AF_INET, 254), Ghost(header)).route_oif(m, ifindex);
    assert(d.view@.attrs =~= seq![word_attr(m.layout(), 4, ifindex)]);
    d.request
}

/// A request to take away a route.
pub open spec fn gone_route(
    order: Order,
    dst: IpAddr,
    len: u8,
    scope: u8,
    kind: u8,
    table: u32,
) -> RequestView {
    RequestView {
        kind: 25,
        flags: 0,
        header: route_header(AF_INET, len, 0, 0, scope, kind),
        attrs: seq![ip_attr(1, dst), word_attr(order, 15, table)],
    }
}

/// `ip route del <dst>/<len> table <table>`, whatever kind of route it is.
pub fn route_gone(m: &Machine, dst: IpAddr, len: u8, table: u32) -> (r: Request)
    ensures
        r.says(m.layout(), gone_route(m.layout(), dst, len, SCOPE_NOWHERE, 0, table)),
{
    let ghost header = route_header(AF_INET, len, 0, 0, SCOPE_NOWHERE, 0);
    let d = Draft::new(m, delroute(AF_INET, len, SCOPE_NOWHERE, 0), Ghost(header)).route_dst(
        m,
        dst,
    ).route_table(m, table);
    assert(d.view@.attrs =~= seq![ip_attr(1, dst), word_attr(m.layout(), 15, table)]);
    d.request
}

/// `ip route del <host> table <table>`
pub fn host_gone(m: &Machine, dst: u32, table: u32) -> (r: Request)
    ensures
        r.says(m.layout(), gone_route(m.layout(), IpAddr::V4(dst), 32, 0, UNICAST, table)),
{
    let ghost header = route_header(AF_INET, 32, 0, 0, 0, UNICAST);
    let d = Draft::new(m, delroute(AF_INET, 32, 0, UNICAST), Ghost(header)).route_dst(
        m,
        IpAddr::V4(dst),
    ).route_table(m, table);
    assert(d.view@.attrs =~= seq![ip_attr(1, IpAddr::V4(dst)), word_attr(m.layout(), 15, table)]);
    d.request
}

/// `ip route get <host>`
pub fn route_to(m: &Machine, dst: u32) -> (r: Request)
    ensures
        r.says(
            m.layout(),
            RequestView {
                kind: 26,
                flags: 0,
                header: route_header(AF_INET, 32, 0, 0, 0, 0),
                attrs: seq![ip_attr(1, IpAddr::V4(dst))],
            },
        ),
{
    let ghost header = route_header(AF_INET, 32, 0, 0, 0, 0);
    let d = Draft::new(m, getroute(AF_INET, 32), Ghost(header)).route_dst(m, IpAddr::V4(dst));
    assert(d.view@.attrs =~= seq![ip_attr(1, IpAddr::V4(dst))]);
    d.request
}

/// A request for a device.
pub open spec fn link_view(
    order: Order,
    family: u8,
    index: u32,
    attrs: Seq<(u16, Seq<u8>)>,
) -> RequestView {
    RequestView { kind: 18, flags: 0, header: link_header(order, family, index), attrs }
}

/// The device of a number.
pub fn link_by_index(m: &Machine, index: u32) -> (r: Request)
    ensures
        r.says(m.layout(), link_view(m.layout(), 0, index, seq![])),
{
    let ghost header = link_header(m.layout(), 0, index);
    let d = Draft::new(m, getlink(m, 0, index), Ghost(header));
    d.request
}

/// The device of a name.
pub fn link_by_name(m: &Machine, family: u8, name: &str) -> (r: Request)
    requires
        encode_utf8(name@).len() <= 65530,
    ensures
        r.says(m.layout(), link_view(m.layout(), family, 0, seq![(3u16, encode_utf8(name@).push(0))])),
{
    let bytes = name.as_bytes_vec();
    let ghost header = link_header(m.layout(), family, 0);
    let d = Draft::new(m, getlink(m, family, 0), Ghost(header)).link_ifname(m, &bytes);
    assert(d.view@.attrs =~= seq![(3u16, encode_utf8(name@).push(0))]);
    d.request
}

/// `ip address show`, the addresses of IPv4.
pub fn addresses(m: &Machine) -> (r: Request)
    ensures
        r.says(
            m.layout(),
            RequestView {
                kind: 22,
                flags: 0x300,
                header: addr_header(2, 253),
                attrs: seq![],
            },
        ),
{
    let ghost header = addr_header(AF_INET, SCOPE_LINK);
    let d = Draft::new(m, getaddr_dump(AF_INET, SCOPE_LINK), Ghost(header));
    d.request
}

} // verus!
