//! Where the rules and routes that are asked of the kernel lead.

use crate::addr::dotted;
use crate::attrs::behind;
use crate::bytes::{word_at, word_bytes, Order};
use crate::config::address_reads_back;
use crate::dns::{gone_request, record_request, Ways};
use crate::kinds::{Direction, Kind, Method};
use crate::matching::MatchView;
use crate::netlink::{
    addrs_of, blocker, clear_steps, first_gateway, from_steps, gateway_in, heard, ipv4_network,
    link_is_up, link_number, redirects, reload_steps, routes_of, steps_before, target, target_steps, ClearView, StepView,
};
use crate::route::{IpAddr, RouteView};
use crate::rtnl::{addr_said, ip_bytes, route_said, text_under};
use crate::rules::{
    from_rule, gone_route, mark_rule, out_route, routes_view, static_rule, to_rule,
    unreachable_rule, RequestView,
};
use crate::state::StateView;
use vstd::prelude::*;
use vstd::utf8::encode_utf8;

verus! {

/// Whether attributes hold one value of a kind, or none of that kind.
pub open spec fn has_attr(attrs: Seq<(u16, Seq<u8>)>, kind: u16, value: Option<Seq<u8>>) -> bool {
    &&& value matches Some(v) ==> attrs.contains((kind, v))
    &&& forall|i: int|
        0 <= i < attrs.len() && (#[trigger] attrs[i]).0 == kind ==> value == Some(attrs[i].1)
}

/// Whether a request asks for a rule that has what goes to a network look up a
/// table first.
pub open spec fn leads_network(
    order: Order,
    step: StepView,
    addr: u32,
    len: u8,
    table: u32,
    mark: u32,
) -> bool {
    step matches StepView::Ask(q) && {
        &&& q.kind == 32
        &&& q.flags == 0x400
        &&& q.header == seq![2u8, len, 0, 0, 0, 0, 0, 1, 0, 0, 0, 0]
        &&& has_attr(q.attrs, 1, Some(word_bytes(Order::Big, addr)))
        &&& has_attr(q.attrs, 2, None)
        &&& has_attr(q.attrs, 15, Some(word_bytes(order, table)))
        &&& has_attr(q.attrs, 6, Some(word_bytes(order, 0)))
        &&& has_attr(q.attrs, 10, Some(word_bytes(order, mark)))
        &&& has_attr(q.attrs, 16, Some(word_bytes(order, 0)))
        &&& q.attrs.len() == 5
    }
}

/// Whether a match denotes a network.
pub open spec fn denotes(m: MatchView, addr: u32, len: u8) -> bool {
    m.kind == Kind::ipv4 && (m.method == Method::full && m.pattern == dotted(addr) && len == 32
        || m.method == Method::subnet && ipv4_network(m.pattern) == Some((addr, len)))
}

/// A request for a rule to a network is such a rule.
proof fn to_rule_leads(order: Order, dst: u32, len: u8, table: u32, mark: u32)
    ensures
        leads_network(
            order,
            StepView::Ask(to_rule(order, dst, len, table, mark)),
            dst,
            len,
            table,
            mark,
        ),
{
    let q = to_rule(order, dst, len, table, mark);
    let a = q.attrs;
    assert(a[0] == (15u16, word_bytes(order, table)));
    assert(a[1] == (1u16, word_bytes(Order::Big, dst)));
    assert(a[2] == (6u16, word_bytes(order, 0)));
    assert(a[3] == (10u16, word_bytes(order, mark)));
    assert(a[4] == (16u16, word_bytes(order, 0)));
    assert(q.header =~= seq![2u8, len, 0, 0, 0, 0, 0, 1, 0, 0, 0, 0]);
}

/// A match that denotes a network has a rule, behind the rules of the matches
/// before it.
proof fn target_has_rule(
    order: Order,
    ms: Seq<MatchView>,
    mark: u32,
    k: int,
    addr: u32,
    len: u8,
)
    requires
        0 <= k < ms.len(),
        denotes(ms[k], addr, len),
    ensures
        target_steps(order, ms.take(k), mark).len() < target_steps(order, ms, mark).len(),
        target_steps(order, ms.take(k + 1), mark).len() == target_steps(
            order,
            ms.take(k),
            mark,
        ).len() + 1,
        leads_network(
            order,
            target_steps(order, ms, mark)[target_steps(order, ms.take(k), mark).len() as int],
            addr,
            len,
            if ms[k].direction == Direction::bypass {
                254
            } else {
                mark
            },
            mark,
        ),
    decreases ms.len(),
{
    address_reads_back(addr);
    if k == ms.len() - 1 {
        assert(ms.take(k) =~= ms.drop_last());
        assert(ms.take(k + 1) =~= ms);
        to_rule_leads(
            order,
            addr,
            len,
            if ms[k].direction == Direction::bypass {
                254
            } else {
                mark
            },
            mark,
        );
    } else {
        target_has_rule(order, ms.drop_last(), mark, k, addr, len);
        assert(ms.drop_last().take(k) =~= ms.take(k));
        assert(ms.drop_last().take(k + 1) =~= ms.take(k + 1));
    }
}

/// Fewer matches have no more rules.
proof fn targets_grow(order: Order, ms: Seq<MatchView>, mark: u32, k: int, l: int)
    requires
        0 <= k <= l <= ms.len(),
    ensures
        target_steps(order, ms.take(k), mark).len() <= target_steps(order, ms.take(l), mark).len(),
    decreases l - k,
{
    if k < l {
        targets_grow(order, ms, mark, k, l - 1);
        assert(ms.take(l).drop_last() =~= ms.take(l - 1));
    }
}

/// Where the rules of the matches stand in a reload.
proof fn targets_in_reload(order: Order, s: StateView, to: Option<RouteView>, mark: u32)
    requires
        to matches Some(r) && r.is_up && s.enable,
    ensures
        ({
            let steps = reload_steps(order, s, to, mark);
            let n = to->0.addrs.len() as int;
            let targets = target_steps(order, s.matches.matches, mark);
            &&& steps.len() == n + 1 + targets.len() + 2 + if s.config.spoof_dns {
                1int
            } else {
                0
            }
            &&& forall|i: int| 0 <= i < n ==> #[trigger] steps[i] == StepView::Ask(
                from_rule(order, to->0.addrs[i], mark),
            )
            &&& steps[n] == StepView::Ask(mark_rule(order, mark))
            &&& forall|i: int|
                0 <= i < targets.len() ==> steps[n + 1 + i] == #[trigger] targets[i]
            &&& steps[n + 1 + targets.len()] == StepView::Ask(
                out_route(order, None, mark, to->0),
            )
        }),
{
    let from = from_steps(order, to->0.addrs, mark);
    let steps = reload_steps(order, s, to, mark);
    let targets = target_steps(order, s.matches.matches, mark);
    assert(from.len() == to->0.addrs.len());
    assert forall|i: int| 0 <= i < from.len() implies #[trigger] steps[i] == StepView::Ask(
        from_rule(order, to->0.addrs[i], mark),
    ) by {
        assert(steps[i] == from[i]);
    }
}

/// Where traffic is redirected, each match that denotes a network, whatever its
/// prefix length, has a rule to that network: it looks up the main table where the
/// match bypasses, and the table of the mark where the match redirects. The rules
/// come in the order of the matches.
pub proof fn networks_are_led(
    order: Order,
    s: StateView,
    to: Option<RouteView>,
    mark: u32,
    k: int,
    addr: u32,
    len: u8,
) -> (i: int)
    requires
        to matches Some(r) && r.is_up && s.enable,
        0 <= k < s.matches.matches.len(),
        denotes(s.matches.matches[k], addr, len),
    ensures
        0 <= i < reload_steps(order, s, to, mark).len(),
        s.matches.matches[k].direction == Direction::bypass ==> leads_network(
            order,
            reload_steps(order, s, to, mark)[i],
            addr,
            len,
            254,
            mark,
        ),
        s.matches.matches[k].direction == Direction::redirect ==> leads_network(
            order,
            reload_steps(order, s, to, mark)[i],
            addr,
            len,
            mark,
            mark,
        ),
{
    let ms = s.matches.matches;
    targets_in_reload(order, s, to, mark);
    target_has_rule(order, ms, mark, k, addr, len);
    let j = target_steps(order, ms.take(k), mark).len() as int;
    let targets = target_steps(order, ms, mark);
    assert(targets[j] == reload_steps(order, s, to, mark)[to->0.addrs.len() + 1 + j]);
    to->0.addrs.len() + 1 + j
}

/// Of two matches that denote networks, the earlier one has the earlier rule.
pub proof fn networks_keep_order(
    order: Order,
    s: StateView,
    to: Option<RouteView>,
    mark: u32,
    k: int,
    l: int,
    first: (u32, u8),
    second: (u32, u8),
) -> (r: (int, int))
    requires
        to matches Some(r) && r.is_up && s.enable,
        0 <= k < l < s.matches.matches.len(),
        denotes(s.matches.matches[k], first.0, first.1),
        denotes(s.matches.matches[l], second.0, second.1),
    ensures
        0 <= r.0 < r.1 < reload_steps(order, s, to, mark).len(),
        leads_network(
            order,
            reload_steps(order, s, to, mark)[r.0],
            first.0,
            first.1,
            if s.matches.matches[k].direction == Direction::bypass {
                254
            } else {
                mark
            },
            mark,
        ),
        leads_network(
            order,
            reload_steps(order, s, to, mark)[r.1],
            second.0,
            second.1,
            if s.matches.matches[l].direction == Direction::bypass {
                254
            } else {
                mark
            },
            mark,
        ),
{
    let ms = s.matches.matches;
    targets_in_reload(order, s, to, mark);
    target_has_rule(order, ms, mark, k, first.0, first.1);
    target_has_rule(order, ms, mark, l, second.0, second.1);
    targets_grow(order, ms, mark, k + 1, l);
    let i = target_steps(order, ms.take(k), mark).len() as int;
    let j = target_steps(order, ms.take(l), mark).len() as int;
    let targets = target_steps(order, ms, mark);
    let n = to->0.addrs.len() + 1;
    assert(targets[i] == reload_steps(order, s, to, mark)[n + i]);
    assert(targets[j] == reload_steps(order, s, to, mark)[n + j]);
    (n + i, n + j)
}

/// The rule of a match is that of a network that it denotes.
proof fn rule_has_target(order: Order, ms: Seq<MatchView>, mark: u32, i: int) -> (r: (
    int,
    u32,
    u8,
))
    requires
        0 <= i < target_steps(order, ms, mark).len(),
    ensures
        0 <= r.0 < ms.len(),
        denotes(ms[r.0], r.1, r.2),
        leads_network(
            order,
            target_steps(order, ms, mark)[i],
            r.1,
            r.2,
            if ms[r.0].direction == Direction::bypass {
                254
            } else {
                mark
            },
            mark,
        ),
    decreases ms.len(),
{
    let before = target_steps(order, ms.drop_last(), mark);
    if i < before.len() {
        rule_has_target(order, ms.drop_last(), mark, i)
    } else {
        let m = ms.last();
        let t = target(m)->0;
        let table = if m.direction == Direction::bypass {
            254
        } else {
            mark
        };
        to_rule_leads(order, t.0, t.1, table, mark);
        (ms.len() - 1, t.0, t.1)
    }
}

/// Every rule to a network that a reload asks for is that of a match that denotes
/// the network.
pub proof fn only_networks_are_led(
    order: Order,
    s: StateView,
    to: Option<RouteView>,
    mark: u32,
    i: int,
    dst: Seq<u8>,
) -> (r: (int, u32, u8))
    requires
        0 <= i < reload_steps(order, s, to, mark).len(),
        reload_steps(order, s, to, mark)[i] matches StepView::Ask(q) && q.kind == 32
            && q.attrs.contains((1, dst)),
    ensures
        to matches Some(r) && r.is_up && s.enable,
        0 <= r.0 < s.matches.matches.len(),
        denotes(s.matches.matches[r.0], r.1, r.2),
        dst == word_bytes(Order::Big, r.1),
        leads_network(
            order,
            reload_steps(order, s, to, mark)[i],
            r.1,
            r.2,
            if s.matches.matches[r.0].direction == Direction::bypass {
                254
            } else {
                mark
            },
            mark,
        ),
{
    let steps = reload_steps(order, s, to, mark);
    let q = steps[i]->Ask_0;
    let at = choose|j: int| 0 <= j < q.attrs.len() && q.attrs[j] == (1u16, dst);
    assert(q.attrs[at].0 == 1);
    if redirects(s, to) {
        targets_in_reload(order, s, to, mark);
        let n = to->0.addrs.len() + 1;
        let targets = target_steps(order, s.matches.matches, mark);
        if n <= i < n + targets.len() {
            assert(targets[i - n] == steps[i]);
            rule_has_target(order, s.matches.matches, mark, i - n)
        } else {
            assert(false) by {
                if i < n - 1 {
                    assert(steps[i] == StepView::Ask(from_rule(order, to->0.addrs[i], mark)));
                } else if i >= n {
                    assert(i == n + targets.len() + 1);
                    assert(steps[i] == StepView::Ask(unreachable_rule(order, mark, true)));
                }
            }
            (0, 0, 0)
        }
    } else {
        assert(false);
        (0, 0, 0)
    }
}

/// Whether a request asks for a route through a device: by the device, with the
/// first of its addresses as source, and over its gateway, as far as there are any.
pub open spec fn leads_out(
    order: Order,
    q: RequestView,
    dst: Option<u32>,
    table: u32,
    way: RouteView,
) -> bool {
    &&& q.kind == 24
    &&& q.flags == 0x600
    &&& q.header == seq![
        2u8,
        if dst is Some {
            32
        } else {
            0
        },
        0,
        0,
        0,
        3,
        0,
        1,
        0,
        0,
        0,
        0,
    ]
    &&& has_attr(
        q.attrs,
        1,
        match dst {
            Some(a) => Some(word_bytes(Order::Big, a)),
            None => None,
        },
    )
    &&& has_attr(q.attrs, 15, Some(word_bytes(order, table)))
    &&& has_attr(q.attrs, 4, Some(word_bytes(order, way.ifindex)))
    &&& has_attr(
        q.attrs,
        7,
        if way.addrs.len() > 0 {
            Some(ip_bytes(way.addrs[0]))
        } else {
            None
        },
    )
    &&& has_attr(
        q.attrs,
        5,
        match way.gateway {
            Some(g) => Some(ip_bytes(g)),
            None => None,
        },
    )
}

/// A route out of a device is such a route.
proof fn out_route_leads(order: Order, dst: Option<u32>, table: u32, way: RouteView)
    ensures
        leads_out(order, out_route(order, dst, table, way), dst, table, way),
{
    let q = out_route(order, dst, table, way);
    let a = q.attrs;
    let n = if dst is Some {
        1int
    } else {
        0
    };
    let k = n + 2 + if way.addrs.len() > 0 {
        1int
    } else {
        0
    };
    if dst is Some {
        assert(a[0] == (1u16, word_bytes(Order::Big, dst->0)));
    }
    assert(a[n] == (15u16, word_bytes(order, table)));
    assert(a[n + 1] == (4u16, word_bytes(order, way.ifindex)));
    if way.addrs.len() > 0 {
        assert(a[n + 2] == (7u16, ip_bytes(way.addrs[0])));
    }
    if way.gateway is Some {
        assert(a[k] == (5u16, ip_bytes(way.gateway->0)));
    }
    assert(q.header =~= seq![
        2u8,
        if dst is Some {
            32
        } else {
            0
        },
        0,
        0,
        0,
        3,
        0,
        1,
        0,
        0,
        0,
        0,
    ]);
}

/// The address of a record is reached through the device, by the source and over
/// the gateway of its way: the default route for what bypasses, the output for what
/// is redirected. Where that way is not known no route is asked for, and the other
/// way never matters.
pub proof fn records_take_their_way(
    order: Order,
    dest: u32,
    way: Option<RouteView>,
    other: Option<RouteView>,
    table: u32,
)
    ensures
        match way {
            Some(w) => {
                &&& record_request(order, dest, Direction::bypass, other, way, table) matches Some(q)
                    && leads_out(order, q, Some(dest), table, w)
                &&& record_request(order, dest, Direction::redirect, way, other, table) matches Some(
                    q,
                ) && leads_out(order, q, Some(dest), table, w)
            },
            None => {
                &&& record_request(order, dest, Direction::bypass, other, way, table) is None
                &&& record_request(order, dest, Direction::redirect, way, other, table) is None
            },
        },
        forall|x: Option<RouteView>|
            #[trigger] record_request(order, dest, Direction::bypass, x, way, table)
                == record_request(order, dest, Direction::bypass, other, way, table),
        forall|x: Option<RouteView>|
            #[trigger] record_request(order, dest, Direction::redirect, way, x, table)
                == record_request(order, dest, Direction::redirect, way, other, table),
{
    if way is Some {
        out_route_leads(order, Some(dest), table, way->0);
    }
}

/// Whether a way is known for a direction: the output for what is redirected, the
/// default route for what bypasses.
pub open spec fn way_is_known(ways: Ways, dir: Direction) -> bool {
    if dir == Direction::bypass {
        ways.default is Some
    } else {
        ways.to is Some
    }
}

/// Each new address whose way is known has its route asked for, through the device
/// of the output where it is redirected and of the default route where it bypasses.
pub proof fn new_addresses_are_led(order: Order, ways: Ways, news: Seq<(u32, Direction)>, k: int)
    requires
        0 <= k < news.len(),
    ensures
        news[k].1 == Direction::bypass && ways.default is Some ==> exists|i: int|
            0 <= i < ways.requests(order, news).len() && leads_out(
                order,
                #[trigger] ways.requests(order, news)[i],
                Some(news[k].0),
                ways.table,
                ways.default->0@,
            ),
        news[k].1 == Direction::redirect && ways.to is Some ==> exists|i: int|
            0 <= i < ways.requests(order, news).len() && leads_out(
                order,
                #[trigger] ways.requests(order, news)[i],
                Some(news[k].0),
                ways.table,
                ways.to->0@,
            ),
        ways.requests(order, news).len() == news.filter(
            |n: (u32, Direction)| way_is_known(ways, n.1),
        ).len(),
    decreases news.len(),
{
    let known = |n: (u32, Direction)| way_is_known(ways, n.1);
    let before = news.drop_last();
    let qs = ways.requests(order, before);
    let all = ways.requests(order, news);
    assert(news.filter(known) == if known(news.last()) {
        before.filter(known).push(news.last())
    } else {
        before.filter(known)
    }) by {
        reveal(Seq::filter);
    }
    if before.len() == 0 {
        assert(before.filter(known).len() == 0) by {
            reveal(Seq::filter);
        }
    } else {
        new_addresses_are_led(order, ways, before, 0);
    }
    if k < before.len() {
        new_addresses_are_led(order, ways, before, k);
        assert(forall|i: int| 0 <= i < qs.len() ==> all[i] == qs[i]);
    } else {
        if ways.default is Some {
            out_route_leads(order, Some(news[k].0), ways.table, ways.default->0@);
        }
        if ways.to is Some {
            out_route_leads(order, Some(news[k].0), ways.table, ways.to->0@);
        }
        if way_is_known(ways, news[k].1) {
            assert(all.len() == qs.len() + 1);
            assert(all[qs.len() as int] == all.last());
        }
    }
}

/// Whether a request asks for a rule with given attributes.
pub open spec fn rules(
    order: Order,
    step: StepView,
    action: u8,
    src: Option<Seq<u8>>,
    mark: Option<u32>,
    table: u32,
    first: bool,
) -> bool {
    step matches StepView::Ask(q) && {
        &&& q.kind == 32
        &&& q.flags == 0x600
        &&& q.header == seq![
            2u8,
            0,
            if src is Some {
                32
            } else {
                0
            },
            0,
            0,
            0,
            0,
            action,
            0,
            0,
            0,
            0,
        ]
        &&& has_attr(q.attrs, 1, None)
        &&& has_attr(q.attrs, 2, src)
        &&& has_attr(
            q.attrs,
            10,
            match mark {
                Some(m) => Some(word_bytes(order, m)),
                None => None,
            },
        )
        &&& has_attr(q.attrs, 16, None)
        &&& has_attr(q.attrs, 15, Some(word_bytes(order, table)))
        &&& has_attr(
            q.attrs,
            6,
            if first {
                Some(word_bytes(order, 0))
            } else {
                None
            },
        )
    }
}

/// A rule for unreachable traffic is such a rule.
proof fn unreachable_rules(order: Order, mark: u32, first: bool)
    ensures
        rules(
            order,
            StepView::Ask(unreachable_rule(order, mark, first)),
            7,
            None,
            Some(mark),
            mark,
            first,
        ),
{
    let q = unreachable_rule(order, mark, first);
    let a = q.attrs;
    assert(a[0] == (10u16, word_bytes(order, mark)));
    assert(a[1] == (15u16, word_bytes(order, mark)));
    if first {
        assert(a[2] == (6u16, word_bytes(order, 0)));
    }
    assert(q.header =~= seq![2u8, 0, 0, 0, 0, 0, 0, 7, 0, 0, 0, 0]);
}

/// Where the output is known and up and redirecting is switched on, a reload asks
/// for a rule for each address of the output, and one for the mark: they look up
/// the table of the mark first. That table leads out through the output. With access
/// to the local network the local routes are copied into it, else nothing of the mark
/// goes elsewhere; names are looked up at the given server where that is wanted.
pub proof fn reload_leads_out(order: Order, s: StateView, to: Option<RouteView>, mark: u32)
    requires
        to matches Some(r) && r.is_up && s.enable,
    ensures
        ({
            let steps = reload_steps(order, s, to, mark);
            let n = to->0.addrs.len() as int;
            let end = steps.len() - if s.config.spoof_dns {
                1int
            } else {
                0
            };
            &&& end >= n + 3
            &&& forall|i: int|
                0 <= i < n ==> rules(
                    order,
                    #[trigger] steps[i],
                    1,
                    Some(ip_bytes(to->0.addrs[i])),
                    None,
                    mark,
                    true,
                )
            &&& rules(order, steps[n], 1, None, Some(mark), mark, true)
            &&& steps[end - 2] matches StepView::Ask(q) && leads_out(order, q, None, mark, to->0)
            &&& s.config.allow_lan ==> steps[end - 1] == StepView::CloneRoutes(mark)
            &&& !s.config.allow_lan ==> rules(order, steps[end - 1], 7, None, Some(mark), mark, true)
            &&& s.config.spoof_dns ==> steps[end] == (StepView::SpoofDns {
                mark,
                addr: s.config.spoof_dns_ipv4,
                port: 53,
            })
        }),
        blocker(s, to) == Seq::<char>::empty(),
{
    reveal_strlit("");
    targets_in_reload(order, s, to, mark);
    let steps = reload_steps(order, s, to, mark);
    let way = to->0;
    assert forall|i: int| 0 <= i < way.addrs.len() implies rules(
        order,
        #[trigger] steps[i],
        1,
        Some(ip_bytes(way.addrs[i])),
        None,
        mark,
        true,
    ) by {
        let q = from_rule(order, way.addrs[i], mark);
        assert(q.attrs[0] == (2u16, ip_bytes(way.addrs[i])));
        assert(q.attrs[1] == (15u16, word_bytes(order, mark)));
        assert(q.attrs[2] == (6u16, word_bytes(order, 0)));
        assert(q.header =~= seq![2u8, 0, 32, 0, 0, 0, 0, 1, 0, 0, 0, 0]);
        assert(steps[i] == StepView::Ask(q));
    }
    let q = mark_rule(order, mark);
    assert(q.attrs[0] == (10u16, word_bytes(order, mark)));
    assert(q.attrs[1] == (15u16, word_bytes(order, mark)));
    assert(q.attrs[2] == (6u16, word_bytes(order, 0)));
    assert(q.header =~= seq![2u8, 0, 0, 0, 0, 0, 0, 1, 0, 0, 0, 0]);
    out_route_leads(order, None, mark, way);
    unreachable_rules(order, mark, true);
    assert(blocker(s, to) =~= Seq::<char>::empty());
}

/// Where nothing is redirected, all that a reload may ask for is that what carries
/// the mark goes nowhere: where the output is not found, or is down though
/// redirecting is switched on, and such traffic is to be dropped. It is told why.
pub proof fn reload_without_output(order: Order, s: StateView, to: Option<RouteView>, mark: u32)
    requires
        to matches Some(r) ==> !r.is_up || !s.enable,
    ensures
        ({
            let steps = reload_steps(order, s, to, mark);
            let missing = to is None;
            let down = to is Some && s.enable;
            let drops = s.config.drop_egress_without_output;
            &&& (missing || down) && drops ==> steps.len() == 1 && rules(
                order,
                steps[0],
                7,
                None,
                Some(mark),
                mark,
                false,
            )
            &&& !((missing || down) && drops) ==> steps.len() == 0
            &&& missing && !drops ==> blocker(s, to) == "Output interface not found"@
            &&& down && !drops ==> blocker(s, to) == "Output interface is down"@
            &&& missing && drops ==> blocker(s, to) == "Output interface not found (dropping traffic)"@
            &&& down && drops ==> blocker(s, to) == "Output interface is down (dropping traffic)"@
            &&& !missing && !down ==> blocker(s, to) == ""@
        }),
{
    reveal_strlit("");
    reveal_strlit(" (dropping traffic)");
    reveal_strlit("Output interface not found");
    reveal_strlit("Output interface is down");
    reveal_strlit("Output interface not found (dropping traffic)");
    reveal_strlit("Output interface is down (dropping traffic)");
    assert("Output interface not found"@ != ""@) by {
        assert("Output interface not found"@.len() != ""@.len());
    }
    assert("Output interface is down"@ != ""@) by {
        assert("Output interface is down"@.len() != ""@.len());
    }
    assert("Output interface not found"@ + " (dropping traffic)"@
        =~= "Output interface not found (dropping traffic)"@);
    assert("Output interface is down"@ + " (dropping traffic)"@
        =~= "Output interface is down (dropping traffic)"@);
    unreachable_rules(order, mark, false);
}

/// Redirecting takes place where the output is known and up and it is switched on,
/// and nowhere else.
pub proof fn redirecting_needs_output(s: StateView, to: Option<RouteView>)
    ensures
        redirects(s, to) <==> s.enable && to is Some && to->0.is_up,
{
}

/// What is taken away under a mark is what belongs to it: its table, the rules that
/// look up that table or carry the mark, and what sends marked requests elsewhere.
pub proof fn clearing_keeps_to_mark(order: Order, mark: u32, i: int)
    requires
        0 <= i < clear_steps(order, mark).len(),
    ensures
        match clear_steps(order, mark)[i] {
            ClearView::Table(t) => t == mark,
            ClearView::Repeat(q) => q.kind == 33 && (has_attr(
                q.attrs,
                15,
                Some(word_bytes(order, mark)),
            ) || has_attr(q.attrs, 10, Some(word_bytes(order, mark)))),
            ClearView::Spoofing(m) => m == mark,
        },
{
    if let ClearView::Repeat(q) = clear_steps(order, mark)[i] {
        if i == 1 {
            assert(q.attrs[0] == (15u16, word_bytes(order, mark)));
        } else {
            assert(q.attrs[0] == (10u16, word_bytes(order, mark)));
            assert(q.attrs[1] == (16u16, word_bytes(order, 0)));
        }
    }
}

/// Emptying a table takes away each of its routes that was told, and no other: there
/// are as many of them as replies about the table, in their order.
pub proof fn routes_of_table_go(order: Order, replies: Seq<Vec<u8>>, table: u32, i: int)
    requires
        0 <= i < replies.len(),
    ensures
        route_said(order, replies[i]@).table == Some(table) ==> routes_of(
            order,
            replies,
            table,
        ).contains(
            (
                if route_said(order, replies[i]@).dst is Some {
                    route_said(order, replies[i]@).dst->0
                } else {
                    IpAddr::V4(0)
                },
                route_said(order, replies[i]@).dst_len,
            ),
        ),
        routes_of(order, replies, table).len() == replies.filter(
            |b: Vec<u8>| route_said(order, b@).table == Some(table),
        ).len(),
    decreases replies.len(),
{
    let before = replies.drop_last();
    let all = routes_of(order, replies, table);
    let front = routes_of(order, before, table);
    let said = route_said(order, replies[i]@);
    let x = (
        if said.dst is Some {
            said.dst->0
        } else {
            IpAddr::V4(0)
        },
        said.dst_len,
    );
    table_routes_counted(order, replies, table);
    if i < before.len() {
        routes_of_table_go(order, before, table, i);
        if said.table == Some(table) {
            let k = choose|k: int| 0 <= k < front.len() && front[k] == x;
            assert(all[k] == x);
        }
    } else if said.table == Some(table) {
        assert(all[all.len() - 1] == x);
    }
}

/// How many routes a table has.
proof fn table_routes_counted(order: Order, replies: Seq<Vec<u8>>, table: u32)
    ensures
        routes_of(order, replies, table).len() == replies.filter(
            |b: Vec<u8>| route_said(order, b@).table == Some(table),
        ).len(),
    decreases replies.len(),
{
    reveal(Seq::filter);
    if replies.len() > 0 {
        table_routes_counted(order, replies.drop_last(), table);
    }
}

/// The addresses of a device are the local ones of the replies about its number, one
/// for each such reply, in their order.
pub proof fn addresses_of_device(order: Order, replies: Seq<Vec<u8>>, ifindex: u32, i: int)
    requires
        0 <= i < addrs_of(order, replies, ifindex).len(),
    ensures
        exists|k: int|
            0 <= k < replies.len() && addr_said(order, (#[trigger] replies[k])@).index == ifindex
                && addr_said(order, replies[k]@).local == Some(
                addrs_of(order, replies, ifindex)[i],
            ),
        addrs_of(order, replies, ifindex).len() == replies.filter(
            |b: Vec<u8>|
                addr_said(order, b@).index == ifindex && addr_said(order, b@).local is Some,
        ).len(),
    decreases replies.len(),
{
    let before = replies.drop_last();
    let front = addrs_of(order, before, ifindex);
    device_addresses_counted(order, replies, ifindex);
    if i < front.len() {
        addresses_of_device(order, before, ifindex, i);
        let k = choose|k: int|
            0 <= k < before.len() && addr_said(order, (#[trigger] before[k])@).index == ifindex
                && addr_said(order, before[k]@).local == Some(front[i]);
        assert(replies[k] == before[k]);
    } else {
        let k = replies.len() - 1;
        assert(replies[k] == replies.last());
    }
}

/// How many addresses a device has.
proof fn device_addresses_counted(order: Order, replies: Seq<Vec<u8>>, ifindex: u32)
    ensures
        addrs_of(order, replies, ifindex).len() == replies.filter(
            |b: Vec<u8>|
                addr_said(order, b@).index == ifindex && addr_said(order, b@).local is Some,
        ).len(),
    decreases replies.len(),
{
    reveal(Seq::filter);
    if replies.len() > 0 {
        device_addresses_counted(order, replies.drop_last(), ifindex);
    }
}

/// The first address of a device is that of the first reply about it.
pub proof fn first_address_comes_first(order: Order, replies: Seq<Vec<u8>>, ifindex: u32, k: int)
    requires
        0 <= k < replies.len(),
        addr_said(order, replies[k]@).index == ifindex,
        addr_said(order, replies[k]@).local is Some,
        forall|j: int|
            0 <= j < k ==> addr_said(order, (#[trigger] replies[j])@).index != ifindex || addr_said(
                order,
                replies[j]@,
            ).local is None,
    ensures
        addrs_of(order, replies, ifindex).len() > 0,
        addrs_of(order, replies, ifindex)[0] == addr_said(order, replies[k]@).local->0,
    decreases replies.len(),
{
    let before = replies.drop_last();
    if k < before.len() {
        first_address_comes_first(order, before, ifindex, k);
    } else {
        no_address_yet(order, before, ifindex);
    }
}

/// Without a reply about a device there is no address of it.
proof fn no_address_yet(order: Order, replies: Seq<Vec<u8>>, ifindex: u32)
    requires
        forall|j: int|
            0 <= j < replies.len() ==> addr_said(order, (#[trigger] replies[j])@).index != ifindex
                || addr_said(order, replies[j]@).local is None,
    ensures
        addrs_of(order, replies, ifindex).len() == 0,
    decreases replies.len(),
{
    if replies.len() > 0 {
        assert(replies[replies.len() - 1] == replies.last());
        no_address_yet(order, replies.drop_last(), ifindex);
    }
}

/// The gateway of a device is that of the first route of the main table that leads
/// through the device over a gateway.
pub proof fn gateway_is_first(order: Order, replies: Seq<Vec<u8>>, ifindex: u32)
    ensures
        match first_gateway(order, replies, ifindex) {
            Some(g) => exists|k: int|
                {
                    &&& 0 <= k < replies.len()
                    &&& route_said(order, (#[trigger] replies[k])@).table == Some(254u32)
                    &&& route_said(order, replies[k]@).oif == Some(ifindex)
                    &&& route_said(order, replies[k]@).gateway == Some(g)
                    &&& forall|j: int|
                        0 <= j < k ==> route_said(order, (#[trigger] replies[j])@).table != Some(
                            254u32,
                        ) || route_said(order, replies[j]@).oif != Some(ifindex) || route_said(
                            order,
                            replies[j]@,
                        ).gateway is None
                },
            None => forall|j: int|
                0 <= j < replies.len() ==> route_said(order, (#[trigger] replies[j])@).table
                    != Some(254u32) || route_said(order, replies[j]@).oif != Some(ifindex)
                    || route_said(order, replies[j]@).gateway is None,
        },
    decreases replies.len(),
{
    if replies.len() > 0 {
        let rest = replies.skip(1);
        assert(forall|j: int| 0 <= j < rest.len() ==> rest[j] == replies[j + 1]);
        assert(forall|j: int| 1 <= j < replies.len() ==> replies[j] == rest[j - 1]);
        gateway_is_first(order, rest, ifindex);
        if gateway_in(order, replies[0]@, ifindex) is None {
            if first_gateway(order, rest, ifindex) is Some {
                let g = first_gateway(order, rest, ifindex)->0;
                let k = choose|k: int|
                    {
                        &&& 0 <= k < rest.len()
                        &&& route_said(order, (#[trigger] rest[k])@).table == Some(254u32)
                        &&& route_said(order, rest[k]@).oif == Some(ifindex)
                        &&& route_said(order, rest[k]@).gateway == Some(g)
                        &&& forall|j: int|
                            0 <= j < k ==> route_said(order, (#[trigger] rest[j])@).table != Some(
                                254u32,
                            ) || route_said(order, rest[j]@).oif != Some(ifindex) || route_said(
                                order,
                                rest[j]@,
                            ).gateway is None
                    };
                assert(replies[k + 1] == rest[k]);
            }
        }
    }
}

/// A notice of a route gives reason to look up the default route where domain names
/// are looked at, and the output where one is known and the route leads through it
/// or local routes are copied; one that names a table gives none. A notice of a
/// device gives reason to look up the output where it is about the device of the
/// number or of either name. No other notice gives any.
pub proof fn notices_are_heeded(
    order: Order,
    kind: u16,
    b: Seq<u8>,
    s: StateView,
    to: Option<RouteView>,
)
    ensures
        ({
            let said = route_said(order, b);
            let h = heard(order, kind, b, s, to);
            let route = kind == 24 || kind == 25 || kind == 26 || kind == 27;
            let link = kind == 16 || kind == 17 || kind == 18 || kind == 19;
            let elsewhere = said.table is Some && said.table->0 != 0;
            &&& h.default_route <==> route && !elsewhere && s.matches.dns_count > 0
            &&& route ==> (h.output <==> !elsewhere && to is Some && (s.config.allow_lan
                || to->0.ifindex == if said.oif is Some {
                said.oif->0
            } else {
                0
            }))
            &&& link ==> {
                let name = text_under(order, behind(b, 16), 3);
                &&& name is Some && name->0 == encode_utf8(s.to_dev) ==> h.output
                &&& to is Some && name is Some && name->0 == encode_utf8(to->0.ifname) ==> h.output
                &&& to is Some && b.len() >= 16 && word_at(order, b, 4) == to->0.ifindex
                    && to->0.ifindex < 0x8000_0000 ==> h.output
                &&& to is None && name is Some && name->0 != encode_utf8(s.to_dev) ==> !h.output
                &&& to is Some && name is Some && name->0 != encode_utf8(s.to_dev) && name->0
                    != encode_utf8(to->0.ifname) && b.len() >= 16 && word_at(order, b, 4)
                    != to->0.ifindex && word_at(order, b, 4) < 0x8000_0000 ==> !h.output
            }
            &&& !route && !link ==> !h.output
        }),
{
}

/// The rule for domain names has all traffic look up their table first.
pub proof fn names_are_looked_up_first(order: Order, table: u32)
    ensures
        ({
            let q = static_rule(order, table);
            &&& q.kind == 32
            &&& q.flags == 0x600
            &&& q.header == seq![2u8, 0, 0, 0, 0, 0, 0, 1, 0, 0, 0, 0]
            &&& has_attr(q.attrs, 15, Some(word_bytes(order, table)))
            &&& has_attr(q.attrs, 6, Some(word_bytes(order, 0)))
            &&& has_attr(q.attrs, 2, Some(word_bytes(Order::Big, 0)))
            &&& has_attr(q.attrs, 1, None)
            &&& has_attr(q.attrs, 10, None)
        }),
{
    let q = static_rule(order, table);
    assert(q.attrs[0] == (6u16, word_bytes(order, 0)));
    assert(q.attrs[1] == (2u16, word_bytes(Order::Big, 0)));
    assert(q.attrs[2] == (15u16, word_bytes(order, table)));
    assert(q.header =~= seq![2u8, 0, 0, 0, 0, 0, 0, 1, 0, 0, 0, 0]);
}

/// A route is taken away by its destination, the length of its prefix and its table,
/// and so is the route to the address of a record: that to the one host.
pub proof fn routes_go_by_destination(
    order: Order,
    dst: IpAddr,
    len: u8,
    scope: u8,
    kind: u8,
    table: u32,
    dest: u32,
)
    ensures
        ({
            let q = gone_route(order, dst, len, scope, kind, table);
            &&& q.kind == 25
            &&& q.header == seq![2u8, len, 0, 0, 0, 0, scope, kind, 0, 0, 0, 0]
            &&& has_attr(q.attrs, 1, Some(ip_bytes(dst)))
            &&& has_attr(q.attrs, 15, Some(word_bytes(order, table)))
            &&& q.attrs.len() == 2
        }),
        ({
            let q = gone_request(order, dest, table);
            &&& q.kind == 25
            &&& q.header == seq![2u8, 32, 0, 0, 0, 0, 0, 1, 0, 0, 0, 0]
            &&& has_attr(q.attrs, 1, Some(word_bytes(Order::Big, dest)))
            &&& has_attr(q.attrs, 15, Some(word_bytes(order, table)))
            &&& q.attrs.len() == 2
        }),
{
    let q = gone_route(order, dst, len, scope, kind, table);
    assert(q.attrs[0] == (1u16, ip_bytes(dst)));
    assert(q.attrs[1] == (15u16, word_bytes(order, table)));
    assert(q.header =~= seq![2u8, len, 0, 0, 0, 0, scope, kind, 0, 0, 0, 0]);
    let g = gone_request(order, dest, table);
    assert(g.attrs[0] == (1u16, word_bytes(Order::Big, dest)));
    assert(g.attrs[1] == (15u16, word_bytes(order, table)));
    assert(g.header =~= seq![2u8, 32, 0, 0, 0, 0, 0, 1, 0, 0, 0, 0]);
}

/// Before the first reload there is nothing to take away; later on it is what the
/// mark before stands for.
pub proof fn held_mark_is_cleared(order: Order, held: Option<u32>)
    ensures
        held is None ==> steps_before(order, held).len() == 0,
        held is Some ==> steps_before(order, held) == clear_steps(order, held->0),
{
}

/// A device is up where the lowest of its flags says so, and has the number that the
/// reply about it gives.
pub proof fn replies_tell_devices(order: Order, link: Seq<u8>)
    requires
        link.len() >= 16,
    ensures
        link_number(order, link) == word_at(order, link, 4),
        link_is_up(order, link) <==> word_at(order, link, 8) % 2 == 1,
{
}

/// All routes of a table are asked for, or those of the main table.
pub proof fn all_routes_are_listed(table: u8, attrs: Seq<(u16, Seq<u8>)>)
    ensures
        ({
            let q = routes_view(table, attrs);
            &&& q.kind == 26
            &&& q.flags == 0x300
            &&& q.header == seq![2u8, 0, 0, 0, table, 0, 0, 0, 0, 0, 0, 0]
            &&& q.attrs == attrs
        }),
{
    assert(routes_view(table, attrs).header =~= seq![2u8, 0, 0, 0, table, 0, 0, 0, 0, 0, 0, 0]);
}

} // verus!
