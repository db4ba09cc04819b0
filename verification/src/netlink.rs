//! What the service asks of the kernel, and what it makes of the replies.

use crate::addr::parse_ipv4;
use crate::attrs::behind;
use crate::bytes::{Machine, Order};
use crate::config::{address_of, address_reads_back};
use crate::error::Error;
use crate::kinds::{Direction, Kind, Method};
use crate::matches::match_views;
use crate::matching::{Match, MatchView};
use crate::route::{IpAddr, Route, RouteView};
use crate::rtnl::{
    addr_reply, addr_said, header_word, link_reply, route_reply, route_said, text_under, Request,
    MAIN_TABLE, SCOPE_NOWHERE,
};
use crate::rules::{
    from_rule, gone_route, mark_rule, out_route, route_gone, route_out, rule_from,
    rule_gone_by_mark, rule_gone_by_table, rule_gone_view, rule_marked, rule_to, rule_unreachable,
    static_rule, to_rule, unreachable_rule, word_attr, RequestView,
};
use crate::state::{State, StateView};
use vstd::prelude::*;
use vstd::string::{StrSliceExecFns, StringExecFns};
use vstd::utf8::{encode_utf8, valid_utf8};

verus! {

/// `rand::random_range`: some number in a range.
#[verifier::external_body]
fn random_between(from: u32, to: u32) -> (r: u32)
    requires
        from < to,
    ensures
        from <= r < to,
{
    rand::random_range(from..to)
}

/// A number for a routing table and a mark that is not one of the small ones
/// that others use.
pub fn rand_table() -> (r: u32)
    ensures
        u16::MAX <= r < u32::MAX,
{
    random_between(u16::MAX as u32, u32::MAX)
}

/// The network that a text denotes: its first address, and the length of its
/// prefix.
pub uninterp spec fn ipv4_network(s: Seq<char>) -> Option<(u32, u8)>;

/// `str::parse` for `ipnet::Ipv4Net`, with `network` and `prefix_len` of what it
/// gives: they depend on the text alone.
#[verifier::external_body]
fn parse_ipv4_network(s: &str) -> (r: Option<(u32, u8)>)
    ensures
        r == ipv4_network(s@),
{
    let net = s.parse::<ipnet::Ipv4Net>().ok();
    net.map(|n| (n.network().to_bits(), n.prefix_len()))
}

/// The network that a match looks at, if it looks at addresses and can be read.
pub open spec fn target(m: MatchView) -> Option<(u32, u8)> {
    if m.kind != Kind::ipv4 {
        None
    } else {
        match m.method {
            Method::full => match address_of(m.pattern) {
                Some(a) => Some((a, 32u8)),
                None => None,
            },
            Method::subnet => ipv4_network(m.pattern),
            _ => None,
        }
    }
}

/// The network that a match looks at, if it looks at addresses and can be read.
pub fn match_target(m: &Match) -> (r: Option<(u32, u8)>)
    ensures
        r == target(m@),
{
    if m.kind != Kind::ipv4 {
        return None;
    }
    match m.method {
        Method::full => match parse_ipv4(m.pattern.as_str()) {
            Some(a) => {
                proof {
                    address_reads_back(a);
                }
                Some((a, 32))
            },
            None => None,
        },
        Method::subnet => parse_ipv4_network(m.pattern.as_str()),
        _ => None,
    }
}

/// One step of setting up the rules.
#[derive(Debug)]
pub enum Step {
    /// Send a request; without success there is no going on.
    Ask(Request),
    /// Copy the local routes into a table, as far as possible.
    CloneRoutes(u32),
    /// Send what carries a mark to a port of an address instead, if possible.
    SpoofDns { mark: u32, addr: u32, port: u16 },
}

/// What a step does.
pub enum StepView {
    Ask(RequestView),
    CloneRoutes(u32),
    SpoofDns { mark: u32, addr: u32, port: u16 },
}

impl Step {
    /// Whether this is what a step is meant to do.
    pub open spec fn does(self, order: Order, v: StepView) -> bool {
        match v {
            StepView::Ask(q) => self matches Step::Ask(r) && r.says(order, q),
            StepView::CloneRoutes(t) => self == Step::CloneRoutes(t),
            StepView::SpoofDns { mark, addr, port } => self == Step::SpoofDns { mark, addr, port },
        }
    }
}

/// Whether steps are those that are meant.
pub open spec fn steps_do(order: Order, steps: Seq<Step>, views: Seq<StepView>) -> bool {
    &&& steps.len() == views.len()
    &&& forall|i: int| 0 <= i < steps.len() ==> (#[trigger] steps[i]).does(order, views[i])
}

/// A rule for each address of a device: what comes from it looks up the table.
pub open spec fn from_steps(order: Order, addrs: Seq<IpAddr>, mark: u32) -> Seq<StepView> {
    addrs.map_values(|a: IpAddr| StepView::Ask(from_rule(order, a, mark)))
}

/// The table that a direction leads to.
pub open spec fn direction_table(d: Direction, mark: u32) -> u32 {
    match d {
        Direction::redirect => mark,
        Direction::bypass => MAIN_TABLE,
    }
}

/// A rule for each match that looks at addresses, in their order.
pub open spec fn target_steps(order: Order, ms: Seq<MatchView>, mark: u32) -> Seq<StepView>
    decreases ms.len(),
{
    if ms.len() == 0 {
        Seq::empty()
    } else {
        let before = target_steps(order, ms.drop_last(), mark);
        match target(ms.last()) {
            Some(t) => before.push(
                StepView::Ask(
                    to_rule(order, t.0, t.1, direction_table(ms.last().direction, mark), mark),
                ),
            ),
            None => before,
        }
    }
}

/// Whether traffic is redirected: the output is known and up, and redirecting is
/// switched on.
pub open spec fn redirects(s: StateView, to: Option<RouteView>) -> bool {
    to matches Some(r) && r.is_up && s.enable
}

/// The steps by which redirecting is set up.
pub open spec fn redirect_steps(
    order: Order,
    s: StateView,
    to: RouteView,
    mark: u32,
) -> Seq<StepView> {
    let lan = if s.config.allow_lan {
        StepView::CloneRoutes(mark)
    } else {
        StepView::Ask(unreachable_rule(order, mark, true))
    };
    let spoof = if s.config.spoof_dns {
        seq![StepView::SpoofDns { mark, addr: s.config.spoof_dns_ipv4, port: 53 }]
    } else {
        seq![]
    };
    from_steps(order, to.addrs, mark).push(StepView::Ask(mark_rule(order, mark))) + target_steps(
        order,
        s.matches.matches,
        mark,
    ).push(StepView::Ask(out_route(order, None, mark, to))).push(lan) + spoof
}

/// Why traffic that should be redirected is not, where that is so.
pub open spec fn block_reason(s: StateView, to: Option<RouteView>) -> Seq<char> {
    match to {
        Some(r) => if s.enable && !r.is_up {
            "Output interface is down"@
        } else {
            ""@
        },
        None => "Output interface not found"@,
    }
}

/// Whether traffic that cannot be redirected is dropped.
pub open spec fn drops(s: StateView, to: Option<RouteView>) -> bool {
    !redirects(s, to) && block_reason(s, to) != ""@ && s.config.drop_egress_without_output
}

/// The steps that a reload consists of.
pub open spec fn reload_steps(
    order: Order,
    s: StateView,
    to: Option<RouteView>,
    mark: u32,
) -> Seq<StepView> {
    if redirects(s, to) {
        redirect_steps(order, s, to->0, mark)
    } else if drops(s, to) {
        seq![StepView::Ask(unreachable_rule(order, mark, false))]
    } else {
        seq![]
    }
}

/// What is told of why nothing is redirected.
pub open spec fn blocker(s: StateView, to: Option<RouteView>) -> Seq<char> {
    if redirects(s, to) {
        ""@
    } else if drops(s, to) {
        block_reason(s, to) + " (dropping traffic)"@
    } else {
        block_reason(s, to)
    }
}

/// What a reload consists of.
#[derive(Debug)]
pub struct Reload {
    pub steps: Vec<Step>,
    pub enable: bool,
    pub blocker: String,
}

/// What the output is, as far as it is known.
pub open spec fn route_view(to: Option<&Route>) -> Option<RouteView> {
    match to {
        Some(r) => Some(r@),
        None => None,
    }
}

/// Rules for the addresses of the output.
fn push_from_steps(m: &Machine, steps: &mut Vec<Step>, addrs: &Vec<IpAddr>, mark: u32, Ghost(
    views,
): Ghost<Seq<StepView>>)
    requires
        steps_do(m.layout(), old(steps)@, views),
    ensures
        steps_do(m.layout(), final(steps)@, views + from_steps(m.layout(), addrs@, mark)),
{
    let ghost all = from_steps(m.layout(), addrs@, mark);
    let mut i: usize = 0;
    assert(views + all.take(0) =~= views);
    while i < addrs.len()
        invariant
            all == from_steps(m.layout(), addrs@, mark),
            i <= addrs@.len(),
            steps_do(m.layout(), steps@, views + all.take(i as int)),
        decreases addrs.len() - i,
    {
        steps.push(Step::Ask(rule_from(m, addrs[i], mark)));
        i += 1;
        assert(views + all.take(i as int) =~= (views + all.take(i - 1)).push(all[i - 1]));
    }
    assert(all.take(all.len() as int) =~= all);
}

/// Rules for the matches that look at addresses.
fn push_target_steps(m: &Machine, steps: &mut Vec<Step>, ms: &Vec<Match>, mark: u32, Ghost(
    views,
): Ghost<Seq<StepView>>)
    requires
        steps_do(m.layout(), old(steps)@, views),
    ensures
        steps_do(
            m.layout(),
            final(steps)@,
            views + target_steps(m.layout(), match_views(ms@), mark),
        ),
{
    let ghost all = match_views(ms@);
    let mut i: usize = 0;
    assert(views + target_steps(m.layout(), all.take(0), mark) =~= views);
    while i < ms.len()
        invariant
            all == match_views(ms@),
            i <= ms@.len(),
            steps_do(
                m.layout(),
                steps@,
                views + target_steps(m.layout(), all.take(i as int), mark),
            ),
        decreases ms.len() - i,
    {
        let ghost was = target_steps(m.layout(), all.take(i as int), mark);
        assert(all.take(i + 1).drop_last() =~= all.take(i as int));
        assert(all.take(i + 1).last() == ms@[i as int]@);
        if let Some((addr, len)) = match_target(&ms[i]) {
            let table: u32 = match ms[i].direction {
                Direction::redirect => mark,
                Direction::bypass => MAIN_TABLE,
            };
            steps.push(Step::Ask(rule_to(m, addr, len, table, mark)));
            let ghost v = StepView::Ask(to_rule(m.layout(), addr, len, table, mark));
            assert(views + was.push(v) =~= (views + was).push(v));
        }
        i += 1;
    }
    assert(all.take(all.len() as int) =~= all);
}

/// Works out what has to be asked of the kernel so that traffic goes where the
/// state says, given the output as far as it is known, and a fresh mark.
pub fn plan_reload(m: &Machine, s: &State, to: Option<&Route>, mark: u32) -> (r: Reload)
    ensures
        steps_do(m.layout(), r.steps@, reload_steps(m.layout(), s@, route_view(to), mark)),
        r.enable == redirects(s@, route_view(to)),
        r.blocker@ == blocker(s@, route_view(to)),
{
    let ghost order = m.layout();
    let mut steps: Vec<Step> = Vec::new();
    let mut enable = true;
    let mut blocker = String::new();
    proof {
        reveal_strlit("");
        reveal_strlit("Output interface is down");
        reveal_strlit("Output interface not found");
    }
    let up = match to {
        Some(r) => r.is_up && s.enable,
        None => false,
    };
    if up {
        let to = to.unwrap();
        let ghost v0 = Seq::<StepView>::empty();
        push_from_steps(m, &mut steps, &to.addrs, mark, Ghost(v0));
        let ghost v1 = v0 + from_steps(order, to@.addrs, mark);
        steps.push(Step::Ask(rule_marked(m, mark)));
        let ghost v2 = v1.push(StepView::Ask(mark_rule(order, mark)));
        push_target_steps(m, &mut steps, &s.matches.matches, mark, Ghost(v2));
        let ghost v3 = v2 + target_steps(order, s@.matches.matches, mark);
        steps.push(Step::Ask(route_out(m, None, mark, to)));
        let ghost v4 = v3.push(StepView::Ask(out_route(order, None, mark, to@)));
        if s.config.allow_lan {
            steps.push(Step::CloneRoutes(mark));
        } else {
            steps.push(Step::Ask(rule_unreachable(m, mark, true)));
        }
        if s.config.spoof_dns {
            steps.push(Step::SpoofDns { mark, addr: s.config.spoof_dns_ipv4, port: 53 });
        }
        proof {
            let want = redirect_steps(order, s@, to@, mark);
            assert(want.len() == steps@.len());
            assert forall|i: int| 0 <= i < steps@.len() implies (#[trigger] steps@[i]).does(
                order,
                want[i],
            ) by {
                if i < v4.len() {
                    assert(v4[i] == want[i]);
                }
            }
        }
    } else if to.is_some() && !s.enable {
        enable = false;
    } else if to.is_some() {
        blocker = "Output interface is down".to_owned();
        enable = false;
    } else {
        blocker = "Output interface not found".to_owned();
        enable = false;
    }
    if !enable && !blocker.as_str().is_empty() && s.config.drop_egress_without_output {
        blocker = blocker.concat(" (dropping traffic)");
        steps.push(Step::Ask(rule_unreachable(m, mark, false)));
    }
    Reload { steps, enable, blocker }
}

/// How often something that may be there many times is taken away at most.
pub const CLEAR_ATTEMPTS: u32 = 1000;

/// Whether something is taken away once more, after this many attempts, the last
/// of which succeeded or not.
pub fn goes_on(attempts: u32, succeeded: bool) -> (r: bool)
    ensures
        r == (succeeded && attempts < 1000),
{
    succeeded && attempts < CLEAR_ATTEMPTS
}

/// One step of taking away what was set up.
#[derive(Debug)]
pub enum Clear {
    /// Empty a table.
    Table(u32),
    /// Send a request as long as it succeeds.
    Repeat(Request),
    /// Take away what sends marked DNS requests elsewhere, as long as there is any.
    Spoofing(u32),
}

/// What a step takes away.
pub enum ClearView {
    Table(u32),
    Repeat(RequestView),
    Spoofing(u32),
}

impl Clear {
    /// Whether this is what a step is meant to take away.
    pub open spec fn does(self, order: Order, v: ClearView) -> bool {
        match v {
            ClearView::Table(t) => self == Clear::Table(t),
            ClearView::Repeat(q) => self matches Clear::Repeat(r) && r.says(order, q),
            ClearView::Spoofing(mark) => self == Clear::Spoofing(mark),
        }
    }
}

/// The request that takes away a rule that looks up a table.
pub open spec fn gone_by_table(order: Order, table: u32) -> RequestView {
    rule_gone_view(seq![word_attr(order, 15, table)])
}

/// The request that takes away a rule with a mark under a mask of zero.
pub open spec fn gone_by_mark(order: Order, mark: u32) -> RequestView {
    rule_gone_view(seq![word_attr(order, 10, mark), word_attr(order, 16, 0)])
}

/// The steps by which what a reload set up is taken away.
pub open spec fn clear_steps(order: Order, mark: u32) -> Seq<ClearView> {
    seq![
        ClearView::Table(mark),
        ClearView::Repeat(gone_by_table(order, mark)),
        ClearView::Repeat(gone_by_mark(order, mark)),
        ClearView::Spoofing(mark),
    ]
}

/// Works out how what a reload set up is taken away.
pub fn plan_clear(m: &Machine, mark: u32) -> (r: Vec<Clear>)
    ensures
        r@.len() == clear_steps(m.layout(), mark).len(),
        forall|i: int|
            0 <= i < r@.len() ==> (#[trigger] r@[i]).does(
                m.layout(),
                clear_steps(m.layout(), mark)[i],
            ),
{
    let mut steps: Vec<Clear> = Vec::new();
    steps.push(Clear::Table(mark));
    steps.push(Clear::Repeat(rule_gone_by_table(m, mark)));
    steps.push(Clear::Repeat(rule_gone_by_mark(m, mark)));
    steps.push(Clear::Spoofing(mark));
    steps
}

/// What a reload comes to: what is taken away first, and what is set up then.
#[derive(Debug)]
pub struct Turn {
    pub clear: Vec<Clear>,
    pub reload: Reload,
}

/// The steps that come before a reload: what was set up under the mark before is
/// taken away.
pub open spec fn steps_before(order: Order, held: Option<u32>) -> Seq<ClearView> {
    match held {
        Some(mark) => clear_steps(order, mark),
        None => seq![],
    }
}

/// Begins a reload under a fresh mark, which takes the place of the one before.
pub fn begin_reload(
    m: &Machine,
    held: &mut Option<u32>,
    s: &State,
    to: Option<&Route>,
    mark: u32,
) -> (r: Turn)
    ensures
        *final(held) == Some(mark),
        r.clear@.len() == steps_before(m.layout(), *old(held)).len(),
        forall|i: int|
            0 <= i < r.clear@.len() ==> (#[trigger] r.clear@[i]).does(
                m.layout(),
                steps_before(m.layout(), *old(held))[i],
            ),
        steps_do(m.layout(), r.reload.steps@, reload_steps(m.layout(), s@, route_view(to), mark)),
        r.reload.enable == redirects(s@, route_view(to)),
        r.reload.blocker@ == blocker(s@, route_view(to)),
{
    let clear = match *held {
        Some(old_mark) => plan_clear(m, old_mark),
        None => Vec::new(),
    };
    *held = Some(mark);
    Turn { clear, reload: plan_reload(m, s, to, mark) }
}

/// The steps by which the table for domain names is taken away.
pub open spec fn clear_static_steps(order: Order, table: u32) -> Seq<ClearView> {
    seq![ClearView::Table(table), ClearView::Repeat(gone_by_table(order, table))]
}

/// Works out how the table for domain names is taken away.
pub fn plan_clear_static(m: &Machine, table: u32) -> (r: Vec<Clear>)
    ensures
        r@.len() == clear_static_steps(m.layout(), table).len(),
        forall|i: int|
            0 <= i < r@.len() ==> (#[trigger] r@[i]).does(
                m.layout(),
                clear_static_steps(m.layout(), table)[i],
            ),
{
    let mut steps: Vec<Clear> = Vec::new();
    steps.push(Clear::Table(table));
    steps.push(Clear::Repeat(rule_gone_by_table(m, table)));
    steps
}

/// The routes of a table among replies: where they lead, and the length of the
/// prefix.
pub open spec fn routes_of(order: Order, replies: Seq<Vec<u8>>, table: u32) -> Seq<(IpAddr, u8)>
    decreases replies.len(),
{
    if replies.len() == 0 {
        Seq::empty()
    } else {
        let before = routes_of(order, replies.drop_last(), table);
        let said = route_said(order, replies.last()@);
        if said.table == Some(table) {
            let dst = match said.dst {
                Some(d) => d,
                None => IpAddr::V4(0),
            };
            before.push((dst, said.dst_len))
        } else {
            before
        }
    }
}

/// Whether requests take away routes from a table, one after the other.
pub open spec fn take_away(
    order: Order,
    requests: Seq<Request>,
    routes: Seq<(IpAddr, u8)>,
    table: u32,
) -> bool {
    &&& requests.len() == routes.len()
    &&& forall|i: int|
        0 <= i < requests.len() ==> (#[trigger] requests[i]).says(
            order,
            gone_route(order, routes[i].0, routes[i].1, SCOPE_NOWHERE, 0, table),
        )
}

/// The requests that empty a table, given all replies that list routes.
pub fn clear_table(m: &Machine, replies: &Vec<Vec<u8>>, table: u32) -> (r: Vec<Request>)
    ensures
        take_away(m.layout(), r@, routes_of(m.layout(), replies@, table), table),
{
    let mut requests: Vec<Request> = Vec::new();
    let mut i: usize = 0;
    while i < replies.len()
        invariant
            i <= replies@.len(),
            take_away(
                m.layout(),
                requests@,
                routes_of(m.layout(), replies@.take(i as int), table),
                table,
            ),
        decreases replies.len() - i,
    {
        assert(replies@.take(i + 1).drop_last() =~= replies@.take(i as int));
        let said = route_reply(m, &replies[i]);
        if let Some(t) = said.table {
            if t == table {
                let dst = match said.dst {
                    Some(d) => d,
                    None => IpAddr::V4(0),
                };
                requests.push(route_gone(m, dst, said.dst_len, table));
            }
        }
        i += 1;
    }
    assert(replies@.take(replies@.len() as int) =~= replies@);
    requests
}

/// What follows when the output was looked up again.
#[derive(Debug)]
pub enum Update {
    /// Nothing: it is what is known.
    Keep,
    /// It is something else, or it is gone.
    Replace(Option<Route>),
}

/// Compares the output as it was looked up with what is known of it.
pub fn update_route(known: Option<&Route>, found: Option<Route>) -> (r: Update)
    ensures
        match found {
            Some(f) => if route_view(known) == Some(f@) {
                r is Keep
            } else {
                r matches Update::Replace(Some(s)) && s@ == f@
            },
            None => r == Update::Replace(None),
        },
{
    match found {
        Some(f) => {
            if let Some(k) = known {
                if k.same(&f) {
                    return Update::Keep;
                }
            }
            Update::Replace(Some(f))
        },
        None => Update::Replace(None),
    }
}

/// Whether the default route is not what is known of it.
pub fn default_changed(known: Option<&Route>, found: Option<&Route>) -> (r: bool)
    ensures
        r == (route_view(known) != route_view(found)),
{
    match (known, found) {
        (Some(k), Some(f)) => !k.same(f),
        (None, None) => false,
        _ => true,
    }
}

/// The text that bytes stand for, with a replacement for what is no UTF-8.
pub uninterp spec fn lossy(b: Seq<u8>) -> Seq<char>;

/// `String::from_utf8_lossy`, turned into a `String`: what it gives depends on
/// the bytes alone, and bytes that are UTF-8 stay as they are.
#[verifier::external_body]
pub(crate) fn lossy_text(b: &Vec<u8>) -> (r: String)
    ensures
        r@ == lossy(b@),
        valid_utf8(b@) ==> encode_utf8(r@) == b@,
{
    String::from_utf8_lossy(b).into_owned()
}

/// The number of the device that a reply is about.
pub open spec fn link_number(order: Order, link: Seq<u8>) -> u32 {
    header_word(order, link, 16, 4)
}

/// The number of the device that a reply is about.
pub fn link_index(m: &Machine, link: &Vec<u8>) -> (r: u32)
    ensures
        r == link_number(m.layout(), link@),
{
    let said = link_reply(m, link);
    let ghost w = link_number(m.layout(), link@);
    assert(((w as i32) as u32) == w) by (bit_vector);
    said.index as u32
}

/// Whether a reply is about a device that is up.
pub open spec fn link_is_up(order: Order, link: Seq<u8>) -> bool {
    header_word(order, link, 16, 8) % 2 == 1
}

/// The addresses of a device among replies.
pub open spec fn addrs_of(order: Order, replies: Seq<Vec<u8>>, ifindex: u32) -> Seq<IpAddr>
    decreases replies.len(),
{
    if replies.len() == 0 {
        Seq::empty()
    } else {
        let before = addrs_of(order, replies.drop_last(), ifindex);
        let said = addr_said(order, replies.last()@);
        match said.local {
            Some(a) => if said.index == ifindex {
                before.push(a)
            } else {
                before
            },
            None => before,
        }
    }
}

/// The gateway of a route, if it is one of the main table through a device.
pub open spec fn gateway_in(order: Order, reply: Seq<u8>, ifindex: u32) -> Option<IpAddr> {
    let said = route_said(order, reply);
    if said.table == Some(MAIN_TABLE) && said.oif == Some(ifindex) {
        said.gateway
    } else {
        None
    }
}

/// The gateway of a route, if it is one of the main table through a device.
pub fn gateway_of(m: &Machine, reply: &Vec<u8>, ifindex: u32) -> (r: Option<IpAddr>)
    ensures
        r == gateway_in(m.layout(), reply@, ifindex),
{
    let said = route_reply(m, reply);
    match (said.table, said.oif) {
        (Some(t), Some(o)) => if t == MAIN_TABLE && o == ifindex {
            said.gateway
        } else {
            None
        },
        _ => None,
    }
}

/// The first gateway among replies.
pub open spec fn first_gateway(order: Order, replies: Seq<Vec<u8>>, ifindex: u32) -> Option<IpAddr>
    decreases replies.len(),
{
    if replies.len() == 0 {
        None
    } else {
        match gateway_in(order, replies[0]@, ifindex) {
            Some(g) => Some(g),
            None => first_gateway(order, replies.skip(1), ifindex),
        }
    }
}

/// Puts together what is known of a device: from the reply about it, from the
/// replies that list addresses, and from those that list routes, up to the first
/// that gives a gateway.
pub fn get_link(
    m: &Machine,
    link: &Vec<u8>,
    addrs: &Vec<Vec<u8>>,
    routes: &Vec<Vec<u8>>,
) -> (r: Result<Route, Error>)
    ensures
        match text_under(m.layout(), behind(link@, 16), 3) {
            None => r matches Err(e) && e is MissingAttribute,
            Some(name) => r matches Ok(route) && route@ == (RouteView {
                is_up: link_is_up(m.layout(), link@),
                ifindex: link_number(m.layout(), link@),
                ifname: lossy(name),
                addrs: addrs_of(
                    m.layout(),
                    addrs@,
                    link_number(m.layout(), link@),
                ),
                gateway: first_gateway(m.layout(), routes@, link_number(m.layout(), link@)),
            }),
        },
{
    let ifindex: u32 = link_index(m, link);
    let said = link_reply(m, link);
    let is_up = said.flags % 2 == 1;
    let ifname = match &said.ifname {
        Some(n) => lossy_text(n),
        None => {
            return Err(Error::MissingAttribute);
        },
    };
    let mut found: Vec<IpAddr> = Vec::new();
    let mut i: usize = 0;
    while i < addrs.len()
        invariant
            i <= addrs@.len(),
            found@ == addrs_of(m.layout(), addrs@.take(i as int), ifindex),
        decreases addrs.len() - i,
    {
        assert(addrs@.take(i + 1).drop_last() =~= addrs@.take(i as int));
        let a = addr_reply(m, &addrs[i]);
        if a.index == ifindex {
            if let Some(local) = a.local {
                found.push(local);
            }
        }
        i += 1;
    }
    assert(addrs@.take(addrs@.len() as int) =~= addrs@);
    let mut gateway: Option<IpAddr> = None;
    let mut j: usize = 0;
    assert(routes@.skip(0) =~= routes@);
    while j < routes.len() && gateway.is_none()
        invariant
            j <= routes@.len(),
            match gateway {
                Some(g) => first_gateway(m.layout(), routes@, ifindex) == Some(g),
                None => first_gateway(m.layout(), routes@, ifindex) == first_gateway(
                    m.layout(),
                    routes@.skip(j as int),
                    ifindex,
                ),
            },
        decreases routes.len() - j,
    {
        assert(routes@.skip(j as int)[0] == routes@[j as int]);
        assert(routes@.skip(j as int).skip(1) =~= routes@.skip(j + 1));
        gateway = gateway_of(m, &routes[j], ifindex);
        j += 1;
    }
    Ok(Route { is_up, ifindex, ifname, addrs: found, gateway })
}

/// The device that the default route leads through.
pub fn default_device(m: &Machine, route: &Vec<u8>) -> (r: Option<u32>)
    ensures
        r == route_said(m.layout(), route@).oif,
{
    route_reply(m, route).oif
}

/// Puts together the default route: from the reply about the way to some
/// address, and from the one about the device. Without a device or its name
/// there is none.
pub fn get_default_link(m: &Machine, route: &Vec<u8>, link: &Vec<u8>) -> (r: Option<Route>)
    ensures
        match (
            route_said(m.layout(), route@).oif,
            text_under(m.layout(), behind(link@, 16), 3),
        ) {
            (Some(oif), Some(name)) => r matches Some(out) && out@ == (RouteView {
                is_up: link_is_up(m.layout(), link@),
                ifindex: oif,
                ifname: lossy(name),
                addrs: match route_said(m.layout(), route@).prefsrc {
                    Some(a) => seq![a],
                    None => seq![],
                },
                gateway: route_said(m.layout(), route@).gateway,
            }),
            _ => r is None,
        },
{
    let way = route_reply(m, route);
    let said = link_reply(m, link);
    match (way.oif, &said.ifname) {
        (Some(ifindex), Some(name)) => {
            let mut addrs: Vec<IpAddr> = Vec::new();
            if let Some(a) = way.prefsrc {
                addrs.push(a);
            }
            assert(addrs@ =~= match way.prefsrc {
                Some(a) => seq![a],
                None => seq![],
            });
            Some(
                Route {
                    is_up: said.flags % 2 == 1,
                    ifindex,
                    ifname: lossy_text(name),
                    addrs,
                    gateway: way.gateway,
                },
            )
        },
        _ => None,
    }
}

/// What a notice of the kernel gives reason for.
#[derive(Clone, Copy, Debug, PartialEq, Eq, Structural)]
pub struct Heard {
    /// To look up the default route again.
    pub default_route: bool,
    /// To look up the output again.
    pub output: bool,
}

/// What a notice of a route gives reason for: routes of other tables do not
/// count, the default route matters only for matches that look at domain names,
/// and the output where the route leads through it or local routes are copied.
pub open spec fn route_heard(
    order: Order,
    b: Seq<u8>,
    s: StateView,
    to: Option<RouteView>,
) -> Heard {
    let said = route_said(order, b);
    if said.table matches Some(t) && t != 0 {
        Heard { default_route: false, output: false }
    } else {
        Heard {
            default_route: s.matches.dns_count > 0,
            output: to matches Some(r) && (s.config.allow_lan || r.ifindex == (match said.oif {
                Some(o) => o,
                None => 0,
            })),
        }
    }
}

/// What a notice of a device gives reason for: to look up the output again, if it
/// is about the device of that name, or the one that is known.
pub open spec fn link_heard(
    order: Order,
    b: Seq<u8>,
    s: StateView,
    to: Option<RouteView>,
) -> Heard {
    let word = header_word(order, b, 16, 4);
    let index = if word < 0x8000_0000 {
        word
    } else {
        0
    };
    let name = match text_under(order, behind(b, 16), 3) {
        Some(n) => n,
        None => Seq::empty(),
    };
    Heard {
        default_route: false,
        output: name == encode_utf8(s.to_dev) || (to matches Some(r) && (r.ifindex == index
            || encode_utf8(r.ifname) == name)),
    }
}

/// What a notice of the kernel gives reason for.
pub open spec fn heard(
    order: Order,
    kind: u16,
    b: Seq<u8>,
    s: StateView,
    to: Option<RouteView>,
) -> Heard {
    if 24 <= kind < 28 {
        route_heard(order, b, s, to)
    } else if 16 <= kind < 20 {
        link_heard(order, b, s, to)
    } else {
        Heard { default_route: false, output: false }
    }
}

/// Whether two byte strings are the same.
pub(crate) fn same_bytes(a: &Vec<u8>, b: &Vec<u8>) -> (r: bool)
    ensures
        r == (a@ == b@),
{
    if a.len() != b.len() {
        return false;
    }
    let mut i: usize = 0;
    while i < a.len()
        invariant
            i <= a@.len(),
            a@.len() == b@.len(),
            forall|j: int| 0 <= j < i ==> a@[j] == b@[j],
        decreases a.len() - i,
    {
        if a[i] != b[i] {
            return false;
        }
        i += 1;
    }
    assert(a@ =~= b@);
    true
}

/// Works out what a notice of the kernel gives reason for.
pub fn multicast(m: &Machine, kind: u16, b: &Vec<u8>, s: &State, to: Option<&Route>) -> (r: Heard)
    ensures
        r == heard(m.layout(), kind, b@, s@, route_view(to)),
{
    if 24 <= kind && kind < 28 {
        let said = route_reply(m, b);
        if let Some(t) = said.table {
            if t != 0 {
                return Heard { default_route: false, output: false };
            }
        }
        let oif: u32 = match said.oif {
            Some(o) => o,
            None => 0,
        };
        let output = match to {
            Some(r) => oif == r.ifindex || s.config.allow_lan,
            None => false,
        };
        Heard { default_route: s.matches.dns_count > 0, output }
    } else if 16 <= kind && kind < 20 {
        let said = link_reply(m, b);
        let ghost w = header_word(m.layout(), b@, 16, 4);
        assert(w < 0x8000_0000 ==> (w as i32) >= 0 && (w as i32) as u32 == w) by (bit_vector);
        assert(w >= 0x8000_0000 ==> (w as i32) < 0) by (bit_vector);
        let index: u32 = if said.index < 0 {
            0
        } else {
            said.index as u32
        };
        let name = match said.ifname {
            Some(n) => n,
            None => Vec::new(),
        };
        assert(said.ifname is None ==> name@ =~= Seq::empty());
        if same_bytes(&name, &s.to_dev.as_str().as_bytes_vec()) {
            return Heard { default_route: false, output: true };
        }
        let output = match to {
            Some(r) => r.ifindex == index || same_bytes(&r.ifname.as_str().as_bytes_vec(), &name),
            None => false,
        };
        Heard { default_route: false, output }
    } else {
        Heard { default_route: false, output: false }
    }
}

/// Whether a step of clearing takes away what a step set up: an emptied table its
/// routes, a request every rule that has all of its attributes.
pub open spec fn undoes(c: ClearView, order: Order, step: StepView) -> bool {
    match (c, step) {
        (ClearView::Table(t), StepView::Ask(q)) => q.kind == 24 && q.attrs.contains(
            word_attr(order, 15, t),
        ),
        (ClearView::Table(t), StepView::CloneRoutes(u)) => t == u,
        (ClearView::Repeat(g), StepView::Ask(q)) => q.kind == 32 && forall|j: int|
            0 <= j < g.attrs.len() ==> q.attrs.contains(#[trigger] g.attrs[j]),
        (ClearView::Spoofing(m), StepView::SpoofDns { mark, .. }) => m == mark,
        _ => false,
    }
}

/// Whether one of the steps of clearing takes away what a step set up.
pub open spec fn is_undone(steps: Seq<ClearView>, order: Order, step: StepView) -> bool {
    exists|k: int| 0 <= k < steps.len() && undoes(#[trigger] steps[k], order, step)
}

/// Everything that a reload sets up is taken away again when its mark is
/// cleared.
pub proof fn reload_is_cleared(order: Order, s: StateView, to: Option<RouteView>, mark: u32, i: int)
    requires
        0 <= i < reload_steps(order, s, to, mark).len(),
    ensures
        is_undone(clear_steps(order, mark), order, reload_steps(order, s, to, mark)[i]),
{
    let steps = reload_steps(order, s, to, mark);
    let clears = clear_steps(order, mark);
    let marked = word_attr(order, 15, mark);
    unreachable_is_undone(order, mark, true);
    unreachable_is_undone(order, mark, false);
    if redirects(s, to) {
        let from = from_steps(order, to->0.addrs, mark);
        let targets = target_steps(order, s.matches.matches, mark);
        let at = from.len() + 1 + targets.len();
        if i < from.len() {
            let q = from_rule(order, to->0.addrs[i], mark);
            assert(q.attrs[1] == marked);
            assert(undoes(clears[1], order, StepView::Ask(q)));
            assert(steps[i] == StepView::Ask(q));
        } else if i == from.len() {
            let q = mark_rule(order, mark);
            assert(q.attrs[1] == marked);
            assert(undoes(clears[1], order, StepView::Ask(q)));
        } else if i < at {
            targets_are_undone(order, s.matches.matches, mark, i - from.len() - 1);
            assert(steps[i] == targets[i - from.len() - 1]);
        } else if i == at {
            let q = out_route(order, None, mark, to->0);
            assert(q.attrs[0] == marked);
            assert(undoes(clears[0], order, StepView::Ask(q)));
        } else {
            assert(undoes(clears[0], order, StepView::CloneRoutes(mark)));
            assert(undoes(clears[3], order, steps[i]) || i == at + 1);
        }
    }
}

/// What remains of what was set up, after clearing.
pub open spec fn remaining(
    steps: Seq<StepView>,
    clears: Seq<ClearView>,
    order: Order,
) -> Seq<StepView> {
    steps.filter(|step: StepView| !is_undone(clears, order, step))
}

/// Before a reload sets up anything, nothing remains of what the reload before it
/// set up: there are never rules of two marks.
pub proof fn one_mark_remains(order: Order, s: StateView, to: Option<RouteView>, mark: u32)
    ensures
        remaining(
            reload_steps(order, s, to, mark),
            steps_before(order, Some(mark)),
            order,
        ) == Seq::<StepView>::empty(),
{
    broadcast use vstd::seq_lib::group_filter_ensures;

    let steps = reload_steps(order, s, to, mark);
    let stays = |step: StepView| !is_undone(steps_before(order, Some(mark)), order, step);
    let left = steps.filter(stays);
    if left.len() > 0 {
        assert(stays(left[0]));
        assert(left.contains(left[0]));
        steps.lemma_filter_contains_rev(stays, left[0]);
        let i = choose|i: int| 0 <= i < steps.len() && steps[i] == left[0];
        reload_is_cleared(order, s, to, mark, i);
    }
    assert(left =~= Seq::<StepView>::empty());
}

/// Whether a step stays with a mark: it makes a rule that looks up the table of
/// that number or carries the mark, a route of that table, or copies routes into
/// it, or sends only what carries the mark elsewhere.
pub open spec fn keeps_to(order: Order, step: StepView, mark: u32) -> bool {
    match step {
        StepView::Ask(q) => {
            ||| q.kind == 32 && (q.attrs.contains(word_attr(order, 15, mark)) || q.attrs.contains(
                word_attr(order, 10, mark),
            ))
            ||| q.kind == 24 && q.attrs.contains(word_attr(order, 15, mark))
        },
        StepView::CloneRoutes(t) => t == mark,
        StepView::SpoofDns { mark: t, .. } => t == mark,
    }
}

/// Every step of a reload stays with its mark: no other routing state is touched.
pub proof fn reload_keeps_to_mark(
    order: Order,
    s: StateView,
    to: Option<RouteView>,
    mark: u32,
    i: int,
)
    requires
        0 <= i < reload_steps(order, s, to, mark).len(),
    ensures
        keeps_to(order, reload_steps(order, s, to, mark)[i], mark),
{
    let step = reload_steps(order, s, to, mark)[i];
    let clears = clear_steps(order, mark);
    reload_is_cleared(order, s, to, mark, i);
    let k = choose|k: int| 0 <= k < clears.len() && undoes(#[trigger] clears[k], order, step);
    if let StepView::Ask(q) = step {
        if k == 1 {
            let g = gone_by_table(order, mark);
            assert(undoes(ClearView::Repeat(g), order, StepView::Ask(q)));
            let first = g.attrs[0];
            assert(q.attrs.contains(first));
        } else if k == 2 {
            let g = gone_by_mark(order, mark);
            assert(undoes(ClearView::Repeat(g), order, StepView::Ask(q)));
            let first = g.attrs[0];
            assert(q.attrs.contains(first));
        } else {
            assert(k == 0);
        }
    } else {
        assert(k == 0 || k == 3);
    }
}

/// The rule that has domain names looked up in their table is taken away again
/// with that table, and so are the routes of the table.
pub proof fn static_rule_is_cleared(order: Order, table: u32, dest: u32, way: RouteView)
    ensures
        is_undone(
            clear_static_steps(order, table),
            order,
            StepView::Ask(static_rule(order, table)),
        ),
        is_undone(
            clear_static_steps(order, table),
            order,
            StepView::Ask(out_route(order, Some(dest), table, way)),
        ),
{
    let clears = clear_static_steps(order, table);
    let marked = word_attr(order, 15, table);
    assert(static_rule(order, table).attrs[2] == marked);
    assert(undoes(clears[1], order, StepView::Ask(static_rule(order, table))));
    let q = out_route(order, Some(dest), table, way);
    assert(q.attrs[1] == marked);
    assert(undoes(clears[0], order, StepView::Ask(q)));
}

/// Whether a step makes a route only where it may, and then that one.
pub open spec fn makes_only(step: StepView, may: bool, route: RequestView) -> bool {
    step matches StepView::Ask(q) ==> (q.kind == 24 ==> may && q == route)
}

/// Where traffic is redirected, what carries the mark looks up the table of that
/// number, and the one route that is asked for, besides copies of local ones,
/// leads from there out of the output. Where it is not, no route is asked for.
pub proof fn marked_leaves_through_output(
    order: Order,
    s: StateView,
    to: Option<RouteView>,
    mark: u32,
)
    ensures
        redirects(s, to) ==> {
            let steps = reload_steps(order, s, to, mark);
            &&& steps.contains(StepView::Ask(mark_rule(order, mark)))
            &&& steps.contains(StepView::Ask(out_route(order, None, mark, to->0)))
        },
        forall|i: int|
            0 <= i < reload_steps(order, s, to, mark).len() ==> makes_only(
                #[trigger] reload_steps(order, s, to, mark)[i],
                redirects(s, to),
                out_route(order, None, mark, to->0),
            ),
{
    if redirects(s, to) {
        let steps = reload_steps(order, s, to, mark);
        let from = from_steps(order, to->0.addrs, mark);
        let targets = target_steps(order, s.matches.matches, mark);
        assert(steps[from.len() as int] == StepView::Ask(mark_rule(order, mark)));
        let at = from.len() + 1 + targets.len();
        assert(steps[at as int] == StepView::Ask(out_route(order, None, mark, to->0)));
        assert forall|i: int| 0 <= i < steps.len() implies makes_only(
            #[trigger] steps[i],
            true,
            out_route(order, None, mark, to->0),
        ) by {
            if i < from.len() {
                assert(steps[i] == from[i]);
            } else if from.len() < i < at {
                targets_make_rules(order, s.matches.matches, mark, i - from.len() - 1);
                assert(steps[i] == targets[i - from.len() - 1]);
            }
        }
    }
}

proof fn targets_make_rules(order: Order, ms: Seq<MatchView>, mark: u32, i: int)
    requires
        0 <= i < target_steps(order, ms, mark).len(),
    ensures
        target_steps(order, ms, mark)[i] matches StepView::Ask(q) && q.kind == 32,
    decreases ms.len(),
{
    if i < target_steps(order, ms.drop_last(), mark).len() {
        targets_make_rules(order, ms.drop_last(), mark, i);
    }
}

proof fn unreachable_is_undone(order: Order, mark: u32, first: bool)
    ensures
        is_undone(
            clear_steps(order, mark),
            order,
            StepView::Ask(unreachable_rule(order, mark, first)),
        ),
{
    let q = unreachable_rule(order, mark, first);
    assert(q.attrs[1] == word_attr(order, 15, mark));
    assert(undoes(clear_steps(order, mark)[1], order, StepView::Ask(q)));
}

proof fn targets_are_undone(order: Order, ms: Seq<MatchView>, mark: u32, i: int)
    requires
        0 <= i < target_steps(order, ms, mark).len(),
    ensures
        is_undone(clear_steps(order, mark), order, target_steps(order, ms, mark)[i]),
    decreases ms.len(),
{
    let before = target_steps(order, ms.drop_last(), mark);
    if i < before.len() {
        targets_are_undone(order, ms.drop_last(), mark, i);
    } else {
        let t = target(ms.last())->0;
        let q = to_rule(order, t.0, t.1, direction_table(ms.last().direction, mark), mark);
        let g = gone_by_mark(order, mark);
        assert(q.attrs[3] == g.attrs[0]);
        assert(q.attrs[4] == g.attrs[1]);
        assert(undoes(clear_steps(order, mark)[2], order, StepView::Ask(q)));
    }
}

} // verus!
