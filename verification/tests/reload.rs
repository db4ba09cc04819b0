use rebpf::bytes::Machine;
use rebpf::kinds::{Direction, Kind, Method};
use rebpf::matching::Match;
use rebpf::netlink::{
    begin_reload, goes_on, match_target, plan_clear, plan_clear_static, plan_reload, rand_table,
    Clear, Step,
};
use rebpf::route::{IpAddr, Route};
use rebpf::rules::{
    route_out, rule_from, rule_gone_by_mark, rule_gone_by_table, rule_marked, rule_to,
    rule_unreachable,
};
use rebpf::rtnl::Request;
use rebpf::state::State;

const MARK: u32 = 70000;

fn to(is_up: bool) -> Route {
    Route {
        is_up,
        ifindex: 7,
        ifname: "tun0".to_string(),
        addrs: vec![IpAddr::V4(0x0a00_0002)],
        gateway: None,
    }
}

fn address_match(pattern: &str, method: Method, direction: Direction) -> Match {
    Match {
        pattern: pattern.to_string(),
        kind: Kind::ipv4,
        method,
        direction,
        user: String::new(),
        uid: 0,
    }
}

fn same(step: &Step, q: &Request) {
    match step {
        Step::Ask(r) => {
            assert_eq!((r.kind, r.flags), (q.kind, q.flags));
            assert_eq!(r.payload, q.payload);
        }
        _ => panic!("no request: {step:?}"),
    }
}

#[test]
fn everything_is_set_up() {
    let m = Machine::here();
    let mut s = State::default();
    s.enable = true;
    s.config.spoof_dns = true;
    s.matches.matches = vec![
        address_match("9.9.9.9", Method::full, Direction::redirect),
        address_match("10.1.2.3/8", Method::subnet, Direction::bypass),
        address_match("nonsense", Method::full, Direction::redirect),
        address_match("9.9.9.9", Method::prefix, Direction::redirect),
        Match { kind: Kind::basename, ..address_match("curl", Method::full, Direction::redirect) },
    ];
    let r = plan_reload(&m, &s, Some(&to(true)), MARK);
    assert!(r.enable);
    assert_eq!(r.blocker, "");
    assert_eq!(r.steps.len(), 7);
    same(&r.steps[0], &rule_from(&m, IpAddr::V4(0x0a00_0002), MARK));
    same(&r.steps[1], &rule_marked(&m, MARK));
    same(&r.steps[2], &rule_to(&m, 0x0909_0909, 32, MARK, MARK));
    same(&r.steps[3], &rule_to(&m, 0x0a00_0000, 8, 254, MARK));
    same(&r.steps[4], &route_out(&m, None, MARK, &to(true)));
    assert!(matches!(r.steps[5], Step::CloneRoutes(MARK)));
    assert!(matches!(
        r.steps[6],
        Step::SpoofDns { mark: MARK, addr: 0x0808_0808, port: 53 }
    ));
}

#[test]
fn local_network_is_kept_out() {
    let m = Machine::here();
    let mut s = State::default();
    s.enable = true;
    s.config.allow_lan = false;
    let r = plan_reload(&m, &s, Some(&to(true)), MARK);
    assert_eq!(r.steps.len(), 4);
    same(&r.steps[3], &rule_unreachable(&m, MARK, true));
}

#[test]
fn reasons_for_not_redirecting() {
    let m = Machine::here();
    let mut s = State::default();
    let r = plan_reload(&m, &s, Some(&to(true)), MARK);
    assert!(!r.enable && r.blocker.is_empty() && r.steps.is_empty());
    let r = plan_reload(&m, &s, Some(&to(false)), MARK);
    assert!(!r.enable && r.blocker.is_empty());
    let r = plan_reload(&m, &s, None, MARK);
    assert!(!r.enable);
    assert_eq!(r.blocker, "Output interface not found");
    s.enable = true;
    let r = plan_reload(&m, &s, Some(&to(false)), MARK);
    assert!(!r.enable);
    assert_eq!(r.blocker, "Output interface is down");
}

#[test]
fn traffic_is_dropped_without_output() {
    let m = Machine::here();
    let mut s = State::default();
    s.enable = true;
    s.config.drop_egress_without_output = true;
    let r = plan_reload(&m, &s, None, MARK);
    assert_eq!(r.blocker, "Output interface not found (dropping traffic)");
    assert_eq!(r.steps.len(), 1);
    same(&r.steps[0], &rule_unreachable(&m, MARK, false));
    s.enable = false;
    let r = plan_reload(&m, &s, Some(&to(false)), MARK);
    assert!(r.blocker.is_empty() && r.steps.is_empty());
}

#[test]
fn targets_of_matches() {
    let t = |p: &str, m: Method| match_target(&address_match(p, m, Direction::redirect));
    assert_eq!(t("1.2.3.4", Method::full), Some((0x0102_0304, 32)));
    assert_eq!(t("1.2.3.4/24", Method::full), None);
    assert_eq!(t("1.2.3.4/24", Method::subnet), Some((0x0102_0300, 24)));
    assert_eq!(t("1.2.3.4/33", Method::subnet), None);
    assert_eq!(t("1.2.3.4", Method::subnet), None);
    assert_eq!(t("1.2.3.4", Method::regex), None);
}

#[test]
fn tables_are_out_of_the_way() {
    for _ in 0..100 {
        let t = rand_table();
        assert!(u16::MAX as u32 <= t && t < u32::MAX);
    }
}

fn same_removal(step: &Clear, q: &Request) {
    match step {
        Clear::Repeat(r) => {
            assert_eq!((r.kind, r.flags), (q.kind, q.flags));
            assert_eq!(r.payload, q.payload);
        }
        _ => panic!("no request: {step:?}"),
    }
}

#[test]
fn what_was_set_up_is_cleared() {
    let m = Machine::here();
    let steps = plan_clear(&m, MARK);
    assert_eq!(steps.len(), 4);
    assert!(matches!(steps[0], Clear::Table(MARK)));
    same_removal(&steps[1], &rule_gone_by_table(&m, MARK));
    same_removal(&steps[2], &rule_gone_by_mark(&m, MARK));
    assert!(matches!(steps[3], Clear::Spoofing(MARK)));

    let steps = plan_clear_static(&m, 77);
    assert_eq!(steps.len(), 2);
    assert!(matches!(steps[0], Clear::Table(77)));
    same_removal(&steps[1], &rule_gone_by_table(&m, 77));
}

#[test]
fn clearing_ends() {
    assert!(goes_on(1, true));
    assert!(!goes_on(1, false));
    assert!(goes_on(999, true));
    assert!(!goes_on(1000, true));
}

#[test]
fn mark_before_is_cleared_first() {
    let m = Machine::here();
    let mut s = State::default();
    s.enable = true;
    let mut held = None;
    let turn = begin_reload(&m, &mut held, &s, Some(&to(true)), MARK);
    assert_eq!(held, Some(MARK));
    assert!(turn.clear.is_empty());
    assert!(turn.reload.enable);
    let turn = begin_reload(&m, &mut held, &s, None, 80000);
    assert_eq!(held, Some(80000));
    assert_eq!(turn.clear.len(), 4);
    assert!(matches!(turn.clear[0], Clear::Table(MARK)));
    assert_eq!(turn.reload.blocker, "Output interface not found");
}
