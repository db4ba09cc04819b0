use rebpf::bytes::Machine;
use rebpf::clone::clone_route;
use rebpf::error::Error;
use rebpf::netlink::{
    clear_table, default_changed, default_device, gateway_of, get_default_link, get_link, link_index,
    multicast, update_route, Update,
};
use rebpf::route::{IpAddr, Route};
use rebpf::state::State;
use rebpf::stats::{is_stale, tell_traffic, StatsHist, Traffic};

fn word(x: u32) -> Vec<u8> {
    x.to_ne_bytes().to_vec()
}

fn attr(kind: u16, value: &[u8]) -> Vec<u8> {
    let mut v = Vec::new();
    v.extend((4 + value.len() as u16).to_ne_bytes());
    v.extend(kind.to_ne_bytes());
    v.extend(value);
    while v.len() % 4 != 0 {
        v.push(0);
    }
    v
}

fn joined(header: Vec<u8>, attrs: &[Vec<u8>]) -> Vec<u8> {
    let mut v = header;
    for a in attrs {
        v.extend(a);
    }
    v
}

fn link(index: i32, flags: u32, attrs: &[Vec<u8>]) -> Vec<u8> {
    let mut h = vec![0u8, 0, 1, 0];
    h.extend(index.to_ne_bytes());
    h.extend(flags.to_ne_bytes());
    h.extend([0u8; 4]);
    joined(h, attrs)
}

fn route(dst_len: u8, flags: u32, attrs: &[Vec<u8>]) -> Vec<u8> {
    let mut h = vec![2u8, dst_len, 0, 0, 254, 3, 0, 1];
    h.extend(flags.to_ne_bytes());
    joined(h, attrs)
}

fn addr(index: u32, attrs: &[Vec<u8>]) -> Vec<u8> {
    let mut h = vec![2u8, 24, 0, 0];
    h.extend(index.to_ne_bytes());
    joined(h, attrs)
}

fn known() -> Route {
    Route {
        is_up: true,
        ifindex: 7,
        ifname: "tun0".to_string(),
        addrs: vec![IpAddr::V4(0x0a00_0002)],
        gateway: None,
    }
}

#[test]
fn device_is_put_together() {
    let m = Machine::here();
    let l = link(7, 0x11043, &[attr(3, b"tun0\0")]);
    assert_eq!(link_index(&m, &l), 7);
    let addrs = vec![
        addr(7, &[attr(1, &[1, 1, 1, 1]), attr(2, &[10, 0, 0, 2])]),
        addr(8, &[attr(2, &[10, 0, 0, 3])]),
        addr(7, &[attr(2, &[10, 0, 0, 4])]),
        addr(7, &[]),
    ];
    let routes = vec![
        route(0, 0, &[attr(15, &word(255)), attr(4, &word(7)), attr(5, &[9, 9, 9, 9])]),
        route(0, 0, &[attr(15, &word(254)), attr(4, &word(8)), attr(5, &[9, 9, 9, 8])]),
        route(0, 0, &[attr(15, &word(254)), attr(4, &word(7))]),
        route(0, 0, &[attr(15, &word(254)), attr(4, &word(7)), attr(5, &[10, 0, 0, 1])]),
        route(0, 0, &[attr(15, &word(254)), attr(4, &word(7)), attr(5, &[10, 0, 0, 9])]),
    ];
    let r = get_link(&m, &l, &addrs, &routes).unwrap();
    assert!(r.is_up);
    assert_eq!(r.ifindex, 7);
    assert_eq!(r.ifname, "tun0");
    assert_eq!(r.addrs, vec![IpAddr::V4(0x0a00_0002), IpAddr::V4(0x0a00_0004)]);
    assert_eq!(r.gateway, Some(IpAddr::V4(0x0a00_0001)));
    assert_eq!(gateway_of(&m, &routes[0], 7), None);
    assert_eq!(gateway_of(&m, &routes[3], 7), Some(IpAddr::V4(0x0a00_0001)));
}

#[test]
fn device_is_down_and_without_gateway() {
    let m = Machine::here();
    let l = link(3, 0x1002, &[attr(3, b"w\xff\0")]);
    let r = get_link(&m, &l, &vec![], &vec![]).unwrap();
    assert!(!r.is_up);
    assert_eq!(r.ifname, "w\u{fffd}");
    assert!(r.addrs.is_empty());
    assert!(r.gateway.is_none());
}

#[test]
fn device_without_name_is_refused() {
    let m = Machine::here();
    let l = link(3, 1, &[]);
    assert!(matches!(get_link(&m, &l, &vec![], &vec![]), Err(Error::MissingAttribute)));
}

#[test]
fn default_route_is_put_together() {
    let m = Machine::here();
    let r = route(
        32,
        0,
        &[attr(4, &word(2)), attr(7, &[192, 168, 0, 5]), attr(5, &[192, 168, 0, 1])],
    );
    let l = link(2, 1, &[attr(3, b"eth0\0")]);
    assert_eq!(default_device(&m, &r), Some(2));
    let d = get_default_link(&m, &r, &l).unwrap();
    assert!(d.is_up);
    assert_eq!(d.ifindex, 2);
    assert_eq!(d.ifname, "eth0");
    assert_eq!(d.addrs, vec![IpAddr::V4(0xc0a8_0005)]);
    assert_eq!(d.gateway, Some(IpAddr::V4(0xc0a8_0001)));
    assert!(get_default_link(&m, &route(32, 0, &[]), &l).is_none());
    assert!(get_default_link(&m, &r, &link(2, 1, &[])).is_none());
    assert_eq!(default_device(&m, &route(32, 0, &[])), None);
}

#[test]
fn only_routes_of_the_table_are_cleared() {
    let m = Machine::here();
    let replies = vec![
        route(24, 0, &[attr(15, &word(99)), attr(1, &[10, 0, 0, 0])]),
        route(8, 0, &[attr(15, &word(98)), attr(1, &[11, 0, 0, 0])]),
        route(0, 0, &[attr(15, &word(99))]),
        route(0, 0, &[]),
    ];
    let rs = clear_table(&m, &replies, 99);
    assert_eq!(rs.len(), 2);
    let mut first = vec![2u8, 24, 0, 0, 0, 0, 255, 0, 0, 0, 0, 0];
    first.extend(attr(1, &[10, 0, 0, 0]));
    first.extend(attr(15, &word(99)));
    assert_eq!((rs[0].kind, rs[0].flags), (25, 0));
    assert_eq!(rs[0].payload, first);
    let mut second = vec![2u8, 0, 0, 0, 0, 0, 255, 0, 0, 0, 0, 0];
    second.extend(attr(1, &[0, 0, 0, 0]));
    second.extend(attr(15, &word(99)));
    assert_eq!(rs[1].payload, second);
}

#[test]
fn routes_are_cloned_into_the_table() {
    let m = Machine::here();
    let b = route(
        24,
        0x13,
        &[attr(1, &[192, 168, 1, 0]), attr(15, &word(254)), attr(4, &word(3))],
    );
    let q = clone_route(&m, &b, 0x1234_5678).unwrap();
    assert_eq!((q.kind, q.flags), (24, 0x400));
    let mut expected = vec![2u8, 24, 0, 0, 0, 3, 0, 1];
    expected.extend(word(3));
    expected.extend(attr(1, &[192, 168, 1, 0]));
    expected.extend(attr(15, &word(0x1234_5678)));
    expected.extend(attr(4, &word(3)));
    assert_eq!(q.payload, expected);
}

#[test]
fn wide_and_foreign_routes_are_not_cloned() {
    let m = Machine::here();
    let main = attr(15, &word(254));
    assert!(clone_route(&m, &route(0, 0, &[main.clone()]), 5).is_none());
    assert!(clone_route(&m, &route(1, 0, &[main.clone()]), 5).is_none());
    assert!(clone_route(&m, &route(2, 0, &[main]), 5).is_some());
    assert!(clone_route(&m, &route(24, 0, &[attr(15, &word(255))]), 5).is_none());
    assert!(clone_route(&m, &route(24, 0, &[]), 5).is_none());
}

#[test]
fn route_notices_are_heard() {
    let m = Machine::here();
    let mut s = State::default();
    s.config.allow_lan = false;
    let to = known();
    let ours = route(0, 0, &[attr(4, &word(7))]);
    let others = route(0, 0, &[attr(4, &word(8))]);
    let foreign = route(0, 0, &[attr(15, &word(254)), attr(4, &word(7))]);
    let h = multicast(&m, 24, &ours, &s, Some(&to));
    assert!(h.output && !h.default_route);
    assert!(!multicast(&m, 24, &others, &s, Some(&to)).output);
    assert!(!multicast(&m, 24, &foreign, &s, Some(&to)).output);
    assert!(!multicast(&m, 24, &ours, &s, None).output);
    s.config.allow_lan = true;
    assert!(multicast(&m, 25, &others, &s, Some(&to)).output);
    s.matches.dns_count = 1;
    assert!(multicast(&m, 27, &others, &s, None).default_route);
    assert!(!multicast(&m, 27, &foreign, &s, None).default_route);
    assert!(!multicast(&m, 28, &ours, &s, Some(&to)).output);
}

#[test]
fn link_notices_are_heard() {
    let m = Machine::here();
    let mut s = State::default();
    s.to_dev = "wg0".to_string();
    let to = known();
    assert!(multicast(&m, 16, &link(3, 0, &[attr(3, b"wg0\0")]), &s, None).output);
    assert!(multicast(&m, 16, &link(7, 0, &[attr(3, b"x\0")]), &s, Some(&to)).output);
    assert!(multicast(&m, 17, &link(3, 0, &[attr(3, b"tun0\0")]), &s, Some(&to)).output);
    assert!(!multicast(&m, 16, &link(3, 0, &[attr(3, b"x\0")]), &s, Some(&to)).output);
    assert!(!multicast(&m, 16, &link(-7, 0, &[attr(3, b"x\0")]), &s, Some(&to)).output);
    assert!(!multicast(&m, 20, &link(3, 0, &[attr(3, b"wg0\0")]), &s, None).output);
}

#[test]
fn known_routes_are_kept() {
    let to = known();
    assert!(matches!(update_route(Some(&to), Some(known())), Update::Keep));
    assert!(matches!(update_route(None, Some(known())), Update::Replace(Some(_))));
    assert!(matches!(update_route(Some(&to), None), Update::Replace(None)));
    let moved = Route { gateway: Some(IpAddr::V4(1)), ..known() };
    assert!(!moved.same(&to));
    assert!(matches!(update_route(Some(&to), Some(moved)), Update::Replace(Some(_))));
    assert!(!default_changed(Some(&to), Some(&known())));
    assert!(default_changed(Some(&to), None));
    assert!(!default_changed(None, None));
}

#[test]
fn addresses_are_written_out() {
    assert_eq!(IpAddr::V4(0x0a00_0102).text(), "10.0.1.2");
    assert_eq!(IpAddr::V6(1).text(), "::1");
    assert_eq!(IpAddr::V6(0xfe80 << 112 | 0x1234).text(), "fe80::1234");
}

fn with_stats(tx: u64, rx: u64) -> Vec<u8> {
    let mut v = Vec::new();
    for x in [1u64, 2, rx, tx] {
        v.extend(x.to_ne_bytes());
    }
    v.extend([0u8; 168]);
    link(7, 1, &[attr(3, b"tun0\0"), attr(23, &v)])
}

#[test]
fn traffic_is_the_difference() {
    let m = Machine::here();
    let mut h = StatsHist::new(5);
    assert_eq!(h.traffic(), Traffic { tx: 0, rx: 0, nanos: 0 });
    h.refresh(&m, Some(&with_stats(100, 2000)), 1_000_000_005);
    assert_eq!(h.traffic(), Traffic { tx: 0, rx: 0, nanos: 0 });
    h.refresh(&m, Some(&with_stats(150, 2600)), 3_000_000_005);
    assert_eq!(h.traffic(), Traffic { tx: 50, rx: 600, nanos: 2_000_000_000 });
    h.refresh(&m, Some(&with_stats(10, 2700)), 4_000_000_005);
    assert_eq!(h.traffic(), Traffic { tx: 0, rx: 100, nanos: 1_000_000_000 });
    h.refresh(&m, None, 9);
    assert_eq!(h, StatsHist::new(9));
}

#[test]
fn missing_statistics_are_told() {
    let m = Machine::here();
    let mut h = StatsHist::new(5);
    let r = h.get_stats(&m, &link(7, 1, &[attr(3, b"tun0\0")]), 6);
    assert!(matches!(r, Err(Error::MissingAttribute)));
    assert_eq!(h, StatsHist::new(5));
    assert!(h.get_stats(&m, &with_stats(1, 2), 6).is_ok());
    assert_eq!((h.cur.time, h.cur.tx_bytes, h.cur.rx_bytes), (6, 1, 2));
}

#[test]
fn numbers_grow_stale_after_a_second() {
    assert!(!is_stale(10, 1_000_000_010));
    assert!(is_stale(10, 1_000_000_011));
    assert!(!is_stale(10, 3));
}

#[test]
fn traffic_is_told() {
    let r = tell_traffic(&Traffic { tx: 7, rx: 8, nanos: 9 }, "0.5".to_string());
    let expected = [("tx-bytes", "7"), ("rx-bytes", "8"), ("dtime-sec", "0.5")];
    let got: Vec<(&str, &str)> = r.iter().map(|(k, v)| (k.as_str(), v.as_str())).collect();
    assert_eq!(got, expected);
}
