use rebpf::bytes::Machine;
use rebpf::dns::{remove_record, setup_record, setup_records, Ways};
use rebpf::kinds::Direction;
use rebpf::route::{IpAddr, Route};
use rebpf::rtnl::Request;
use rebpf::rules::{
    addresses, host_gone, link_by_index, link_by_name, route_gone, route_out, route_to, routes_in_table,
    routes_of_device, routes_of_main, rule_from, rule_gone_by_mark, rule_gone_by_table, rule_marked,
    rule_static, rule_to, rule_unreachable,
};

const TABLE: u32 = 0x0102_0304;

fn word(x: u32) -> Vec<u8> {
    x.to_ne_bytes().to_vec()
}

fn attr(kind: u16, value: &[u8]) -> Vec<u8> {
    let mut v = Vec::new();
    v.extend((4 + value.len() as u16).to_ne_bytes());
    v.extend(kind.to_ne_bytes());
    v.extend(value);
    while v.len() % 4 != 0 {
        v.push(0);
    }
    v
}

fn payload(header: &[u8], attrs: &[Vec<u8>]) -> Vec<u8> {
    let mut v = header.to_vec();
    for a in attrs {
        v.extend(a);
    }
    v
}

fn rule_header(dst_len: u8, src_len: u8, action: u8) -> Vec<u8> {
    vec![2, dst_len, src_len, 0, 0, 0, 0, action, 0, 0, 0, 0]
}

fn route_header(dst_len: u8, table: u8, protocol: u8, scope: u8, kind: u8) -> Vec<u8> {
    vec![2, dst_len, 0, 0, table, protocol, scope, kind, 0, 0, 0, 0]
}

fn check(r: &Request, kind: u16, flags: u16, bytes: Vec<u8>) {
    assert_eq!(r.kind, kind);
    assert_eq!(r.flags, flags);
    assert_eq!(r.payload, bytes);
}

fn way() -> Route {
    Route {
        is_up: true,
        ifindex: 7,
        ifname: "tun0".to_string(),
        addrs: vec![IpAddr::V4(0x0a00_0002), IpAddr::V4(0x0a00_0003)],
        gateway: Some(IpAddr::V4(0x0a00_0001)),
    }
}

#[test]
fn rule_from_an_address() {
    let m = Machine::here();
    let r = rule_from(&m, IpAddr::V4(0x0a00_0001), TABLE);
    let attrs = [attr(2, &[10, 0, 0, 1]), attr(15, &word(TABLE)), attr(6, &word(0))];
    check(&r, 32, 0x600, payload(&rule_header(0, 32, 1), &attrs));
}

#[test]
fn rule_from_an_ipv6_address() {
    let m = Machine::here();
    let r = rule_from(&m, IpAddr::V6(1), TABLE);
    let mut one = vec![0u8; 15];
    one.push(1);
    let attrs = [attr(2, &one), attr(15, &word(TABLE)), attr(6, &word(0))];
    check(&r, 32, 0x600, payload(&rule_header(0, 32, 1), &attrs));
}

#[test]
fn rule_for_marked_traffic() {
    let m = Machine::here();
    let r = rule_marked(&m, TABLE);
    let attrs = [attr(10, &word(TABLE)), attr(15, &word(TABLE)), attr(6, &word(0))];
    check(&r, 32, 0x600, payload(&rule_header(0, 0, 1), &attrs));
}

#[test]
fn rule_to_a_subnet() {
    let m = Machine::here();
    let r = rule_to(&m, 0xc0a8_0000, 16, 254, TABLE);
    let attrs = [
        attr(15, &word(254)),
        attr(1, &[192, 168, 0, 0]),
        attr(6, &word(0)),
        attr(10, &word(TABLE)),
        attr(16, &word(0)),
    ];
    check(&r, 32, 0x400, payload(&rule_header(16, 0, 1), &attrs));
}

#[test]
fn rule_that_rejects() {
    let m = Machine::here();
    let r = rule_unreachable(&m, TABLE, true);
    let attrs = [attr(10, &word(TABLE)), attr(15, &word(TABLE)), attr(6, &word(0))];
    check(&r, 32, 0x600, payload(&rule_header(0, 0, 7), &attrs));
    let r = rule_unreachable(&m, TABLE, false);
    let attrs = [attr(10, &word(TABLE)), attr(15, &word(TABLE))];
    check(&r, 32, 0x600, payload(&rule_header(0, 0, 7), &attrs));
}

#[test]
fn rule_that_stays() {
    let m = Machine::here();
    let r = rule_static(&m, TABLE);
    let attrs = [attr(6, &word(0)), attr(2, &[0, 0, 0, 0]), attr(15, &word(TABLE))];
    check(&r, 32, 0x600, payload(&rule_header(0, 0, 1), &attrs));
}

#[test]
fn rules_that_go() {
    let m = Machine::here();
    let r = rule_gone_by_table(&m, TABLE);
    check(&r, 33, 0, payload(&rule_header(0, 0, 0), &[attr(15, &word(TABLE))]));
    let r = rule_gone_by_mark(&m, TABLE);
    let attrs = [attr(10, &word(TABLE)), attr(16, &word(0))];
    check(&r, 33, 0, payload(&rule_header(0, 0, 0), &attrs));
}

#[test]
fn default_route_out() {
    let m = Machine::here();
    let r = route_out(&m, None, TABLE, &way());
    let attrs = [
        attr(15, &word(TABLE)),
        attr(4, &word(7)),
        attr(7, &[10, 0, 0, 2]),
        attr(5, &[10, 0, 0, 1]),
    ];
    check(&r, 24, 0x600, payload(&route_header(0, 0, 3, 0, 1), &attrs));
}

#[test]
fn route_out_without_address_and_gateway() {
    let m = Machine::here();
    let w = Route { addrs: vec![], gateway: None, ..way() };
    let r = route_out(&m, Some(0x0808_0808), TABLE, &w);
    let attrs = [attr(1, &[8, 8, 8, 8]), attr(15, &word(TABLE)), attr(4, &word(7))];
    check(&r, 24, 0x600, payload(&route_header(32, 0, 3, 0, 1), &attrs));
}

#[test]
fn routes_that_are_listed() {
    let m = Machine::here();
    let r = routes_in_table(&m, TABLE);
    let bytes = payload(&route_header(0, 0, 0, 0, 0), &[attr(15, &word(TABLE))]);
    check(&r, 26, 0x300, bytes);
    check(&routes_of_main(&m), 26, 0x300, route_header(0, 254, 0, 0, 0));
    let r = routes_of_device(&m, 9);
    check(&r, 26, 0x300, payload(&route_header(0, 254, 0, 0, 0), &[attr(4, &word(9))]));
}

#[test]
fn routes_that_go() {
    let m = Machine::here();
    let r = route_gone(&m, IpAddr::V4(0x0a00_0000), 8, TABLE);
    let attrs = [attr(1, &[10, 0, 0, 0]), attr(15, &word(TABLE))];
    check(&r, 25, 0, payload(&route_header(8, 0, 0, 255, 0), &attrs));
    let r = host_gone(&m, 0x0808_0808, TABLE);
    let attrs = [attr(1, &[8, 8, 8, 8]), attr(15, &word(TABLE))];
    check(&r, 25, 0, payload(&route_header(32, 0, 0, 0, 1), &attrs));
    let again = remove_record(&m, 0x0808_0808, TABLE);
    check(&again, 25, 0, r.payload);
}

#[test]
fn route_that_is_looked_up() {
    let m = Machine::here();
    let r = route_to(&m, 0x0102_0304);
    check(&r, 26, 0, payload(&route_header(32, 0, 0, 0, 0), &[attr(1, &[1, 2, 3, 4])]));
}

#[test]
fn devices_that_are_looked_up() {
    let m = Machine::here();
    let mut header = vec![0u8; 4];
    header.extend(word(5));
    header.extend([0u8; 8]);
    check(&link_by_index(&m, 5), 18, 0, header);
    let mut header = vec![0u8; 16];
    header[0] = 17;
    let r = link_by_name(&m, 17, "tun0");
    let mut bytes = payload(&header, &[attr(3, b"tun0\0")]);
    // What follows an attribute pads it, so the last one is not padded.
    bytes.truncate(25);
    check(&r, 18, 0, bytes);
}

#[test]
fn addresses_that_are_listed() {
    let m = Machine::here();
    check(&addresses(&m), 22, 0x300, vec![2, 0, 0, 253, 0, 0, 0, 0]);
}

#[test]
fn records_are_set_up_by_direction() {
    let m = Machine::here();
    let out = way();
    let ways = Ways { to: Some(&out), default: None, table: TABLE };
    let r = setup_record(&m, 0x0808_0808, Direction::redirect, &ways).unwrap();
    let attrs = [
        attr(1, &[8, 8, 8, 8]),
        attr(15, &word(TABLE)),
        attr(4, &word(7)),
        attr(7, &[10, 0, 0, 2]),
        attr(5, &[10, 0, 0, 1]),
    ];
    check(&r, 24, 0x600, payload(&route_header(32, 0, 3, 0, 1), &attrs));
    assert!(setup_record(&m, 0x0808_0808, Direction::bypass, &ways).is_none());
    let news = vec![(1, Direction::redirect), (2, Direction::bypass), (3, Direction::redirect)];
    assert_eq!(setup_records(&m, &news, &ways).len(), 2);
}
