use rebpf::bytes::Machine;
use rebpf::dns::{DnsState, Ways};
use rebpf::error::Error;
use rebpf::kinds::{Direction, Kind, Method};
use rebpf::matching::Match;
use rebpf::route::Route;

const SECOND: u64 = 1_000_000_000;
const NOW: u64 = 50 * SECOND;

fn domain(pattern: &str, direction: Direction) -> Match {
    Match {
        pattern: pattern.to_string(),
        kind: Kind::dns,
        method: Method::full,
        direction,
        user: String::new(),
        uid: 0,
    }
}

fn state() -> DnsState {
    let mut s = DnsState::new();
    s.update_cache(&vec![
        domain("one.org", Direction::redirect),
        Match { kind: Kind::basename, ..domain("two.org", Direction::bypass) },
        domain("Three.org", Direction::bypass),
        domain("a..b", Direction::bypass),
    ]);
    s
}

fn to() -> Route {
    Route {
        is_up: true,
        ifindex: 7,
        ifname: "tun0".to_string(),
        addrs: vec![],
        gateway: None,
    }
}

fn name(n: &str) -> Vec<u8> {
    let mut v = Vec::new();
    for l in n.split('.') {
        v.push(l.len() as u8);
        v.extend(l.as_bytes());
    }
    v.push(0);
    v
}

fn message(flags: u16, questions: &[&str], answers: &[(&str, u16, u32, &[u8])]) -> Vec<u8> {
    let mut v = vec![0x12u8, 0x34];
    v.extend(flags.to_be_bytes());
    v.extend((questions.len() as u16).to_be_bytes());
    v.extend((answers.len() as u16).to_be_bytes());
    v.extend([0u8; 4]);
    for q in questions {
        v.extend(name(q));
        v.extend([0, 1, 0, 1]);
    }
    for (n, kind, ttl, data) in answers {
        v.extend(name(n));
        v.extend(kind.to_be_bytes());
        v.extend([0, 1]);
        v.extend(ttl.to_be_bytes());
        v.extend((data.len() as u16).to_be_bytes());
        v.extend(*data);
    }
    v
}

fn parse(s: &mut DnsState, data: Vec<u8>, now: u64) -> Result<usize, Error> {
    let m = Machine::here();
    let out = to();
    let ways = Ways { to: Some(&out), default: None, table: 99 };
    s.parse(&m, &data, now, 3600, &ways).map(|r| r.len())
}

fn pairs(h: &[(String, String)]) -> Vec<(&str, &str)> {
    h.iter().map(|(k, v)| (k.as_str(), v.as_str())).collect()
}

#[test]
fn answers_become_records() {
    let mut s = state();
    let data = message(
        0x8180,
        &["one.org"],
        &[
            ("ONE.org", 1, 60, &[1, 2, 3, 4]),
            ("one.org", 1, 90, &[1, 2, 3, 4]),
            ("other.org", 1, 60, &[1, 2, 3, 5]),
            ("three.org", 1, 100_000, &[9, 9, 9, 9]),
            ("two.org", 1, 60, &[8, 8, 8, 8]),
            ("one.org", 28, 60, &[0; 16]),
        ],
    );
    assert_eq!(parse(&mut s, data, NOW).unwrap(), 1);
    assert_eq!(s.records.len(), 2);
    assert_eq!(s.records[0].name.text, "ONE.org.");
    assert_eq!(s.records[0].name.labels, vec![b"one".to_vec(), b"org".to_vec()]);
    assert_eq!(s.records[0].dest, 0x0102_0304);
    assert_eq!(s.records[0].due, NOW + 60 * SECOND);
    assert_eq!(s.records[0].expires, NOW + 90 * SECOND);
    assert_eq!(s.records[1].dest, 0x0909_0909);
    assert_eq!(s.records[1].due, NOW + 3600 * SECOND);
}

#[test]
fn useless_messages_are_refused() {
    let mut s = state();
    assert!(matches!(parse(&mut s, vec![1, 2, 3], NOW), Err(Error::BadMessage(_))));
    assert!(matches!(parse(&mut s, message(0x8180, &[], &[]), NOW), Err(Error::EmptyMessage)));
    let query = message(0x0100, &["one.org"], &[]);
    assert!(matches!(parse(&mut s, query, NOW), Err(Error::NotAResponse)));
    let failed = message(0x8183, &["one.org"], &[("one.org", 1, 60, &[1, 2, 3, 4])]);
    assert!(matches!(parse(&mut s, failed, NOW), Err(Error::FailedResponse(3))));
    assert!(s.records.is_empty());
}

fn filled() -> DnsState {
    let mut s = state();
    let data = message(
        0x8180,
        &["one.org"],
        &[
            ("one.org", 1, 60, &[1, 2, 3, 4]),
            ("one.org", 1, 30, &[1, 2, 3, 5]),
            ("three.org", 1, 30, &[9, 9, 9, 9]),
        ],
    );
    assert_eq!(parse(&mut s, data, NOW).unwrap(), 2);
    s
}

#[test]
fn records_expire_in_order() {
    let mut s = filled();
    assert_eq!(s.next_due(), Some(NOW + 30 * SECOND));
    let renewal = message(0x8180, &["one.org"], &[("one.org", 1, 100, &[1, 2, 3, 5])]);
    assert_eq!(parse(&mut s, renewal, NOW + SECOND).unwrap(), 0);
    assert!(s.expire(NOW + 29 * SECOND).is_empty());
    let gone = s.expire(NOW + 30 * SECOND);
    assert_eq!(gone, vec![(NOW + 30 * SECOND, 0x0909_0909)]);
    assert_eq!(s.records.len(), 2);
    assert_eq!(s.next_due(), Some(NOW + 60 * SECOND));
    let gone = s.expire(NOW + 200 * SECOND);
    let dests: Vec<u32> = gone.iter().map(|g| g.1).collect();
    assert_eq!(dests, vec![0x0102_0304, 0x0102_0305]);
    assert_eq!(s.next_due(), None);
}

#[test]
fn records_are_told() {
    let s = filled();
    let told = s.get_dns_records(NOW + 500_000_000);
    assert_eq!(told.len(), 3);
    assert_eq!(
        pairs(&told[0]),
        [
            ("ttl", "59"),
            ("name", "one.org."),
            ("address", "1.2.3.4"),
            ("direction", "redirect"),
            ("match-id", "0")
        ]
    );
    assert_eq!(pairs(&told[2])[3], ("direction", "bypass"));
    assert_eq!(pairs(&told[2])[4], ("match-id", "2"));
    let late = s.get_dns_records(NOW + 90 * SECOND);
    assert_eq!(pairs(&late[0])[0], ("ttl", "0"));
}

fn request(h: &[(&str, &str)]) -> Vec<(String, String)> {
    h.iter().map(|(k, v)| (k.to_string(), v.to_string())).collect()
}

#[test]
fn records_are_retired() {
    let mut s = filled();
    let gone = s.retire_dns_record(&request(&[("name", "ONE.org"), ("destination", "1.2.3.5")]));
    assert_eq!(gone.unwrap(), vec![0x0102_0305]);
    assert_eq!(s.records.len(), 2);
    let r = s.retire_dns_record(&request(&[("name", "one.org"), ("destination", "9.9.9.9")]));
    assert!(matches!(r, Err(Error::NoSuchRecord)));
    let r = s.retire_dns_record(&request(&[("destination", "9.9.9")]));
    assert!(matches!(r, Err(Error::BadAddress(_))));
    let r = s.retire_dns_record(&request(&[("name", "a..b")]));
    assert!(matches!(r, Err(Error::BadName(_))));
    assert_eq!(s.records.len(), 2);
    assert_eq!(s.retire_dns_record(&request(&[])).unwrap().len(), 2);
    assert!(s.records.is_empty());
}

#[test]
fn matches_change_what_is_kept() {
    let m = Machine::here();
    let mut s = filled();
    let out = to();
    let ways = Ways { to: Some(&out), default: None, table: 99 };
    let ms = vec![domain("three.org", Direction::redirect)];
    let rs = s.refresh(&m, Some(&ms), true, &ways);
    assert_eq!(s.records.len(), 1);
    assert_eq!(s.records[0].dest, 0x0909_0909);
    assert_eq!(rs.len(), 1);
    assert!(s.refresh(&m, None, false, &ways).is_empty());
    assert_eq!(s.records.len(), 1);
    assert_eq!(s.directions(), vec![(0x0909_0909, Direction::redirect)]);
    s.update_cache(&vec![]);
    s.retain_cached();
    assert!(s.records.is_empty());
}

#[test]
fn later_matches_count() {
    let mut s = DnsState::new();
    s.update_cache(&vec![
        domain("one.org", Direction::redirect),
        domain("one.org.", Direction::bypass),
    ]);
    let n = s.cache[0].name.clone();
    assert!(n.same(&s.cache[1].name));
    assert_eq!(s.lookup(&n), Some((Direction::bypass, 1)));
}

#[test]
fn last_answer_for_an_address_decides() {
    let mut s = state();
    let first: &[u8] = &[1, 1, 1, 1];
    let second: &[u8] = &[2, 2, 2, 2];
    let heard = message(
        0x8000,
        &["one.org"],
        &[
            ("one.org", 1, 30, first),
            ("one.org", 1, 40, second),
            ("ONE.org", 1, 10, first),
            ("other.org", 1, 90, first),
            ("one.org", 1, 20, first),
        ],
    );
    assert_eq!(parse(&mut s, heard, NOW).unwrap(), 2);
    assert_eq!(s.records.len(), 2);
    assert_eq!((s.records[0].dest, s.records[1].dest), (0x0101_0101, 0x0202_0202));
    assert_eq!(s.records[0].expires, NOW + 20 * SECOND);
    assert_eq!(s.records[0].due, NOW + 30 * SECOND);
    assert_eq!(s.records[1].expires, NOW + 40 * SECOND);

    let again = message(0x8000, &["one.org"], &[("one.org", 1, 50, second)]);
    assert_eq!(parse(&mut s, again, NOW + SECOND).unwrap(), 0);
    assert_eq!(s.records.len(), 2);
    assert_eq!(s.records[0].expires, NOW + 20 * SECOND);
    assert_eq!(s.records[1].expires, NOW + 51 * SECOND);
    assert_eq!(s.records[1].due, NOW + 40 * SECOND);
}
