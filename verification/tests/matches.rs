use rebpf::bpf::BpfCtx;
use rebpf::bytes::Order;
use rebpf::error::Error;
use rebpf::kinds::{Direction, Kind, Method};
use rebpf::matches::Matches;
use rebpf::matching::Match;
use rebpf::state::State;

const LIMIT: u32 = 1 << 20;

fn new(pattern: &str, kind: Kind, method: Method) -> Match {
    Match {
        pattern: pattern.to_string(),
        kind,
        method,
        direction: Direction::redirect,
        user: String::new(),
        uid: 0,
    }
}

fn fields(h: &[(&str, &str)]) -> Vec<(String, String)> {
    h.iter().map(|(k, v)| (k.to_string(), v.to_string())).collect()
}

fn pairs(h: &[(String, String)]) -> Vec<(&str, &str)> {
    h.iter().map(|(k, v)| (k.as_str(), v.as_str())).collect()
}

#[test]
fn matches_are_added_and_taken_away() {
    let mut m = Matches::default();
    m.add(new("curl", Kind::basename, Method::full), LIMIT).unwrap();
    m.add(new("one.org", Kind::dns, Method::full), LIMIT).unwrap();
    assert_eq!((m.matches.len(), m.generation, m.dns_count), (2, 2, 1));
    m.del(new("one.org", Kind::dns, Method::regex), LIMIT).unwrap();
    assert_eq!((m.matches.len(), m.generation, m.dns_count), (1, 3, 0));
    let r = m.del(new("one.org", Kind::dns, Method::full), LIMIT);
    assert!(matches!(r, Err(Error::NoSuchMatch)));
    assert_eq!((m.matches.len(), m.generation, m.dns_count), (1, 3, 0));
}

#[test]
fn matches_are_replaced_in_place() {
    let mut m = Matches::default();
    for p in ["a", "b", "c"] {
        m.add(new(p, Kind::basename, Method::full), LIMIT).unwrap();
    }
    let from = new("b", Kind::basename, Method::full);
    m.replace(from, new("two.org", Kind::dns, Method::full), LIMIT).unwrap();
    let ps: Vec<&str> = m.matches.iter().map(|x| x.pattern.as_str()).collect();
    assert_eq!(ps, ["a", "two.org", "c"]);
    assert_eq!((m.generation, m.dns_count), (4, 1));
    let from = new("b", Kind::basename, Method::full);
    let r = m.replace(from, new("d", Kind::basename, Method::full), LIMIT);
    assert!(matches!(r, Err(Error::NoSuchMatch)));
}

#[test]
fn first_of_equal_matches_goes() {
    let mut m = Matches::default();
    m.add(new("a", Kind::basename, Method::full), LIMIT).unwrap();
    m.add(new("a", Kind::basename, Method::prefix), LIMIT).unwrap();
    m.del(new("a", Kind::basename, Method::prefix), LIMIT).unwrap();
    assert_eq!(m.matches[0].method, Method::prefix);
}

#[test]
fn refused_matches_change_nothing() {
    let mut m = Matches::default();
    m.add(new("curl", Kind::basename, Method::full), LIMIT).unwrap();
    let r = m.add(new("(", Kind::path, Method::regex), LIMIT);
    assert!(matches!(r, Err(Error::Regex(_))));
    m.add(new("(", Kind::path, Method::full), LIMIT).unwrap();
    let r = m.add(new("1.2.3", Kind::ipv4, Method::full), LIMIT);
    assert!(matches!(r, Err(Error::BadAddress(_))));
    let r = m.add(new("1.2.3.4", Kind::ipv4, Method::subnet), LIMIT);
    assert!(matches!(r, Err(Error::BadSubnet(_))));
    m.add(new("1.2.3.4/8", Kind::ipv4, Method::subnet), LIMIT).unwrap();
    m.add(new("fe80::/10", Kind::ipv4, Method::subnet), LIMIT).unwrap();
    let r = m.add(new("1.2.3.4", Kind::ipv4, Method::regex), LIMIT);
    assert!(matches!(r, Err(Error::InvalidMethod(Method::regex, Kind::ipv4))));
    assert_eq!(m.matches.len(), 4);
    assert_eq!(m.generation, 4);
    assert!(m.try_parse(&new("[", Kind::path, Method::regex), LIMIT).is_err());
    assert_eq!(m.matches.len(), 4);
}

#[test]
fn methods_become_patterns() {
    let r = |p: &str, m: Method| Matches::method_regex(&new(p, Kind::path, m));
    assert_eq!(r("a.b", Method::full).unwrap(), "a\\.b");
    assert_eq!(r("a+", Method::substring).unwrap(), "[^/]*a\\+.*");
    assert_eq!(r("a", Method::prefix).unwrap(), "a.*");
    assert_eq!(r("a", Method::suffix).unwrap(), "[^/]*a");
    assert_eq!(r("a.+", Method::regex).unwrap(), "a.+");
    assert_eq!(r("a", Method::subnet), None);
    assert_eq!(r("", Method::full), None);
}

#[test]
fn count_is_made_right() {
    let mut m = Matches::default();
    m.matches.push(new("a", Kind::dns, Method::full));
    m.matches.push(new("b", Kind::path, Method::full));
    m.matches.push(new("c", Kind::dns, Method::full));
    m.dns_count = 77;
    m.update();
    assert_eq!(m.dns_count, 2);
}

#[test]
fn match_reads_its_fields() {
    let h = fields(&[
        ("pattern", "curl"),
        ("kind", "path"),
        ("method", "suffix"),
        ("direction", "bypass"),
        ("user", "me"),
        ("uid", "1000"),
    ]);
    let m = Match::from_hashmap(&h, 5).unwrap();
    assert_eq!(m.pattern, "curl");
    assert_eq!(m.kind, Kind::path);
    assert_eq!(m.method, Method::suffix);
    assert_eq!(m.direction, Direction::bypass);
    assert_eq!((m.user.as_str(), m.uid), ("me", 1000));
    assert_eq!(pairs(&m.to_hashmap()), pairs(&h));
}

#[test]
fn missing_fields_have_defaults() {
    let m = Match::from_hashmap(&fields(&[("kind", "dns")]), 5).unwrap();
    assert_eq!((m.pattern.as_str(), m.user.as_str(), m.uid), ("", "", 5));
    assert_eq!(m.method, Method::full);
    assert_eq!(m.direction, Direction::redirect);
    assert!(m.is_dns() && !m.is_per_process());
    let listed = m.to_hashmap();
    let expected = [("kind", "dns"), ("method", "full"), ("direction", "redirect"), ("uid", "5")];
    assert_eq!(pairs(&listed), expected);
}

#[test]
fn wrong_fields_are_refused() {
    let r = |k: &str, v: &str| Match::from_hashmap(&fields(&[(k, v)]), 0);
    assert!(matches!(r("kind", "Dns"), Err(Error::UnknownKind(t)) if t == "Dns"));
    assert!(matches!(r("method", ""), Err(Error::UnknownMethod(t)) if t.is_empty()));
    assert!(matches!(r("direction", "up"), Err(Error::UnknownDirection(t)) if t == "up"));
    assert!(matches!(r("uid", "-1"), Err(Error::BadNumber(t)) if t == "-1"));
    assert!(matches!(r("uid", "4294967296"), Err(Error::BadNumber(_))));
    assert!(matches!(r("Pattern", "x"), Err(Error::UnknownMatchField(t)) if t == "Pattern"));
    assert_eq!(r("uid", "+7").unwrap().uid, 7);
}

#[test]
fn matches_are_the_same_whatever_their_method() {
    let a = new("a", Kind::path, Method::full);
    assert!(a.is_eq_to(&new("a", Kind::path, Method::regex)));
    assert!(!a.is_eq_to(&new("a", Kind::basename, Method::full)));
    assert!(!a.is_eq_to(&Match { uid: 1, ..a.clone() }));
    assert!(!a.is_eq_to(&Match { user: "x".to_string(), ..a.clone() }));
    assert!(!a.is_eq_to(&Match { direction: Direction::bypass, ..a.clone() }));
}

#[test]
fn kernel_side_is_compiled_once_per_generation() {
    let mut s = State::default();
    s.matches.add(new("curl", Kind::basename, Method::full), LIMIT).unwrap();
    s.matches.add(new("one.org", Kind::dns, Method::full), LIMIT).unwrap();
    let mut c = BpfCtx::new();
    let (b, e) = c.reload(&s, true, 9, LIMIT, Order::Little);
    assert!(e.is_none());
    assert!(b.enable && b.enable_dns && b.dfa.is_some());
    assert_eq!((b.mark, b.generation, b.arena_buf_len as usize), (9, 2, c.arena.len()));
    let arena = c.arena.clone();
    let (b, e) = c.reload(&s, false, 10, LIMIT, Order::Little);
    assert!(e.is_none() && b.dfa.is_none() && !b.enable && !b.enable_dns);
    assert_eq!(c.arena, arena);
    s.matches.del(new("curl", Kind::basename, Method::full), LIMIT).unwrap();
    let (b, e) = c.reload(&s, true, 11, LIMIT, Order::Little);
    assert!(b.dfa.is_none());
    assert!(matches!(e, Some(Error::NoFinalState)));
    assert_eq!((c.last_gen, c.arena.len()), (3, 0));
}
