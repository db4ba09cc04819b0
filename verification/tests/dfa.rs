use rebpf::automaton::Anchored;
use rebpf::bytes::{get_half, get_word, put_word, put_words, Machine, Order};
use rebpf::dfa::{build_dfa, encode, extract, extract_dfa, BpfDfa};
use rebpf::error::Error;
use rebpf::kinds::{Direction, Kind, Method};
use rebpf::matches::Matches;
use rebpf::matching::Match;

const LIMIT: u32 = 1 << 20;

fn path_match(pattern: &str, kind: Kind, method: Method, uid: u32) -> Match {
    Match {
        pattern: pattern.to_string(),
        kind,
        method,
        direction: if uid % 2 == 0 { Direction::redirect } else { Direction::bypass },
        user: String::new(),
        uid,
    }
}

/// Runs the automaton in the arena over a path, backwards, and gives for each
/// match that it reports the position, the user and the mark of the direction.
fn search(arena: &Vec<u8>, order: Order, h: &BpfDfa, path: &str) -> Vec<(u32, u32, u8)> {
    let base = h.dfa_off as usize;
    let next = |state: u32, class: u32| get_word(arena, order, base + 256 + 4 * (state + class) as usize);
    let mut state = h.start;
    for b in path.bytes().rev() {
        state = next(state, arena[base + b as usize] as u32);
    }
    state = next(state, h.eoi as u32);
    if state < h.fin_min || state > h.fin_max {
        return vec![];
    }
    let at = h.match_slices_off as usize + 8 * (state - h.fin_min) as usize;
    let off = get_word(arena, order, at);
    let len = get_word(arena, order, at + 4);
    (off..off + len)
        .map(|i| {
            (
                get_word(arena, order, h.match_id_table_off as usize + 4 * i as usize),
                get_word(arena, order, h.uid_table_off as usize + 4 * i as usize),
                arena[h.redirect_table_off as usize + i as usize],
            )
        })
        .collect()
}

#[test]
fn paths_are_found_in_the_arena() {
    for order in [Order::Little, Order::Big] {
        let mut m = Matches::default();
        m.matches = vec![
            path_match("1.1.1.1", Kind::ipv4, Method::full, 0),
            path_match("curl", Kind::basename, Method::full, 4),
            path_match("/opt/", Kind::path, Method::prefix, 5),
            path_match("", Kind::path, Method::full, 6),
            path_match("fire", Kind::basename, Method::substring, 7),
            path_match("fox", Kind::basename, Method::suffix, 8),
            path_match("a[0-9]+", Kind::basename, Method::regex, 9),
        ];
        let mut arena = vec![1u8, 2, 3, 4, 5];
        let h = m.build_path_dfa(&mut arena, LIMIT, order).unwrap();
        assert_eq!(&arena[..5], &[1, 2, 3, 4, 5]);
        assert_eq!(h.dfa_off, 8);
        // Where several patterns fit, the first one is reported.
        let find = |p: &str| search(&arena, order, &h, p);
        assert_eq!(find("/usr/bin/curl"), vec![(1, 4, 1)]);
        assert_eq!(find("curl"), vec![(1, 4, 1)]);
        assert_eq!(find("/usr/bin/xcurl"), vec![]);
        assert_eq!(find("/opt/curl"), vec![(1, 4, 1)]);
        assert_eq!(find("/opt/ls"), vec![(2, 5, 0)]);
        assert_eq!(find("/usr/opt/ls"), vec![]);
        assert_eq!(find("/bin/firefox"), vec![(4, 7, 0)]);
        assert_eq!(find("/bin/waterfox"), vec![(5, 8, 1)]);
        assert_eq!(find("/bin/a12"), vec![(6, 9, 0)]);
        assert_eq!(find("/bin/a"), vec![]);
        assert_eq!(find(""), vec![]);
    }
}

#[test]
fn tables_fit_together() {
    let x = extract_dfa(&vec!["^ab$".to_string(), "^b$".to_string()], LIMIT).unwrap();
    assert_eq!(x.ec_table.len(), 256);
    assert_eq!(x.ec_reps.len(), x.nclasses);
    assert_eq!(x.ec_classes.len(), x.nclasses);
    assert_eq!(x.eoi_class as usize + 1, x.nclasses);
    assert!(x.ec_reps[x.nclasses - 1].is_none());
    assert_eq!(x.trans.len() % x.stride, 0);
    assert!(x.trans.iter().all(|t| *t as usize + x.stride <= x.trans.len()));
    assert!(x.trans[..x.stride].iter().all(|t| *t == 0));
    assert_eq!(x.pats.len() as u32, x.fin_max - x.fin_min + 1);
    assert_ne!(x.ec_table[b'a' as usize], x.ec_table[b'b' as usize]);
    let rows = x.rows();
    assert_eq!(rows.len() * x.stride, x.trans.len());
    assert!(rows[0].dead && rows[0].edges.is_empty());
    assert_eq!(rows.iter().filter(|r| r.start).count(), 1);
    let start = rows.iter().find(|r| r.start).unwrap();
    assert_eq!(start.state, x.start);
    assert_eq!(start.edges.iter().map(|e| e.0).collect::<Vec<_>>(), vec![Some(b'b')]);
}

#[test]
fn automaton_is_anchored_only() {
    let d = build_dfa(&vec!["ab".to_string()], true, LIMIT).unwrap();
    assert!(extract(&d, Anchored::Yes, LIMIT).is_ok());
    assert!(matches!(extract(&d, Anchored::No, LIMIT), Err(Error::NoStart)));
}

#[test]
fn patterns_that_do_not_compile() {
    let r = build_dfa(&vec!["(".to_string()], true, LIMIT);
    assert!(matches!(r, Err(Error::Regex(_))));
    let r = extract_dfa(&vec!["[a-z]{50}".to_string()], 64);
    assert!(matches!(r, Err(Error::Regex(_))));
}

#[test]
fn automaton_can_be_too_large() {
    let d = build_dfa(&vec!["abc".to_string()], true, LIMIT).unwrap();
    let n = extract(&d, Anchored::Yes, LIMIT).unwrap().trans.len();
    match extract(&d, Anchored::Yes, 4 * n as u32 - 1) {
        Err(Error::TooManyStates(k)) => assert_eq!(k, n),
        r => panic!("{r:?}"),
    }
    assert!(extract(&d, Anchored::Yes, 4 * n as u32).is_ok());
}

#[test]
fn no_pattern_gives_no_final_state() {
    let m = Matches::default();
    let mut arena = vec![1u8];
    let r = m.build_path_dfa(&mut arena, LIMIT, Order::Little);
    assert!(matches!(r, Err(Error::NoFinalState)));
    assert_eq!(arena, vec![1u8]);
}

#[test]
fn arena_is_extended_twice() {
    let mut m = Matches::default();
    m.matches = vec![path_match("x", Kind::basename, Method::full, 2)];
    let mut arena = Vec::new();
    let x = extract_dfa(&vec!["^x$".to_string()], LIMIT).unwrap();
    let a = encode(&x, &mut arena, &vec![0], &m, Order::Little);
    let first = arena.clone();
    let b = encode(&x, &mut arena, &vec![0], &m, Order::Little);
    assert_eq!(arena[..first.len()], first[..]);
    assert!(b.dfa_off as usize >= first.len());
    assert_eq!(search(&arena, Order::Little, &a, "x"), vec![(0, 2, 1)]);
    assert_eq!(search(&arena, Order::Little, &b, "x"), vec![(0, 2, 1)]);
}

#[test]
fn words_in_both_orders() {
    let mut b = Vec::new();
    put_word(&mut b, Order::Little, 0x0102_0304);
    put_words(&mut b, Order::Big, &vec![0x0102_0304, 5]);
    assert_eq!(b, vec![4, 3, 2, 1, 1, 2, 3, 4, 0, 0, 0, 5]);
    assert_eq!(get_word(&b, Order::Little, 0), 0x0102_0304);
    assert_eq!(get_word(&b, Order::Big, 4), 0x0102_0304);
    assert_eq!(get_half(&b, Order::Little, 0), 0x0304);
    assert_eq!(get_half(&b, Order::Big, 4), 0x0102);
}

#[test]
fn machine_knows_its_order() {
    let mut b = Vec::new();
    put_word(&mut b, Machine::here().order(), 0x0102_0304);
    assert_eq!(b, 0x0102_0304u32.to_ne_bytes().to_vec());
}
