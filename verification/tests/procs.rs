use rebpf::bytes::Machine;
use rebpf::procs::{get_proc_names, list_is_sound};

fn entry(id: i32, name: &[u8]) -> Vec<u8> {
    let mut v = id.to_ne_bytes().to_vec();
    v.extend((name.len() as u32).to_ne_bytes());
    v.extend(name);
    v
}

#[test]
fn processes_are_told_match_after_match() {
    let m = Machine::here();
    let mut b = entry(2, b"curl");
    b.extend(entry(0, b"ssh"));
    b.extend(entry(2, b"f\xffx"));
    b.extend(entry(0, b""));
    assert!(list_is_sound(&m, &b));
    let told = get_proc_names(&m, &b);
    let got: Vec<(&str, &str)> =
        told.iter().map(|h| (h[0].1.as_str(), h[1].1.as_str())).collect();
    assert_eq!(got, [("0", "ssh"), ("0", ""), ("2", "curl"), ("2", "f\u{fffd}x")]);
    assert!(told.iter().all(|h| h.len() == 2 && h[0].0 == "match-id" && h[1].0 == "basename"));
}

#[test]
fn empty_list_tells_nothing() {
    let m = Machine::here();
    assert!(list_is_sound(&m, &vec![]));
    assert!(get_proc_names(&m, &vec![]).is_empty());
}

#[test]
fn broken_lists_are_noticed() {
    let m = Machine::here();
    let good = entry(1, b"curl");
    assert!(list_is_sound(&m, &good));
    for n in 1..good.len() {
        assert!(!list_is_sound(&m, &good[..n].to_vec()), "{n}");
    }
    assert!(!list_is_sound(&m, &entry(-1, b"curl")));
    assert!(!list_is_sound(&m, &[good, vec![0]].concat()));
}
