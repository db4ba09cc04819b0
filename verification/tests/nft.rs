use rebpf::bytes::Machine;
use rebpf::error::Error;
use rebpf::nft::{delete_rule, find_rule, generation_of, generation_request, insert_rule, list_rules};

const MARK: u32 = 0x0102_0304;

fn pad(buf: &mut Vec<u8>) {
    while buf.len() % 4 != 0 {
        buf.push(0);
    }
}

fn put(buf: &mut Vec<u8>, kind: u16, value: &[u8]) {
    pad(buf);
    buf.extend((4 + value.len() as u16).to_ne_bytes());
    buf.extend(kind.to_ne_bytes());
    buf.extend(value);
}

fn nest(buf: &mut Vec<u8>, kind: u16, value: &[u8]) {
    let mut v = value.to_vec();
    pad(&mut v);
    put(buf, kind | 0x8000, &v);
}

fn attrs(list: &[(u16, &[u8])]) -> Vec<u8> {
    let mut v = Vec::new();
    for (k, d) in list {
        put(&mut v, *k, d);
    }
    v
}

fn expr(name: &[u8], data: &[u8]) -> Vec<u8> {
    let mut v = Vec::new();
    put(&mut v, 1, name);
    nest(&mut v, 2, data);
    v
}

fn be(x: u32) -> [u8; 4] {
    x.to_be_bytes()
}

fn message(kind: u16, flags: u16, seq: u32, payload: &[u8]) -> Vec<u8> {
    let mut p = payload.to_vec();
    pad(&mut p);
    let mut v = Vec::new();
    v.extend((16 + p.len() as u32).to_ne_bytes());
    v.extend(kind.to_ne_bytes());
    v.extend(flags.to_ne_bytes());
    v.extend(seq.to_ne_bytes());
    v.extend([0u8; 4]);
    v.extend(p);
    v
}

fn batch(seq: u32, genid: u32, kind: u16, flags: u16, payload: &[u8]) -> Vec<u8> {
    let mut begin = vec![0u8, 0, 0, 10];
    put(&mut begin, 1, &be(genid));
    let mut v = message(16, 5, seq, &begin);
    v.extend(message(kind, flags, seq + 1, payload));
    v.extend(message(17, 5, seq + 2, &[0, 0, 0, 10]));
    v
}

fn equals(value: &[u8]) -> Vec<u8> {
    let mut d = attrs(&[(1, &be(1)), (2, &be(0))]);
    nest(&mut d, 3, &attrs(&[(1, value)]));
    expr(b"cmp\0", &d)
}

fn payload_expr(base: u32, offset: u32, len: u32) -> Vec<u8> {
    let d = attrs(&[(1, &be(1)), (2, &be(base)), (3, &be(offset)), (4, &be(len))]);
    expr(b"payload\0", &d)
}

#[test]
fn rule_is_inserted_in_a_batch() {
    let m = Machine::here();
    let mut info = Vec::new();
    info.extend(1u32.to_ne_bytes());
    for _ in 0..2 {
        info.extend([8, 8, 4, 4]);
        info.extend([0u8; 12]);
    }
    info.extend([0u8; 8]);
    let mut exprs = Vec::new();
    nest(&mut exprs, 1, &payload_expr(1, 9, 1));
    nest(&mut exprs, 1, &equals(&[17]));
    nest(&mut exprs, 1, &expr(b"meta\0", &attrs(&[(1, &be(1)), (2, &be(3))])));
    nest(&mut exprs, 1, &equals(&MARK.to_ne_bytes()));
    nest(&mut exprs, 1, &payload_expr(2, 2, 2));
    nest(&mut exprs, 1, &equals(&[0, 53]));
    let target = attrs(&[(1, b"DNAT\0"), (2, &be(2)), (3, &info)]);
    nest(&mut exprs, 1, &expr(b"target\0", &target));
    let mut p = vec![2u8, 0, 0, 0];
    put(&mut p, 1, b"nat\0");
    put(&mut p, 2, b"OUTPUT\0");
    put(&mut p, 7, &MARK.to_ne_bytes());
    nest(&mut p, 4, &exprs);
    let r = insert_rule(&m, 77, 5, MARK, 0x0808_0404, 53);
    assert_eq!(r, batch(77, 5, 0xa06, 0x405, &p));
}

#[test]
fn rule_is_deleted_in_a_batch() {
    let m = Machine::here();
    let mut p = vec![2u8, 0, 0, 0];
    put(&mut p, 1, b"nat\0");
    put(&mut p, 2, b"OUTPUT\0");
    put(&mut p, 3, &9u64.to_be_bytes());
    let r = delete_rule(&m, 3, 4, 9);
    assert_eq!(r, batch(3, 4, 0xa08, 0x805, &p));
}

#[test]
fn rules_are_listed() {
    let m = Machine::here();
    let r = list_rules(&m);
    let mut p = vec![2u8, 0, 0, 0];
    put(&mut p, 1, b"nat\0");
    put(&mut p, 2, b"OUTPUT\0");
    assert_eq!((r.kind, r.flags), (0xa07, 0x300));
    assert_eq!(r.payload, p);
}

fn listed(userdata: Option<&[u8]>, handle: Option<u64>) -> Vec<u8> {
    let mut v = vec![2u8, 0, 0, 0];
    put(&mut v, 1, b"nat\0");
    if let Some(h) = handle {
        put(&mut v, 3, &h.to_be_bytes());
    }
    if let Some(d) = userdata {
        put(&mut v, 7, d);
    }
    v
}

#[test]
fn rule_is_found_by_its_mark() {
    let m = Machine::here();
    let replies = vec![
        listed(None, Some(1)),
        listed(Some(&[1, 2, 3]), Some(2)),
        listed(Some(&MARK.to_ne_bytes()), Some(3)),
        listed(Some(&MARK.to_ne_bytes()), Some(4)),
    ];
    assert_eq!(find_rule(&m, &replies, MARK).unwrap(), 3);
    assert!(matches!(find_rule(&m, &replies, MARK + 1), Err(Error::NoSuchRule)));
    assert!(matches!(find_rule(&m, &vec![], MARK), Err(Error::NoSuchRule)));
    let broken = vec![listed(Some(&MARK.to_ne_bytes()), None), replies[2].clone()];
    assert!(matches!(find_rule(&m, &broken, MARK), Err(Error::MissingAttribute)));
}

#[test]
fn generation_is_asked_and_read() {
    let m = Machine::here();
    let r = generation_request();
    assert_eq!((r.kind, r.flags), (0xa10, 0));
    assert_eq!(r.payload, vec![0u8; 4]);
    let mut reply = vec![0u8; 4];
    put(&mut reply, 1, &be(0x1234));
    assert_eq!(generation_of(&m, &reply).unwrap(), 0x1234);
    assert!(matches!(generation_of(&m, &vec![0; 4]), Err(Error::MissingAttribute)));
}
