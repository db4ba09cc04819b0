//! IPv4 addresses as 32-bit numbers and their dotted notation.

use crate::text::{
    all_digits, chars_of, decimal, decimal_reads_back, decimal_text, decimal_value, is_digit,
    same_text,
};
use vstd::prelude::*;
use vstd::string::StringExecFns;

verus! {

/// The `k`-th byte of an address, the most significant one first.
pub open spec fn octet(a: u32, k: int) -> nat {
    if k == 0 {
        (a / 16777216) as nat
    } else if k == 1 {
        (a / 65536 % 256) as nat
    } else if k == 2 {
        (a / 256 % 256) as nat
    } else {
        (a % 256) as nat
    }
}

/// The first `k` bytes of an address in dotted notation.
pub open spec fn dotted_prefix(a: u32, k: int) -> Seq<char>
    decreases k,
{
    if k <= 0 {
        Seq::empty()
    } else if k == 1 {
        decimal(octet(a, 0))
    } else {
        dotted_prefix(a, k - 1).push('.') + decimal(octet(a, k - 1))
    }
}

/// The dotted notation of an address: its four bytes in decimal, separated by
/// dots.
pub open spec fn dotted(a: u32) -> Seq<char> {
    dotted_prefix(a, 4)
}

/// Four bytes determine an address.
proof fn octets_determine(a: u32, b: u32)
    requires
        forall|k: int| 0 <= k < 4 ==> octet(a, k) == octet(b, k),
    ensures
        a == b,
{
    assert(octet(a, 0) == octet(b, 0));
    assert(octet(a, 1) == octet(b, 1));
    assert(octet(a, 2) == octet(b, 2));
    assert(octet(a, 3) == octet(b, 3));
}

/// The decimal notation of a byte has at most three digits.
proof fn octet_is_short(a: u32, k: int)
    requires
        0 <= k < 4,
    ensures
        octet(a, k) < 256,
        1 <= decimal(octet(a, k)).len() <= 3,
        all_digits(decimal(octet(a, k))),
        decimal_value(decimal(octet(a, k))) == octet(a, k),
{
    reveal_with_fuel(decimal, 4);
    decimal_reads_back(octet(a, k));
}

/// A run of at most three digits of `s` starting at `from`, as long as it can
/// be, with the number that it denotes.
spec fn scanned(s: Seq<char>, from: int, end: int, value: nat) -> bool {
    &&& 0 <= from <= end <= s.len()
    &&& end - from <= 3
    &&& all_digits(s.subrange(from, end))
    &&& value == decimal_value(s.subrange(from, end))
    &&& end - from == 3 || end == s.len() || !is_digit(s[end])
}

/// Scanning where the `k`-th byte of a dotted address begins reads that byte.
proof fn scan_reads_octet(s: Seq<char>, b: u32, k: int, end: int, value: nat)
    requires
        0 <= k < 4,
        s == dotted(b),
        scanned(s, dotted_prefix(b, k).len() + (if k > 0 {
            1int
        } else {
            0
        }), end, value),
    ensures
        end == dotted_prefix(b, k + 1).len(),
        value == octet(b, k),
        end > dotted_prefix(b, k).len(),
        end > dotted_prefix(b, k).len() + (if k > 0 {
            1int
        } else {
            0
        }),
{
    reveal_with_fuel(dotted_prefix, 5);
    octet_is_short(b, k);
    let from = dotted_prefix(b, k).len() + (if k > 0 {
        1int
    } else {
        0
    });
    let part = decimal(octet(b, k));
    let stop = from + part.len();
    assert(stop == dotted_prefix(b, k + 1).len());
    assert(s.subrange(from, stop) == part);
    if k < 3 {
        assert(s[stop] == '.');
    } else {
        assert(stop == s.len());
    }
    if end < stop {
        assert(part[end - from] == s[end]);
        assert(is_digit(part[end - from]));
    }
    if end > stop {
        assert(s.subrange(from, end)[stop - from] == s[stop]);
    }
}

/// Before every byte but the first stands a dot.
proof fn dot_before_octet(s: Seq<char>, b: u32, k: int)
    requires
        0 < k < 4,
        s == dotted(b),
    ensures
        dotted_prefix(b, k).len() < s.len(),
        s[dotted_prefix(b, k).len() as int] == '.',
{
    reveal_with_fuel(dotted_prefix, 5);
}

/// Scans at most three digits.
fn scan_octet(cs: &Vec<char>, from: usize) -> (r: (usize, u32))
    requires
        from <= cs.len(),
    ensures
        scanned(cs@, from as int, r.0 as int, r.1 as nat),
        r.1 < 1000,
{
    let mut end: usize = from;
    let mut value: u32 = 0;
    assert(cs@.subrange(from as int, from as int) == Seq::<char>::empty());
    while end < cs.len() && end - from < 3 && '0' <= cs[end] && cs[end] <= '9'
        invariant
            from <= end <= cs.len(),
            end - from <= 3,
            all_digits(cs@.subrange(from as int, end as int)),
            value == decimal_value(cs@.subrange(from as int, end as int)),
            end - from == 0 ==> value < 1,
            end - from == 1 ==> value < 10,
            end - from == 2 ==> value < 100,
            end - from == 3 ==> value < 1000,
        decreases cs.len() - end,
    {
        let ghost before = cs@.subrange(from as int, end as int);
        let ghost after = cs@.subrange(from as int, end + 1);
        assert(after.drop_last() == before);
        assert(after.last() == cs@[end as int]);
        let d: u32 = cs[end] as u32 - '0' as u32;
        value = value * 10 + d;
        end += 1;
        assert forall|j: int| 0 <= j < after.len() implies is_digit(#[trigger] after[j]) by {
            if j < after.len() - 1 {
                assert(after[j] == before[j]);
            }
        }
    }
    (end, value)
}

/// The dotted notation of an address.
pub fn dotted_text(a: u32) -> (r: String)
    ensures
        r@ == dotted(a),
{
    let mut r = decimal_text((a / 16777216) as u64);
    r.push('.');
    r.append(decimal_text((a / 65536 % 256) as u64).as_str());
    r.push('.');
    r.append(decimal_text((a / 256 % 256) as u64).as_str());
    r.push('.');
    r.append(decimal_text((a % 256) as u64).as_str());
    proof {
        reveal_with_fuel(dotted_prefix, 5);
    }
    assert(r@ == dotted(a));
    r
}

/// Reads an address in dotted notation. Leading zeros, signs, blanks and
/// anything but exactly four bytes are refused.
pub fn parse_ipv4(s: &str) -> (r: Option<u32>)
    ensures
        r matches Some(a) ==> s@ == dotted(a),
        r is None ==> forall|a: u32| s@ != #[trigger] dotted(a),
{
    let cs = chars_of(s);
    let mut vals: Vec<u32> = Vec::new();
    let mut pos: usize = 0;
    let mut k: usize = 0;
    while k < 4
        invariant
            k <= 4,
            cs@ == s@,
            pos <= cs.len(),
            vals.len() == k,
            forall|j: int| 0 <= j < k ==> #[trigger] vals[j] < 256,
            forall|b: u32| s@ == #[trigger] dotted(b) ==> {
                &&& pos == dotted_prefix(b, k as int).len()
                &&& forall|j: int| 0 <= j < k ==> #[trigger] vals[j] == octet(b, j)
            },
        decreases 4 - k,
    {
        let ghost start = pos;
        if k > 0 {
            proof {
                assert forall|b: u32| s@ == #[trigger] dotted(b) implies pos < cs.len()
                    && cs@[pos as int] == '.' by {
                    dot_before_octet(s@, b, k as int);
                }
            }
            if pos == cs.len() || cs[pos] != '.' {
                return None;
            }
            pos += 1;
        }
        let (end, value) = scan_octet(&cs, pos);
        proof {
            assert forall|b: u32| s@ == #[trigger] dotted(b) implies {
                &&& end == dotted_prefix(b, k + 1).len()
                &&& value == octet(b, k as int)
                &&& end > pos
                &&& value < 256
            } by {
                scan_reads_octet(s@, b, k as int, end as int, value as nat);
                octet_is_short(b, k as int);
            }
        }
        if end == pos || value > 255 {
            return None;
        }
        let ghost before = vals@;
        vals.push(value);
        pos = end;
        k += 1;
        proof {
            assert forall|b: u32| s@ == #[trigger] dotted(b) implies {
                &&& pos == dotted_prefix(b, k as int).len()
                &&& forall|j: int| 0 <= j < k ==> #[trigger] vals[j] == octet(b, j)
            } by {
                assert forall|j: int| 0 <= j < k implies #[trigger] vals[j] == octet(b, j) by {
                    if j < k - 1 {
                        assert(before[j] == octet(b, j));
                    }
                }
            }
        }
    }
    let a: u32 = vals[0] * 16777216 + vals[1] * 65536 + vals[2] * 256 + vals[3];
    proof {
        assert forall|b: u32| s@ == #[trigger] dotted(b) implies a == b by {
            assert(vals[0] == octet(b, 0));
            assert(vals[1] == octet(b, 1));
            assert(vals[2] == octet(b, 2));
            assert(vals[3] == octet(b, 3));
        }
    }
    if same_text(s, dotted_text(a).as_str()) {
        Some(a)
    } else {
        None
    }
}

/// Two addresses with the same dotted notation are the same address.
pub proof fn dotted_injective(a: u32, b: u32)
    requires
        dotted(a) == dotted(b),
    ensures
        a == b,
{
    assert forall|k: int| 0 <= k < 4 implies octet(a, k) == octet(b, k) by {
        octets_agree(a, b, k);
    }
    octets_determine(a, b);
}

/// Equal dotted notations agree byte by byte, and in where each byte ends.
proof fn octets_agree(a: u32, b: u32, k: int)
    requires
        0 <= k < 4,
        dotted(a) == dotted(b),
    ensures
        octet(a, k) == octet(b, k),
        dotted_prefix(a, k + 1).len() == dotted_prefix(b, k + 1).len(),
    decreases k,
{
    reveal_with_fuel(dotted_prefix, 5);
    if k > 0 {
        octets_agree(a, b, k - 1);
    }
    let s = dotted(a);
    let from = dotted_prefix(a, k).len() + (if k > 0 {
        1int
    } else {
        0
    });
    octet_is_short(a, k);
    octet_is_short(b, k);
    let end = dotted_prefix(a, k + 1).len() as int;
    assert(s.subrange(from, end) == decimal(octet(a, k)));
    assert(end == s.len() || s[end] == '.');
    scan_reads_octet(s, b, k, end, octet(a, k));
}

/// An address is made of its four bytes, the first of which weighs most, and is
/// written with these in their order.
pub proof fn bytes_make_address(a: u32)
    ensures
        a == octet(a, 0) * 16777216 + octet(a, 1) * 65536 + octet(a, 2) * 256 + octet(a, 3),
        forall|k: int| 0 <= k < 4 ==> #[trigger] octet(a, k) < 256,
        dotted(a) == decimal(octet(a, 0)) + seq!['.'] + decimal(octet(a, 1)) + seq!['.'] + decimal(
            octet(a, 2),
        ) + seq!['.'] + decimal(octet(a, 3)),
{
    reveal_with_fuel(dotted_prefix, 5);
    assert(dotted(a) =~= decimal(octet(a, 0)) + seq!['.'] + decimal(octet(a, 1)) + seq!['.']
        + decimal(octet(a, 2)) + seq!['.'] + decimal(octet(a, 3)));
}

} // verus!
