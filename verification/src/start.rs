//! What the service looks at when it starts.

use crate::error::Error;
use crate::text::{
    all_digits, chars_of, decimal, decimal_injective, decimal_text, is_digit, parse_unsigned,
    text_of_range, unsigned,
};
use vstd::prelude::*;
use vstd::string::StringExecFns;

verus! {

/// How many files keep the state.
pub const SLOTS: usize = 2;

/// The name of the file of a slot.
pub open spec fn slot_file(slot: nat) -> Seq<char> {
    "rebpf.state."@ + decimal(slot)
}

/// The name of the file of a slot.
pub fn slot_name(slot: usize) -> (r: String)
    ensures
        r@ == slot_file(slot as nat),
{
    "rebpf.state.".to_owned().concat(decimal_text(slot as u64).as_str())
}

/// The user that a text denotes by number, and none where it is a name.
pub fn numbered_user(name: &str) -> (r: Result<Option<u32>, Error>)
    ensures
        !all_digits(name@) ==> r == Ok::<Option<u32>, Error>(None),
        all_digits(name@) ==> match unsigned(name@, u32::MAX as nat) {
            Some(n) => r matches Ok(Some(uid)) && uid == n,
            None => r matches Err(Error::BadNumber(t)) && t@ == name@,
        },
{
    let cs = chars_of(name);
    let mut i: usize = 0;
    while i < cs.len()
        invariant
            cs@ == name@,
            i <= cs@.len(),
            forall|j: int| 0 <= j < i ==> is_digit(#[trigger] name@[j]),
        decreases cs.len() - i,
    {
        if !('0' <= cs[i] && cs[i] <= '9') {
            assert(!is_digit(name@[i as int]));
            return Ok(None);
        }
        i += 1;
    }
    match parse_unsigned(name, u32::MAX as u64) {
        Some(n) => Ok(Some(n as u32)),
        None => Err(Error::BadNumber(name.to_owned())),
    }
}

/// An ASCII letter in lower case, and any other character as it is.
pub open spec fn lower(c: char) -> char {
    if 'A' <= c && c <= 'Z' {
        (c as u32 + 32) as char
    } else {
        c
    }
}

/// Whether two texts are the same but for the case of ASCII letters.
pub open spec fn same_but_case(a: Seq<char>, b: Seq<char>) -> bool {
    a.len() == b.len() && forall|i: int| 0 <= i < a.len() ==> lower(#[trigger] a[i]) == lower(b[i])
}

/// What stands before the first dot of a text, and nothing where there is none.
pub open spec fn before_dot(s: Seq<char>) -> Seq<char> {
    if s.contains('.') {
        s.take(s.index_of_first('.')->0)
    } else {
        Seq::empty()
    }
}

/// The oldest major version of the kernel that is supported.
pub const OLDEST: u64 = 7;

fn lowered(c: char) -> (r: char)
    ensures
        r == lower(c),
{
    if 'A' <= c && c <= 'Z' {
        (c as u8 + 32) as char
    } else {
        c
    }
}

/// Whether two texts are the same but for the case of ASCII letters.
fn equal_but_case(a: &str, b: &str) -> (r: bool)
    ensures
        r == same_but_case(a@, b@),
{
    let x = chars_of(a);
    let y = chars_of(b);
    if x.len() != y.len() {
        return false;
    }
    let mut i: usize = 0;
    while i < x.len()
        invariant
            x@ == a@,
            y@ == b@,
            x@.len() == y@.len(),
            i <= x@.len(),
            forall|j: int| 0 <= j < i ==> lower(#[trigger] a@[j]) == lower(b@[j]),
        decreases x.len() - i,
    {
        if lowered(x[i]) != lowered(y[i]) {
            assert(lower(a@[i as int]) != lower(b@[i as int]));
            return false;
        }
        i += 1;
    }
    true
}

/// What stands before the first dot of a text.
fn text_before_dot(s: &str) -> (r: String)
    ensures
        r@ == before_dot(s@),
{
    let cs = chars_of(s);
    let mut i: usize = 0;
    while i < cs.len()
        invariant
            cs@ == s@,
            i <= cs@.len(),
            forall|j: int| 0 <= j < i ==> #[trigger] s@[j] != '.',
        decreases cs.len() - i,
    {
        if cs[i] == '.' {
            proof {
                assert(s@[i as int] == '.');
                s@.index_of_first_ensures('.');
            }
            return text_of_range(&cs, 0, i);
        }
        i += 1;
    }
    assert(before_dot(s@) =~= Seq::empty());
    String::new()
}

/// Whether the kernel is one that is supported: Linux, and not too old. Where the
/// major version cannot be read, that is told.
pub fn kernel_is_supported(os: &str, release: &str) -> (r: Result<bool, Error>)
    ensures
        match unsigned(before_dot(release@), u32::MAX as nat) {
            Some(major) => r matches Ok(b) && b == (same_but_case(os@, "linux"@) && major
                >= 7),
            None => r matches Err(Error::BadNumber(t)) && t@ == before_dot(release@),
        },
{
    let major = text_before_dot(release);
    match parse_unsigned(major.as_str(), u32::MAX as u64) {
        Some(n) => Ok(equal_but_case(os, "linux") && n >= OLDEST),
        None => Err(Error::BadNumber(major)),
    }
}

/// Each slot has a file of its own.
pub proof fn slots_have_own_files(a: nat, b: nat)
    requires
        a != b,
    ensures
        slot_file(a) != slot_file(b),
{
    let head = "rebpf.state."@;
    assert(slot_file(a).skip(head.len() as int) =~= decimal(a));
    assert(slot_file(b).skip(head.len() as int) =~= decimal(b));
    if slot_file(a) == slot_file(b) {
        decimal_injective(a, b);
    }
}

/// What stands before the first dot holds none, and the dot follows it.
pub proof fn first_dot_divides(s: Seq<char>, k: int)
    requires
        0 <= k < s.len(),
        s[k] == '.',
        forall|i: int| 0 <= i < k ==> #[trigger] s[i] != '.',
    ensures
        before_dot(s) == s.take(k),
{
    assert(s.contains('.'));
    s.index_of_first_ensures('.');
    let f = s.index_of_first('.')->0;
    assert(s[f] == '.');
}

/// A letter counts as the same in either case, and any other character only as
/// itself.
pub proof fn case_does_not_matter(a: Seq<char>, b: Seq<char>, i: int)
    ensures
        same_but_case(a, a),
        same_but_case(a, b) ==> same_but_case(b, a) && a.len() == b.len(),
        same_but_case(a, b) && 0 <= i < a.len() && a[i] != b[i] ==> {
            ||| 'A' <= a[i] <= 'Z' && b[i] as u32 == a[i] as u32 + 32
            ||| 'A' <= b[i] <= 'Z' && a[i] as u32 == b[i] as u32 + 32
        },
{
    if same_but_case(a, b) {
        assert forall|j: int| 0 <= j < b.len() implies lower(#[trigger] b[j]) == lower(a[j]) by {
            assert(lower(a[j]) == lower(b[j]));
        }
        if 0 <= i < a.len() {
            assert(lower(a[i]) == lower(b[i]));
        }
    }
}

} // verus!
