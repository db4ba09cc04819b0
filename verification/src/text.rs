//! Text primitives: characters, decimal numbers, dotted addresses and the
//! handful of string searches the rest of the crate is built on.

use vstd::prelude::*;

verus! {

/// `String::push` appends one character at the end of the string.
pub assume_specification[ String::push ](s: &mut String, c: char)
    ensures
        final(s)@ == old(s)@.push(c),
;

/// The `==` of string slices holds exactly when both hold the same characters.
pub assume_specification[ <str as PartialEq<str>>::eq ](a: &str, b: &str) -> (r: bool)
    ensures
        r == (a@ == b@),
;

/// The characters of a string, in order.
pub fn chars_of(s: &str) -> (r: Vec<char>)
    ensures
        r@ == s@,
{
    let mut r: Vec<char> = Vec::new();
    for c in it: s.chars()
        invariant
            r@ == it.seq().take(it.index() as int),
            it.seq() == s@,
    {
        r.push(c);
    }
    assert(s@.take(s@.len() as int) == s@);
    r
}

/// The string made of the given characters.
pub fn text_of(cs: &[char]) -> (r: String)
    ensures
        r@ == cs@,
{
    let mut r = String::new();
    let mut i: usize = 0;
    while i < cs.len()
        invariant
            i <= cs.len(),
            r@ == cs@.take(i as int),
        decreases cs.len() - i,
    {
        r.push(cs[i]);
        i += 1;
    }
    assert(cs@.take(cs@.len() as int) == cs@);
    r
}

/// Whether two strings hold the same characters.
pub fn same_text(a: &str, b: &str) -> (r: bool)
    ensures
        r == (a@ == b@),
{
    *a == *b
}

/// The characters of each text.
pub open spec fn texts_of(v: Seq<String>) -> Seq<Seq<char>> {
    v.map_values(|s: String| s@)
}

/// The digit character of a value below ten.
pub open spec fn digit(d: nat) -> char {
    (('0' as u32) + d) as char
}

/// Whether a character is an ASCII decimal digit.
pub open spec fn is_digit(c: char) -> bool {
    '0' <= c <= '9'
}

/// The number a decimal digit stands for.
pub open spec fn digit_value(c: char) -> nat {
    (c as u32 - '0' as u32) as nat
}

/// The decimal notation of a number, without leading zeros.
pub open spec fn decimal(n: nat) -> Seq<char>
    decreases n,
{
    if n < 10 {
        seq![digit(n)]
    } else {
        decimal(n / 10).push(digit(n % 10))
    }
}

/// Whether every character is a decimal digit.
pub open spec fn all_digits(s: Seq<char>) -> bool {
    forall|i: int| 0 <= i < s.len() ==> is_digit(#[trigger] s[i])
}

/// The number that a run of decimal digits denotes.
pub open spec fn decimal_value(s: Seq<char>) -> nat
    decreases s.len(),
{
    if s.len() == 0 {
        0
    } else {
        decimal_value(s.drop_last()) * 10 + digit_value(s.last())
    }
}

/// Reading the decimal notation of a number gives the number back.
pub proof fn decimal_reads_back(n: nat)
    ensures
        all_digits(decimal(n)),
        decimal(n).len() > 0,
        decimal_value(decimal(n)) == n,
        decimal(n)[0] == '0' ==> n == 0,
    decreases n,
{
    if n < 10 {
        assert(decimal(n).drop_last() == Seq::<char>::empty());
        reveal_with_fuel(decimal_value, 2);
    } else {
        decimal_reads_back(n / 10);
        assert(decimal(n).drop_last() == decimal(n / 10));
        assert(decimal(n)[0] == decimal(n / 10)[0]);
    }
}

/// Two numbers with the same decimal notation are the same number.
pub proof fn decimal_injective(a: nat, b: nat)
    requires
        decimal(a) == decimal(b),
    ensures
        a == b,
{
    decimal_reads_back(a);
    decimal_reads_back(b);
}

/// The decimal notation of a number.
pub fn decimal_text(n: u64) -> (r: String)
    ensures
        r@ == decimal(n as nat),
    decreases n,
{
    let mut r = if n < 10 {
        String::new()
    } else {
        decimal_text(n / 10)
    };
    let d: u8 = (n % 10) as u8 + 48u8;
    assert(d as char == digit((n % 10) as nat));
    r.push(d as char);
    assert(r@ == decimal(n as nat));
    r
}

/// The number an unsigned decimal literal denotes: an optional plus sign, then
/// at least one digit, no larger than `max`.
pub open spec fn unsigned(s: Seq<char>, max: nat) -> Option<nat> {
    let body = if s.len() > 0 && s[0] == '+' {
        s.skip(1)
    } else {
        s
    };
    if body.len() > 0 && all_digits(body) && decimal_value(body) <= max {
        Some(decimal_value(body))
    } else {
        None
    }
}

/// More digits never make a number smaller.
proof fn decimal_value_grows(s: Seq<char>, i: int)
    requires
        0 <= i <= s.len(),
    ensures
        decimal_value(s.take(i)) <= decimal_value(s),
    decreases s.len() - i,
{
    if i == s.len() {
        assert(s.take(i) == s);
    } else {
        assert(s.take(i + 1).drop_last() == s.take(i));
        decimal_value_grows(s, i + 1);
    }
}

/// Reads an unsigned decimal literal no larger than `max`.
pub fn parse_unsigned(s: &str, max: u64) -> (r: Option<u64>)
    ensures
        r is Some <==> unsigned(s@, max as nat) is Some,
        r matches Some(n) ==> unsigned(s@, max as nat) == Some(n as nat),
{
    let cs = chars_of(s);
    let start: usize = if cs.len() > 0 && cs[0] == '+' {
        1
    } else {
        0
    };
    let ghost body = cs@.skip(start as int);
    assert(start == 0 ==> body == s@);
    if cs.len() == start {
        return None;
    }
    let mut i: usize = start;
    let mut n: u64 = 0;
    assert(body.take(0) == Seq::<char>::empty());
    while i < cs.len()
        invariant
            start <= i <= cs.len(),
            body == cs@.skip(start as int),
            cs.len() > start,
            body == (if s@.len() > 0 && s@[0] == '+' {
                s@.skip(1)
            } else {
                s@
            }),
            all_digits(body.take(i - start)),
            n == decimal_value(body.take(i - start)),
            n <= max,
        decreases cs.len() - i,
    {
        let c = cs[i];
        assert(c == body[i - start]);
        if c < '0' || '9' < c {
            assert(!is_digit(body[i - start]));
            return None;
        }
        let d: u64 = (c as u32 - '0' as u32) as u64;
        let ghost longer = body.take(i - start + 1);
        assert(longer.drop_last() == body.take(i - start));
        assert(longer.last() == c);
        proof {
            decimal_value_grows(body, i - start + 1);
        }
        if n > max / 10 || d > max - n * 10 {
            return None;
        }
        n = n * 10 + d;
        i += 1;
        assert forall|j: int| 0 <= j < longer.len() implies is_digit(#[trigger] longer[j]) by {
            if j < longer.len() - 1 {
                assert(longer[j] == body.take(i - start - 1)[j]);
            }
        }
    }
    assert(body.take(body.len() as int) == body);
    Some(n)
}

/// A number below the limit reads back from its decimal notation.
pub proof fn unsigned_reads_back(n: nat, max: nat)
    requires
        n <= max,
    ensures
        unsigned(decimal(n), max) == Some(n),
{
    decimal_reads_back(n);
    assert(is_digit(decimal(n)[0]));
}

/// The notation of a truth value.
pub open spec fn bool_name(b: bool) -> Seq<char> {
    if b {
        "true"@
    } else {
        "false"@
    }
}

/// The two truth values have different notations.
pub proof fn bool_names_differ()
    ensures
        bool_name(true) != bool_name(false),
{
    reveal_strlit("true");
    reveal_strlit("false");
    assert(bool_name(true).len() != bool_name(false).len());
}

/// The notation of a truth value.
pub fn bool_text(b: bool) -> (r: String)
    ensures
        r@ == bool_name(b),
{
    if b {
        "true".to_owned()
    } else {
        "false".to_owned()
    }
}

/// Reads a truth value; only `true` and `false` are accepted.
pub fn parse_bool(s: &str) -> (r: Option<bool>)
    ensures
        r matches Some(b) ==> s@ == bool_name(b),
        r is None ==> s@ != bool_name(true) && s@ != bool_name(false),
{
    if same_text(s, "true") {
        Some(true)
    } else if same_text(s, "false") {
        Some(false)
    } else {
        None
    }
}

/// Whether a text comes before another: at the first character in which they
/// differ, or because it ends first.
pub open spec fn comes_before(a: Seq<char>, b: Seq<char>) -> bool
    decreases a.len(),
{
    if b.len() == 0 {
        false
    } else if a.len() == 0 {
        true
    } else if a[0] != b[0] {
        a[0] < b[0]
    } else {
        comes_before(a.skip(1), b.skip(1))
    }
}

/// Of two different texts one comes first, and not the other.
pub proof fn order_is_total(a: Seq<char>, b: Seq<char>)
    ensures
        a != b ==> comes_before(a, b) || comes_before(b, a),
        !(comes_before(a, b) && comes_before(b, a)),
        comes_before(a, b) ==> a != b,
    decreases a.len(),
{
    if a.len() == 0 {
        assert(b.len() == 0 ==> a =~= b);
    } else if b.len() > 0 && a[0] == b[0] {
        order_is_total(a.skip(1), b.skip(1));
        if a.skip(1) == b.skip(1) {
            assert(a =~= seq![a[0]] + a.skip(1));
            assert(b =~= seq![b[0]] + b.skip(1));
        }
    }
}

/// The order of texts is transitive.
pub proof fn order_is_transitive(a: Seq<char>, b: Seq<char>, c: Seq<char>)
    requires
        comes_before(a, b),
        comes_before(b, c),
    ensures
        comes_before(a, c),
    decreases a.len(),
{
    if a.len() > 0 && a[0] == b[0] && b[0] == c[0] {
        order_is_transitive(a.skip(1), b.skip(1), c.skip(1));
    }
}

/// Whether a text comes before another.
pub fn text_before(a: &str, b: &str) -> (r: bool)
    ensures
        r == comes_before(a@, b@),
{
    let x = chars_of(a);
    let y = chars_of(b);
    let mut i: usize = 0;
    assert(a@.skip(0) == a@ && b@.skip(0) == b@);
    while i < x.len() && i < y.len() && x[i] == y[i]
        invariant
            x@ == a@,
            y@ == b@,
            i <= x@.len(),
            i <= y@.len(),
            comes_before(a@, b@) == comes_before(a@.skip(i as int), b@.skip(i as int)),
        decreases x.len() - i,
    {
        assert(a@.skip(i as int).skip(1) == a@.skip(i + 1));
        assert(b@.skip(i as int).skip(1) == b@.skip(i + 1));
        i += 1;
    }
    if i >= y.len() {
        false
    } else if i >= x.len() {
        true
    } else {
        x[i] < y[i]
    }
}

/// What follows the last slash of a path, or all of it where there is none.
pub open spec fn base_name(s: Seq<char>) -> Seq<char>
    decreases s.len(),
{
    if s.len() == 0 || s.last() == '/' {
        Seq::empty()
    } else {
        base_name(s.drop_last()).push(s.last())
    }
}

/// What follows the last slash of a path, or all of it where there is none.
pub fn base_name_of(s: &str) -> (r: String)
    ensures
        r@ == base_name(s@),
{
    let cs = chars_of(s);
    let mut i: usize = cs.len();
    assert(s@.skip(s@.len() as int) == Seq::<char>::empty());
    assert(s@.take(s@.len() as int) == s@);
    while i > 0 && cs[i - 1] != '/'
        invariant
            cs@ == s@,
            i <= cs@.len(),
            base_name(s@) == base_name(s@.take(i as int)) + s@.skip(i as int),
        decreases i,
    {
        let ghost t = s@.take(i as int);
        assert(t.drop_last() == s@.take(i - 1));
        assert(s@.skip(i - 1) == seq![s@[i - 1]] + s@.skip(i as int));
        i -= 1;
        assert(base_name(s@) =~= base_name(s@.take(i as int)) + s@.skip(i as int));
    }
    assert(base_name(s@.take(i as int)) =~= Seq::<char>::empty());
    text_of_range(&cs, i, cs.len())
}

/// The text of some characters in a row.
pub fn text_of_range(cs: &Vec<char>, from: usize, to: usize) -> (r: String)
    requires
        from <= to <= cs@.len(),
    ensures
        r@ == cs@.subrange(from as int, to as int),
{
    let mut r = String::new();
    let mut i: usize = from;
    while i < to
        invariant
            from <= i <= to <= cs@.len(),
            r@ == cs@.subrange(from as int, i as int),
        decreases to - i,
    {
        r.push(cs[i]);
        i += 1;
    }
    r
}

/// Whether a text starts with another.
pub fn starts_with(s: &str, prefix: &str) -> (r: bool)
    ensures
        r == prefix@.is_prefix_of(s@),
{
    let x = chars_of(s);
    let p = chars_of(prefix);
    if p.len() > x.len() {
        return false;
    }
    let mut i: usize = 0;
    while i < p.len()
        invariant
            x@ == s@,
            p@ == prefix@,
            p@.len() <= x@.len(),
            i <= p@.len(),
            forall|j: int| 0 <= j < i ==> p@[j] == #[trigger] x@[j],
        decreases p.len() - i,
    {
        if p[i] != x[i] {
            assert(s@.take(prefix@.len() as int)[i as int] != prefix@[i as int]);
            return false;
        }
        i += 1;
    }
    assert(s@.take(prefix@.len() as int) =~= prefix@);
    true
}

/// Whether a text stands somewhere in another.
pub open spec fn stands_in(part: Seq<char>, s: Seq<char>) -> bool {
    exists|i: int|
        0 <= i && i + part.len() <= s.len() && #[trigger] s.subrange(i, i + part.len()) == part
}

/// Whether a text stands somewhere in another.
pub fn contains_text(s: &str, part: &str) -> (r: bool)
    ensures
        r == stands_in(part@, s@),
{
    let x = chars_of(s);
    let p = chars_of(part);
    let mut i: usize = 0;
    while i <= x.len() && p.len() <= x.len() - i
        invariant
            x@ == s@,
            p@ == part@,
            i <= x@.len() + 1,
            forall|k: int|
                0 <= k < i && k + p@.len() <= x@.len() ==> #[trigger] s@.subrange(k, k + p@.len())
                    != p@,
        decreases x.len() + 1 - i,
    {
        let mut j: usize = 0;
        while j < p.len() && p[j] == x[i + j]
            invariant
                x@ == s@,
                p@ == part@,
                i + p.len() <= x.len(),
                j <= p@.len(),
                forall|k: int| 0 <= k < j ==> #[trigger] p@[k] == x@[i + k],
            decreases p.len() - j,
        {
            j += 1;
        }
        let ghost sub = s@.subrange(i as int, i + p@.len());
        if j == p.len() {
            assert(sub =~= p@);
            return true;
        }
        assert(sub[j as int] != p@[j as int]);
        i += 1;
    }
    false
}

/// A text without the dots at its two ends.
pub open spec fn without_dots(s: Seq<char>) -> Seq<char>
    decreases s.len(),
{
    if s.len() > 0 && s[0] == '.' {
        without_dots(s.skip(1))
    } else if s.len() > 0 && s.last() == '.' {
        without_dots(s.drop_last())
    } else {
        s
    }
}

/// A text without the dots at its two ends.
pub fn trim_dots(s: &str) -> (r: String)
    ensures
        r@ == without_dots(s@),
{
    let cs = chars_of(s);
    let mut from: usize = 0;
    let mut to: usize = cs.len();
    assert(s@.subrange(0, s@.len() as int) == s@);
    while from < to && cs[from] == '.'
        invariant
            cs@ == s@,
            to == cs@.len(),
            from <= to,
            without_dots(s@) == without_dots(s@.subrange(from as int, to as int)),
        decreases to - from,
    {
        let ghost t = s@.subrange(from as int, to as int);
        assert(t.skip(1) == s@.subrange(from + 1, to as int));
        from += 1;
    }
    while from < to && cs[to - 1] == '.'
        invariant
            cs@ == s@,
            from <= to <= cs@.len(),
            from < to ==> cs@[from as int] != '.',
            without_dots(s@) == without_dots(s@.subrange(from as int, to as int)),
        decreases to - from,
    {
        let ghost t = s@.subrange(from as int, to as int);
        assert(t.drop_last() == s@.subrange(from as int, to - 1));
        assert(t[0] == cs@[from as int]);
        to -= 1;
    }
    text_of_range(&cs, from, to)
}

/// Dots go from the two ends of a text and from nowhere else.
pub proof fn dots_go_from_ends(s: Seq<char>) -> (r: (int, int))
    ensures
        0 <= r.0 <= r.1 <= s.len(),
        without_dots(s) == s.subrange(r.0, r.1),
        forall|i: int| 0 <= i < r.0 || r.1 <= i < s.len() ==> #[trigger] s[i] == '.',
        r.0 < r.1 ==> s[r.0] != '.' && s[r.1 - 1] != '.',
    decreases s.len(),
{
    if s.len() > 0 && s[0] == '.' {
        let t = s.skip(1);
        let (a, b) = dots_go_from_ends(t);
        assert(t.subrange(a, b) =~= s.subrange(a + 1, b + 1));
        assert forall|i: int| 0 <= i < a + 1 || b + 1 <= i < s.len() implies #[trigger] s[i] == '.' by {
            if i > 0 {
                assert(t[i - 1] == '.');
            }
        }
        (a + 1, b + 1)
    } else if s.len() > 0 && s.last() == '.' {
        let t = s.drop_last();
        let (a, b) = dots_go_from_ends(t);
        assert(t.subrange(a, b) =~= s.subrange(a, b));
        assert forall|i: int| 0 <= i < a || b <= i < s.len() implies #[trigger] s[i] == '.' by {
            if i < t.len() {
                assert(t[i] == '.');
            }
        }
        (a, b)
    } else {
        assert(s.subrange(0, s.len() as int) =~= s);
        (0, s.len() as int)
    }
}

/// Where one text begins with another, the shorter one comes first; else the first
/// character in which they differ decides.
pub proof fn first_difference_decides(a: Seq<char>, b: Seq<char>, k: int)
    requires
        0 <= k <= a.len(),
        k <= b.len(),
        a.take(k) == b.take(k),
    ensures
        k == a.len() && k < b.len() ==> comes_before(a, b),
        k == b.len() ==> !comes_before(a, b),
        k < a.len() && k < b.len() && a[k] != b[k] ==> (comes_before(a, b) <==> a[k] < b[k]),
    decreases k,
{
    if k > 0 {
        assert(a.take(k)[0] == a[0] && b.take(k)[0] == b[0]);
        assert(a.skip(1).take(k - 1) =~= a.take(k).skip(1));
        assert(b.skip(1).take(k - 1) =~= b.take(k).skip(1));
        first_difference_decides(a.skip(1), b.skip(1), k - 1);
    }
}

/// A number is read from its digits, with or without a plus sign, where it is not too
/// large, and from nothing else.
pub proof fn numbers_are_read(n: nat, max: nat, s: Seq<char>)
    ensures
        n <= max ==> unsigned(decimal(n), max) == Some(n) && unsigned(
            seq!['+'] + decimal(n),
            max,
        ) == Some(n),
        n > max ==> unsigned(decimal(n), max) is None,
        s.len() == 0 ==> unsigned(s, max) is None,
        (exists|i: int| 1 <= i < s.len() && !is_digit(#[trigger] s[i])) ==> unsigned(s, max)
            is None,
{
    decimal_reads_back(n);
    assert(is_digit(decimal(n)[0]));
    assert((seq!['+'] + decimal(n)).skip(1) =~= decimal(n));
    if exists|i: int| 1 <= i < s.len() && !is_digit(#[trigger] s[i]) {
        let i = choose|i: int| 1 <= i < s.len() && !is_digit(#[trigger] s[i]);
        if s[0] == '+' {
            assert(!is_digit(s.skip(1)[i - 1]));
        }
    }
}

} // verus!
