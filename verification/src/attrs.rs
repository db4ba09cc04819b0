//! Attributes of netlink messages: pieces of data, each with its length and its
//! kind in front, and padded to a multiple of four bytes.

use crate::bytes::{
    half_at, half_bytes, half_reads_back, padded, word_at, word_bytes, word_reads_back, Order,
};
use vstd::prelude::*;

verus! {

/// The mark of an attribute that holds attributes.
pub const NESTED: u16 = 0x8000;

/// A message with one more attribute behind it.
pub open spec fn with_attr(order: Order, s: Seq<u8>, kind: u16, value: Seq<u8>) -> Seq<u8> {
    padded(s) + half_bytes(order, (4 + value.len()) as u16) + half_bytes(order, kind) + value
}

/// A message with one more attribute behind it that holds attributes.
pub open spec fn with_nested(order: Order, s: Seq<u8>, kind: u16, content: Seq<u8>) -> Seq<u8> {
    with_attr(order, s, (kind + NESTED) as u16, padded(content))
}

/// Attributes, one after the other.
#[verifier::opaque]
pub open spec fn attrs_bytes(order: Order, list: Seq<(u16, Seq<u8>)>) -> Seq<u8>
    decreases list.len(),
{
    if list.len() == 0 {
        Seq::empty()
    } else {
        with_attr(order, attrs_bytes(order, list.drop_last()), list.last().0, list.last().1)
    }
}

/// Where an attribute stands.
pub struct AttrPlace {
    pub kind: nat,
    pub start: int,
    pub len: nat,
    pub next: int,
}

/// The attribute at a position, if there is a whole one. The two highest bits
/// are not part of its kind.
pub open spec fn attr_at(order: Order, b: Seq<u8>, pos: int) -> Option<AttrPlace> {
    let rest = b.len() - pos;
    if rest < 4 {
        None
    } else {
        let len = half_at(order, b, pos) as int;
        let kind = half_at(order, b, pos + 2) as int;
        if len < 4 || rest < len {
            None
        } else {
            Some(
                AttrPlace {
                    kind: (kind % 0x4000) as nat,
                    start: pos + 4,
                    len: (len - 4) as nat,
                    next: if (len + 3) / 4 * 4 < rest {
                        pos + (len + 3) / 4 * 4
                    } else {
                        b.len() as int
                    },
                },
            )
        }
    }
}

/// Which values of an attribute count.
pub enum Fits {
    /// Any.
    Any,
    /// Those of at least so many bytes.
    AtLeast(nat),
    /// Addresses: four or sixteen bytes.
    Address,
    /// Texts: bytes that are not zero, and a zero behind them.
    Text,
}

impl Fits {
    /// Whether a value counts.
    pub open spec fn admits(self, value: Seq<u8>) -> bool {
        match self {
            Fits::Any => true,
            Fits::AtLeast(n) => value.len() >= n,
            Fits::Address => value.len() == 4 || value.len() == 16,
            Fits::Text => value.len() > 0 && value.last() == 0 && forall|i: int|
                0 <= i < value.len() - 1 ==> #[trigger] value[i] != 0,
        }
    }
}

/// The first attribute of a kind, from a position on, whose value counts.
pub open spec fn attr_from(
    order: Order,
    b: Seq<u8>,
    pos: int,
    kind: nat,
    fits: Fits,
) -> Option<AttrPlace>
    decreases b.len() - pos,
{
    match attr_at(order, b, pos) {
        None => None,
        Some(a) => if a.kind == kind && fits.admits(b.subrange(a.start, a.start + a.len)) {
            Some(a)
        } else if a.next <= pos {
            None
        } else {
            attr_from(order, b, a.next, kind, fits)
        },
    }
}

/// The word under a kind of attribute, in the order of the machine.
pub open spec fn word_under(order: Order, b: Seq<u8>, kind: nat) -> Option<u32> {
    match attr_from(order, b, 0, kind, Fits::AtLeast(4)) {
        None => None,
        Some(a) => Some(word_at(order, b, a.start)),
    }
}

/// The word under a kind of attribute, the highest byte first.
pub open spec fn be_word_under(order: Order, b: Seq<u8>, kind: nat) -> Option<u32> {
    match attr_from(order, b, 0, kind, Fits::AtLeast(4)) {
        None => None,
        Some(a) => Some(word_at(Order::Big, b, a.start)),
    }
}

/// The bytes under a kind of attribute.
pub open spec fn bytes_under(order: Order, b: Seq<u8>, kind: nat) -> Option<Seq<u8>> {
    match attr_from(order, b, 0, kind, Fits::Any) {
        None => None,
        Some(a) => Some(b.subrange(a.start, a.start + a.len)),
    }
}

/// The number that bytes denote, the highest one first.
pub open spec fn big_number(s: Seq<u8>) -> nat
    decreases s.len(),
{
    if s.len() == 0 {
        0
    } else {
        big_number(s.drop_last()) * 256 + s.last() as nat
    }
}

/// The number that bytes denote, the lowest one first.
pub open spec fn little_number(s: Seq<u8>) -> nat
    decreases s.len(),
{
    if s.len() == 0 {
        0
    } else {
        little_number(s.skip(1)) * 256 + s[0] as nat
    }
}

/// The number that bytes denote in an order.
pub open spec fn number(order: Order, s: Seq<u8>) -> nat {
    match order {
        Order::Little => little_number(s),
        Order::Big => big_number(s),
    }
}

/// The first bytes of a value, followed by zeros where it is too short.
pub open spec fn zero_filled(s: Seq<u8>, n: nat) -> Seq<u8> {
    Seq::new(
        n,
        |i: int|
            if i < s.len() {
                s[i]
            } else {
                0u8
            },
    )
}

/// What follows a header.
pub open spec fn behind(b: Seq<u8>, header: int) -> Seq<u8> {
    if b.len() < header {
        Seq::empty()
    } else {
        b.skip(header)
    }
}

/// Padding behind something whose length is a multiple of four is padding of
/// what follows it.
pub proof fn padding_is_local(head: Seq<u8>, s: Seq<u8>)
    requires
        head.len() % 4 == 0,
    ensures
        padded(head + s) == head + padded(s),
{
    let n = head.len() as int;
    let m = s.len() as int;
    assert((n + m) % 4 == m % 4);
    assert(padded(head + s) =~= head + padded(s));
}

/// An attribute behind a header is an attribute behind what follows the header.
pub proof fn attr_is_local(head: Seq<u8>, order: Order, s: Seq<u8>, kind: u16, value: Seq<u8>)
    requires
        head.len() % 4 == 0,
    ensures
        with_attr(order, head + s, kind, value) == head + with_attr(order, s, kind, value),
{
    padding_is_local(head, s);
    assert(with_attr(order, head + s, kind, value) =~= head + with_attr(order, s, kind, value));
}

/// Whether kinds and lengths of the first attributes fit in their fields.
pub open spec fn fit(list: Seq<(u16, Seq<u8>)>, n: int) -> bool {
    forall|i: int| 0 <= i < n ==> (#[trigger] list[i]).0 < 0x4000 && list[i].1.len() <= 65531
}

/// Where the attribute of a number stands among attributes.
pub open spec fn place(order: Order, list: Seq<(u16, Seq<u8>)>, i: int) -> int {
    padded(attrs_bytes(order, list.take(i))).len() as int
}

/// The first attributes are the beginning of all of them.
proof fn prefix_of_attrs(order: Order, list: Seq<(u16, Seq<u8>)>, i: int)
    requires
        0 <= i <= list.len(),
    ensures
        attrs_bytes(order, list.take(i)).is_prefix_of(attrs_bytes(order, list)),
        i < list.len() ==> padded(attrs_bytes(order, list.take(i))).is_prefix_of(
            attrs_bytes(order, list),
        ),
    decreases list.len() - i,
{
    reveal(attrs_bytes);
    if i == list.len() {
        assert(list.take(i) =~= list);
    } else {
        prefix_of_attrs(order, list, i + 1);
        let now = attrs_bytes(order, list.take(i));
        let next = attrs_bytes(order, list.take(i + 1));
        let all = attrs_bytes(order, list);
        assert(list.take(i + 1).drop_last() =~= list.take(i));
        assert(next == with_attr(order, now, list[i].0, list[i].1));
        assert(next.take(now.len() as int) =~= now);
        assert(all.take(next.len() as int) == next);
        assert(all.take(now.len() as int) =~= now);
        assert(next.take(padded(now).len() as int) =~= padded(now));
        assert(all.take(padded(now).len() as int) =~= padded(now));
    }
}

/// An attribute that stands at a position is found there.
proof fn attr_reads_back(order: Order, b: Seq<u8>, p: int, kind: u16, value: Seq<u8>)
    requires
        kind < 0x4000,
        value.len() <= 65531,
        0 <= p,
        p + 4 + value.len() <= b.len(),
        b.subrange(p, p + 4 + value.len()) == half_bytes(order, (4 + value.len()) as u16)
            + half_bytes(order, kind) + value,
    ensures
        attr_at(order, b, p) matches Some(a) && a.kind == kind && a.start == p + 4 && a.len
            == value.len() && a.next == if (value.len() + 7) / 4 * 4 < b.len() - p {
            p + (value.len() + 7) / 4 * 4
        } else {
            b.len() as int
        },
        b.subrange(p + 4, p + 4 + value.len()) == value,
{
    let len = (4 + value.len()) as u16;
    let piece = b.subrange(p, p + 4 + value.len());
    assert(piece.subrange(0, 2) =~= half_bytes(order, len));
    assert(piece.subrange(2, 4) =~= half_bytes(order, kind));
    assert(b.subrange(p, p + 2) =~= piece.subrange(0, 2));
    assert(b.subrange(p + 2, p + 4) =~= piece.subrange(2, 4));
    half_reads_back(order, b, p, len);
    half_reads_back(order, b, p + 2, kind);
    assert(b.subrange(p + 4, p + 4 + value.len()) =~= piece.subrange(4, 4 + value.len() as int));
    assert(piece.subrange(4, 4 + value.len() as int) =~= value);
}

/// Padding brings a length to the next multiple of four.
proof fn padded_length(s: Seq<u8>)
    ensures
        padded(s).len() == (s.len() + 3) / 4 * 4,
        padded(s).len() % 4 == 0,
{
}

/// An attribute behind others stands at the next multiple of four.
proof fn attr_behind(order: Order, list: Seq<(u16, Seq<u8>)>, i: int)
    requires
        0 <= i < list.len(),
    ensures
        attrs_bytes(order, list.take(i + 1)).len() == place(order, list, i) + 4 + list[i].1.len(),
        attrs_bytes(order, list.take(i + 1)).subrange(
            place(order, list, i),
            place(order, list, i) + 4 + list[i].1.len(),
        ) == half_bytes(order, (4 + list[i].1.len()) as u16) + half_bytes(order, list[i].0)
            + list[i].1,
{
    reveal(attrs_bytes);
    assert(list.take(i + 1).drop_last() =~= list.take(i));
    assert(list.take(i + 1).last() == list[i]);
    let now = attrs_bytes(order, list.take(i));
    let next = attrs_bytes(order, list.take(i + 1));
    assert(next == with_attr(order, now, list[i].0, list[i].1));
    let piece = half_bytes(order, (4 + list[i].1.len()) as u16) + half_bytes(order, list[i].0)
        + list[i].1;
    assert(next =~= padded(now) + piece);
    assert(next.subrange(padded(now).len() as int, next.len() as int) =~= piece);
}

/// Each attribute is found where it was written, and the next one behind it.
pub proof fn attr_is_in_place(order: Order, list: Seq<(u16, Seq<u8>)>, i: int)
    requires
        fit(list, i + 1),
        0 <= i < list.len(),
    ensures
        attr_at(order, attrs_bytes(order, list), place(order, list, i)) matches Some(a) && a.kind
            == list[i].0 && a.start == place(order, list, i) + 4 && a.len == list[i].1.len()
            && a.next == if i + 1 < list.len() {
            place(order, list, i + 1)
        } else {
            attrs_bytes(order, list).len() as int
        },
        attrs_bytes(order, list).subrange(
            place(order, list, i) + 4,
            place(order, list, i) + 4 + list[i].1.len(),
        ) == list[i].1,
        place(order, list, i) % 4 == 0,
        i + 1 < list.len() ==> place(order, list, i + 1) > place(order, list, i),
{
    let b = attrs_bytes(order, list);
    let next = attrs_bytes(order, list.take(i + 1));
    let p = place(order, list, i);
    let n = list[i].1.len() as int;
    assert(p % 4 == 0) by {
        padded_length(attrs_bytes(order, list.take(i)));
    }
    attr_behind(order, list, i);
    assert(next.is_prefix_of(b)) by {
        prefix_of_attrs(order, list, i + 1);
    }
    assert(b.subrange(p, p + 4 + n) == next.subrange(p, p + 4 + n)) by {
        assert(b.take(next.len() as int) == next);
        assert(b.subrange(p, p + 4 + n) =~= b.take(next.len() as int).subrange(p, p + 4 + n));
    }
    attr_reads_back(order, b, p, list[i].0, list[i].1);
    if i + 1 < list.len() {
        let q = place(order, list, i + 1);
        assert(q == p + (n + 7) / 4 * 4) by {
            padded_length(next);
            next_multiple(p, n);
        }
        assert(q + 4 <= b.len()) by {
            attr_behind(order, list, i + 1);
            prefix_of_attrs(order, list, i + 2);
        }
    } else {
        assert(list.take(i + 1) =~= list);
        assert((n + 7) / 4 * 4 >= n + 4);
    }
}

proof fn next_multiple(p: int, n: int)
    requires
        p % 4 == 0,
    ensures
        (p + 4 + n + 3) / 4 * 4 == p + (n + 7) / 4 * 4,
{
}

/// The first attribute stands at the front.
proof fn first_place(order: Order, list: Seq<(u16, Seq<u8>)>)
    ensures
        place(order, list, 0) == 0,
{
    reveal(attrs_bytes);
    assert(list.take(0) =~= Seq::empty());
}

/// The first attribute of a kind whose value counts is the one that is found.
pub proof fn attr_is_found(
    order: Order,
    list: Seq<(u16, Seq<u8>)>,
    from: int,
    i: int,
    fits: Fits,
)
    requires
        fit(list, i + 1),
        0 <= from <= i < list.len(),
        fits.admits(list[i].1),
        forall|j: int|
            from <= j < i ==> !((#[trigger] list[j]).0 == list[i].0 && fits.admits(list[j].1)),
    ensures
        attr_from(
            order,
            attrs_bytes(order, list),
            place(order, list, from),
            list[i].0 as nat,
            fits,
        ) matches Some(a) && a.start == place(order, list, i) + 4 && a.len == list[i].1.len(),
    decreases i - from,
{
    attr_is_in_place(order, list, from);
    if from < i {
        attr_is_found(order, list, from + 1, i, fits);
    }
}

/// A word that was written under a kind reads back, unless that kind was written
/// before.
pub proof fn word_under_reads_back(order: Order, list: Seq<(u16, Seq<u8>)>, i: int, x: u32)
    requires
        fit(list, i + 1),
        0 <= i < list.len(),
        list[i].1 == word_bytes(order, x),
        forall|j: int| 0 <= j < i ==> (#[trigger] list[j]).0 != list[i].0,
    ensures
        word_under(order, attrs_bytes(order, list), list[i].0 as nat) == Some(x),
{
    first_place(order, list);
    attr_is_found(order, list, 0, i, Fits::AtLeast(4));
    attr_is_in_place(order, list, i);
    let b = attrs_bytes(order, list);
    let p = place(order, list, i) + 4;
    word_reads_back(order, b, p, x);
}

/// Bytes that were written under a kind read back, unless that kind was written
/// before.
pub proof fn bytes_under_read_back(order: Order, list: Seq<(u16, Seq<u8>)>, i: int)
    requires
        fit(list, i + 1),
        0 <= i < list.len(),
        forall|j: int| 0 <= j < i ==> (#[trigger] list[j]).0 != list[i].0,
    ensures
        bytes_under(order, attrs_bytes(order, list), list[i].0 as nat) == Some(list[i].1),
{
    first_place(order, list);
    attr_is_found(order, list, 0, i, Fits::Any);
    attr_is_in_place(order, list, i);
}

} // verus!
