//! Copies of the local routes for another table.

use crate::attrs::{attr_at, attr_from, behind, word_under, AttrPlace, Fits};
use crate::bytes::{
    get_half, get_word, half_at, put_word, word_at, word_bytes, word_reads_back, Machine, Order,
};
use crate::rtnl::{ip_under, route_reply, route_said, Request, RouteReply, CREATE, MAIN_TABLE};
use netlink_bindings::utils::chop_header;
use vstd::prelude::*;

verus! {

/// `netlink_bindings::utils::chop_header`: the length of the value of the
/// attribute at a position behind a header, and where the next one stands.
#[verifier::external_body]
fn next_attr(m: &Machine, b: &Vec<u8>, header: usize, pos: usize) -> (r: Option<
    (usize, usize),
>)
    requires
        header + pos <= b@.len(),
    ensures
        match attr_at(m.layout(), b@.skip(header as int), pos as int) {
            Some(a) => r matches Some(n) && n.0 == a.len && n.1 == a.next,
            None => r is None,
        },
{
    let mut next = pos;
    let (_, value) = chop_header(&b[header..], &mut next)?;
    Some((value.len(), next))
}

/// Where the table of a route stands, if it does.
pub open spec fn table_place(order: Order, b: Seq<u8>) -> Option<AttrPlace> {
    attr_from(order, behind(b, 12), 0, 15, Fits::Any)
}

/// A message with some of its bytes replaced.
pub open spec fn patched(b: Seq<u8>, at: int, new: Seq<u8>) -> Seq<u8> {
    Seq::new(
        b.len(),
        |i: int|
            if at <= i < at + new.len() {
                new[i - at]
            } else {
                b[i]
            },
    )
}

/// A route without the number of its table in the header, and without the mark
/// that its link is down.
pub open spec fn unbound(order: Order, b: Seq<u8>) -> Seq<u8> {
    patched(patched(b, 4, seq![0u8]), 8, word_bytes(order, word_at(order, b, 8) & !16u32))
}

/// Whether a route is copied: it is one of the main table, and not one to
/// everywhere or to half of everything.
pub open spec fn is_cloned(order: Order, b: Seq<u8>) -> bool {
    route_said(order, b).table == Some(MAIN_TABLE) && route_said(order, b).dst_len > 1
}

/// The copy of a route for another table.
pub open spec fn clone_of(order: Order, b: Seq<u8>, table: u32) -> Seq<u8> {
    let at = match table_place(order, b) {
        Some(a) => 12 + a.start,
        None => 0,
    };
    patched(unbound(order, b), at, word_bytes(order, table))
}

/// Positions grow along attributes, which end within the message.
proof fn attrs_go_on(order: Order, b: Seq<u8>, pos: int)
    requires
        0 <= pos <= b.len(),
    ensures
        attr_at(order, b, pos) matches Some(a) ==> pos + 4 == a.start && a.start + a.len <= b.len()
            && a.start + a.len <= a.next <= b.len(),
{
}

/// The first attribute of a kind stands no later than the first one whose value
/// counts.
proof fn first_is_earlier(order: Order, b: Seq<u8>, pos: int, kind: nat, fits: Fits)
    requires
        0 <= pos <= b.len(),
        attr_from(order, b, pos, kind, fits) is Some,
    ensures
        attr_from(order, b, pos, kind, Fits::Any) matches Some(a) && pos + 4 <= a.start && a.start
            <= attr_from(order, b, pos, kind, fits)->0.start,
        attr_from(order, b, pos, kind, fits) matches Some(a) && a.start + a.len <= b.len()
            && fits.admits(b.subrange(a.start, a.start + a.len)),
    decreases b.len() - pos,
{
    attrs_go_on(order, b, pos);
    let a = attr_at(order, b, pos)->0;
    if !(a.kind == kind && fits.admits(b.subrange(a.start, a.start + a.len))) {
        first_is_earlier(order, b, a.next, kind, fits);
    }
}

/// Overwrites some bytes.
fn patch(b: &mut Vec<u8>, at: usize, order: Order, x: u32)
    requires
        at + 4 <= old(b)@.len(),
    ensures
        final(b)@ == patched(old(b)@, at as int, word_bytes(order, x)),
{
    let n: usize = b.len();
    assert(at + 4 <= n);
    let mut w: Vec<u8> = Vec::new();
    put_word(&mut w, order, x);
    assert(w@ =~= word_bytes(order, x));
    b.set(at, w[0]);
    b.set(at + 1, w[1]);
    b.set(at + 2, w[2]);
    b.set(at + 3, w[3]);
    assert(b@ =~= patched(old(b)@, at as int, word_bytes(order, x)));
}

/// Where the table of a route stands, or the front where it does not.
fn find_table(m: &Machine, b: &Vec<u8>) -> (r: usize)
    requires
        b@.len() >= 12,
    ensures
        r == (match table_place(m.layout(), b@) {
            Some(a) => 12 + a.start,
            None => 0,
        }),
{
    let ghost attrs = b@.skip(12);
    let n: usize = b.len();
    let mut pos: usize = 0;
    assert(behind(b@, 12) == attrs);
    loop
        invariant
            n == b@.len(),
            attrs == b@.skip(12),
            behind(b@, 12) == attrs,
            b@.len() >= 12,
            pos <= attrs.len(),
            table_place(m.layout(), b@) == attr_from(m.layout(), attrs, pos as int, 15, Fits::Any),
        decreases attrs.len() - pos,
    {
        proof {
            attrs_go_on(m.layout(), attrs, pos as int);
        }
        match next_attr(m, b, 12, pos) {
            None => {
                return 0;
            },
            Some((_, next)) => {
                let kind: u16 = get_half(b, m.order(), 12 + pos + 2);
                assert(half_at(m.layout(), b@, 12 + pos + 2) == half_at(
                    m.layout(),
                    attrs,
                    pos + 2,
                ));
                if kind % 0x4000 == 15 {
                    return 12 + (pos + 4);
                }
                pos = next;
            },
        }
    }
}

/// The request for a copy of a route in another table, if it is to be copied.
pub fn clone_route(m: &Machine, b: &Vec<u8>, table: u32) -> (r: Option<Request>)
    ensures
        match r {
            Some(q) => {
                &&& is_cloned(m.layout(), b@)
                &&& q.kind == 24
                &&& q.flags == 0x400
                &&& q.payload@ == clone_of(m.layout(), b@, table)
            },
            None => !is_cloned(m.layout(), b@),
        },
{
    let said = route_reply(m, b);
    let in_main = match said.table {
        Some(t) => t == MAIN_TABLE,
        None => false,
    };
    if !in_main || said.dst_len <= 1 {
        return None;
    }
    let ghost attrs = behind(b@, 12);
    proof {
        if b@.len() < 12 {
            assert(said.dst_len == 0);
        }
        first_is_earlier(m.layout(), attrs, 0, 15, Fits::AtLeast(4));
        let a = attr_from(m.layout(), attrs, 0, 15, Fits::AtLeast(4))->0;
        assert(attrs.subrange(a.start, a.start + a.len).len() == a.len);
    }
    let at: usize = find_table(m, b);
    let mut payload: Vec<u8> = b.clone();
    assert(payload@ =~= b@);
    let flags: u32 = get_word(b, m.order(), 8);
    payload.set(4, 0);
    assert(payload@ =~= patched(b@, 4, seq![0u8]));
    patch(&mut payload, 8, m.order(), flags & !16u32);
    patch(&mut payload, at, m.order(), table);
    Some(Request { kind: 24, flags: CREATE, payload })
}

/// Whether the search for an attribute comes to the same in two messages.
spec fn found_alike(order: Order, b: Seq<u8>, c: Seq<u8>, pos: int, kind: nat, fits: Fits) -> bool {
    &&& attr_from(order, b, pos, kind, fits) == attr_from(order, c, pos, kind, fits)
    &&& attr_from(order, b, pos, kind, fits) matches Some(a) ==> 0 <= a.start && a.start + a.len
        <= b.len() && b.subrange(a.start, a.start + a.len) == c.subrange(
        a.start,
        a.start + a.len,
    ) && fits.admits(b.subrange(a.start, a.start + a.len))
}

/// An attribute whose header and value are the same in two messages.
proof fn attr_alike(order: Order, b: Seq<u8>, c: Seq<u8>, pos: int)
    requires
        0 <= pos <= b.len(),
        b.len() == c.len(),
        pos + 4 <= b.len() ==> forall|i: int| pos <= i < pos + 4 ==> b[i] == c[i],
    ensures
        attr_at(order, b, pos) == attr_at(order, c, pos),
{
}

/// Messages that are the same from a position on give the same attributes.
proof fn tail_alike(order: Order, b: Seq<u8>, c: Seq<u8>, pos: int, kind: nat, fits: Fits)
    requires
        0 <= pos <= b.len(),
        b.len() == c.len(),
        forall|i: int| pos <= i < b.len() ==> b[i] == c[i],
    ensures
        found_alike(order, b, c, pos, kind, fits),
    decreases b.len() - pos,
{
    attr_alike(order, b, c, pos);
    attrs_go_on(order, b, pos);
    if let Some(a) = attr_at(order, b, pos) {
        assert(b.subrange(a.start, a.start + a.len) =~= c.subrange(a.start, a.start + a.len));
        if a.next > pos {
            tail_alike(order, b, c, a.next, kind, fits);
        }
    }
}

/// Messages that differ only in the first four bytes of an attribute give the
/// same attributes of other kinds.
proof fn others_alike(
    order: Order,
    b: Seq<u8>,
    c: Seq<u8>,
    pos: int,
    changed: nat,
    kind: nat,
    fits: Fits,
)
    requires
        0 <= pos <= b.len(),
        b.len() == c.len(),
        kind != changed,
        attr_from(order, b, pos, changed, Fits::Any) matches Some(a) && a.len >= 4 && forall|i: int|
            0 <= i < b.len() && !(a.start <= i < a.start + 4) ==> b[i] == c[i],
    ensures
        found_alike(order, b, c, pos, kind, fits),
        attr_from(order, c, pos, changed, Fits::Any) == attr_from(
            order,
            b,
            pos,
            changed,
            Fits::Any,
        ),
    decreases b.len() - pos,
{
    let place = attr_from(order, b, pos, changed, Fits::Any)->0;
    first_is_earlier(order, b, pos, changed, Fits::Any);
    attrs_go_on(order, b, pos);
    let a = attr_at(order, b, pos)->0;
    attr_alike(order, b, c, pos);
    if a.kind == changed {
        assert(place == a);
        tail_alike(order, b, c, a.next, kind, fits);
    } else {
        first_is_earlier(order, b, a.next, changed, Fits::Any);
        assert(a.next + 4 <= place.start);
        others_alike(order, b, c, a.next, changed, kind, fits);
        assert(b.subrange(a.start, a.start + a.len) =~= c.subrange(a.start, a.start + a.len));
    }
}

/// Attributes that are found alike denote the same.
proof fn said_alike(order: Order, b: Seq<u8>, c: Seq<u8>, kind: nat)
    requires
        b.len() == c.len(),
        found_alike(order, b, c, 0, kind, Fits::Address),
        found_alike(order, b, c, 0, kind, Fits::AtLeast(4)),
    ensures
        ip_under(order, b, kind) == ip_under(order, c, kind),
        word_under(order, b, kind) == word_under(order, c, kind),
{
    if let Some(a) = attr_from(order, b, 0, kind, Fits::AtLeast(4)) {
        let x = b.subrange(a.start, a.start + a.len);
        let y = c.subrange(a.start, a.start + a.len);
        assert(x.len() >= 4);
        assert(forall|i: int| 0 <= i < 4 ==> b[a.start + i] == x[i] && c[a.start + i] == y[i]);
        assert(word_at(order, b, a.start) == word_at(order, x, 0));
        assert(word_at(order, c, a.start) == word_at(order, y, 0));
    }
}

/// The copy of a route is the same route in another table.
pub proof fn clone_keeps_route(order: Order, b: Seq<u8>, table: u32)
    requires
        is_cloned(order, b),
        table_place(order, b) matches Some(a) && a.len >= 4,
    ensures
        route_said(order, clone_of(order, b, table)) == (RouteReply {
            table: Some(table),
            ..route_said(order, b)
        }),
{
    let c = clone_of(order, b, table);
    let x = behind(b, 12);
    let y = behind(c, 12);
    let a = table_place(order, b)->0;
    first_is_earlier(order, x, 0, 15, Fits::Any);
    assert(b.len() >= 12);
    assert forall|i: int| 0 <= i < x.len() && !(a.start <= i < a.start + 4) implies #[trigger] x[i]
        == y[i] by {
        assert(x[i] == b[i + 12] && y[i] == c[i + 12]);
    }
    others_alike(order, x, y, 0, 15, 1, Fits::Address);
    others_alike(order, x, y, 0, 15, 1, Fits::AtLeast(4));
    others_alike(order, x, y, 0, 15, 4, Fits::Address);
    others_alike(order, x, y, 0, 15, 4, Fits::AtLeast(4));
    others_alike(order, x, y, 0, 15, 5, Fits::Address);
    others_alike(order, x, y, 0, 15, 5, Fits::AtLeast(4));
    others_alike(order, x, y, 0, 15, 7, Fits::Address);
    others_alike(order, x, y, 0, 15, 7, Fits::AtLeast(4));
    said_alike(order, x, y, 1);
    said_alike(order, x, y, 4);
    said_alike(order, x, y, 5);
    said_alike(order, x, y, 7);
    long_enough_is_found(order, y, 0, 15);
    assert(y.subrange(a.start, a.start + 4) =~= word_bytes(order, table));
    word_reads_back(order, y, a.start, table);
    assert(c[1] == b[1]);
}

/// The first attribute of a kind counts for a word where it is long enough.
proof fn long_enough_is_found(order: Order, b: Seq<u8>, pos: int, kind: nat)
    requires
        0 <= pos <= b.len(),
        attr_from(order, b, pos, kind, Fits::Any) matches Some(a) && a.len >= 4,
    ensures
        attr_from(order, b, pos, kind, Fits::AtLeast(4)) == attr_from(
            order,
            b,
            pos,
            kind,
            Fits::Any,
        ),
    decreases b.len() - pos,
{
    attrs_go_on(order, b, pos);
    let a = attr_at(order, b, pos)->0;
    if a.kind != kind {
        long_enough_is_found(order, b, a.next, kind);
    } else {
        assert(b.subrange(a.start, a.start + a.len).len() == a.len);
    }
}

/// Routes of the main table to something are copied, but none to everywhere or to
/// half of everything, nor any of another table.
pub proof fn main_routes_are_cloned(order: Order, b: Seq<u8>)
    ensures
        is_cloned(order, b) <==> route_said(order, b).table == Some(254u32) && route_said(
            order,
            b,
        ).dst_len >= 2,
{
}

/// A copy differs from the route in its table, which the header does not name, and
/// in that its link is not said to be down; all other bytes are the same.
pub proof fn clone_keeps_bytes(order: Order, b: Seq<u8>, table: u32, i: int)
    requires
        b.len() >= 12,
        table_place(order, b) matches Some(a) && a.len >= 4,
        0 <= i < b.len(),
    ensures
        ({
            let c = clone_of(order, b, table);
            let a = table_place(order, b)->0;
            &&& c.len() == b.len()
            &&& c[4] == 0
            &&& i != 4 && !(8 <= i < 12) && !(12 + a.start <= i < 12 + a.start + 4) ==> c[i] == b[i]
            &&& c.subrange(8, 12) == word_bytes(order, word_at(order, b, 8) & !16u32)
            &&& c.subrange(12 + a.start, 12 + a.start + 4) == word_bytes(order, table)
        }),
{
    let x = behind(b, 12);
    first_is_earlier(order, x, 0, 15, Fits::Any);
    let c = clone_of(order, b, table);
    let a = table_place(order, b)->0;
    assert(c.subrange(8, 12) =~= word_bytes(order, word_at(order, b, 8) & !16u32));
    assert(c.subrange(12 + a.start, 12 + a.start + 4) =~= word_bytes(order, table));
}

} // verus!
