//! Numbers in memory: byte orders, padding, and tables of 32-bit words.

use vstd::prelude::*;

verus! {

/// The order in which a machine lays out the bytes of a number.
#[derive(Clone, Copy, Debug, PartialEq, Eq, Structural)]
pub enum Order {
    Little,
    Big,
}

/// The `k`-th byte of a word, the least significant one first.
pub open spec fn byte_of(x: u32, k: int) -> u8 {
    if k == 0 {
        (x % 256) as u8
    } else if k == 1 {
        (x / 256 % 256) as u8
    } else if k == 2 {
        (x / 65536 % 256) as u8
    } else {
        (x / 16777216) as u8
    }
}

/// The four bytes of a word.
pub open spec fn word_bytes(order: Order, x: u32) -> Seq<u8> {
    match order {
        Order::Little => seq![byte_of(x, 0), byte_of(x, 1), byte_of(x, 2), byte_of(x, 3)],
        Order::Big => seq![byte_of(x, 3), byte_of(x, 2), byte_of(x, 1), byte_of(x, 0)],
    }
}

/// The word whose four bytes stand in `s` from `at` on.
pub open spec fn word_at(order: Order, s: Seq<u8>, at: int) -> u32 {
    match order {
        Order::Little => (s[at] + s[at + 1] * 256 + s[at + 2] * 65536 + s[at + 3]
            * 16777216) as u32,
        Order::Big => (s[at + 3] + s[at + 2] * 256 + s[at + 1] * 65536 + s[at]
            * 16777216) as u32,
    }
}

/// The bytes of a table of words, one after the other.
pub open spec fn words_bytes(order: Order, ws: Seq<u32>) -> Seq<u8>
    decreases ws.len(),
{
    if ws.len() == 0 {
        Seq::empty()
    } else {
        words_bytes(order, ws.drop_last()) + word_bytes(order, ws.last())
    }
}

/// A byte sequence followed by as many zeros as bring its length to a multiple
/// of four.
pub open spec fn padded(s: Seq<u8>) -> Seq<u8> {
    s + Seq::new(((4 - s.len() % 4) % 4) as nat, |i: int| 0u8)
}

/// A table of words takes four bytes per word.
pub proof fn words_length(order: Order, ws: Seq<u32>)
    ensures
        words_bytes(order, ws).len() == 4 * ws.len(),
    decreases ws.len(),
{
    if ws.len() > 0 {
        words_length(order, ws.drop_last());
    }
}

/// A word written somewhere reads back from there.
pub proof fn word_reads_back(order: Order, s: Seq<u8>, at: int, x: u32)
    requires
        0 <= at,
        at + 4 <= s.len(),
        s.subrange(at, at + 4) == word_bytes(order, x),
    ensures
        word_at(order, s, at) == x,
{
    let b = s.subrange(at, at + 4);
    assert(b[0] == s[at] && b[1] == s[at + 1] && b[2] == s[at + 2] && b[3] == s[at + 3]);
    assert(x == x % 256 + (x / 256 % 256) * 256 + (x / 65536 % 256) * 65536 + (x / 16777216)
        * 16777216);
}

/// Each word of a table written somewhere reads back from its place.
pub proof fn words_read_back(order: Order, s: Seq<u8>, at: int, ws: Seq<u32>, i: int)
    requires
        0 <= at,
        at + 4 * ws.len() <= s.len(),
        s.subrange(at, at + 4 * ws.len()) == words_bytes(order, ws),
        0 <= i < ws.len(),
    ensures
        word_at(order, s, at + 4 * i) == ws[i],
    decreases ws.len(),
{
    words_length(order, ws);
    words_length(order, ws.drop_last());
    let n = ws.len() as int;
    let all = s.subrange(at, at + 4 * n);
    if i == n - 1 {
        assert(s.subrange(at + 4 * i, at + 4 * i + 4) == all.subrange(4 * i, 4 * i + 4));
        assert(all.subrange(4 * i, 4 * i + 4) == word_bytes(order, ws.last()));
        word_reads_back(order, s, at + 4 * i, ws[i]);
    } else {
        assert(s.subrange(at, at + 4 * (n - 1)) == all.subrange(0, 4 * (n - 1)));
        assert(all.subrange(0, 4 * (n - 1)) == words_bytes(order, ws.drop_last()));
        words_read_back(order, s, at, ws.drop_last(), i);
    }
}

/// Appends a word.
pub fn put_word(buf: &mut Vec<u8>, order: Order, x: u32)
    ensures
        final(buf)@ == old(buf)@ + word_bytes(order, x),
{
    let b0: u8 = (x % 256) as u8;
    let b1: u8 = (x / 256 % 256) as u8;
    let b2: u8 = (x / 65536 % 256) as u8;
    let b3: u8 = (x / 16777216) as u8;
    match order {
        Order::Little => {
            buf.push(b0);
            buf.push(b1);
            buf.push(b2);
            buf.push(b3);
        },
        Order::Big => {
            buf.push(b3);
            buf.push(b2);
            buf.push(b1);
            buf.push(b0);
        },
    }
    assert(buf@ == old(buf)@ + word_bytes(order, x));
}

/// Appends a table of words.
pub fn put_words(buf: &mut Vec<u8>, order: Order, ws: &Vec<u32>)
    ensures
        final(buf)@ == old(buf)@ + words_bytes(order, ws@),
{
    let ghost before = buf@;
    let mut i: usize = 0;
    assert(buf@ == before + words_bytes(order, ws@.take(0)));
    while i < ws.len()
        invariant
            i <= ws.len(),
            buf@ == before + words_bytes(order, ws@.take(i as int)),
        decreases ws.len() - i,
    {
        put_word(buf, order, ws[i]);
        i += 1;
        assert(ws@.take(i as int).drop_last() == ws@.take(i - 1));
        assert(buf@ == before + words_bytes(order, ws@.take(i as int)));
    }
    assert(ws@.take(ws@.len() as int) == ws@);
}

/// Reads a word.
pub fn get_word(buf: &Vec<u8>, order: Order, at: usize) -> (r: u32)
    requires
        at + 4 <= buf.len(),
    ensures
        r == word_at(order, buf@, at as int),
{
    let (b0, b1, b2, b3) = match order {
        Order::Little => (buf[at], buf[at + 1], buf[at + 2], buf[at + 3]),
        Order::Big => (buf[at + 3], buf[at + 2], buf[at + 1], buf[at]),
    };
    b0 as u32 + b1 as u32 * 256 + b2 as u32 * 65536 + b3 as u32 * 16777216
}

/// `netlink_bindings::utils::align`: appends zeros up to the next multiple of
/// four.
#[verifier::external_body]
pub(crate) fn align(buf: &mut Vec<u8>)
    ensures
        final(buf)@ == padded(old(buf)@),
{
    netlink_bindings::utils::align(buf)
}

/// The machine that the program runs on.
#[derive(Debug)]
pub struct Machine {
    order: Order,
}

/// `u32::to_ne_bytes`: the bytes of a word as they stand in memory, in one of
/// the two orders.
#[verifier::external_body]
fn native_bytes(x: u32) -> (r: [u8; 4])
    ensures
        r@ == word_bytes(Order::Little, x) || r@ == word_bytes(Order::Big, x),
{
    x.to_ne_bytes()
}

/// Whether this is the order in which numbers stand in memory: the order of the
/// bytes that `native_bytes` gives for the number one.
pub closed spec fn is_native(order: Order) -> bool {
    exists|b: [u8; 4]| #[trigger]
        call_ensures(native_bytes, (1u32,), b) && b@ == word_bytes(order, 1)
}

/// The order in which something lays out the bytes of the number one.
fn order_by<F: Fn(u32) -> [u8; 4]>(lay_out: F) -> (r: Order)
    requires
        call_requires(lay_out, (1u32,)),
        forall|b: [u8; 4]| #[trigger]
            call_ensures(lay_out, (1u32,), b) ==> b@ == word_bytes(Order::Little, 1) || b@
                == word_bytes(Order::Big, 1),
    ensures
        exists|b: [u8; 4]| #[trigger]
            call_ensures(lay_out, (1u32,), b) && b@ == word_bytes(r, 1),
{
    let b = lay_out(1);
    if b[0] == 1 {
        Order::Little
    } else {
        Order::Big
    }
}

impl Machine {
    /// A machine lays out numbers as they stand in memory.
    #[verifier::type_invariant]
    spec fn is_this_one(self) -> bool {
        is_native(self.order)
    }

    /// The order in which the machine lays out numbers.
    pub closed spec fn layout(self) -> Order {
        self.order
    }

    /// The machine that the program runs on. There is no other way to get one,
    /// so its layout is that of the numbers in memory.
    pub fn here() -> (r: Machine)
        ensures
            is_native(r.layout()),
    {
        Machine { order: order_by(native_bytes) }
    }

    /// The order in which the machine lays out numbers.
    pub fn order(&self) -> (r: Order)
        ensures
            r == self.layout(),
    {
        self.order
    }
}

/// The two bytes of a number below 65536.
pub open spec fn half_bytes(order: Order, x: u16) -> Seq<u8> {
    match order {
        Order::Little => seq![(x % 256) as u8, (x / 256) as u8],
        Order::Big => seq![(x / 256) as u8, (x % 256) as u8],
    }
}

/// The number whose two bytes stand in `s` from `at` on.
pub open spec fn half_at(order: Order, s: Seq<u8>, at: int) -> u16 {
    match order {
        Order::Little => (s[at] + s[at + 1] * 256) as u16,
        Order::Big => (s[at + 1] + s[at] * 256) as u16,
    }
}

/// A number of two bytes written somewhere reads back from there.
pub proof fn half_reads_back(order: Order, s: Seq<u8>, at: int, x: u16)
    requires
        0 <= at,
        at + 2 <= s.len(),
        s.subrange(at, at + 2) == half_bytes(order, x),
    ensures
        half_at(order, s, at) == x,
{
    let b = s.subrange(at, at + 2);
    assert(b[0] == s[at] && b[1] == s[at + 1]);
    assert(x == x % 256 + (x / 256) * 256);
}

/// Reads a number of two bytes.
pub fn get_half(buf: &Vec<u8>, order: Order, at: usize) -> (r: u16)
    requires
        at + 2 <= buf.len(),
    ensures
        r == half_at(order, buf@, at as int),
{
    let (b0, b1) = match order {
        Order::Little => (buf[at], buf[at + 1]),
        Order::Big => (buf[at + 1], buf[at]),
    };
    b0 as u16 + b1 as u16 * 256
}

/// Of the bytes of a number the one that weighs least comes first on a little-endian
/// machine, and last on a big-endian one.
pub proof fn order_places_bytes(x: u32, h: u16)
    ensures
        word_bytes(Order::Little, x).len() == 4,
        word_bytes(Order::Little, x)[0] == x % 256,
        word_bytes(Order::Little, x)[1] == x / 256 % 256,
        word_bytes(Order::Little, x)[2] == x / 65536 % 256,
        word_bytes(Order::Little, x)[3] == x / 16777216,
        word_bytes(Order::Big, x) == word_bytes(Order::Little, x).reverse(),
        half_bytes(Order::Little, h).len() == 2,
        half_bytes(Order::Little, h)[0] == h % 256,
        half_bytes(Order::Little, h)[1] == h / 256,
        half_bytes(Order::Big, h) == half_bytes(Order::Little, h).reverse(),
{
    assert(word_bytes(Order::Big, x) =~= word_bytes(Order::Little, x).reverse());
    assert(half_bytes(Order::Big, h) =~= half_bytes(Order::Little, h).reverse());
}

/// Padding adds fewer than four zeros, so that the length is a multiple of four.
pub proof fn padding_fills_words(s: Seq<u8>)
    ensures
        s.is_prefix_of(padded(s)),
        padded(s).len() % 4 == 0,
        padded(s).len() < s.len() + 4,
        forall|i: int| s.len() <= i < padded(s).len() ==> #[trigger] padded(s)[i] == 0,
{
    assert(padded(s).take(s.len() as int) =~= s);
}

} // verus!
