//! The running processes that matches caught.

use crate::bytes::{word_at, word_bytes, word_reads_back, Machine, Order};
use crate::fields::{entries, entry};
use crate::netlink::{lossy, lossy_text};
use crate::text::{decimal, decimal_text, texts_of};
use vstd::prelude::*;

verus! {

/// `netlink_bindings::utils::parse_u32`: the number whose four bytes stand first,
/// in the order of the machine.
#[verifier::external_body]
fn native_word(m: &Machine, b: &Vec<u8>, at: usize) -> (r: u32)
    requires
        at + 4 <= b@.len(),
    ensures
        r == word_at(m.layout(), b@, at as int),
{
    netlink_bindings::utils::parse_u32(&b[at..]).unwrap()
}

/// `netlink_bindings::utils::parse_i32`: the signed number whose four bytes stand
/// first, in the order of the machine.
#[verifier::external_body]
fn native_signed(m: &Machine, b: &Vec<u8>, at: usize) -> (r: i32)
    requires
        at + 4 <= b@.len(),
    ensures
        r == word_at(m.layout(), b@, at as int) as i32,
{
    netlink_bindings::utils::parse_i32(&b[at..]).unwrap()
}

/// Whether bytes from some place on are a list of processes: of each the number
/// of a match, the length of the name, and the name.
pub open spec fn is_list(order: Order, b: Seq<u8>, at: int) -> bool
    decreases b.len() - at,
{
    ||| at == b.len()
    ||| {
        &&& 0 <= at
        &&& at + 8 <= b.len()
        &&& word_at(order, b, at) <= i32::MAX
        &&& at + 8 + word_at(order, b, at + 4) <= b.len()
        &&& is_list(order, b, at + 8 + word_at(order, b, at + 4))
    }
}

/// The processes that such bytes list: of each the position of the match, and
/// the name.
pub open spec fn listed(order: Order, b: Seq<u8>, at: int) -> Seq<(nat, Seq<char>)>
    decreases b.len() - at,
{
    if 0 <= at && at + 8 <= b.len() && at + 8 + word_at(order, b, at + 4) <= b.len() {
        let end = at + 8 + word_at(order, b, at + 4);
        seq![(word_at(order, b, at) as nat, lossy(b.subrange(at + 8, end)))] + listed(order, b, end)
    } else {
        Seq::empty()
    }
}

/// The names of the processes that one match caught, in their order.
pub open spec fn caught_by(ps: Seq<(nat, Seq<char>)>, id: nat) -> Seq<Seq<char>>
    decreases ps.len(),
{
    if ps.len() == 0 {
        Seq::empty()
    } else if ps.last().0 == id {
        caught_by(ps.drop_last(), id).push(ps.last().1)
    } else {
        caught_by(ps.drop_last(), id)
    }
}

/// The least number above the positions of the matches that caught some process.
pub open spec fn matches_listed(ps: Seq<(nat, Seq<char>)>) -> nat
    decreases ps.len(),
{
    if ps.len() == 0 {
        0
    } else if ps.last().0 >= matches_listed(ps.drop_last()) {
        ps.last().0 + 1
    } else {
        matches_listed(ps.drop_last())
    }
}

/// The entries by which a process is told.
pub open spec fn proc_entries(id: nat, name: Seq<char>) -> Seq<(Seq<char>, Seq<char>)> {
    seq![("match-id"@, decimal(id)), ("basename"@, name)]
}

/// The entries by which the processes of one match are told.
pub open spec fn told(id: nat, names: Seq<Seq<char>>) -> Seq<Seq<(Seq<char>, Seq<char>)>> {
    names.map_values(|n: Seq<char>| proc_entries(id, n))
}

/// What is told of the processes that the first `n` matches caught, match after
/// match.
pub open spec fn told_of(ps: Seq<(nat, Seq<char>)>, n: nat) -> Seq<Seq<(Seq<char>, Seq<char>)>>
    decreases n,
{
    if n == 0 {
        Seq::empty()
    } else {
        told_of(ps, (n - 1) as nat) + told((n - 1) as nat, caught_by(ps, (n - 1) as nat))
    }
}

/// The entries of each list.
pub open spec fn pages(v: Seq<Vec<(String, String)>>) -> Seq<Seq<(Seq<char>, Seq<char>)>> {
    v.map_values(|h: Vec<(String, String)>| entries(h@))
}

/// Whether bytes are a list of processes.
pub fn list_is_sound(m: &Machine, b: &Vec<u8>) -> (r: bool)
    ensures
        r == is_list(m.layout(), b@, 0),
{
    let n: usize = b.len();
    let mut at: usize = 0;
    while at < n
        invariant
            n == b@.len(),
            at <= n,
            is_list(m.layout(), b@, 0) == is_list(m.layout(), b@, at as int),
        decreases n - at,
    {
        if n - at < 8 {
            return false;
        }
        let ghost w = word_at(m.layout(), b@, at as int);
        assert((w as i32) < 0 <==> w > 0x7fff_ffffu32) by (bit_vector);
        if native_signed(m, b, at) < 0 {
            return false;
        }
        let len: u32 = native_word(m, b, at + 4);
        if len as usize > n - at - 8 {
            return false;
        }
        at = at + 8 + len as usize;
    }
    true
}

/// The bytes of a range.
fn bytes_between(b: &Vec<u8>, from: usize, to: usize) -> (r: Vec<u8>)
    requires
        from <= to <= b@.len(),
    ensures
        r@ == b@.subrange(from as int, to as int),
{
    let mut r: Vec<u8> = Vec::new();
    let mut i: usize = from;
    while i < to
        invariant
            from <= i <= to <= b@.len(),
            r@ == b@.subrange(from as int, i as int),
        decreases to - i,
    {
        r.push(b[i]);
        i += 1;
        assert(r@ =~= b@.subrange(from as int, i as int));
    }
    r
}

/// Above the number of matches listed, nothing is caught.
proof fn nothing_caught_above(ps: Seq<(nat, Seq<char>)>, id: nat)
    requires
        id >= matches_listed(ps),
    ensures
        caught_by(ps, id) == Seq::<Seq<char>>::empty(),
    decreases ps.len(),
{
    if ps.len() > 0 {
        nothing_caught_above(ps.drop_last(), id);
    }
}

/// Whether each list holds the names of the processes that the match at its
/// position caught.
spec fn sorted_out(h: Seq<Vec<String>>, ps: Seq<(nat, Seq<char>)>) -> bool {
    &&& h.len() == matches_listed(ps)
    &&& forall|k: int| 0 <= k < h.len() ==> texts_of((#[trigger] h[k])@) == caught_by(ps, k as nat)
}

/// Adds a process to those of its match.
fn sort_in(h: &mut Vec<Vec<String>>, id: u32, name: String, Ghost(ps): Ghost<Seq<(nat, Seq<char>)>>)
    requires
        sorted_out(old(h)@, ps),
        id < usize::MAX,
    ensures
        sorted_out(final(h)@, ps.push((id as nat, name@))),
{
    let ghost all = ps.push((id as nat, name@));
    assert(all.drop_last() =~= ps);
    while h.len() <= id as usize
        invariant
            id < usize::MAX,
            matches_listed(ps) <= h@.len(),
            h@.len() <= matches_listed(ps) || h@.len() <= id + 1,
            forall|k: int|
                0 <= k < h@.len() ==> texts_of((#[trigger] h@[k])@) == caught_by(ps, k as nat),
        decreases id + 1 - h.len(),
    {
        proof {
            nothing_caught_above(ps, h@.len());
        }
        let none: Vec<String> = Vec::new();
        assert(texts_of(none@) =~= Seq::<Seq<char>>::empty());
        h.push(none);
    }
    let ghost before = h@;
    h[id as usize].push(name);
    proof {
        assert(texts_of(h@[id as int]@) =~= texts_of(before[id as int]@).push(name@));
    }
}

/// Lists the processes that matches caught, match after match.
pub fn get_proc_names(m: &Machine, b: &Vec<u8>) -> (r: Vec<Vec<(String, String)>>)
    requires
        is_list(m.layout(), b@, 0),
    ensures
        pages(r@) == told_of(
            listed(m.layout(), b@, 0),
            matches_listed(listed(m.layout(), b@, 0)),
        ),
{
    let ghost order = m.layout();
    let ghost all = listed(order, b@, 0);
    let n: usize = b.len();
    let mut h: Vec<Vec<String>> = Vec::new();
    let mut at: usize = 0;
    let ghost mut done = Seq::<(nat, Seq<char>)>::empty();
    assert(all =~= done + listed(order, b@, 0));
    while at < n
        invariant
            n == b@.len(),
            at <= n,
            order == m.layout(),
            is_list(order, b@, at as int),
            all == done + listed(order, b@, at as int),
            sorted_out(h@, done),
        decreases n - at,
    {
        let ghost w = word_at(order, b@, at as int);
        assert(w <= 0x7fff_ffffu32 ==> (w as i32) == w) by (bit_vector);
        let id: i32 = native_signed(m, b, at);
        let len: u32 = native_word(m, b, at + 4);
        let end: usize = at + 8 + len as usize;
        let name = lossy_text(&bytes_between(b, at + 8, end));
        let ghost p = (id as nat, name@);
        sort_in(&mut h, id as u32, name, Ghost(done));
        proof {
            assert(done + listed(order, b@, at as int) =~= done.push(p) + listed(
                order,
                b@,
                end as int,
            ));
            done = done.push(p);
        }
        at = end;
    }
    assert(all =~= done);
    let mut r: Vec<Vec<(String, String)>> = Vec::new();
    let mut k: usize = 0;
    assert(pages(r@) =~= told_of(all, 0));
    while k < h.len()
        invariant
            k <= h@.len(),
            sorted_out(h@, all),
            pages(r@) == told_of(all, k as nat),
        decreases h.len() - k,
    {
        let ghost so_far = told_of(all, k as nat);
        let ghost names = texts_of(h@[k as int]@);
        let mut j: usize = 0;
        assert(so_far + told(k as nat, names.take(0)) =~= so_far);
        while j < h[k].len()
            invariant
                k < h@.len(),
                names == texts_of(h@[k as int]@),
                j <= h@[k as int]@.len(),
                pages(r@) == so_far + told(k as nat, names.take(j as int)),
            decreases h@[k as int]@.len() - j,
        {
            let ghost before = r@;
            let mut e: Vec<(String, String)> = Vec::new();
            e.push(entry("match-id", decimal_text(k as u64)));
            e.push(entry("basename", h[k][j].clone()));
            assert(entries(e@) =~= proc_entries(k as nat, names[j as int]));
            r.push(e);
            assert(pages(r@) =~= pages(before).push(entries(e@)));
            assert(told(k as nat, names.take(j + 1)) =~= told(k as nat, names.take(j as int)).push(
                proc_entries(k as nat, names[j as int]),
            ));
            assert(pages(r@) =~= so_far + told(k as nat, names.take(j + 1)));
            j += 1;
        }
        assert(names.take(names.len() as int) =~= names);
        k += 1;
    }
    r
}

/// The name of each process is among those that its match caught.
proof fn caught_names(ps: Seq<(nat, Seq<char>)>, i: int) -> (j: int)
    requires
        0 <= i < ps.len(),
    ensures
        0 <= j < caught_by(ps, ps[i].0).len(),
        caught_by(ps, ps[i].0)[j] == ps[i].1,
        ps[i].0 < matches_listed(ps),
    decreases ps.len(),
{
    if i == ps.len() - 1 {
        caught_by(ps, ps[i].0).len() - 1
    } else {
        assert(ps.drop_last()[i] == ps[i]);
        caught_names(ps.drop_last(), i)
    }
}

/// What is told of one match is told of the first `n`.
proof fn told_of_one(ps: Seq<(nat, Seq<char>)>, n: nat, id: nat, j: int)
    requires
        id < n,
        0 <= j < caught_by(ps, id).len(),
    ensures
        told_of(ps, n).contains(proc_entries(id, caught_by(ps, id)[j])),
    decreases n,
{
    let m = (n - 1) as nat;
    let before = told_of(ps, m);
    let last = told(m, caught_by(ps, m));
    let e = proc_entries(id, caught_by(ps, id)[j]);
    if id == m {
        assert((before + last)[before.len() + j] == e);
    } else {
        told_of_one(ps, m, id, j);
        let k = choose|k: int| 0 <= k < before.len() && before[k] == e;
        assert((before + last)[k] == e);
    }
}

/// With one more process, one more is told, where its match is counted.
proof fn told_grows(ps: Seq<(nat, Seq<char>)>, p: (nat, Seq<char>), n: nat)
    ensures
        told_of(ps.push(p), n).len() == told_of(ps, n).len() + if p.0 < n {
            1int
        } else {
            0
        },
    decreases n,
{
    if n > 0 {
        told_grows(ps, p, (n - 1) as nat);
        assert(ps.push(p).drop_last() =~= ps);
    }
}

/// Above the number of matches listed, nothing more is told.
proof fn told_of_all(ps: Seq<(nat, Seq<char>)>, n: nat)
    requires
        n >= matches_listed(ps),
    ensures
        told_of(ps, n) == told_of(ps, matches_listed(ps)),
    decreases n,
{
    if n > matches_listed(ps) {
        told_of_all(ps, (n - 1) as nat);
        nothing_caught_above(ps, (n - 1) as nat);
        assert(told_of(ps, n) =~= told_of(ps, (n - 1) as nat));
    }
}

/// Every process that is listed is told of, with the match that caught it.
pub proof fn every_process_is_told(ps: Seq<(nat, Seq<char>)>, i: int)
    requires
        0 <= i < ps.len(),
    ensures
        told_of(ps, matches_listed(ps)).contains(proc_entries(ps[i].0, ps[i].1)),
{
    let j = caught_names(ps, i);
    told_of_one(ps, matches_listed(ps), ps[i].0, j);
}

/// As many processes are told of as are listed.
pub proof fn no_process_is_told_twice(ps: Seq<(nat, Seq<char>)>)
    ensures
        told_of(ps, matches_listed(ps)).len() == ps.len(),
    decreases ps.len(),
{
    if ps.len() > 0 {
        let rest = ps.drop_last();
        no_process_is_told_twice(rest);
        assert(rest.push(ps.last()) =~= ps);
        told_grows(rest, ps.last(), matches_listed(ps));
        told_of_all(rest, matches_listed(ps));
    }
}

/// What follows in a list does not depend on what stands before it.
proof fn list_is_local(order: Order, head: Seq<u8>, b: Seq<u8>, at: int)
    requires
        0 <= at,
    ensures
        listed(order, head + b, head.len() + at) == listed(order, b, at),
    decreases b.len() - at,
{
    let whole = head + b;
    let n = head.len();
    if at + 8 <= b.len() {
        assert(forall|i: int| 0 <= i < b.len() ==> whole[n + i] == b[i]);
        assert(word_at(order, whole, n + at) == word_at(order, b, at));
        assert(word_at(order, whole, n + at + 4) == word_at(order, b, at + 4));
        let end = at + 8 + word_at(order, b, at + 4);
        if end <= b.len() {
            assert(whole.subrange(n + at + 8, n + end) =~= b.subrange(at + 8, end));
            list_is_local(order, head, b, end);
        }
    }
}

/// A process that stands before others in a list, with the number of its match and
/// its name, is the first that is listed; the others follow as they are.
pub proof fn processes_read_back(order: Order, id: u32, name: Seq<u8>, rest: Seq<u8>)
    requires
        name.len() <= u32::MAX,
    ensures
        ({
            let one = word_bytes(order, id) + word_bytes(order, name.len() as u32) + name;
            listed(order, one + rest, 0) == seq![(id as nat, lossy(name))] + listed(order, rest, 0)
        }),
        listed(order, Seq::empty(), 0) == Seq::<(nat, Seq<char>)>::empty(),
{
    let one = word_bytes(order, id) + word_bytes(order, name.len() as u32) + name;
    let b = one + rest;
    assert(b.subrange(0, 4) =~= word_bytes(order, id));
    assert(b.subrange(4, 8) =~= word_bytes(order, name.len() as u32));
    word_reads_back(order, b, 0, id);
    word_reads_back(order, b, 4, name.len() as u32);
    assert(b.subrange(8, 8int + name.len()) =~= name);
    list_is_local(order, one, rest, 0);
}

/// A process is told by the position of the match that caught it and by its name.
pub proof fn process_is_told_by(id: nat, name: Seq<char>)
    ensures
        proc_entries(id, name).contains(("match-id"@, decimal(id))),
        proc_entries(id, name).contains(("basename"@, name)),
        proc_entries(id, name).len() == 2,
{
    let e = proc_entries(id, name);
    assert(e[0] == ("match-id"@, decimal(id)));
    assert(e[1] == ("basename"@, name));
}

/// A list is sound where each process in it is: one more in front, with the position
/// of a match that a number can hold, makes no difference.
pub proof fn one_more_process_is_sound(order: Order, id: u32, name: Seq<u8>, rest: Seq<u8>)
    requires
        name.len() <= u32::MAX,
    ensures
        ({
            let one = word_bytes(order, id) + word_bytes(order, name.len() as u32) + name;
            is_list(order, one + rest, 0) <==> id <= i32::MAX && is_list(order, rest, 0)
        }),
        is_list(order, Seq::empty(), 0),
{
    let one = word_bytes(order, id) + word_bytes(order, name.len() as u32) + name;
    let b = one + rest;
    assert(b.subrange(0, 4) =~= word_bytes(order, id));
    assert(b.subrange(4, 8) =~= word_bytes(order, name.len() as u32));
    word_reads_back(order, b, 0, id);
    word_reads_back(order, b, 4, name.len() as u32);
    soundness_is_local(order, one, rest, 0);
}

/// Whether what follows is a list does not depend on what stands before it.
proof fn soundness_is_local(order: Order, head: Seq<u8>, b: Seq<u8>, at: int)
    requires
        0 <= at,
    ensures
        is_list(order, head + b, head.len() + at) == is_list(order, b, at),
    decreases b.len() - at,
{
    let whole = head + b;
    let n = head.len();
    if at + 8 <= b.len() {
        assert(forall|i: int| 0 <= i < b.len() ==> whole[n + i] == b[i]);
        assert(word_at(order, whole, n + at) == word_at(order, b, at));
        assert(word_at(order, whole, n + at + 4) == word_at(order, b, at + 4));
        let end = at + 8 + word_at(order, b, at + 4);
        if end <= b.len() {
            soundness_is_local(order, head, b, end);
        }
    }
}

} // verus!
