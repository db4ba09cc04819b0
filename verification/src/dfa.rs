//! Automata in the form in which the kernel side runs them.

use crate::automaton::{
    alphabet_len, build_error_text, byte_classes, class_of, compile, compiled, eoi_class, is_match,
    is_match_state, is_quit_state, match_len, match_lists, match_pattern, names_below, quit_id,
    representatives, row_length, run_starts, start_of, start_state, starts_anchored, stride,
    transition, transitions, well_built, Anchored,
};
use crate::bytes::{
    align, padded, put_word, put_words, word_at, word_bytes, words_bytes, words_length,
    words_read_back, Order,
};
use crate::error::Error;
use crate::kinds::Direction;
use crate::matches::{match_views, Matches};
use crate::matching::MatchView;
use crate::text::texts_of;
use regex_automata::dfa::dense;
use vstd::prelude::*;

verus! {

/// An automaton as plain tables.
#[derive(Debug)]
pub struct DFA {
    /// Number of different equivalence classes (including EOI)
    pub nclasses: usize,
    /// Equivalence class of EOI
    pub eoi_class: u16,
    /// Mapping: symbol -> equivalence class
    /// 256 bytes
    pub ec_table: Vec<u8>,
    /// Mapping: equivalence class -> first symbol (EOI is `None`)
    pub ec_reps: Vec<Option<u8>>,
    /// All equivalence classes (including EOI)
    pub ec_classes: Vec<usize>,
    /// A number of transitions dedicated to each state in the table
    pub stride: usize,
    /// Transition table: state_{i+1} = transition[state_i + ec_table[symbol]]
    pub trans: Vec<u32>,
    /// Mapping: state -> pattern ids, from `fin_min` on
    pub pats: Vec<Vec<u32>>,
    /// fin_min <= matching state <= fin_max
    pub fin_min: u32,
    pub fin_max: u32,
    pub quit: Vec<u32>,
    pub start: u32,
}

/// The numbers in each list.
pub open spec fn lists(v: Seq<Vec<u32>>) -> Seq<Seq<u32>> {
    v.map_values(|l: Vec<u32>| l@)
}

/// Whether the first `n` entries of a transition table hold the start state and
/// every state that they lead to, each with its whole row.
pub open spec fn closed(t: Seq<u32>, start: u32, row: nat, n: int) -> bool {
    &&& start + row <= n <= t.len()
    &&& forall|i: int| 0 <= i < n ==> #[trigger] t[i] + row <= n
}

/// Whether `n` entries are the shortest closed part of a transition table.
pub open spec fn extent(t: Seq<u32>, start: u32, row: nat, n: int) -> bool {
    &&& closed(t, start, row, n)
    &&& forall|m: int| 0 <= m < n ==> !#[trigger] closed(t, start, row, m)
}

/// A transition table has one extent only.
pub proof fn extent_is_unique(t: Seq<u32>, start: u32, row: nat, n: int, m: int)
    requires
        extent(t, start, row, n),
        extent(t, start, row, m),
    ensures
        n == m,
{
    assert(closed(t, start, row, n) && closed(t, start, row, m));
}

/// Whether a list holds exactly the classes of the bytes and of the end of the
/// input, each once.
pub open spec fn all_classes(classes: Seq<u8>, v: Seq<usize>) -> bool {
    &&& v.no_duplicates()
    &&& forall|c: usize| #[trigger]
        v.contains(c) <==> (c == classes[255] + 1 || exists|b: int|
            0 <= b < 256 && #[trigger] classes[b] == c)
}

impl DFA {
    /// Whether this is the part of an automaton that a search can reach.
    pub open spec fn extracted_from(
        self,
        d: dense::DFA<Vec<u32>>,
        anchored: Anchored,
    ) -> bool {
        &&& start_of(d, anchored) == Some(self.start)
        &&& self.stride == row_length(d)
        &&& extent(transitions(d), self.start, row_length(d), self.trans@.len() as int)
        &&& self.trans@ == transitions(d).take(self.trans@.len() as int)
        &&& self.ec_table@ == byte_classes(d)
        &&& self.eoi_class == byte_classes(d)[255] + 1
        &&& self.nclasses == byte_classes(d)[255] + 2
        &&& self.ec_reps@ == run_starts(byte_classes(d), 256).push(None)
        &&& all_classes(byte_classes(d), self.ec_classes@)
        &&& self.fin_min <= self.fin_max < self.trans@.len()
        &&& forall|i: int|
            0 <= i < self.trans@.len() ==> (#[trigger] is_match(d, i) <==> self.fin_min <= i
                <= self.fin_max)
        &&& lists(self.pats@) == Seq::new(
            (self.fin_max - self.fin_min + 1) as nat,
            |k: int| match_lists(d)[self.fin_min + k],
        )
        &&& self.quit@ == (if 0 < quit_id(d) < self.trans@.len() {
            seq![quit_id(d) as u32]
        } else {
            seq![]
        })
    }

    /// Whether the tables fit together: every transition leads to a state with
    /// a whole row, the dead state leads nowhere, and each class has its column
    /// and its first symbol.
    pub open spec fn wf(self) -> bool {
        &&& 2 <= self.stride <= 512
        &&& self.start + self.stride <= self.trans@.len() <= 0x4000_0000
        &&& self.trans@.len() % self.stride as nat == 0
        &&& forall|i: int|
            0 <= i < self.trans@.len() ==> #[trigger] self.trans@[i] + self.stride
                <= self.trans@.len()
        &&& forall|i: int| 0 <= i < self.stride ==> #[trigger] self.trans@[i] == 0
        &&& self.ec_table@.len() == 256
        &&& self.nclasses == self.eoi_class + 1
        &&& self.nclasses <= self.stride
        &&& self.ec_reps@.len() == self.nclasses
        &&& forall|k: int|
            0 <= k < self.ec_classes@.len() ==> #[trigger] self.ec_classes@[k] < self.nclasses
        &&& forall|b: int| 0 <= b < 256 ==> #[trigger] self.ec_table@[b] < self.eoi_class
        &&& self.fin_min <= self.fin_max < self.trans@.len()
        &&& self.pats@.len() == self.fin_max - self.fin_min + 1
    }
}

/// There are as many runs as classes, where classes are numbered without gaps.
proof fn runs_are_classes(classes: Seq<u8>, n: int)
    requires
        1 <= n <= 256,
        classes.len() == 256,
        classes[0] == 0,
        forall|i: int, j: int|
            0 <= i && j == i + 1 && j < 256 ==> #[trigger] classes[i] <= #[trigger] classes[j]
                <= classes[i] + 1,
    ensures
        run_starts(classes, n).len() == classes[n - 1] + 1,
        forall|b: int| 0 <= b < n ==> #[trigger] classes[b] <= classes[n - 1],
    decreases n,
{
    if n == 1 {
        reveal_with_fuel(run_starts, 2);
    } else {
        runs_are_classes(classes, n - 1);
        assert(classes[n - 2] <= classes[n - 1] <= classes[n - 2] + 1);
    }
}

/// What is extracted from an automaton of the builder fits together.
pub proof fn extracted_fits(x: DFA, d: dense::DFA<Vec<u32>>, anchored: Anchored)
    requires
        well_built(d),
        x.extracted_from(d, anchored),
    ensures
        x.wf(),
{
    let classes = byte_classes(d);
    runs_are_classes(classes, 256);
    let t = transitions(d);
    let n = x.trans@.len() as int;
    assert forall|i: int| 0 <= i < n implies #[trigger] x.trans@[i] + x.stride <= n by {
        assert(t[i] + row_length(d) <= n);
    }
    assert forall|i: int| 0 <= i < x.stride implies #[trigger] x.trans@[i] == 0 by {
        assert(t[i] == 0);
    }
    assert forall|k: int| 0 <= k < x.ec_classes@.len() implies #[trigger] x.ec_classes@[k]
        < x.nclasses by {
        assert(x.ec_classes@.contains(x.ec_classes@[k]));
    }
    assert(lists(x.pats@).len() == x.pats@.len());
    let row = row_length(d) as int;
    assert(!closed(t, x.start, row_length(d), n - 1));
    let last = if x.start + row == n {
        x.start as int
    } else {
        let i = choose|i: int| 0 <= i < n - 1 && !(#[trigger] t[i] + row <= n - 1);
        t[i] as int
    };
    assert((last + row) % row == 0) by (nonlinear_arith)
        requires
            last % row == 0,
            row > 0,
    ;
}

/// The classes of the bytes and of the end of the input, each once.
fn classes_of(table: &Vec<u8>, eoi: usize) -> (r: Vec<usize>)
    requires
        table@.len() == 256,
        eoi == table@[255] + 1,
    ensures
        all_classes(table@, r@),
{
    let mut v: Vec<usize> = Vec::new();
    v.push(eoi);
    assert(v@[0] == eoi);
    let mut i: usize = 0;
    while i < 256
        invariant
            i <= 256,
            table@.len() == 256,
            eoi == table@[255] + 1,
            v@.no_duplicates(),
            forall|c: usize| #[trigger]
                v@.contains(c) <==> (c == eoi || exists|b: int|
                    0 <= b < i && #[trigger] table@[b] == c),
        decreases 256 - i,
    {
        let c: usize = table[i] as usize;
        let mut k: usize = 0;
        let mut found = false;
        while k < v.len()
            invariant
                k <= v@.len(),
                found <==> exists|j: int| 0 <= j < k && #[trigger] v@[j] == c,
            decreases v.len() - k,
        {
            if v[k] == c {
                found = true;
            }
            k += 1;
        }
        let ghost before = v@;
        assert(found == before.contains(c));
        if !found {
            v.push(c);
        }
        proof {
            assert forall|e: usize| #[trigger] v@.contains(e) <==> (e == eoi || exists|b: int|
                0 <= b < i + 1 && #[trigger] table@[b] == e) by {
                if e == c {
                    assert(table@[i as int] == e);
                    if !found {
                        assert(v@[v@.len() - 1] == e);
                    }
                } else {
                    if v@.contains(e) {
                        let j = choose|j: int| 0 <= j < v@.len() && v@[j] == e;
                        assert(before[j] == e);
                        assert(before.contains(e));
                    }
                    if before.contains(e) {
                        let j = choose|j: int| 0 <= j < before.len() && before[j] == e;
                        assert(v@[j] == e);
                    }
                }
            }
        }
        i += 1;
    }
    v
}

/// The patterns of one match state.
fn patterns_at(d: &dense::DFA<Vec<u32>>, i: usize) -> (r: Vec<u32>)
    requires
        i < 0x4000_0000,
        is_match(*d, i as int),
    ensures
        r@ == match_lists(*d)[i as int],
{
    let n: usize = match_len(d, i);
    let mut r: Vec<u32> = Vec::new();
    let mut k: usize = 0;
    while k < n
        invariant
            i < 0x4000_0000,
            is_match(*d, i as int),
            k <= n,
            n == match_lists(*d)[i as int].len(),
            r@ == match_lists(*d)[i as int].take(k as int),
        decreases n - k,
    {
        r.push(match_pattern(d, i, k));
        k += 1;
    }
    r
}

/// Compiles patterns for anchored searches, forward or in reverse.
pub fn build_dfa(pats: &Vec<String>, reverse: bool, limit: u32) -> (r: Result<
    dense::DFA<Vec<u32>>,
    Error,
>)
    ensures
        match compiled(texts_of(pats@), reverse, limit) {
            Ok(d) => r == Ok::<_, Error>(d) && well_built(d) && names_below(d, pats@.len())
                && starts_anchored(d),
            Err(t) => r matches Err(Error::Regex(s)) && s@ == t,
        },
{
    match compile(pats, reverse, limit) {
        Ok(d) => Ok(d),
        Err(e) => Err(Error::Regex(build_error_text(&e))),
    }
}

/// What taking out the part of an automaton that a search can reach amounts to:
/// it fails where the automaton supports no such search, where the table is
/// larger than `limit` bytes, and where no match state can be reached.
pub open spec fn extraction(
    d: dense::DFA<Vec<u32>>,
    anchored: Anchored,
    limit: u32,
    r: Result<DFA, Error>,
) -> bool {
    match start_of(d, anchored) {
        None => r matches Err(e) && e is NoStart,
        Some(s) => exists|n: int|
            {
                &&& #[trigger] extent(transitions(d), s, row_length(d), n)
                &&& if 4 * n > limit {
                    r matches Err(e) && e matches Error::TooManyStates(k) && k == n
                } else if forall|i: int| 0 <= i < n ==> !#[trigger] is_match(d, i) {
                    r matches Err(e) && e is NoFinalState
                } else {
                    r matches Ok(x) && x.trans@.len() == n && x.extracted_from(d, anchored)
                }
            },
    }
}

/// Takes out of an automaton the part that a search can reach.
pub fn extract(d: &dense::DFA<Vec<u32>>, anchored: Anchored, limit: u32) -> (r: Result<DFA, Error>)
    requires
        well_built(*d),
    ensures
        extraction(*d, anchored, limit, r),
        r matches Ok(x) ==> x.wf(),
{
    let mut ec_table: Vec<u8> = Vec::new();
    let mut b: usize = 0;
    while b < 256
        invariant
            b <= 256,
            byte_classes(*d).len() == 256,
            ec_table@ == byte_classes(*d).take(b as int),
        decreases 256 - b,
    {
        ec_table.push(class_of(d, b as u8));
        b += 1;
    }
    assert(ec_table@ == byte_classes(*d));
    let eoi: usize = eoi_class(d);
    let ec_classes = classes_of(&ec_table, eoi);
    let ec_reps = representatives(d);

    let start: u32 = match start_state(d, anchored) {
        Some(s) => s,
        None => {
            return Err(Error::NoStart);
        },
    };
    let row: usize = stride(d);

    let ghost t = transitions(*d);
    let mut trans: Vec<u32> = Vec::new();
    let mut quit: Vec<u32> = Vec::new();
    let mut pats: Vec<Vec<u32>> = Vec::new();
    let mut fin_min: u32 = 0;
    let mut fin_max: u32 = 0;
    let mut found = false;
    let mut i: usize = 0;
    let mut max: u32 = start;
    assert(start_of(*d, anchored) == Some(start));
    assert(start + row <= t.len());
    while i < max as usize + row
        invariant
            well_built(*d),
            t == transitions(*d),
            row == row_length(*d),
            i <= max + row <= t.len(),
            start <= max,
            max == start || exists|j: int| 0 <= j < i && #[trigger] t[j] == max,
            forall|j: int| 0 <= j < i ==> #[trigger] t[j] <= max,
            forall|m: int| 0 <= m < i ==> !#[trigger] closed(t, start, row as nat, m),
            trans@ == t.take(i as int),
            quit@ == (if 0 < quit_id(*d) < i {
                seq![quit_id(*d) as u32]
            } else {
                seq![]
            }),
            !found ==> pats@.len() == 0 && forall|j: int| 0 <= j < i ==> !#[trigger] is_match(*d, j),
            found ==> {
                &&& fin_min <= fin_max < i
                &&& forall|j: int|
                    0 <= j < i ==> (#[trigger] is_match(*d, j) <==> fin_min <= j <= fin_max)
                &&& lists(pats@) == Seq::new(
                    (i - fin_min) as nat,
                    |k: int|
                        if is_match(*d, fin_min + k) {
                            match_lists(*d)[fin_min + k]
                        } else {
                            Seq::empty()
                        },
                )
            },
        decreases t.len() - i,
    {
        let ghost before_max = max;
        assert(!closed(t, start, row as nat, i as int));
        let next: u32 = transition(d, i);
        trans.push(next);
        if is_quit_state(d, i) {
            quit.push(i as u32);
        }
        let ghost before = pats@;
        if is_match_state(d, i) {
            assert(is_match(*d, i as int));
            if !found {
                fin_min = i as u32;
                found = true;
            } else {
                proof {
                    assert(is_match(*d, fin_min as int));
                    assert forall|j: int| fin_min <= j <= i implies #[trigger] is_match(*d, j) by {}
                    assert(is_match(*d, i - 1));
                }
            }
            fin_max = i as u32;
            pats.push(patterns_at(d, i));
        } else {
            assert(!is_match(*d, i as int));
            if found {
                pats.push(Vec::new());
            }
        }
        proof {
            if found {
                let want = Seq::new(
                    (i + 1 - fin_min) as nat,
                    |k: int|
                        if is_match(*d, fin_min + k) {
                            match_lists(*d)[fin_min + k]
                        } else {
                            Seq::empty()
                        },
                );
                assert(lists(pats@) == lists(before).push(pats@.last()@));
                assert(lists(pats@) =~= want);
            }
        }
        assert(t[i as int] == next);
        if next > max {
            max = next;
        }
        i += 1;
    }
    let ghost n = i as int;
    assert(closed(t, start, row as nat, n));
    assert(extent(t, start, row as nat, n));

    if trans.len() as u64 * 4 > limit as u64 {
        return Err(Error::TooManyStates(trans.len()));
    }
    if !found {
        return Err(Error::NoFinalState);
    }
    let ghost all = lists(pats@);
    let ghost count = (fin_max - fin_min + 1) as nat;
    while pats.len() > 0 && pats[pats.len() - 1].len() == 0
        invariant
            well_built(*d),
            fin_min <= fin_max < n,
            forall|j: int|
                0 <= j < n ==> (#[trigger] is_match(*d, j) <==> fin_min <= j <= fin_max),
            all == Seq::new(
                (n - fin_min) as nat,
                |k: int|
                    if is_match(*d, fin_min + k) {
                        match_lists(*d)[fin_min + k]
                    } else {
                        Seq::empty()
                    },
            ),
            count == fin_max - fin_min + 1,
            count <= pats@.len() <= all.len(),
            lists(pats@) == all.take(pats@.len() as int),
        decreases pats.len(),
    {
        let ghost last = pats@.len() - 1;
        let ghost before = pats@;
        proof {
            assert(lists(pats@)[last] == pats@[last]@);
            if last == count - 1 {
                assert(is_match(*d, fin_min + last));
                assert(all[last] == match_lists(*d)[fin_max as int]);
            }
        }
        pats.pop();
        assert(lists(pats@) == lists(before).drop_last());
    }
    proof {
        if pats@.len() > count {
            let last = pats@.len() - 1;
            assert(lists(pats@)[last] == pats@[last]@);
            assert(!is_match(*d, fin_min + last));
            assert(all[last] == Seq::<u32>::empty());
        }
        assert(lists(pats@) =~= Seq::new(count, |k: int| match_lists(*d)[fin_min + k])) by {
            assert forall|k: int| 0 <= k < count implies lists(pats@)[k] == match_lists(
                *d,
            )[fin_min + k] by {
                assert(is_match(*d, fin_min + k));
            }
        }
    }
    let x = DFA {
        nclasses: alphabet_len(d),
        eoi_class: eoi as u16,
        ec_table,
        ec_reps,
        ec_classes,
        stride: row,
        trans,
        pats,
        fin_min,
        fin_max,
        quit,
        start,
    };
    proof {
        extracted_fits(x, *d, anchored);
        assert(is_match(*d, fin_min as int));
    }
    Ok(x)
}

/// Compiles patterns in reverse and takes out what a search can reach.
pub fn extract_dfa(pats: &Vec<String>, limit: u32) -> (r: Result<DFA, Error>)
    ensures
        match compiled(texts_of(pats@), true, limit) {
            Err(t) => r matches Err(Error::Regex(s)) && s@ == t,
            Ok(d) => extraction(d, Anchored::Yes, limit, r),
        },
        r matches Ok(x) ==> x.wf() && x.names_below(pats@.len()),
        r matches Err(e) ==> !(e is NoStart),
{
    match build_dfa(pats, true, limit) {
        Ok(d) => {
            let r = extract(&d, Anchored::Yes, limit);
            proof {
                if r is Ok {
                    let x = r->Ok_0;
                    assert forall|k: int, j: int|
                        0 <= k < x.pats@.len() && 0 <= j < x.pats@[k]@.len() implies #[trigger] x.pats@[k]@[j]
                        < pats@.len() by {
                        assert(lists(x.pats@)[k] == x.pats@[k]@);
                        assert(is_match(d, x.fin_min + k));
                        assert(match_lists(d)[x.fin_min + k][j] < pats@.len());
                    }
                }
            }
            r
        },
        Err(e) => Err(e),
    }
}

/// Where the tables of an automaton stand in the arena, and what a search needs
/// besides them.
#[derive(Clone, Copy, Debug, PartialEq, Eq, Structural)]
pub struct BpfDfa {
    /// The classes of the 256 bytes, followed by the transition table.
    pub dfa_off: u32,
    pub start: u32,
    pub eoi: u16,
    pub fin_min: u32,
    pub fin_max: u32,
    /// For each match state a pair of words: where its matches start in the
    /// three tables below, and how many they are.
    pub match_slices_off: u32,
    pub redirect_table_off: u32,
    pub match_id_table_off: u32,
    pub uid_table_off: u32,
}

/// Where the list of each state starts when the lists follow one another, and
/// how long it is.
pub open spec fn slices(pats: Seq<Seq<u32>>) -> Seq<u32>
    decreases pats.len(),
{
    if pats.len() == 0 {
        Seq::empty()
    } else {
        slices(pats.drop_last()).push(joined(pats.drop_last()).len() as u32).push(
            pats.last().len() as u32,
        )
    }
}

/// All lists, one after the other.
pub open spec fn joined(pats: Seq<Seq<u32>>) -> Seq<u32>
    decreases pats.len(),
{
    if pats.len() == 0 {
        Seq::empty()
    } else {
        joined(pats.drop_last()) + pats.last()
    }
}

/// The mark of a direction in the redirect table.
pub open spec fn redirect_byte(d: Direction) -> u8 {
    match d {
        Direction::bypass => 0,
        Direction::redirect => 1,
    }
}

/// The redirect table: for each pattern the direction of its match.
pub open spec fn redirect_table(ps: Seq<u32>, ids: Seq<usize>, ms: Seq<MatchView>) -> Seq<u8> {
    ps.map_values(|p: u32| redirect_byte(ms[ids[p as int] as int].direction))
}

/// The user table: for each pattern the user of its match.
pub open spec fn uid_table(ps: Seq<u32>, ids: Seq<usize>, ms: Seq<MatchView>) -> Seq<u32> {
    ps.map_values(|p: u32| ms[ids[p as int] as int].uid)
}

/// The match table: for each pattern the position of its match.
pub open spec fn match_id_table(ps: Seq<u32>, ids: Seq<usize>) -> Seq<u32> {
    ps.map_values(|p: u32| ids[p as int] as u32)
}

impl DFA {
    /// Whether the automaton names only patterns below a bound.
    pub open spec fn names_below(self, patterns: nat) -> bool {
        forall|k: int, j: int|
            0 <= k < self.pats@.len() && 0 <= j < self.pats@[k]@.len()
                ==> #[trigger] self.pats@[k]@[j] < patterns
    }

    /// The arena up to and with the transition table.
    pub open spec fn arena_with_transitions(self, arena: Seq<u8>, order: Order) -> Seq<u8> {
        padded(padded(arena) + self.ec_table@ + words_bytes(order, self.trans@))
    }

    /// The arena up to and with the slices.
    pub open spec fn arena_with_slices(self, arena: Seq<u8>, order: Order) -> Seq<u8> {
        self.arena_with_transitions(arena, order) + words_bytes(order, slices(lists(self.pats@)))
    }

    /// The arena up to and with the redirect table.
    pub open spec fn arena_with_redirects(
        self,
        arena: Seq<u8>,
        ids: Seq<usize>,
        ms: Seq<MatchView>,
        order: Order,
    ) -> Seq<u8> {
        self.arena_with_slices(arena, order) + redirect_table(joined(lists(self.pats@)), ids, ms)
    }

    /// The arena up to and with the user table.
    pub open spec fn arena_with_uids(
        self,
        arena: Seq<u8>,
        ids: Seq<usize>,
        ms: Seq<MatchView>,
        order: Order,
    ) -> Seq<u8> {
        self.arena_with_redirects(arena, ids, ms, order) + words_bytes(
            order,
            uid_table(joined(lists(self.pats@)), ids, ms),
        )
    }

    /// The arena with all tables of the automaton appended.
    pub open spec fn arena_with_all(
        self,
        arena: Seq<u8>,
        ids: Seq<usize>,
        ms: Seq<MatchView>,
        order: Order,
    ) -> Seq<u8> {
        self.arena_with_uids(arena, ids, ms, order) + words_bytes(
            order,
            match_id_table(joined(lists(self.pats@)), ids),
        )
    }

    /// The header of the automaton: offsets are the arena lengths at which the
    /// tables were started, cut down to 32 bits.
    pub open spec fn header(
        self,
        arena: Seq<u8>,
        ids: Seq<usize>,
        ms: Seq<MatchView>,
        order: Order,
    ) -> BpfDfa {
        BpfDfa {
            dfa_off: padded(arena).len() as u32,
            start: self.start,
            eoi: self.eoi_class,
            fin_min: self.fin_min,
            fin_max: self.fin_max,
            match_slices_off: self.arena_with_transitions(arena, order).len() as u32,
            redirect_table_off: self.arena_with_slices(arena, order).len() as u32,
            match_id_table_off: self.arena_with_uids(arena, ids, ms, order).len() as u32,
            uid_table_off: self.arena_with_redirects(arena, ids, ms, order).len() as u32,
        }
    }
}

/// Appends bytes.
fn put_bytes(buf: &mut Vec<u8>, bytes: &Vec<u8>)
    ensures
        final(buf)@ == old(buf)@ + bytes@,
{
    let mut i: usize = 0;
    while i < bytes.len()
        invariant
            i <= bytes@.len(),
            buf@ == old(buf)@ + bytes@.take(i as int),
        decreases bytes.len() - i,
    {
        buf.push(bytes[i]);
        i += 1;
    }
}

/// Appends the tables of an automaton to the arena. `pat_id_map` gives for each
/// pattern the position of its match.
pub fn encode(
    dfa: &DFA,
    arena: &mut Vec<u8>,
    pat_id_map: &Vec<usize>,
    matches: &Matches,
    order: Order,
) -> (r: BpfDfa)
    requires
        dfa.ec_table@.len() == 256,
        dfa.names_below(pat_id_map@.len()),
        forall|p: int|
            0 <= p < pat_id_map@.len() ==> #[trigger] pat_id_map@[p] < matches.matches@.len(),
    ensures
        final(arena)@ == dfa.arena_with_all(
            old(arena)@,
            pat_id_map@,
            match_views(matches.matches@),
            order,
        ),
        r == dfa.header(old(arena)@, pat_id_map@, match_views(matches.matches@), order),
{
    let ghost base = arena@;
    let ghost ids = pat_id_map@;
    let ghost ms = match_views(matches.matches@);
    let ghost all = lists(dfa.pats@);
    align(arena);
    let dfa_off: u32 = arena.len() as u32;
    put_bytes(arena, &dfa.ec_table);
    put_words(arena, order, &dfa.trans);
    align(arena);
    let match_slices_off: u32 = arena.len() as u32;

    let mut redirects: Vec<u8> = Vec::new();
    let mut uids: Vec<u32> = Vec::new();
    let mut match_ids: Vec<u32> = Vec::new();
    let mut k: usize = 0;
    assert(arena@ == dfa.arena_with_transitions(base, order) + words_bytes(
        order,
        slices(all.take(0)),
    ));
    while k < dfa.pats.len()
        invariant
            all == lists(dfa.pats@),
            ids == pat_id_map@,
            ms == match_views(matches.matches@),
            dfa.names_below(ids.len()),
            forall|p: int| 0 <= p < ids.len() ==> #[trigger] ids[p] < matches.matches@.len(),
            k <= dfa.pats@.len(),
            arena@ == dfa.arena_with_transitions(base, order) + words_bytes(
                order,
                slices(all.take(k as int)),
            ),
            redirects@ == redirect_table(joined(all.take(k as int)), ids, ms),
            uids@ == uid_table(joined(all.take(k as int)), ids, ms),
            match_ids@ == match_id_table(joined(all.take(k as int)), ids),
        decreases dfa.pats.len() - k,
    {
        let off: u32 = uids.len() as u32;
        let pats = &dfa.pats[k];
        let len: u32 = pats.len() as u32;
        let ghost prefix = joined(all.take(k as int));
        let mut j: usize = 0;
        assert(prefix + pats@.take(0) == prefix);
        while j < pats.len()
            invariant
                ids == pat_id_map@,
                ms == match_views(matches.matches@),
                k < dfa.pats@.len(),
                pats == dfa.pats@[k as int],
                dfa.names_below(ids.len()),
                forall|p: int| 0 <= p < ids.len() ==> #[trigger] ids[p] < matches.matches@.len(),
                j <= pats@.len(),
                redirects@ == redirect_table(prefix + pats@.take(j as int), ids, ms),
                uids@ == uid_table(prefix + pats@.take(j as int), ids, ms),
                match_ids@ == match_id_table(prefix + pats@.take(j as int), ids),
            decreases pats.len() - j,
        {
            let pat_id: u32 = pats[j];
            assert(dfa.pats@[k as int]@[j as int] < ids.len());
            let m_id: usize = pat_id_map[pat_id as usize];
            let m = &matches.matches[m_id];
            assert(ms[m_id as int] == m@);
            redirects.push(
                match m.direction {
                    Direction::bypass => 0u8,
                    Direction::redirect => 1u8,
                },
            );
            uids.push(m.uid);
            match_ids.push(m_id as u32);
            assert(prefix + pats@.take(j + 1) =~= (prefix + pats@.take(j as int)).push(pat_id));
            j += 1;
            assert(redirects@ =~= redirect_table(prefix + pats@.take(j as int), ids, ms));
            assert(uids@ =~= uid_table(prefix + pats@.take(j as int), ids, ms));
            assert(match_ids@ =~= match_id_table(prefix + pats@.take(j as int), ids));
        }
        assert(pats@.take(pats@.len() as int) == pats@);
        put_word(arena, order, off);
        put_word(arena, order, len);
        proof {
            let now = all.take(k + 1);
            let was = all.take(k as int);
            assert(now.drop_last() == was);
            assert(now.last() == pats@);
            let s = slices(was);
            assert(slices(now) == s.push(off).push(len));
            assert(s.push(off).push(len).drop_last() == s.push(off));
            assert(s.push(off).drop_last() == s);
            reveal_with_fuel(words_bytes, 3);
            assert(words_bytes(order, slices(now)) == words_bytes(order, s) + word_bytes(
                order,
                off,
            ) + word_bytes(order, len));
        }
        k += 1;
    }
    assert(all.take(all.len() as int) == all);
    let redirect_table_off: u32 = arena.len() as u32;
    put_bytes(arena, &redirects);
    let uid_table_off: u32 = arena.len() as u32;
    put_words(arena, order, &uids);
    let match_id_table_off: u32 = arena.len() as u32;
    put_words(arena, order, &match_ids);
    BpfDfa {
        dfa_off,
        start: dfa.start,
        eoi: dfa.eoi_class,
        fin_min: dfa.fin_min,
        fin_max: dfa.fin_max,
        match_slices_off,
        redirect_table_off,
        match_id_table_off,
        uid_table_off,
    }
}

/// Compiles patterns and appends the automaton to the arena, which stays as it
/// is where they do not compile.
pub fn encode_dfa(
    pats: &Vec<String>,
    arena: &mut Vec<u8>,
    pat_id_map: &Vec<usize>,
    matches: &Matches,
    limit: u32,
    order: Order,
) -> (r: Result<BpfDfa, Error>)
    requires
        pats@.len() <= pat_id_map@.len(),
        forall|p: int|
            0 <= p < pat_id_map@.len() ==> #[trigger] pat_id_map@[p] < matches.matches@.len(),
    ensures
        encoding(
            texts_of(pats@),
            limit,
            old(arena)@,
            pat_id_map@,
            match_views(matches.matches@),
            order,
            r,
            final(arena)@,
        ),
{
    match extract_dfa(pats, limit) {
        Ok(dfa) => {
            let r = encode(&dfa, arena, pat_id_map, matches, order);
            Ok(r)
        },
        Err(e) => Err(e),
    }
}

/// What compiling and encoding patterns amounts to.
pub open spec fn encoding(
    pats: Seq<Seq<char>>,
    limit: u32,
    before: Seq<u8>,
    ids: Seq<usize>,
    ms: Seq<MatchView>,
    order: Order,
    r: Result<BpfDfa, Error>,
    after: Seq<u8>,
) -> bool {
    match compiled(pats, true, limit) {
        Err(t) => r matches Err(Error::Regex(s)) && s@ == t && after == before,
        Ok(d) => match r {
            Ok(h) => exists|x: DFA|
                {
                    &&& #[trigger] extraction(d, Anchored::Yes, limit, Ok(x))
                    &&& x.wf()
                    &&& after == x.arena_with_all(before, ids, ms, order)
                    &&& h == x.header(before, ids, ms, order)
                },
            Err(e) => extraction(d, Anchored::Yes, limit, Err(e)) && after == before,
        },
    }
}

/// Two words per list, that of a list being where it starts and how long it is.
proof fn slices_locate(pats: Seq<Seq<u32>>, k: int)
    requires
        0 <= k < pats.len(),
    ensures
        slices(pats).len() == 2 * pats.len(),
        slices(pats)[2 * k] == joined(pats.take(k)).len() as u32,
        slices(pats)[2 * k + 1] == pats[k].len() as u32,
    decreases pats.len(),
{
    if pats.len() == 1 {
        assert(pats.drop_last() == Seq::<Seq<u32>>::empty());
        reveal_with_fuel(slices, 2);
        assert(pats.take(0) == pats.drop_last());
    } else {
        slices_locate(pats.drop_last(), 0);
        if k < pats.len() - 1 {
            slices_locate(pats.drop_last(), k);
            assert(pats.drop_last().take(k) == pats.take(k));
        } else {
            assert(pats.take(k) == pats.drop_last());
        }
    }
}

/// Where a list stands among all of them.
proof fn joined_locates(pats: Seq<Seq<u32>>, k: int, j: int)
    requires
        0 <= k < pats.len(),
        0 <= j < pats[k].len(),
    ensures
        joined(pats.take(k)).len() + pats[k].len() <= joined(pats).len(),
        joined(pats)[joined(pats.take(k)).len() + j] == pats[k][j],
    decreases pats.len(),
{
    if k == pats.len() - 1 {
        assert(pats.take(k) == pats.drop_last());
    } else {
        joined_locates(pats.drop_last(), k, j);
        assert(pats.drop_last().take(k) == pats.take(k));
    }
}

/// Appending an automaton leaves what the arena held before, and the words of
/// its two word tables that come first are aligned.
pub proof fn encoding_appends(
    x: DFA,
    arena: Seq<u8>,
    ids: Seq<usize>,
    ms: Seq<MatchView>,
    order: Order,
)
    requires
        x.wf(),
    ensures
        arena.is_prefix_of(x.arena_with_all(arena, ids, ms, order)),
        padded(arena).len() % 4 == 0,
        x.arena_with_transitions(arena, order).len() % 4 == 0,
        x.arena_with_transitions(arena, order).len() == padded(arena).len() + 256 + 4
            * x.trans@.len(),
{
    words_length(order, x.trans@);
    let all = x.arena_with_all(arena, ids, ms, order);
    assert(all.take(arena.len() as int) =~= arena);
    let n = x.trans@.len() as int;
    assert((256 + 4 * n) % 4 == 0);
}

/// The class of each byte and each transition read back from where the header
/// says.
pub proof fn transitions_read_back(
    x: DFA,
    arena: Seq<u8>,
    ids: Seq<usize>,
    ms: Seq<MatchView>,
    order: Order,
    b: int,
    i: int,
)
    requires
        x.wf(),
        x.arena_with_all(arena, ids, ms, order).len() <= u32::MAX,
        0 <= b < 256,
        0 <= i < x.trans@.len(),
    ensures
        ({
            let s = x.arena_with_all(arena, ids, ms, order);
            let h = x.header(arena, ids, ms, order);
            &&& s[h.dfa_off + b] == x.ec_table@[b]
            &&& word_at(order, s, h.dfa_off + 256 + 4 * i) == x.trans@[i]
        }),
{
    let s = x.arena_with_all(arena, ids, ms, order);
    let at = padded(arena).len() as int;
    let w = words_bytes(order, x.trans@);
    words_length(order, x.trans@);
    assert(s.subrange(at + 256, at + 256 + 4 * x.trans@.len()) =~= w);
    words_read_back(order, s, at + 256, x.trans@, i);
}

/// The state in which an automaton ends that reads bytes from a state on, and
/// then the end of the input.
pub open spec fn automaton_run(d: dense::DFA<Vec<u32>>, state: u32, w: Seq<u8>) -> u32
    decreases w.len(),
{
    if w.len() == 0 {
        transitions(d)[state + byte_classes(d)[255] + 1]
    } else {
        automaton_run(d, transitions(d)[state + byte_classes(d)[w[0] as int]], w.drop_first())
    }
}

/// The state in which a search in the arena ends that reads bytes from a state
/// on, and then the end of the input.
pub open spec fn arena_run(order: Order, s: Seq<u8>, h: BpfDfa, state: u32, w: Seq<u8>) -> u32
    decreases w.len(),
{
    if w.len() == 0 {
        word_at(order, s, h.dfa_off + 256 + 4 * (state + h.eoi))
    } else {
        let class = s[h.dfa_off + w[0]];
        arena_run(
            order,
            s,
            h,
            word_at(order, s, h.dfa_off + 256 + 4 * (state + class)),
            w.drop_first(),
        )
    }
}

/// A search in the arena goes as the automaton does, from any state that can be
/// reached.
proof fn runs_agree_from(
    x: DFA,
    d: dense::DFA<Vec<u32>>,
    arena: Seq<u8>,
    ids: Seq<usize>,
    ms: Seq<MatchView>,
    order: Order,
    state: u32,
    w: Seq<u8>,
)
    requires
        well_built(d),
        x.extracted_from(d, Anchored::Yes),
        x.arena_with_all(arena, ids, ms, order).len() <= u32::MAX,
        state + x.stride <= x.trans@.len(),
    ensures
        ({
            let s = x.arena_with_all(arena, ids, ms, order);
            let h = x.header(arena, ids, ms, order);
            let f = arena_run(order, s, h, state, w);
            &&& f == automaton_run(d, state, w)
            &&& f < x.trans@.len()
        }),
    decreases w.len(),
{
    extracted_fits(x, d, Anchored::Yes);
    if w.len() == 0 {
        let i = state + x.eoi_class;
        transitions_read_back(x, arena, ids, ms, order, 0, i);
        assert(x.trans@[i] == transitions(d)[i]);
    } else {
        let b = w[0] as int;
        let i = state + x.ec_table@[b];
        assert(x.ec_table@[b] < x.eoi_class);
        transitions_read_back(x, arena, ids, ms, order, b, i);
        assert(x.trans@[i] == transitions(d)[i]);
        assert(x.trans@[i] + x.stride <= x.trans@.len());
        runs_agree_from(x, d, arena, ids, ms, order, x.trans@[i], w.drop_first());
    }
}

/// A search in the arena accepts what the automaton accepts, and where it does,
/// the slices are those of the patterns that the automaton reports.
pub proof fn arena_accepts_as_automaton(
    x: DFA,
    d: dense::DFA<Vec<u32>>,
    arena: Seq<u8>,
    ids: Seq<usize>,
    ms: Seq<MatchView>,
    order: Order,
    w: Seq<u8>,
)
    requires
        well_built(d),
        x.extracted_from(d, Anchored::Yes),
        x.arena_with_all(arena, ids, ms, order).len() <= u32::MAX,
    ensures
        ({
            let s = x.arena_with_all(arena, ids, ms, order);
            let h = x.header(arena, ids, ms, order);
            let f = arena_run(order, s, h, h.start, w);
            &&& start_of(d, Anchored::Yes) == Some(h.start)
            &&& f == automaton_run(d, h.start, w)
            &&& is_match(d, f as int) <==> h.fin_min <= f <= h.fin_max
            &&& is_match(d, f as int) ==> x.pats@[f - h.fin_min]@ == match_lists(d)[f as int]
        }),
{
    extracted_fits(x, d, Anchored::Yes);
    runs_agree_from(x, d, arena, ids, ms, order, x.start, w);
    let f = automaton_run(d, x.start, w);
    if is_match(d, f as int) {
        let k = f - x.fin_min;
        assert(lists(x.pats@)[k] == match_lists(d)[x.fin_min + k]);
        assert(lists(x.pats@)[k] == x.pats@[k]@);
    }
}

/// For each match state the header and the slices lead to its patterns in order,
/// and there to the position, the user and the direction of the match of each.
#[verifier::spinoff_prover]
#[verifier::rlimit(40)]
pub proof fn matches_read_back(
    x: DFA,
    arena: Seq<u8>,
    ids: Seq<usize>,
    ms: Seq<MatchView>,
    order: Order,
    state: int,
    j: int,
)
    requires
        x.wf(),
        x.arena_with_all(arena, ids, ms, order).len() <= u32::MAX,
        x.fin_min <= state <= x.fin_max,
        0 <= j < x.pats@[state - x.fin_min]@.len(),
    ensures
        ({
            let s = x.arena_with_all(arena, ids, ms, order);
            let h = x.header(arena, ids, ms, order);
            let k = state - x.fin_min;
            let off = word_at(order, s, h.match_slices_off + 8 * k);
            let id = ids[x.pats@[k]@[j] as int];
            &&& word_at(order, s, h.match_slices_off + 8 * k + 4) == x.pats@[k]@.len()
            &&& word_at(order, s, h.match_id_table_off + 4 * (off + j)) == id as u32
            &&& word_at(order, s, h.uid_table_off + 4 * (off + j)) == ms[id as int].uid
            &&& s[h.redirect_table_off + off + j] == redirect_byte(ms[id as int].direction)
        }),
{
    let s = x.arena_with_all(arena, ids, ms, order);
    let k = state - x.fin_min;
    let pats = lists(x.pats@);
    assert(pats[k] == x.pats@[k]@);
    let ps = joined(pats);
    let sl = slices(pats);
    let redirects = redirect_table(ps, ids, ms);
    let uids = uid_table(ps, ids, ms);
    let mids = match_id_table(ps, ids);
    words_length(order, sl);
    words_length(order, uids);
    words_length(order, mids);
    slices_locate(pats, k);
    joined_locates(pats, k, j);
    let at1 = x.arena_with_transitions(arena, order).len() as int;
    let at2 = x.arena_with_slices(arena, order).len() as int;
    let at3 = x.arena_with_redirects(arena, ids, ms, order).len() as int;
    let at4 = x.arena_with_uids(arena, ids, ms, order).len() as int;
    assert(at4 + 4 * ps.len() == s.len());
    let off = joined(pats.take(k)).len() as int;
    assert(s.subrange(at1, at1 + 4 * sl.len()) =~= words_bytes(order, sl));
    words_read_back(order, s, at1, sl, 2 * k);
    words_read_back(order, s, at1, sl, 2 * k + 1);
    assert(at1 + 4 * (2 * k) == at1 + 8 * k);
    assert(at1 + 4 * (2 * k + 1) == at1 + 8 * k + 4);
    assert(s[at2 + (off + j)] == redirects[off + j]);
    assert(s.subrange(at3, at3 + 4 * uids.len()) =~= words_bytes(order, uids));
    words_read_back(order, s, at3, uids, off + j);
    assert(s.subrange(at4, at4 + 4 * mids.len()) =~= words_bytes(order, mids));
    words_read_back(order, s, at4, mids, off + j);
}

/// One row of the transition table, as it is shown.
#[derive(Debug)]
pub struct Row {
    pub state: u32,
    pub dead: bool,
    pub start: bool,
    pub quit: bool,
    pub fin: bool,
    /// The first symbol of a class and where it leads, without the dead state.
    pub edges: Vec<(Option<u8>, u32)>,
}

/// The edges of a row over the first `k` listed classes.
pub open spec fn row_edges(x: DFA, state: int, k: int) -> Seq<(Option<u8>, u32)>
    decreases k,
{
    if k <= 0 {
        Seq::empty()
    } else {
        let c = x.ec_classes@[k - 1] as int;
        let next = x.trans@[state + c];
        if next != 0 {
            row_edges(x, state, k - 1).push((x.ec_reps@[c], next))
        } else {
            row_edges(x, state, k - 1)
        }
    }
}

impl Row {
    /// Whether this is what is shown of a row.
    pub open spec fn shows(self, x: DFA, state: int) -> bool {
        &&& self.state == state
        &&& self.dead == (state == 0)
        &&& self.start == (state == x.start)
        &&& self.quit == x.quit@.contains(state as u32)
        &&& self.fin == (x.fin_min <= state <= x.fin_max)
        &&& self.edges@ == row_edges(x, state, x.ec_classes@.len() as int)
    }
}

/// Whether a list holds a number.
fn holds(v: &Vec<u32>, x: u32) -> (r: bool)
    ensures
        r == v@.contains(x),
{
    let mut k: usize = 0;
    while k < v.len()
        invariant
            k <= v@.len(),
            forall|j: int| 0 <= j < k ==> v@[j] != x,
        decreases v.len() - k,
    {
        if v[k] == x {
            return true;
        }
        k += 1;
    }
    false
}

impl DFA {
    /// The rows of the transition table.
    pub fn rows(&self) -> (r: Vec<Row>)
        requires
            self.wf(),
        ensures
            r@.len() * self.stride == self.trans@.len(),
            forall|k: int|
                0 <= k < r@.len() ==> (#[trigger] r@[k]).shows(*self, k * self.stride),
    {
        let mut rows: Vec<Row> = Vec::new();
        let mut i: usize = 0;
        while i < self.trans.len()
            invariant
                self.wf(),
                i == rows@.len() * self.stride,
                i <= self.trans@.len(),
                forall|k: int|
                    0 <= k < rows@.len() ==> (#[trigger] rows@[k]).shows(*self, k * self.stride),
            decreases self.trans.len() - i,
        {
            proof {
                let n = self.trans@.len() as int;
                let s = self.stride as int;
                let k = rows@.len() as int;
                assert(i + s <= n) by (nonlinear_arith)
                    requires
                        n % s == 0,
                        s > 0,
                        i == k * s,
                        i < n,
                ;
                assert((k + 1) * s == k * s + s) by (nonlinear_arith);
            }
            let mut edges: Vec<(Option<u8>, u32)> = Vec::new();
            let mut c: usize = 0;
            while c < self.ec_classes.len()
                invariant
                    self.wf(),
                    i + self.stride <= self.trans@.len(),
                    c <= self.ec_classes@.len(),
                    edges@ == row_edges(*self, i as int, c as int),
                decreases self.ec_classes.len() - c,
            {
                let j: usize = self.ec_classes[c];
                let next: u32 = self.trans[i + j];
                if next != 0 {
                    edges.push((self.ec_reps[j], next));
                }
                c += 1;
            }
            rows.push(
                Row {
                    state: i as u32,
                    dead: i == 0,
                    start: i == self.start as usize,
                    quit: holds(&self.quit, i as u32),
                    fin: self.fin_min as usize <= i && i <= self.fin_max as usize,
                    edges,
                },
            );
            i += self.stride;
        }
        rows
    }
}

/// A match that redirects is marked by a one, one that bypasses by a zero.
pub proof fn directions_are_marked(d: Direction)
    ensures
        d == Direction::redirect ==> redirect_byte(d) == 1,
        d == Direction::bypass ==> redirect_byte(d) == 0,
{
}

/// Paths are read from their end: what is encoded is the reverse automaton of the
/// patterns, searched from where it begins. Where the patterns do not compile to it,
/// the reason is given and the arena stays as it was.
pub proof fn paths_are_read_backwards(
    pats: Seq<Seq<char>>,
    limit: u32,
    before: Seq<u8>,
    ids: Seq<usize>,
    ms: Seq<MatchView>,
    order: Order,
    r: Result<BpfDfa, Error>,
    after: Seq<u8>,
)
    requires
        encoding(pats, limit, before, ids, ms, order, r, after),
    ensures
        r is Ok ==> compiled(pats, true, limit) is Ok,
        r is Err ==> after == before,
        compiled(pats, true, limit) matches Err(t) ==> (r matches Err(Error::Regex(s)) && s@ == t),
        r matches Ok(h) ==> start_of(compiled(pats, true, limit)->Ok_0, Anchored::Yes) == Some(
            h.start,
        ),
{
}

/// The part of an automaton that is taken out is no larger than is allowed; where it
/// would be, that is the reason for refusing it.
pub proof fn size_is_limited(
    d: dense::DFA<Vec<u32>>,
    anchored: Anchored,
    limit: u32,
    r: Result<DFA, Error>,
)
    requires
        extraction(d, anchored, limit, r),
    ensures
        r matches Ok(x) ==> 4 * x.trans@.len() <= limit && x.extracted_from(d, anchored)
            && is_match(d, x.fin_min as int),
        r matches Err(Error::TooManyStates(n)) ==> 4 * n > limit,
        r matches Err(Error::NoStart) ==> start_of(d, anchored) is None,
        r is Err ==> (r->Err_0 is NoStart || r->Err_0 is TooManyStates || r->Err_0 is NoFinalState),
{
}

/// What is shown of a row leads from its state along each class of symbols to where
/// the transitions lead, the dead state left out.
pub proof fn rows_show_transitions(x: DFA, state: int, k: int, c: int)
    requires
        0 <= c < k,
    ensures
        x.trans@[state + x.ec_classes@[c]] != 0 ==> row_edges(x, state, k).contains(
            (x.ec_reps@[x.ec_classes@[c] as int], x.trans@[state + x.ec_classes@[c]]),
        ),
        forall|i: int|
            0 <= i < row_edges(x, state, k).len() ==> (#[trigger] row_edges(x, state, k)[i]).1 != 0,
        row_edges(x, state, k).len() <= k,
    decreases k,
{
    let e = (x.ec_reps@[x.ec_classes@[c] as int], x.trans@[state + x.ec_classes@[c]]);
    let all = row_edges(x, state, k);
    let front = row_edges(x, state, k - 1);
    if c < k - 1 {
        rows_show_transitions(x, state, k - 1, c);
        if e.1 != 0 {
            let i = choose|i: int| 0 <= i < front.len() && front[i] == e;
            assert(all[i] == e);
        }
    } else {
        if k > 1 {
            rows_show_transitions(x, state, k - 1, 0);
        }
        if e.1 != 0 {
            assert(all[all.len() - 1] == e);
        }
    }
}

/// A row is shown with its state, and with whether that is the dead state, the start,
/// one at which a search gives up, or one that matches.
pub proof fn rows_show_states(row: Row, x: DFA, state: int)
    requires
        row.shows(x, state),
    ensures
        row.state == state,
        row.dead <==> state == 0,
        row.start <==> state == x.start,
        row.fin <==> x.fin_min <= state <= x.fin_max,
        row.quit <==> x.quit@.contains(state as u32),
{
}

} // verus!
