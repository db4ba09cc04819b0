//! The running programs.

use crate::gui::message::{matches_text, Match, MatchText};
use crate::text::{
    chars_of, comes_before, is_digit, order_is_total, order_is_transitive, same_text, text_before,
};
use vstd::prelude::*;

verus! {

/// An entry of the process directory: its name, and the program that it runs
/// where that can be read.
#[derive(Debug)]
pub struct ProcEntry {
    pub name: String,
    pub exe: Option<String>,
}

/// Which programs are asked for.
#[derive(Debug)]
pub enum Filter {
    Any,
    Matching(Match),
}

/// Which programs are asked for.
pub enum FilterView {
    Any,
    Matching(MatchText),
}

impl View for Filter {
    type V = FilterView;

    open spec fn view(&self) -> FilterView {
        match self {
            Filter::Any => FilterView::Any,
            Filter::Matching(m) => FilterView::Matching(m@),
        }
    }
}

impl FilterView {
    /// Whether a program is asked for.
    pub open spec fn admits(self, exe: Seq<char>) -> bool {
        match self {
            FilterView::Any => true,
            FilterView::Matching(m) => matches_text(m, exe),
        }
    }
}

impl Filter {
    fn check(&self, exe: &str) -> (r: bool)
        ensures
            r == self@.admits(exe@),
    {
        match self {
            Filter::Any => true,
            Filter::Matching(m) => m.matches(exe),
        }
    }
}

/// The program of an entry, if it is that of a process and can be read.
pub open spec fn program(e: ProcEntry) -> Option<Seq<char>> {
    match e.exe {
        Some(exe) => if forall|i: int| 0 <= i < e.name@.len() ==> is_digit(#[trigger] e.name@[i]) {
            Some(exe@)
        } else {
            None
        },
        None => None,
    }
}

/// How often each program that is asked for runs, over the entries up to the one
/// that completes `max_len` different programs.
pub open spec fn tally(
    es: Seq<ProcEntry>,
    filter: FilterView,
    max_len: nat,
) -> Map<Seq<char>, nat>
    decreases es.len(),
{
    if es.len() == 0 {
        Map::empty()
    } else {
        let t = tally(es.drop_last(), filter, max_len);
        match program(es.last()) {
            Some(exe) => if t.dom().len() < max_len && filter.admits(exe) {
                t.insert(
                    exe,
                    if t.dom().contains(exe) {
                        t[exe] + 1
                    } else {
                        1
                    },
                )
            } else {
                t
            },
            None => t,
        }
    }
}

/// The characters of each name, with its number.
pub open spec fn counted(v: Seq<(String, u32)>) -> Seq<(Seq<char>, u32)> {
    v.map_values(|e: (String, u32)| (e.0@, e.1))
}

/// Whether a list holds the numbers of a map, in the order of the names.
pub open spec fn lists(v: Seq<(Seq<char>, u32)>, t: Map<Seq<char>, nat>) -> bool {
    &&& forall|i: int, j: int|
        0 <= i < j < v.len() ==> comes_before((#[trigger] v[i]).0, (#[trigger] v[j]).0)
    &&& forall|i: int|
        0 <= i < v.len() ==> t.dom().contains((#[trigger] v[i]).0) && t[v[i].0] == v[i].1
    &&& forall|k: Seq<char>| #[trigger]
        t.dom().contains(k) ==> exists|i: int| 0 <= i < v.len() && (#[trigger] v[i]).0 == k
    &&& t.dom().finite()
    &&& t.dom().len() == v.len()
}

/// The list of the numbers of a map, in the order of the names.
pub open spec fn listing(t: Map<Seq<char>, nat>) -> Seq<(Seq<char>, u32)> {
    choose|v: Seq<(Seq<char>, u32)>| lists(v, t)
}

/// A map is listed in one way only.
pub proof fn listing_is_unique(v: Seq<(Seq<char>, u32)>, t: Map<Seq<char>, nat>)
    requires
        lists(v, t),
    ensures
        listing(t) == v,
{
    let w = listing(t);
    assert(lists(w, t));
    assert forall|i: int| 0 <= i < v.len() implies v[i] == #[trigger] w[i] by {
        listed_alike(v, w, t, i);
    }
    assert(v =~= w);
}

/// Two lists of one map agree up to any place.
proof fn listed_alike(
    v: Seq<(Seq<char>, u32)>,
    w: Seq<(Seq<char>, u32)>,
    t: Map<Seq<char>, nat>,
    i: int,
)
    requires
        lists(v, t),
        lists(w, t),
        0 <= i < v.len(),
    ensures
        forall|j: int| 0 <= j <= i ==> v[j] == #[trigger] w[j],
    decreases i,
{
    if i > 0 {
        listed_alike(v, w, t, i - 1);
    }
    assert(t.dom().contains(v[i].0));
    assert(t.dom().contains(w[i].0));
    let k = choose|k: int| 0 <= k < w.len() && (#[trigger] w[k]).0 == v[i].0;
    let l = choose|l: int| 0 <= l < v.len() && (#[trigger] v[l]).0 == w[i].0;
    order_is_total(v[i].0, w[i].0);
    if k < i {
        assert(v[k] == w[k]);
        assert(comes_before(v[k].0, v[i].0));
        order_is_total(v[k].0, v[i].0);
    }
    if l < i {
        assert(v[l] == w[l]);
        assert(comes_before(w[l].0, w[i].0));
        order_is_total(w[l].0, w[i].0);
    }
    if k > i {
        assert(comes_before(w[i].0, w[k].0));
        if l > i {
            assert(comes_before(v[i].0, v[l].0));
        }
    }
}

/// A map with one more name, or with another number for a name, is listed where
/// the map is.
proof fn listed_with(
    v: Seq<(Seq<char>, u32)>,
    t: Map<Seq<char>, nat>,
    k: Seq<char>,
    n: u32,
    i: int,
) -> (w: Seq<(Seq<char>, u32)>)
    requires
        lists(v, t),
        0 <= i <= v.len(),
        forall|j: int| i <= j < v.len() ==> !comes_before((#[trigger] v[j]).0, k),
    ensures
        lists(w, t.insert(k, n as nat)),
    decreases i,
{
    let after = t.insert(k, n as nat);
    if i > 0 && !comes_before(v[i - 1].0, k) {
        listed_with(v, t, k, n, i - 1)
    } else if i < v.len() && v[i].0 == k {
        let w = v.update(i, (k, n));
        assert(t.dom().contains(v[i].0));
        assert(after.dom() =~= t.dom());
        assert forall|j: int| 0 <= j < w.len() implies after.dom().contains((#[trigger] w[j]).0)
            && after[w[j].0] == w[j].1 by {
            assert(t.dom().contains(v[j].0));
            if j < i {
                order_is_total(v[j].0, v[i].0);
            } else if j > i {
                order_is_total(v[i].0, v[j].0);
            }
        }
        assert forall|x: Seq<char>| #[trigger] after.dom().contains(x) implies exists|j: int|
            0 <= j < w.len() && (#[trigger] w[j]).0 == x by {
            let j = choose|j: int| 0 <= j < v.len() && (#[trigger] v[j]).0 == x;
            assert(w[j].0 == x);
        }
        w
    } else {
        assert forall|j: int| 0 <= j < i implies comes_before((#[trigger] v[j]).0, k) by {
            if j < i - 1 {
                order_is_transitive(v[j].0, v[i - 1].0, k);
            }
        }
        assert forall|j: int| i <= j < v.len() implies comes_before(k, (#[trigger] v[j]).0) by {
            order_is_total(v[i].0, k);
            if j > i {
                order_is_transitive(k, v[i].0, v[j].0);
            }
        }
        if t.dom().contains(k) {
            let j = choose|j: int| 0 <= j < v.len() && (#[trigger] v[j]).0 == k;
            order_is_total(v[j].0, k);
        }
        let w = v.insert(i, (k, n));
        assert forall|a: int, b: int| 0 <= a < b < w.len() implies comes_before(
            (#[trigger] w[a]).0,
            (#[trigger] w[b]).0,
        ) by {
            assert(a == i || w[a] == v[if a < i {
                a
            } else {
                a - 1
            }]);
            assert(b == i || w[b] == v[if b < i {
                b
            } else {
                b - 1
            }]);
        }
        assert forall|j: int| 0 <= j < w.len() implies after.dom().contains((#[trigger] w[j]).0)
            && after[w[j].0] == w[j].1 by {
            if j != i {
                let a = if j < i {
                    j
                } else {
                    j - 1
                };
                assert(w[j] == v[a]);
                assert(t.dom().contains(v[a].0));
            }
        }
        assert forall|x: Seq<char>| #[trigger] after.dom().contains(x) implies exists|j: int|
            0 <= j < w.len() && (#[trigger] w[j]).0 == x by {
            if x == k {
                assert(w[i].0 == x);
            } else {
                assert(t.dom().contains(x));
                let a = choose|a: int| 0 <= a < v.len() && (#[trigger] v[a]).0 == x;
                let b = if a < i {
                    a
                } else {
                    a + 1
                };
                assert(w[b].0 == x);
            }
        }
        w
    }
}

/// What is counted can be listed, and is, unless there are more processes than
/// can be counted.
pub proof fn tally_is_listed(es: Seq<ProcEntry>, filter: FilterView, max_len: nat)
    requires
        es.len() <= u32::MAX,
    ensures
        lists(listing(tally(es, filter, max_len)), tally(es, filter, max_len)),
    decreases es.len(),
{
    let t = tally(es, filter, max_len);
    if es.len() == 0 {
        assert(lists(Seq::<(Seq<char>, u32)>::empty(), t));
    } else {
        let before = tally(es.drop_last(), filter, max_len);
        tally_is_listed(es.drop_last(), filter, max_len);
        tally_bounds(es.drop_last(), filter, max_len);
        let v = listing(before);
        if t != before {
            let k = program(es.last())->0;
            let n = if before.dom().contains(k) {
                before[k] + 1
            } else {
                1
            };
            assert(t == before.insert(k, n as nat));
            let w = listed_with(v, before, k, n as u32, v.len() as int);
            assert(lists(w, t));
        }
    }
}

/// Whether a list holds the numbers of a map, in the order of the names.
spec fn lists_tally(v: Seq<(String, u32)>, t: Map<Seq<char>, nat>) -> bool {
    &&& forall|i: int, j: int|
        0 <= i < j < v.len() ==> comes_before((#[trigger] v[i]).0@, (#[trigger] v[j]).0@)
    &&& forall|i: int|
        0 <= i < v.len() ==> t.dom().contains((#[trigger] v[i]).0@) && t[v[i].0@] == v[i].1
    &&& forall|k: Seq<char>| #[trigger]
        t.dom().contains(k) ==> exists|i: int| 0 <= i < v.len() && (#[trigger] v[i]).0@ == k
    &&& t.dom().finite()
    &&& t.dom().len() == v.len()
}

/// The texts of a list are a list.
proof fn listed_texts(v: Seq<(String, u32)>, t: Map<Seq<char>, nat>)
    requires
        lists_tally(v, t),
    ensures
        lists(counted(v), t),
{
    let w = counted(v);
    assert forall|i: int, j: int| 0 <= i < j < w.len() implies comes_before(
        (#[trigger] w[i]).0,
        (#[trigger] w[j]).0,
    ) by {
        assert(comes_before(v[i].0@, v[j].0@));
    }
    assert forall|i: int| 0 <= i < w.len() implies t.dom().contains((#[trigger] w[i]).0)
        && t[w[i].0] == w[i].1 by {
        assert(t.dom().contains(v[i].0@));
    }
    assert forall|k: Seq<char>| #[trigger] t.dom().contains(k) implies exists|i: int|
        0 <= i < w.len() && (#[trigger] w[i]).0 == k by {
        let i = choose|i: int| 0 <= i < v.len() && (#[trigger] v[i]).0@ == k;
        assert(w[i].0 == k);
    }
}

/// A program is counted at most once per entry, and at most `max_len` programs
/// are.
pub proof fn tally_bounds(es: Seq<ProcEntry>, filter: FilterView, max_len: nat)
    ensures
        tally(es, filter, max_len).dom().finite(),
        tally(es, filter, max_len).dom().len() <= max_len,
        forall|k: Seq<char>| #[trigger]
            tally(es, filter, max_len).dom().contains(k) ==> 1 <= tally(es, filter, max_len)[k]
                <= es.len() && filter.admits(k),
    decreases es.len(),
{
    if es.len() > 0 {
        tally_bounds(es.drop_last(), filter, max_len);
    }
}

/// Whether a name consists of digits.
fn is_number(name: &str) -> (r: bool)
    ensures
        r == forall|i: int| 0 <= i < name@.len() ==> is_digit(#[trigger] name@[i]),
{
    let cs = chars_of(name);
    let mut i: usize = 0;
    while i < cs.len()
        invariant
            cs@ == name@,
            i <= cs@.len(),
            forall|j: int| 0 <= j < i ==> is_digit(#[trigger] name@[j]),
        decreases cs.len() - i,
    {
        if !('0' <= cs[i] && cs[i] <= '9') {
            assert(!is_digit(name@[i as int]));
            return false;
        }
        i += 1;
    }
    true
}

/// Counts one more run of a program.
fn count(v: &mut Vec<(String, u32)>, exe: &String, Ghost(t): Ghost<Map<Seq<char>, nat>>)
    requires
        lists_tally(old(v)@, t),
        t.dom().contains(exe@) ==> t[exe@] < u32::MAX,
    ensures
        lists_tally(
            final(v)@,
            t.insert(
                exe@,
                if t.dom().contains(exe@) {
                    t[exe@] + 1
                } else {
                    1
                },
            ),
        ),
{
    let ghost before = v@;
    let ghost after = t.insert(
        exe@,
        if t.dom().contains(exe@) {
            t[exe@] + 1
        } else {
            1
        },
    );
    let mut i: usize = 0;
    while i < v.len() && text_before(v[i].0.as_str(), exe.as_str())
        invariant
            v@ == before,
            i <= v@.len(),
            forall|j: int| 0 <= j < i ==> comes_before((#[trigger] v@[j]).0@, exe@),
        decreases v.len() - i,
    {
        i += 1;
    }
    if i < v.len() && same_text(v[i].0.as_str(), exe.as_str()) {
        let n: u32 = v[i].1;
        let name = exe.clone();
        v.set(i, (name, n + 1));
        proof {
            assert(t.dom().contains(before[i as int].0@));
            assert(after.dom() =~= t.dom());
            assert forall|j: int, k: int| 0 <= j < k < v@.len() implies comes_before(
                (#[trigger] v@[j]).0@,
                (#[trigger] v@[k]).0@,
            ) by {
                assert(comes_before(before[j].0@, before[k].0@));
            }
            assert forall|j: int| 0 <= j < v@.len() implies after.dom().contains(
                (#[trigger] v@[j]).0@,
            ) && after[v@[j].0@] == v@[j].1 by {
                assert(t.dom().contains(before[j].0@) && t[before[j].0@] == before[j].1);
                if j < i {
                    order_is_total(before[j].0@, before[i as int].0@);
                    assert(comes_before(before[j].0@, before[i as int].0@));
                } else if j > i {
                    order_is_total(before[i as int].0@, before[j].0@);
                    assert(comes_before(before[i as int].0@, before[j].0@));
                }
            }
            assert forall|k: Seq<char>| #[trigger] after.dom().contains(k) implies exists|j: int|
                0 <= j < v@.len() && (#[trigger] v@[j]).0@ == k by {
                let j = choose|j: int| 0 <= j < before.len() && (#[trigger] before[j]).0@ == k;
                assert(v@[j].0@ == k);
            }
        }
    } else {
        proof {
            assert forall|j: int| i <= j < before.len() implies comes_before(
                exe@,
                (#[trigger] before[j]).0@,
            ) by {
                order_is_total(before[i as int].0@, exe@);
                if j > i {
                    assert(comes_before(before[i as int].0@, before[j].0@));
                    order_is_transitive(exe@, before[i as int].0@, before[j].0@);
                }
            }
            if t.dom().contains(exe@) {
                let j = choose|j: int| 0 <= j < before.len() && (#[trigger] before[j]).0@ == exe@;
                order_is_total(before[j].0@, exe@);
                assert(false);
            }
        }
        let name = exe.clone();
        v.insert(i, (name, 1));
        proof {
            assert(v@ =~= before.insert(i as int, (name, 1u32)));
            assert forall|j: int, k: int| 0 <= j < k < v@.len() implies comes_before(
                (#[trigger] v@[j]).0@,
                (#[trigger] v@[k]).0@,
            ) by {
                let a = if j < i {
                    j
                } else {
                    j - 1
                };
                let b = if k < i {
                    k
                } else {
                    k - 1
                };
                if j != i && k != i {
                    assert(comes_before(before[a].0@, before[b].0@));
                } else if j == i {
                    assert(comes_before(exe@, before[b].0@));
                } else {
                    assert(comes_before(before[a].0@, exe@));
                }
            }
            assert forall|j: int| 0 <= j < v@.len() implies after.dom().contains(
                (#[trigger] v@[j]).0@,
            ) && after[v@[j].0@] == v@[j].1 by {
                if j != i {
                    let a = if j < i {
                        j
                    } else {
                        j - 1
                    };
                    assert(v@[j] == before[a]);
                    assert(t.dom().contains(before[a].0@) && t[before[a].0@] == before[a].1);
                }
            }
            assert forall|k: Seq<char>| #[trigger] after.dom().contains(k) implies exists|j: int|
                0 <= j < v@.len() && (#[trigger] v@[j]).0@ == k by {
                if k == exe@ {
                    assert(v@[i as int].0@ == k);
                } else {
                    assert(t.dom().contains(k));
                    let a = choose|a: int|
                        0 <= a < before.len() && (#[trigger] before[a]).0@ == k;
                    if a < i {
                        assert(v@[a].0@ == k);
                    } else {
                        assert(v@[a + 1].0@ == k);
                    }
                }
            }
            assert(after.dom() =~= t.dom().insert(exe@));
        }
    }
}

/// How often each program runs that is asked for, in the order of their names,
/// until there are `max_len` different ones.
pub fn procs_all_with(procs: &Vec<ProcEntry>, filter: &Filter, max_len: usize) -> (r: Vec<
    (String, u32),
>)
    requires
        procs@.len() <= u32::MAX,
    ensures
        lists(counted(r@), tally(procs@, filter@, max_len as nat)),
{
    let mut res: Vec<(String, u32)> = Vec::new();
    let ghost all = procs@;
    let ghost t = tally(all.take(0), filter@, max_len as nat);
    let mut i: usize = 0;
    while i < procs.len()
        invariant
            all == procs@,
            all.len() <= u32::MAX,
            i <= all.len(),
            t == tally(all.take(i as int), filter@, max_len as nat),
            lists_tally(res@, t),
        decreases procs.len() - i,
    {
        let e = &procs[i];
        proof {
            assert(all.take(i + 1).drop_last() == all.take(i as int));
            assert(all.take(i + 1).last() == *e);
            tally_bounds(all.take(i as int), filter@, max_len as nat);
        }
        if let Some(exe) = &e.exe {
            if res.len() < max_len && is_number(e.name.as_str()) && filter.check(exe.as_str()) {
                assert(program(*e) == Some(exe@));
                count(&mut res, exe, Ghost(t));
            }
        }
        i += 1;
        proof {
            t = tally(all.take(i as int), filter@, max_len as nat);
        }
    }
    assert(all.take(all.len() as int) == all);
    proof {
        listed_texts(res@, t);
    }
    res
}

/// How often each program runs, in the order of their names.
pub fn procs_all(procs: &Vec<ProcEntry>) -> (r: Vec<(String, u32)>)
    requires
        procs@.len() <= u32::MAX,
    ensures
        lists(counted(r@), tally(procs@, FilterView::Any, usize::MAX as nat)),
{
    procs_all_with(procs, &Filter::Any, usize::MAX)
}

} // verus!
