//! Named values: what a list of key and value texts says.

use crate::text::{chars_of, same_text};
use vstd::prelude::*;

verus! {

/// The characters of each key and each value.
pub open spec fn entries(h: Seq<(String, String)>) -> Seq<(Seq<char>, Seq<char>)> {
    h.map_values(|e: (String, String)| (e.0@, e.1@))
}

/// The map that a list of entries denotes: of two entries with one key the
/// later one counts.
pub open spec fn as_map(h: Seq<(Seq<char>, Seq<char>)>) -> Map<Seq<char>, Seq<char>>
    decreases h.len(),
{
    if h.len() == 0 {
        Map::empty()
    } else {
        as_map(h.drop_last()).insert(h.last().0, h.last().1)
    }
}

/// Whether no key occurs twice.
pub open spec fn distinct_keys(h: Seq<(Seq<char>, Seq<char>)>) -> bool {
    forall|i: int, j: int| 0 <= i < j < h.len() ==> #[trigger] h[i].0 != #[trigger] h[j].0
}

/// The value under a key, or another one where the key is missing.
pub open spec fn value_or(
    m: Map<Seq<char>, Seq<char>>,
    key: Seq<char>,
    other: Seq<char>,
) -> Seq<char> {
    if m.dom().contains(key) {
        m[key]
    } else {
        other
    }
}

/// Where no key occurs twice, the map holds exactly the entries.
pub proof fn map_holds_entries(h: Seq<(Seq<char>, Seq<char>)>, k: Seq<char>, v: Seq<char>)
    requires
        distinct_keys(h),
    ensures
        (as_map(h).dom().contains(k) && as_map(h)[k] == v) <==> h.contains((k, v)),
    decreases h.len(),
{
    if h.len() > 0 {
        let rest = h.drop_last();
        assert forall|i: int, j: int| 0 <= i < j < rest.len() implies #[trigger] rest[i].0
            != #[trigger] rest[j].0 by {
            assert(h[i].0 != h[j].0);
        }
        map_holds_entries(rest, k, v);
        let last = h.last();
        if h.contains((k, v)) {
            let i = choose|i: int| 0 <= i < h.len() && h[i] == (k, v);
            if i < h.len() - 1 {
                assert(rest[i] == (k, v));
                assert(h[i].0 != h[h.len() - 1].0);
            }
        }
        if rest.contains((k, v)) {
            let i = choose|i: int| 0 <= i < rest.len() && rest[i] == (k, v);
            assert(h[i] == (k, v));
        }
        if last == (k, v) {
            assert(h[h.len() - 1] == (k, v));
        }
    }
}

/// Two lists of the same entries without repeated keys denote the same map,
/// whatever their order.
pub proof fn order_is_irrelevant(
    a: Seq<(Seq<char>, Seq<char>)>,
    b: Seq<(Seq<char>, Seq<char>)>,
)
    requires
        distinct_keys(a),
        distinct_keys(b),
        forall|e: (Seq<char>, Seq<char>)| #[trigger] a.contains(e) <==> b.contains(e),
    ensures
        as_map(a) == as_map(b),
{
    let ma = as_map(a);
    let mb = as_map(b);
    assert forall|k: Seq<char>| #[trigger] ma.dom().contains(k) implies mb.dom().contains(k)
        && mb[k] == ma[k] by {
        map_holds_entries(a, k, ma[k]);
        assert(a.contains((k, ma[k])));
        map_holds_entries(b, k, ma[k]);
    }
    assert forall|k: Seq<char>| #[trigger] mb.dom().contains(k) implies ma.dom().contains(k) by {
        map_holds_entries(b, k, mb[k]);
        assert(b.contains((k, mb[k])));
        assert(a.contains((k, mb[k])));
        map_holds_entries(a, k, mb[k]);
    }
    assert(ma =~= mb);
}

/// The entry of a key and a value text.
pub fn entry(key: &str, value: String) -> (r: (String, String))
    ensures
        r.0@ == key@,
        r.1@ == value@,
{
    (key.to_owned(), value)
}

/// The value that counts under a key.
pub fn value_of(h: &Vec<(String, String)>, key: &str) -> (r: Option<String>)
    ensures
        match r {
            Some(v) => as_map(entries(h@)).dom().contains(key@) && as_map(entries(h@))[key@] == v@,
            None => !as_map(entries(h@)).dom().contains(key@),
        },
{
    let ghost all = entries(h@);
    let mut r: Option<String> = None;
    let mut i: usize = 0;
    while i < h.len()
        invariant
            all == entries(h@),
            i <= h@.len(),
            match r {
                Some(v) => as_map(all.take(i as int)).dom().contains(key@) && as_map(
                    all.take(i as int),
                )[key@] == v@,
                None => !as_map(all.take(i as int)).dom().contains(key@),
            },
        decreases h.len() - i,
    {
        assert(all.take(i + 1).drop_last() =~= all.take(i as int));
        assert(all.take(i + 1).last() == (h@[i as int].0@, h@[i as int].1@));
        if same_text(h[i].0.as_str(), key) {
            r = Some(h[i].1.clone());
        }
        i += 1;
    }
    assert(all.take(all.len() as int) =~= all);
    r
}

/// A key with underscores in place of hyphens.
pub open spec fn normal_key(k: Seq<char>) -> Seq<char> {
    k.map_values(
        |c: char|
            if c == '-' {
                '_'
            } else {
                c
            },
    )
}

/// Entries with underscores in place of the hyphens in their keys.
pub open spec fn normal(h: Seq<(Seq<char>, Seq<char>)>) -> Seq<(Seq<char>, Seq<char>)> {
    h.map_values(|e: (Seq<char>, Seq<char>)| (normal_key(e.0), e.1))
}

/// The characters of each key, with underscores in place of hyphens, and of each
/// value.
pub open spec fn normal_entries(h: Seq<(String, String)>) -> Seq<(Seq<char>, Seq<char>)> {
    normal(entries(h))
}

/// A key without hyphens is normal.
pub proof fn plain_key_is_normal(k: Seq<char>)
    requires
        forall|i: int| 0 <= i < k.len() ==> #[trigger] k[i] != '-',
    ensures
        normal_key(k) == k,
{
    assert(normal_key(k) =~= k);
}

/// A key with underscores in place of hyphens.
pub fn normalized(k: &str) -> (r: String)
    ensures
        r@ == normal_key(k@),
{
    let cs = chars_of(k);
    let mut r = String::new();
    let mut i: usize = 0;
    while i < cs.len()
        invariant
            cs@ == k@,
            i <= cs@.len(),
            r@ == normal_key(k@.take(i as int)),
        decreases cs.len() - i,
    {
        let c = cs[i];
        r.push(
            if c == '-' {
                '_'
            } else {
                c
            },
        );
        i += 1;
        assert(r@ =~= normal_key(k@.take(i as int)));
    }
    assert(k@.take(k@.len() as int) == k@);
    r
}

/// Of several entries under one name the last one counts, and a name that no entry
/// has is not there.
pub proof fn last_entry_counts(h: Seq<(Seq<char>, Seq<char>)>, i: int, k: Seq<char>)
    requires
        0 <= i < h.len(),
        forall|j: int| i < j < h.len() ==> #[trigger] h[j].0 != h[i].0,
    ensures
        as_map(h).dom().contains(h[i].0),
        as_map(h)[h[i].0] == h[i].1,
        as_map(h).dom().contains(k) <==> exists|j: int| 0 <= j < h.len() && #[trigger] h[j].0 == k,
    decreases h.len(),
{
    let front = h.drop_last();
    names_of_map(h, k);
    if i < h.len() - 1 {
        assert(h[h.len() - 1].0 != h[i].0);
        assert forall|j: int| i < j < front.len() implies #[trigger] front[j].0 != front[i].0 by {
            assert(h[j].0 != h[i].0);
        }
        last_entry_counts(front, i, k);
    }
}

/// The names of a map are those of its entries.
proof fn names_of_map(h: Seq<(Seq<char>, Seq<char>)>, k: Seq<char>)
    ensures
        as_map(h).dom().contains(k) <==> exists|j: int| 0 <= j < h.len() && #[trigger] h[j].0 == k,
    decreases h.len(),
{
    if h.len() > 0 {
        let front = h.drop_last();
        names_of_map(front, k);
        if h.last().0 == k {
            assert(h[h.len() - 1].0 == k);
        }
        if exists|j: int| 0 <= j < front.len() && #[trigger] front[j].0 == k {
            let j = choose|j: int| 0 <= j < front.len() && #[trigger] front[j].0 == k;
            assert(h[j].0 == k);
        }
        if exists|j: int| 0 <= j < h.len() && #[trigger] h[j].0 == k {
            let j = choose|j: int| 0 <= j < h.len() && #[trigger] h[j].0 == k;
            if j < front.len() {
                assert(front[j].0 == k);
            }
        }
    }
}

/// Hyphens in a name become underscores, and no other character changes.
pub proof fn hyphens_become_underscores(k: Seq<char>, i: int)
    requires
        0 <= i < k.len(),
    ensures
        normal_key(k).len() == k.len(),
        k[i] == '-' ==> normal_key(k)[i] == '_',
        k[i] != '-' ==> normal_key(k)[i] == k[i],
{
}

} // verus!
