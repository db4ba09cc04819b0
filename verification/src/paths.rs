//! Which paths the matches catch.

use crate::kinds::{Kind, Method};
use crate::matches::{escaped, is_meta, path_pattern, path_patterns, path_positions};
use crate::matching::MatchView;
use crate::text::base_name;
use vstd::prelude::*;

verus! {

/// Whether a character does not occur in a text.
pub open spec fn without(s: Seq<char>, c: char) -> bool {
    forall|i: int| 0 <= i < s.len() ==> #[trigger] s[i] != c
}

/// Whether a text begins with another.
pub open spec fn begins_with(s: Seq<char>, t: Seq<char>) -> bool {
    t.len() <= s.len() && s.take(t.len() as int) == t
}

/// Whether a regular expression stands for a text, read from left to right:
/// `(?:.*/)?` for a directory or nothing, `[^/]*` for what holds no slash, `.*` for
/// what lies on one line, a backslash and a character for that character, and any
/// other character for itself, unless it means something in a regular expression.
pub open spec fn means(re: Seq<char>, s: Seq<char>) -> bool
    decreases re.len(),
{
    if re.len() == 0 {
        s.len() == 0
    } else if re.len() >= 8 && re.take(8) == "(?:.*/)?"@ {
        means(re.skip(8), s) || exists|k: int|
            0 <= k < s.len() && s[k] == '/' && without(#[trigger] s.take(k), '\n') && means(
                re.skip(8),
                s.skip(k + 1),
            )
    } else if re.len() >= 5 && re.take(5) == "[^/]*"@ {
        exists|k: int|
            0 <= k <= s.len() && without(#[trigger] s.take(k), '/') && means(
                re.skip(5),
                s.skip(k),
            )
    } else if re.len() >= 2 && re.take(2) == ".*"@ {
        exists|k: int|
            0 <= k <= s.len() && without(#[trigger] s.take(k), '\n') && means(
                re.skip(2),
                s.skip(k),
            )
    } else if re.len() >= 2 && re[0] == '\\' {
        s.len() > 0 && s[0] == re[1] && means(re.skip(2), s.skip(1))
    } else {
        !is_meta(re[0]) && s.len() > 0 && s[0] == re[0] && means(re.skip(1), s.skip(1))
    }
}

/// Whether a regular expression between `^` and `$` stands for a whole text.
pub open spec fn takes(re: Seq<char>, s: Seq<char>) -> bool {
    re.len() >= 2 && re[0] == '^' && re.last() == '$' && means(re.subrange(1, re.len() - 1), s)
}

/// Whether a match catches the path of a process.
pub open spec fn catches(m: MatchView, s: Seq<char>) -> bool {
    path_pattern(m) matches Some(re) && takes(re, s)
}

/// The regular expression of one character of a text.
proof fn escaped_from_left(t: Seq<char>)
    requires
        t.len() > 0,
    ensures
        is_meta(t[0]) ==> escaped(t) == seq!['\\', t[0]] + escaped(t.drop_first()),
        !is_meta(t[0]) ==> escaped(t) == seq![t[0]] + escaped(t.drop_first()),
    decreases t.len(),
{
    if t.len() == 1 {
        assert(t.drop_last() =~= Seq::empty());
        assert(t.drop_first() =~= Seq::empty());
        assert(escaped(t.drop_first()) =~= Seq::empty());
        assert(escaped(t.drop_last()) =~= Seq::empty());
        if is_meta(t[0]) {
            assert(escaped(t) =~= seq!['\\', t[0]]);
        } else {
            assert(escaped(t) =~= seq![t[0]]);
        }
    } else {
        escaped_from_left(t.drop_last());
        assert(t.drop_last().drop_first() =~= t.drop_first().drop_last());
        let e = escaped(t.drop_first().drop_last());
        if is_meta(t[0]) {
            assert(escaped(t.drop_last()) == seq!['\\', t[0]] + e);
            assert(escaped(t) =~= seq!['\\', t[0]] + escaped(t.drop_first()));
        } else {
            assert(escaped(t.drop_last()) == seq![t[0]] + e);
            assert(escaped(t) =~= seq![t[0]] + escaped(t.drop_first()));
        }
    }
}

/// An escaped text stands for itself.
proof fn text_means(t: Seq<char>, rest: Seq<char>, s: Seq<char>)
    ensures
        means(escaped(t) + rest, s) <==> begins_with(s, t) && means(rest, s.skip(t.len() as int)),
    decreases t.len(),
{
    reveal_strlit("(?:.*/)?");
    reveal_strlit("[^/]*");
    reveal_strlit(".*");
    let re = escaped(t) + rest;
    if t.len() == 0 {
        assert(re =~= rest);
        assert(s.skip(0) =~= s);
        assert(s.take(0) =~= t);
    } else {
        let tail = escaped(t.drop_first()) + rest;
        escaped_from_left(t);
        if s.len() > 0 {
            text_means(t.drop_first(), rest, s.skip(1));
        }
        assert(re.len() > 0);
        if re.len() >= 8 {
            assert(re.take(8)[0] == re[0]);
        }
        if re.len() >= 5 {
            assert(re.take(5)[0] == re[0]);
        }
        if re.len() >= 2 {
            assert(re.take(2)[0] == re[0]);
        }
        if is_meta(t[0]) {
            assert(re[0] == '\\' && re[1] == t[0]);
            assert(re.skip(2) =~= tail);
        } else {
            assert(re[0] == t[0]);
            assert(re.skip(1) =~= tail);
        }
        assert(means(re, s) <==> s.len() > 0 && s[0] == t[0] && means(tail, s.skip(1)));
        if s.len() > 0 {
            assert(t.len() <= s.len() ==> s.skip(1).skip(t.drop_first().len() as int) =~= s.skip(
                t.len() as int,
            ));
            if begins_with(s, t) {
                assert(s.take(t.len() as int)[0] == s[0]);
                assert(s.skip(1).take(t.len() - 1) =~= s.take(t.len() as int).skip(1));
                assert(t.drop_first() =~= t.skip(1));
            }
            if s[0] == t[0] && begins_with(s.skip(1), t.drop_first()) {
                assert forall|i: int| 0 <= i < t.len() implies s.take(t.len() as int)[i] == t[i] by {
                    if i > 0 {
                        assert(s.skip(1).take(t.len() - 1)[i - 1] == t.drop_first()[i - 1]);
                    }
                }
                assert(s.take(t.len() as int) =~= t);
            }
        }
    }
}

/// Nothing stands for nothing.
proof fn nothing_means(s: Seq<char>)
    ensures
        means(Seq::empty(), s) <==> s.len() == 0,
{
}

/// `.*` at the end stands for what lies on one line.
proof fn line_means(s: Seq<char>)
    ensures
        means(".*"@, s) <==> without(s, '\n'),
{
    reveal_with_fuel(means, 2);
    reveal_strlit("(?:.*/)?");
    reveal_strlit("[^/]*");
    reveal_strlit(".*");
    let re = ".*"@;
    assert(re.take(2) =~= re);
    assert(re.skip(2) =~= Seq::empty());
    if without(s, '\n') {
        assert(s.take(s.len() as int) =~= s);
        nothing_means(s.skip(s.len() as int));
        assert(means(re.skip(2), s.skip(s.len() as int)));
    }
    if means(re, s) {
        let k = choose|k: int|
            0 <= k <= s.len() && without(#[trigger] s.take(k), '\n') && means(re.skip(2), s.skip(k));
        nothing_means(s.skip(k));
        assert(s.take(k) =~= s);
    }
}

/// `[^/]*` stands for what holds no slash.
proof fn name_means(rest: Seq<char>, s: Seq<char>)
    ensures
        means("[^/]*"@ + rest, s) <==> exists|k: int|
            0 <= k <= s.len() && without(#[trigger] s.take(k), '/') && means(rest, s.skip(k)),
{
    reveal_with_fuel(means, 2);
    reveal_strlit("(?:.*/)?");
    reveal_strlit("[^/]*");
    let re = "[^/]*"@ + rest;
    assert(re.take(5) =~= "[^/]*"@);
    assert(re.skip(5) =~= rest);
    if re.len() >= 8 {
        assert(re.take(8)[0] == re[0]);
    }
}

/// `(?:.*/)?` stands for a directory or nothing.
proof fn directory_means(rest: Seq<char>, s: Seq<char>)
    ensures
        means("(?:.*/)?"@ + rest, s) <==> means(rest, s) || exists|k: int|
            0 <= k < s.len() && s[k] == '/' && without(#[trigger] s.take(k), '\n') && means(
                rest,
                s.skip(k + 1),
            ),
{
    reveal_with_fuel(means, 2);
    reveal_strlit("(?:.*/)?");
    let re = "(?:.*/)?"@ + rest;
    assert(re.take(8) =~= "(?:.*/)?"@);
    assert(re.skip(8) =~= rest);
}

/// What stands between the first and the last character.
proof fn inner(re: Seq<char>, s: Seq<char>)
    ensures
        takes("^"@ + re + "$"@, s) <==> means(re, s),
{
    reveal_strlit("^");
    reveal_strlit("$");
    let whole = "^"@ + re + "$"@;
    assert(whole.subrange(1, whole.len() - 1) =~= re);
}

/// A match of the whole path catches the path that is its pattern, and no other.
pub proof fn full_path_is_caught(m: MatchView, s: Seq<char>)
    requires
        m.kind == Kind::path,
        m.method == Method::full,
        m.pattern.len() > 0,
    ensures
        path_pattern(m) == Some("^"@ + escaped(m.pattern) + "$"@),
        catches(m, s) <==> s == m.pattern,
{
    let p = m.pattern;
    inner(escaped(p), s);
    text_means(p, Seq::empty(), s);
    assert(escaped(p) + Seq::empty() =~= escaped(p));
    if means(escaped(p), s) {
        assert(s.take(p.len() as int) =~= s);
    }
    if s == p {
        assert(s.take(p.len() as int) =~= s);
        assert(s.skip(p.len() as int) =~= Seq::empty());
    }
}

/// A match of the beginning of a path catches the paths that begin with its
/// pattern and go on with what lies on one line.
pub proof fn path_prefix_is_caught(m: MatchView, s: Seq<char>)
    requires
        m.kind == Kind::path,
        m.method == Method::prefix,
        m.pattern.len() > 0,
    ensures
        path_pattern(m) == Some("^"@ + (escaped(m.pattern) + ".*"@) + "$"@),
        catches(m, s) <==> begins_with(s, m.pattern) && without(
            s.skip(m.pattern.len() as int),
            '\n',
        ),
{
    let p = m.pattern;
    inner(escaped(p) + ".*"@, s);
    text_means(p, ".*"@, s);
    line_means(s.skip(p.len() as int));
}

/// A match of the end of a path catches the paths that end with its pattern and
/// hold no slash before it.
pub proof fn path_suffix_is_caught(m: MatchView, s: Seq<char>)
    requires
        m.kind == Kind::path,
        m.method == Method::suffix,
        m.pattern.len() > 0,
    ensures
        path_pattern(m) == Some("^"@ + ("[^/]*"@ + escaped(m.pattern)) + "$"@),
        catches(m, s) <==> exists|k: int|
            0 <= k <= s.len() && without(#[trigger] s.take(k), '/') && s.skip(k) == m.pattern,
{
    let p = m.pattern;
    inner("[^/]*"@ + escaped(p), s);
    name_means(escaped(p), s);
    assert(escaped(p) + Seq::empty() =~= escaped(p));
    assert forall|k: int| 0 <= k <= s.len() implies (means(escaped(p), s.skip(k)) <==> s.skip(k)
        == p) by {
        let t = s.skip(k);
        text_means(p, Seq::empty(), t);
        if means(escaped(p), t) {
            assert(t.take(p.len() as int) =~= t);
        }
        if t == p {
            assert(t.take(p.len() as int) =~= t);
            assert(t.skip(p.len() as int) =~= Seq::empty());
        }
    }
}

/// A match of a part of a path catches the paths that hold its pattern with no
/// slash before it, and go on with what lies on one line.
pub proof fn path_part_is_caught(m: MatchView, s: Seq<char>)
    requires
        m.kind == Kind::path,
        m.method == Method::substring,
        m.pattern.len() > 0,
    ensures
        path_pattern(m) == Some("^"@ + ("[^/]*"@ + escaped(m.pattern) + ".*"@) + "$"@),
        catches(m, s) <==> exists|k: int|
            0 <= k <= s.len() && without(#[trigger] s.take(k), '/') && begins_with(
                s.skip(k),
                m.pattern,
            ) && without(s.skip(k).skip(m.pattern.len() as int), '\n'),
{
    let p = m.pattern;
    inner("[^/]*"@ + escaped(p) + ".*"@, s);
    assert("[^/]*"@ + escaped(p) + ".*"@ =~= "[^/]*"@ + (escaped(p) + ".*"@));
    name_means(escaped(p) + ".*"@, s);
    assert forall|k: int| 0 <= k <= s.len() implies (means(escaped(p) + ".*"@, s.skip(k))
        <==> begins_with(s.skip(k), p) && without(s.skip(k).skip(p.len() as int), '\n')) by {
        text_means(p, ".*"@, s.skip(k));
        line_means(s.skip(k).skip(p.len() as int));
    }
}

/// A match of a base name catches what a match of a path catches, in any directory
/// that lies on one line or in none.
pub proof fn base_name_is_caught(m: MatchView, s: Seq<char>)
    requires
        m.kind == Kind::basename,
        m.method != Method::regex,
        m.pattern.len() > 0,
    ensures
        ({
            let bare = MatchView { kind: Kind::path, ..m };
            catches(m, s) <==> catches(bare, s) || exists|k: int|
                0 <= k < s.len() && s[k] == '/' && without(#[trigger] s.take(k), '\n') && catches(
                    bare,
                    s.skip(k + 1),
                )
        }),
{
    let bare = MatchView { kind: Kind::path, ..m };
    if m.method != Method::subnet {
        reveal_strlit("^");
        reveal_strlit("$");
        reveal_strlit("^(?:.*/)?");
        reveal_strlit("(?:.*/)?");
        let whole = path_pattern(bare)->0;
        let re = whole.subrange(1, whole.len() - 1);
        assert(whole =~= "^"@ + re + "$"@);
        assert(path_pattern(m)->0 =~= "^"@ + ("(?:.*/)?"@ + re) + "$"@);
        inner("(?:.*/)?"@ + re, s);
        directory_means(re, s);
        inner(re, s);
        assert forall|t: Seq<char>| (#[trigger] catches(bare, t) <==> means(re, t)) by {
            inner(re, t);
        }
    }
}

/// What follows the last slash.
proof fn base_name_of_parts(s: Seq<char>, k: int)
    requires
        0 <= k <= s.len(),
        k == 0 || s[k - 1] == '/',
        without(s.skip(k), '/'),
    ensures
        base_name(s) == s.skip(k),
    decreases s.len(),
{
    if s.len() == k {
        assert(s.skip(k) =~= Seq::empty());
    } else {
        assert(s.skip(k)[s.len() - 1 - k] == s.last());
        assert forall|i: int| 0 <= i < s.drop_last().skip(k).len() implies #[trigger] s.drop_last().skip(
            k,
        )[i] != '/' by {
            assert(s.skip(k)[i] != '/');
        }
        base_name_of_parts(s.drop_last(), k);
        assert(s.drop_last().skip(k).push(s.last()) =~= s.skip(k));
    }
}

/// The last component of a path is what follows its last slash, or all of it where
/// there is none.
pub proof fn base_name_begins(s: Seq<char>) -> (k: int)
    ensures
        0 <= k <= s.len(),
        k == 0 || s[k - 1] == '/',
        without(s.skip(k), '/'),
        base_name(s) == s.skip(k),
    decreases s.len(),
{
    if s.len() == 0 {
        assert(s.skip(0) =~= Seq::empty());
        0
    } else if s.last() == '/' {
        assert(s.skip(s.len() as int) =~= Seq::empty());
        s.len() as int
    } else {
        let k = base_name_begins(s.drop_last());
        assert(s.drop_last().skip(k).push(s.last()) =~= s.skip(k));
        k
    }
}

/// On one line, a match of a whole base name catches the paths whose last component
/// is its pattern, and no others.
pub proof fn full_base_name_is_caught(m: MatchView, s: Seq<char>)
    requires
        m.kind == Kind::basename,
        m.method == Method::full,
        m.pattern.len() > 0,
        without(m.pattern, '/'),
        without(s, '\n'),
    ensures
        path_pattern(m) == Some("^(?:.*/)?"@ + escaped(m.pattern) + "$"@),
        catches(m, s) <==> base_name(s) == m.pattern,
{
    let bare = MatchView { kind: Kind::path, ..m };
    base_name_is_caught(m, s);
    full_path_is_caught(bare, s);
    let n = base_name_begins(s);
    if base_name(s) == m.pattern {
        if n > 0 {
            full_path_is_caught(bare, s.skip(n));
            let k = n - 1;
            assert(without(s.take(k), '\n') && catches(bare, s.skip(k + 1)));
        } else {
            assert(s.skip(0) =~= s);
        }
    }
    if catches(bare, s) {
        assert(s.skip(0) =~= s);
        base_name_of_parts(s, 0);
    } else if catches(m, s) {
        let k = choose|k: int|
            0 <= k < s.len() && s[k] == '/' && without(#[trigger] s.take(k), '\n') && catches(
                bare,
                s.skip(k + 1),
            );
        full_path_is_caught(bare, s.skip(k + 1));
        base_name_of_parts(s, k + 1);
    }
}

/// A regular expression is taken as it is, between the beginning and the end of a
/// path, or after the directory for a base name.
pub proof fn regex_is_kept(m: MatchView)
    requires
        m.method == Method::regex,
        m.pattern.len() > 0,
    ensures
        m.kind == Kind::path ==> path_pattern(m) == Some("^"@ + m.pattern + "$"@),
        m.kind == Kind::basename ==> path_pattern(m) == Some("^(?:.*/)?"@ + m.pattern + "$"@),
{
}

/// The regular expressions are those of the matches of paths and base names that
/// have a pattern, one for each, in the order of the matches; the positions beside
/// them lead back.
pub proof fn programs_are_compiled(ms: Seq<MatchView>)
    requires
        ms.len() <= usize::MAX,
    ensures
        path_patterns(ms).len() == path_positions(ms).len(),
        forall|i: int|
            0 <= i < path_positions(ms).len() ==> (#[trigger] path_positions(ms)[i]) < ms.len()
                && path_pattern(ms[path_positions(ms)[i] as int]) == Some(path_patterns(ms)[i]),
        forall|i: int, j: int|
            0 <= i < j < path_positions(ms).len() ==> #[trigger] path_positions(ms)[i]
                < #[trigger] path_positions(ms)[j],
        forall|k: usize|
            k < ms.len() ==> (#[trigger] path_positions(ms).contains(k) <==> (ms[k as int].kind
                == Kind::path || ms[k as int].kind == Kind::basename) && ms[k as int].pattern.len()
                > 0 && ms[k as int].method != Method::subnet),
    decreases ms.len(),
{
    if ms.len() > 0 {
        let before = ms.drop_last();
        let last = (ms.len() - 1) as usize;
        programs_are_compiled(before);
        let old = path_positions(before);
        let new = path_positions(ms);
        if path_pattern(ms.last()) is Some {
            assert(new == old.push(last));
            assert(new[new.len() - 1] == last);
            assert forall|k: usize| k < ms.len() implies (#[trigger] new.contains(k)
                <==> old.contains(k) || k == last) by {
                if old.contains(k) {
                    let i = choose|i: int| 0 <= i < old.len() && old[i] == k;
                    assert(new[i] == k);
                }
            }
        }
        assert(!old.contains(last)) by {
            if old.contains(last) {
                let i = choose|i: int| 0 <= i < old.len() && old[i] == last;
                assert(old[i] < before.len());
            }
        }
        assert forall|k: usize| k < ms.len() implies (#[trigger] new.contains(k) <==> (ms[k as int].kind
            == Kind::path || ms[k as int].kind == Kind::basename) && ms[k as int].pattern.len() > 0
            && ms[k as int].method != Method::subnet) by {
            if k < last {
                assert(before[k as int] == ms[k as int]);
                assert(old.contains(k) || !old.contains(k));
            }
        }
        assert forall|i: int| 0 <= i < new.len() implies (#[trigger] new[i]) < ms.len()
            && path_pattern(ms[new[i] as int]) == Some(path_patterns(ms)[i]) by {
            if i < old.len() {
                assert(old[i] < before.len());
                assert(before[old[i] as int] == ms[old[i] as int]);
            }
        }
    }
}

} // verus!
