//! A match: which traffic it picks and where that traffic goes.

use crate::error::Error;
use crate::fields::{as_map, distinct_keys, entries, entry, order_is_irrelevant, value_or};
use crate::kinds::{Direction, Kind, Method};
use crate::text::{decimal, decimal_text, parse_unsigned, same_text, unsigned, unsigned_reads_back};
use vstd::prelude::*;

verus! {

/// A configured match.
#[derive(Debug)]
pub struct Match {
    pub pattern: String,
    pub kind: Kind,
    pub method: Method,
    pub direction: Direction,
    pub user: String,
    pub uid: u32,
}

/// What a match says.
pub struct MatchView {
    pub pattern: Seq<char>,
    pub kind: Kind,
    pub method: Method,
    pub direction: Direction,
    pub user: Seq<char>,
    pub uid: u32,
}

impl View for Match {
    type V = MatchView;

    open spec fn view(&self) -> MatchView {
        MatchView {
            pattern: self.pattern@,
            kind: self.kind,
            method: self.method,
            direction: self.direction,
            user: self.user@,
            uid: self.uid,
        }
    }
}

impl Clone for Match {
    fn clone(&self) -> (r: Self)
        ensures
            r@ == self@,
    {
        Match {
            pattern: self.pattern.clone(),
            kind: self.kind,
            method: self.method,
            direction: self.direction,
            user: self.user.clone(),
            uid: self.uid,
        }
    }
}

/// The kind that a text names.
pub open spec fn kind_of(v: Seq<char>) -> Option<Kind> {
    if exists|k: Kind| #[trigger] k.spelling() == v {
        Some(choose|k: Kind| #[trigger] k.spelling() == v)
    } else {
        None
    }
}

/// The method that a text names.
pub open spec fn method_of(v: Seq<char>) -> Option<Method> {
    if exists|k: Method| #[trigger] k.spelling() == v {
        Some(choose|k: Method| #[trigger] k.spelling() == v)
    } else {
        None
    }
}

/// The direction that a text names.
pub open spec fn direction_of(v: Seq<char>) -> Option<Direction> {
    if exists|k: Direction| #[trigger] k.spelling() == v {
        Some(choose|k: Direction| #[trigger] k.spelling() == v)
    } else {
        None
    }
}

/// A kind reads back from its name.
pub proof fn kind_reads_back(k: Kind)
    ensures
        kind_of(k.spelling()) == Some(k),
{
    let c = choose|c: Kind| #[trigger] c.spelling() == k.spelling();
    Kind::spelling_injective(c, k);
}

/// A method reads back from its name.
pub proof fn method_reads_back(k: Method)
    ensures
        method_of(k.spelling()) == Some(k),
{
    let c = choose|c: Method| #[trigger] c.spelling() == k.spelling();
    Method::spelling_injective(c, k);
}

/// A direction reads back from its name.
pub proof fn direction_reads_back(k: Direction)
    ensures
        direction_of(k.spelling()) == Some(k),
{
    let c = choose|c: Direction| #[trigger] c.spelling() == k.spelling();
    Direction::spelling_injective(c, k);
}

/// The names of the fields of a match are different from one another.
pub(crate) proof fn field_names_differ()
    ensures
        "pattern"@ != "kind"@,
        "pattern"@ != "method"@,
        "pattern"@ != "direction"@,
        "pattern"@ != "user"@,
        "pattern"@ != "uid"@,
        "kind"@ != "method"@,
        "kind"@ != "direction"@,
        "kind"@ != "user"@,
        "kind"@ != "uid"@,
        "method"@ != "direction"@,
        "method"@ != "user"@,
        "method"@ != "uid"@,
        "direction"@ != "user"@,
        "direction"@ != "uid"@,
        "user"@ != "uid"@,
{
    reveal_strlit("pattern");
    reveal_strlit("kind");
    reveal_strlit("method");
    reveal_strlit("direction");
    reveal_strlit("user");
    reveal_strlit("uid");
    assert("kind"@[0] != "user"@[0]);
    assert("pattern"@.len() == 7);
    assert("kind"@.len() == 4);
    assert("method"@.len() == 6);
    assert("direction"@.len() == 9);
    assert("uid"@.len() == 3);
}

/// Whether a field of a match has this name and can have this value.
pub open spec fn match_field_ok(key: Seq<char>, value: Seq<char>) -> bool {
    ||| key == "pattern"@
    ||| key == "kind"@ && kind_of(value) is Some
    ||| key == "method"@ && method_of(value) is Some
    ||| key == "direction"@ && direction_of(value) is Some
    ||| key == "user"@
    ||| key == "uid"@ && unsigned(value, u32::MAX as nat) is Some
}

/// Whether an error reports what is wrong with an entry.
pub open spec fn match_field_error(e: Error, key: Seq<char>, value: Seq<char>) -> bool {
    if key == "kind"@ {
        e matches Error::UnknownKind(t) && t@ == value
    } else if key == "method"@ {
        e matches Error::UnknownMethod(t) && t@ == value
    } else if key == "direction"@ {
        e matches Error::UnknownDirection(t) && t@ == value
    } else if key == "uid"@ {
        e matches Error::BadNumber(t) && t@ == value
    } else {
        e matches Error::UnknownMatchField(t) && t@ == key
    }
}

/// A match whose missing fields are the default ones.
pub open spec fn default_match(uid: u32) -> MatchView {
    MatchView {
        pattern: Seq::empty(),
        kind: Kind::basename,
        method: Method::full,
        direction: Direction::redirect,
        user: Seq::empty(),
        uid,
    }
}

/// A match with the fields that a map names, and those of `m` otherwise.
pub open spec fn match_with(m: MatchView, h: Map<Seq<char>, Seq<char>>) -> MatchView {
    MatchView {
        pattern: value_or(h, "pattern"@, m.pattern),
        kind: if h.dom().contains("kind"@) {
            kind_of(h["kind"@])->0
        } else {
            m.kind
        },
        method: if h.dom().contains("method"@) {
            method_of(h["method"@])->0
        } else {
            m.method
        },
        direction: if h.dom().contains("direction"@) {
            direction_of(h["direction"@])->0
        } else {
            m.direction
        },
        user: value_or(h, "user"@, m.user),
        uid: if h.dom().contains("uid"@) {
            unsigned(h["uid"@], u32::MAX as nat)->0 as u32
        } else {
            m.uid
        },
    }
}

/// The entries by which a match is listed: the texts only where they are not
/// empty, everything else always.
pub open spec fn match_entries(m: MatchView) -> Seq<(Seq<char>, Seq<char>)> {
    let pattern = if m.pattern.len() > 0 {
        seq![("pattern"@, m.pattern)]
    } else {
        Seq::empty()
    };
    let user = if m.user.len() > 0 {
        seq![("user"@, m.user)]
    } else {
        Seq::empty()
    };
    pattern + seq![
        ("kind"@, m.kind.spelling()),
        ("method"@, m.method.spelling()),
        ("direction"@, m.direction.spelling()),
    ] + user + seq![("uid"@, decimal(m.uid as nat))]
}

impl Match {
    /// Reads a match from named values. Fields that are not named are empty,
    /// have their default, or, for the user id, are those of the caller.
    pub fn from_hashmap(h: &Vec<(String, String)>, uid: u32) -> (r: Result<Match, Error>)
        ensures
            r is Ok <==> forall|i: int|
                0 <= i < h@.len() ==> match_field_ok(#[trigger] entries(h@)[i].0, entries(h@)[i].1),
            r matches Ok(m) ==> m@ == match_with(default_match(uid), as_map(entries(h@))),
            r matches Err(e) ==> exists|i: int|
                {
                    &&& 0 <= i < h@.len()
                    &&& forall|j: int|
                        0 <= j < i ==> match_field_ok(
                            #[trigger] entries(h@)[j].0,
                            entries(h@)[j].1,
                        )
                    &&& !match_field_ok(#[trigger] entries(h@)[i].0, entries(h@)[i].1)
                    &&& match_field_error(e, entries(h@)[i].0, entries(h@)[i].1)
                },
    {
        let mut m = Match {
            pattern: String::new(),
            kind: Kind::default(),
            method: Method::default(),
            direction: Direction::default(),
            user: String::new(),
            uid,
        };
        let ghost all = entries(h@);
        let mut i: usize = 0;
        assert(m@ == match_with(default_match(uid), as_map(all.take(0))));
        while i < h.len()
            invariant
                i <= h.len(),
                all == entries(h@),
                m@ == match_with(default_match(uid), as_map(all.take(i as int))),
                forall|j: int| 0 <= j < i ==> match_field_ok(#[trigger] all[j].0, all[j].1),
            decreases h.len() - i,
        {
            let key = h[i].0.as_str();
            let value = h[i].1.as_str();
            assert(all[i as int] == (key@, value@));
            assert(all.take(i + 1).drop_last() == all.take(i as int));
            assert(all.take(i + 1).last() == (key@, value@));
            proof {
                field_names_differ();
            }
            if same_text(key, "pattern") {
                m.pattern = value.to_owned();
            } else if same_text(key, "kind") {
                match Kind::from_str(value) {
                    Ok(k) => {
                        proof {
                            kind_reads_back(k);
                        }
                        m.kind = k;
                    },
                    Err(e) => {
                        assert(!match_field_ok(all[i as int].0, all[i as int].1));
                        return Err(e);
                    },
                }
            } else if same_text(key, "method") {
                match Method::from_str(value) {
                    Ok(k) => {
                        proof {
                            method_reads_back(k);
                        }
                        m.method = k;
                    },
                    Err(e) => {
                        assert(!match_field_ok(all[i as int].0, all[i as int].1));
                        return Err(e);
                    },
                }
            } else if same_text(key, "direction") {
                match Direction::from_str(value) {
                    Ok(k) => {
                        proof {
                            direction_reads_back(k);
                        }
                        m.direction = k;
                    },
                    Err(e) => {
                        assert(!match_field_ok(all[i as int].0, all[i as int].1));
                        return Err(e);
                    },
                }
            } else if same_text(key, "user") {
                m.user = value.to_owned();
            } else if same_text(key, "uid") {
                match parse_unsigned(value, u32::MAX as u64) {
                    Some(n) => {
                        m.uid = n as u32;
                    },
                    None => {
                        assert(!match_field_ok(all[i as int].0, all[i as int].1));
                        return Err(Error::BadNumber(value.to_owned()));
                    },
                }
            } else {
                assert(!match_field_ok(all[i as int].0, all[i as int].1));
                return Err(Error::UnknownMatchField(key.to_owned()));
            }
            assert(match_field_ok(all[i as int].0, all[i as int].1));
            i += 1;
            assert(m@ == match_with(default_match(uid), as_map(all.take(i as int))));
        }
        assert(all.take(all.len() as int) == all);
        Ok(m)
    }

    /// The named values of the match.
    pub fn to_hashmap(&self) -> (r: Vec<(String, String)>)
        ensures
            entries(r@) == match_entries(self@),
    {
        let mut h: Vec<(String, String)> = Vec::new();
        if !self.pattern.as_str().is_empty() {
            h.push(entry("pattern", self.pattern.clone()));
        }
        h.push(entry("kind", self.kind.name().to_owned()));
        h.push(entry("method", self.method.name().to_owned()));
        h.push(entry("direction", self.direction.name().to_owned()));
        if !self.user.as_str().is_empty() {
            h.push(entry("user", self.user.clone()));
        }
        h.push(entry("uid", decimal_text(self.uid as u64)));
        assert(entries(h@) =~= match_entries(self@));
        h
    }

    /// Whether the match looks at domain names.
    pub fn is_dns(&self) -> (r: bool)
        ensures
            r == (self.kind == Kind::dns),
    {
        match self.kind {
            Kind::dns => true,
            _ => false,
        }
    }

    /// Whether the match looks at the process that sends.
    pub fn is_per_process(&self) -> (r: bool)
        ensures
            r == (self.kind == Kind::basename || self.kind == Kind::path),
    {
        match self.kind {
            Kind::basename | Kind::path => true,
            _ => false,
        }
    }

    /// Whether two matches are the same one: all but the method is compared.
    pub fn is_eq_to(&self, r: &Match) -> (same: bool)
        ensures
            same == same_match(self@, r@),
    {
        self.kind == r.kind && same_text(self.pattern.as_str(), r.pattern.as_str())
            && self.direction == r.direction && self.uid == r.uid && same_text(
            self.user.as_str(),
            r.user.as_str(),
        )
    }
}

/// Whether two matches are the same one, whatever method they use.
pub open spec fn same_match(a: MatchView, b: MatchView) -> bool {
    &&& a.kind == b.kind
    &&& a.pattern == b.pattern
    &&& a.direction == b.direction
    &&& a.uid == b.uid
    &&& a.user == b.user
}

/// A match reads back from the values by which it is listed, whoever reads it.
pub proof fn match_reads_back(m: MatchView, uid: u32)
    ensures
        forall|i: int|
            0 <= i < match_entries(m).len() ==> match_field_ok(
                #[trigger] match_entries(m)[i].0,
                match_entries(m)[i].1,
            ),
        match_with(default_match(uid), as_map(match_entries(m))) == m,
{
    field_names_differ();
    kind_reads_back(m.kind);
    method_reads_back(m.method);
    direction_reads_back(m.direction);
    unsigned_reads_back(m.uid as nat, u32::MAX as nat);
    let h = match_entries(m);
    reveal_with_fuel(as_map, 7);
    let n = h.len() as int;
    assert forall|i: int| 0 <= i < h.len() implies match_field_ok(#[trigger] h[i].0, h[i].1) by {}
    let map = as_map(h);
    let p = m.pattern.len() > 0;
    let u = m.user.len() > 0;
    if p && u {
        assert(h == seq![
            ("pattern"@, m.pattern),
            ("kind"@, m.kind.spelling()),
            ("method"@, m.method.spelling()),
            ("direction"@, m.direction.spelling()),
            ("user"@, m.user),
            ("uid"@, decimal(m.uid as nat)),
        ]);
    } else if p {
        assert(h == seq![
            ("pattern"@, m.pattern),
            ("kind"@, m.kind.spelling()),
            ("method"@, m.method.spelling()),
            ("direction"@, m.direction.spelling()),
            ("uid"@, decimal(m.uid as nat)),
        ]);
        assert(m.user =~= Seq::empty());
    } else if u {
        assert(h == seq![
            ("kind"@, m.kind.spelling()),
            ("method"@, m.method.spelling()),
            ("direction"@, m.direction.spelling()),
            ("user"@, m.user),
            ("uid"@, decimal(m.uid as nat)),
        ]);
        assert(m.pattern =~= Seq::empty());
    } else {
        assert(h == seq![
            ("kind"@, m.kind.spelling()),
            ("method"@, m.method.spelling()),
            ("direction"@, m.direction.spelling()),
            ("uid"@, decimal(m.uid as nat)),
        ]);
        assert(m.user =~= Seq::empty());
        assert(m.pattern =~= Seq::empty());
    }
    assert(match_with(default_match(uid), map) == m);
}

/// In which order the named values come makes no difference to the match that
/// is read, nor to whether one is read.
pub proof fn match_order_is_irrelevant(
    a: Seq<(Seq<char>, Seq<char>)>,
    b: Seq<(Seq<char>, Seq<char>)>,
    uid: u32,
)
    requires
        distinct_keys(a),
        distinct_keys(b),
        forall|e: (Seq<char>, Seq<char>)| #[trigger] a.contains(e) <==> b.contains(e),
    ensures
        match_with(default_match(uid), as_map(a)) == match_with(default_match(uid), as_map(b)),
        (forall|i: int| 0 <= i < a.len() ==> match_field_ok(#[trigger] a[i].0, a[i].1)) <==> (
        forall|i: int| 0 <= i < b.len() ==> match_field_ok(#[trigger] b[i].0, b[i].1)),
{
    order_is_irrelevant(a, b);
    assert forall|i: int|
        0 <= i < a.len() && (forall|j: int|
            0 <= j < b.len() ==> match_field_ok(
                #[trigger] b[j].0,
                b[j].1,
            )) implies match_field_ok(#[trigger] a[i].0, a[i].1) by {
        assert(a.contains(a[i]));
        assert(b.contains(a[i]));
    }
    assert forall|i: int|
        0 <= i < b.len() && (forall|j: int|
            0 <= j < a.len() ==> match_field_ok(
                #[trigger] a[j].0,
                a[j].1,
            )) implies match_field_ok(#[trigger] b[i].0, b[i].1) by {
        assert(b.contains(b[i]));
        assert(a.contains(b[i]));
    }
}

/// A match that is read has the fields that are named, each under its name; what is
/// not named is empty, or the whole base name, redirected, of whoever asks.
pub proof fn named_fields_are_read(h: Map<Seq<char>, Seq<char>>, uid: u32, n: u32)
    ensures
        ({
            let m = match_with(default_match(uid), h);
            &&& !h.dom().contains("pattern"@) ==> m.pattern == Seq::<char>::empty()
            &&& !h.dom().contains("kind"@) ==> m.kind == Kind::basename
            &&& !h.dom().contains("method"@) ==> m.method == Method::full
            &&& !h.dom().contains("direction"@) ==> m.direction == Direction::redirect
            &&& !h.dom().contains("user"@) ==> m.user == Seq::<char>::empty()
            &&& !h.dom().contains("uid"@) ==> m.uid == uid
            &&& h.dom().contains("pattern"@) ==> m.pattern == h["pattern"@]
            &&& h.dom().contains("user"@) ==> m.user == h["user"@]
            &&& h.contains_pair("uid"@, decimal(n as nat)) ==> m.uid == n
            &&& h.contains_pair("kind"@, "basename"@) ==> m.kind == Kind::basename
            &&& h.contains_pair("kind"@, "path"@) ==> m.kind == Kind::path
            &&& h.contains_pair("kind"@, "ipv4"@) ==> m.kind == Kind::ipv4
            &&& h.contains_pair("kind"@, "dns"@) ==> m.kind == Kind::dns
            &&& h.contains_pair("method"@, "full"@) ==> m.method == Method::full
            &&& h.contains_pair("method"@, "substring"@) ==> m.method == Method::substring
            &&& h.contains_pair("method"@, "prefix"@) ==> m.method == Method::prefix
            &&& h.contains_pair("method"@, "suffix"@) ==> m.method == Method::suffix
            &&& h.contains_pair("method"@, "regex"@) ==> m.method == Method::regex
            &&& h.contains_pair("method"@, "subnet"@) ==> m.method == Method::subnet
            &&& h.contains_pair("direction"@, "redirect"@) ==> m.direction == Direction::redirect
            &&& h.contains_pair("direction"@, "bypass"@) ==> m.direction == Direction::bypass
        }),
{
    unsigned_reads_back(n as nat, u32::MAX as nat);
    kind_reads_back(Kind::basename);
    kind_reads_back(Kind::path);
    kind_reads_back(Kind::ipv4);
    kind_reads_back(Kind::dns);
    method_reads_back(Method::full);
    method_reads_back(Method::substring);
    method_reads_back(Method::prefix);
    method_reads_back(Method::suffix);
    method_reads_back(Method::regex);
    method_reads_back(Method::subnet);
    direction_reads_back(Direction::redirect);
    direction_reads_back(Direction::bypass);
}

/// A match can have only the known fields, and of kind, method and direction only the
/// known ones.
pub proof fn fields_are_checked(key: Seq<char>, value: Seq<char>)
    ensures
        match_field_ok(key, value) ==> key == "pattern"@ || key == "kind"@ || key == "method"@
            || key == "direction"@ || key == "user"@ || key == "uid"@,
        key == "pattern"@ || key == "user"@ ==> match_field_ok(key, value),
        key == "direction"@ ==> (match_field_ok(key, value) <==> value == "redirect"@ || value
            == "bypass"@),
        key == "kind"@ ==> (match_field_ok(key, value) <==> value == "basename"@ || value
            == "path"@ || value == "ipv4"@ || value == "dns"@),
        key == "method"@ ==> (match_field_ok(key, value) <==> value == "full"@ || value
            == "substring"@ || value == "prefix"@ || value == "suffix"@ || value == "regex"@
            || value == "subnet"@),
{
    field_names_differ();
    direction_reads_back(Direction::redirect);
    direction_reads_back(Direction::bypass);
    kind_reads_back(Kind::basename);
    kind_reads_back(Kind::path);
    kind_reads_back(Kind::ipv4);
    kind_reads_back(Kind::dns);
    method_reads_back(Method::full);
    method_reads_back(Method::substring);
    method_reads_back(Method::prefix);
    method_reads_back(Method::suffix);
    method_reads_back(Method::regex);
    method_reads_back(Method::subnet);
}

} // verus!
