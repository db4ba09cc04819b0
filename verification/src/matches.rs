//! The configured matches, and how they are changed.

use crate::addr::{dotted, parse_ipv4};
use crate::automaton::{compiled, Anchored};
use crate::bytes::Order;
use crate::dfa::{encode_dfa, encoding, extent_is_unique, extraction, BpfDfa, DFA};
use crate::automaton::{row_length, start_of, transitions};
use crate::error::Error;
use crate::kinds::{Kind, Method};
use crate::matching::{same_match, Match, MatchView};
use crate::text::texts_of;
use vstd::prelude::*;
use vstd::string::StringExecFns;

verus! {

/// The configured matches, in order.
#[derive(Debug)]
pub struct Matches {
    pub matches: Vec<Match>,
    /// Goes up with every change.
    pub generation: u64,
    /// How many of the matches look at domain names.
    pub dns_count: i32,
}

/// What the configured matches say.
#[verifier::ext_equal]
pub struct MatchesView {
    pub matches: Seq<MatchView>,
    pub generation: u64,
    pub dns_count: i32,
}

/// What each match of a list says.
pub open spec fn match_views(v: Seq<Match>) -> Seq<MatchView> {
    v.map_values(|m: Match| m@)
}

impl View for Matches {
    type V = MatchesView;

    open spec fn view(&self) -> MatchesView {
        MatchesView {
            matches: match_views(self.matches@),
            generation: self.generation,
            dns_count: self.dns_count,
        }
    }
}

impl Clone for Matches {
    fn clone(&self) -> (r: Self)
        ensures
            r@ == self@,
    {
        let mut matches: Vec<Match> = Vec::new();
        let mut i: usize = 0;
        while i < self.matches.len()
            invariant
                i <= self.matches@.len(),
                match_views(matches@) == match_views(self.matches@).take(i as int),
            decreases self.matches.len() - i,
        {
            let ghost before = matches@;
            let m = self.matches[i].clone();
            matches.push(m);
            i += 1;
            assert(match_views(matches@) =~= match_views(before).push(m@));
            assert(match_views(matches@) =~= match_views(self.matches@).take(i as int));
        }
        assert(match_views(matches@) =~= match_views(self.matches@));
        Matches { matches, generation: self.generation, dns_count: self.dns_count }
    }
}

impl Default for Matches {
    fn default() -> (r: Self)
        ensures
            r.matches@.len() == 0,
            r.generation == 0,
            r.dns_count == 0,
    {
        Matches { matches: Vec::new(), generation: 0, dns_count: 0 }
    }
}

/// One for a match that looks at domain names, zero otherwise.
pub open spec fn dns_bit(m: MatchView) -> int {
    if m.kind == Kind::dns {
        1
    } else {
        0
    }
}

/// How many of the matches look at domain names.
pub open spec fn dns_total(ms: Seq<MatchView>) -> int
    decreases ms.len(),
{
    if ms.len() == 0 {
        0
    } else {
        dns_total(ms.drop_last()) + dns_bit(ms.last())
    }
}

proof fn dns_total_bounds(ms: Seq<MatchView>)
    ensures
        0 <= dns_total(ms) <= ms.len(),
    decreases ms.len(),
{
    if ms.len() > 0 {
        dns_total_bounds(ms.drop_last());
    }
}

proof fn dns_total_of_update(ms: Seq<MatchView>, i: int, m: MatchView)
    requires
        0 <= i < ms.len(),
    ensures
        dns_total(ms.update(i, m)) == dns_total(ms) - dns_bit(ms[i]) + dns_bit(m),
    decreases ms.len(),
{
    let u = ms.update(i, m);
    if i == ms.len() - 1 {
        assert(u.drop_last() == ms.drop_last());
    } else {
        dns_total_of_update(ms.drop_last(), i, m);
        assert(u.drop_last() == ms.drop_last().update(i, m));
    }
}

proof fn dns_total_of_remove(ms: Seq<MatchView>, i: int)
    requires
        0 <= i < ms.len(),
    ensures
        dns_total(ms.remove(i)) == dns_total(ms) - dns_bit(ms[i]),
    decreases ms.len(),
{
    let u = ms.remove(i);
    if i == ms.len() - 1 {
        assert(u == ms.drop_last());
    } else {
        dns_total_of_remove(ms.drop_last(), i);
        assert(u.drop_last() == ms.drop_last().remove(i));
    }
}

impl MatchesView {
    /// Whether the count of matches that look at domain names is right.
    pub open spec fn counted(self) -> bool {
        self.dns_count == dns_total(self.matches)
    }
}

/// Whether a character means something in a regular expression.
pub open spec fn is_meta(c: char) -> bool {
    c == '\\' || c == '.' || c == '+' || c == '*' || c == '?' || c == '(' || c == ')' || c == '|'
        || c == '[' || c == ']' || c == '{' || c == '}' || c == '^' || c == '$' || c == '#' || c
        == '&' || c == '-' || c == '~'
}

/// A text with a backslash before each character that means something in a
/// regular expression.
pub open spec fn escaped(s: Seq<char>) -> Seq<char>
    decreases s.len(),
{
    if s.len() == 0 {
        Seq::empty()
    } else if is_meta(s.last()) {
        escaped(s.drop_last()).push('\\').push(s.last())
    } else {
        escaped(s.drop_last()).push(s.last())
    }
}

/// `regex_syntax::escape`: puts a backslash before each character that means
/// something in a regular expression.
#[verifier::external_body]
pub(crate) fn escape(s: &str) -> (r: String)
    ensures
        r@ == escaped(s@),
{
    regex_syntax::escape(s)
}

/// Whether a text is an IPv4 or IPv6 network: an address and a prefix length.
pub uninterp spec fn is_subnet(s: Seq<char>) -> bool;

/// `str::parse` for `ipnet::IpNet`: whether it succeeds depends on the text
/// alone.
#[verifier::external_body]
pub(crate) fn parses_as_subnet(s: &str) -> (r: bool)
    ensures
        r == is_subnet(s@),
{
    s.parse::<ipnet::IpNet>().is_ok()
}

/// The regular expression that the method of a match makes of its pattern.
pub open spec fn method_pattern(m: MatchView) -> Option<Seq<char>> {
    if m.pattern.len() == 0 {
        None
    } else {
        match m.method {
            Method::full => Some(escaped(m.pattern)),
            Method::substring => Some("[^/]*"@ + escaped(m.pattern) + ".*"@),
            Method::prefix => Some(escaped(m.pattern) + ".*"@),
            Method::suffix => Some("[^/]*"@ + escaped(m.pattern)),
            Method::regex => Some(m.pattern),
            Method::subnet => None,
        }
    }
}

/// The regular expression for the path of a process that a match stands for: of
/// a base name, whatever directory precedes it.
pub open spec fn path_pattern(m: MatchView) -> Option<Seq<char>> {
    match method_pattern(m) {
        None => None,
        Some(p) => match m.kind {
            Kind::basename => Some("^(?:.*/)?"@ + p + "$"@),
            Kind::path => Some("^"@ + p + "$"@),
            Kind::ipv4 | Kind::dns => None,
        },
    }
}

/// The positions of the matches with a regular expression for paths.
pub open spec fn path_positions(ms: Seq<MatchView>) -> Seq<usize>
    decreases ms.len(),
{
    if ms.len() == 0 {
        Seq::empty()
    } else if path_pattern(ms.last()) is Some {
        path_positions(ms.drop_last()).push((ms.len() - 1) as usize)
    } else {
        path_positions(ms.drop_last())
    }
}

/// The regular expressions for paths, in the order of the matches.
pub open spec fn path_patterns(ms: Seq<MatchView>) -> Seq<Seq<char>>
    decreases ms.len(),
{
    if ms.len() == 0 {
        Seq::empty()
    } else {
        match path_pattern(ms.last()) {
            Some(p) => path_patterns(ms.drop_last()).push(p),
            None => path_patterns(ms.drop_last()),
        }
    }
}

/// Whether patterns compile to an automaton that fits and can match.
pub open spec fn buildable(pats: Seq<Seq<char>>, limit: u32) -> bool {
    compiled(pats, true, limit) matches Ok(d) && exists|x: DFA| #[trigger]
        extraction(d, Anchored::Yes, limit, Ok(x))
}

/// Whether an error says why patterns do not compile to an automaton that fits
/// and can match.
pub open spec fn build_error(pats: Seq<Seq<char>>, limit: u32, e: Error) -> bool {
    match compiled(pats, true, limit) {
        Err(t) => e matches Error::Regex(s) && s@ == t,
        Ok(d) => extraction(d, Anchored::Yes, limit, Err(e)),
    }
}

/// Patterns for which there is an error cannot be built.
pub proof fn no_build_with_error(pats: Seq<Seq<char>>, limit: u32, e: Error)
    requires
        build_error(pats, limit, e),
    ensures
        !buildable(pats, limit),
{
    if buildable(pats, limit) {
        let d = compiled(pats, true, limit)->Ok_0;
        let x = choose|x: DFA| #[trigger] extraction(d, Anchored::Yes, limit, Ok(x));
        let s = start_of(d, Anchored::Yes)->0;
        let n = choose|n: int|
            #[trigger] crate::dfa::extent(transitions(d), s, row_length(d), n) && 4 * n <= limit
                && x.trans@.len() == n && x.extracted_from(d, Anchored::Yes);
        let m = choose|m: int|
            #[trigger] crate::dfa::extent(transitions(d), s, row_length(d), m) && (4 * m > limit
                || forall|i: int| 0 <= i < m ==> !#[trigger] crate::automaton::is_match(d, i));
        extent_is_unique(transitions(d), s, row_length(d), n, m);
        assert(crate::automaton::is_match(d, x.fin_min as int));
    }
}

/// Whether a match can be configured beside others.
pub open spec fn acceptable(ms: Seq<MatchView>, m: MatchView, limit: u32) -> bool {
    match m.kind {
        Kind::basename | Kind::path => buildable(path_patterns(ms.push(m)), limit),
        Kind::ipv4 => match m.method {
            Method::full => exists|a: u32| m.pattern == #[trigger] dotted(a),
            Method::subnet => is_subnet(m.pattern),
            _ => false,
        },
        Kind::dns => true,
    }
}

/// Whether an error says why a match cannot be configured beside others.
pub open spec fn refusal(ms: Seq<MatchView>, m: MatchView, limit: u32, e: Error) -> bool {
    match m.kind {
        Kind::basename | Kind::path => build_error(path_patterns(ms.push(m)), limit, e),
        Kind::ipv4 => match m.method {
            Method::full => e matches Error::BadAddress(s) && s@ == m.pattern,
            Method::subnet => e matches Error::BadSubnet(s) && s@ == m.pattern,
            _ => e == Error::InvalidMethod(m.method, m.kind),
        },
        Kind::dns => false,
    }
}

/// Whether a match is the first that is the same as another.
pub open spec fn first_same(ms: Seq<MatchView>, m: MatchView, pos: int) -> bool {
    &&& 0 <= pos < ms.len()
    &&& same_match(ms[pos], m)
    &&& forall|j: int| 0 <= j < pos ==> !same_match(#[trigger] ms[j], m)
}

/// Whether none of the matches is the same as another.
pub open spec fn none_same(ms: Seq<MatchView>, m: MatchView) -> bool {
    forall|j: int| 0 <= j < ms.len() ==> !same_match(#[trigger] ms[j], m)
}

impl Matches {
    /// Counts the matches that look at domain names anew.
    pub fn update(&mut self)
        ensures
            final(self).matches@ == old(self).matches@,
            final(self).generation == old(self).generation,
            final(self).dns_count == dns_total(old(self)@.matches) as i32,
            old(self).matches@.len() <= i32::MAX ==> final(self)@.counted(),
    {
        let ghost ms = match_views(self.matches@);
        let mut n: usize = 0;
        let mut i: usize = 0;
        while i < self.matches.len()
            invariant
                ms == match_views(self.matches@),
                i <= self.matches@.len(),
                n <= i,
                n == dns_total(ms.take(i as int)),
            decreases self.matches.len() - i,
        {
            assert(ms.take(i + 1).drop_last() == ms.take(i as int));
            assert(ms[i as int] == self.matches@[i as int]@);
            if self.matches[i].is_dns() {
                n += 1;
            }
            i += 1;
        }
        assert(ms.take(ms.len() as int) == ms);
        self.dns_count = n as i32;
    }

    /// The regular expression that the method of a match makes of its pattern.
    pub fn method_regex(m: &Match) -> (r: Option<String>)
        ensures
            match r {
                Some(s) => method_pattern(m@) == Some(s@),
                None => method_pattern(m@) is None,
            },
    {
        let pat = m.pattern.as_str();
        if pat.is_empty() {
            return None;
        }
        match m.method {
            Method::full => Some(escape(pat)),
            Method::substring => {
                let r = "[^/]*".to_owned().concat(escape(pat).as_str()).concat(".*");
                Some(r)
            },
            Method::prefix => Some(escape(pat).concat(".*")),
            Method::suffix => Some("[^/]*".to_owned().concat(escape(pat).as_str())),
            Method::regex => Some(pat.to_owned()),
            Method::subnet => None,
        }
    }

    /// Compiles the matches that look at the path of a process, and appends the
    /// automaton to the arena.
    pub fn build_path_dfa(&self, arena: &mut Vec<u8>, limit: u32, order: Order) -> (r: Result<
        BpfDfa,
        Error,
    >)
        ensures
            encoding(
                path_patterns(self@.matches),
                limit,
                old(arena)@,
                path_positions(self@.matches),
                self@.matches,
                order,
                r,
                final(arena)@,
            ),
    {
        let ghost ms = self@.matches;
        let mut pat_id_map: Vec<usize> = Vec::new();
        let mut set: Vec<String> = Vec::new();
        let mut i: usize = 0;
        while i < self.matches.len()
            invariant
                ms == match_views(self.matches@),
                i <= self.matches@.len(),
                pat_id_map@ == path_positions(ms.take(i as int)),
                texts_of(set@) == path_patterns(ms.take(i as int)),
                set@.len() == pat_id_map@.len(),
                forall|p: int| 0 <= p < pat_id_map@.len() ==> #[trigger] pat_id_map@[p] < i,
            decreases self.matches.len() - i,
        {
            let m = &self.matches[i];
            let ghost before = set@;
            assert(ms.take(i + 1).drop_last() == ms.take(i as int));
            assert(ms.take(i + 1).last() == m@);
            if let Some(method) = Self::method_regex(m) {
                let pat = match m.kind {
                    Kind::basename => Some(
                        "^(?:.*/)?".to_owned().concat(method.as_str()).concat("$"),
                    ),
                    Kind::path => Some("^".to_owned().concat(method.as_str()).concat("$")),
                    Kind::ipv4 | Kind::dns => None,
                };
                if let Some(pat) = pat {
                    set.push(pat);
                    pat_id_map.push(i);
                    assert(texts_of(set@) =~= texts_of(before).push(pat@));
                }
            }
            i += 1;
        }
        assert(ms.take(ms.len() as int) == ms);
        encode_dfa(&set, arena, &pat_id_map, self, limit, order)
    }

    /// Checks that a match can be configured beside the present ones, and leaves
    /// them as they are.
    pub fn try_parse(&mut self, m: &Match, limit: u32) -> (r: Result<(), Error>)
        ensures
            final(self).matches@ == old(self).matches@,
            final(self).generation == old(self).generation,
            final(self).dns_count == old(self).dns_count,
            r is Ok <==> acceptable(old(self)@.matches, m@, limit),
            r matches Err(e) ==> refusal(old(self)@.matches, m@, limit, e),
    {
        match m.kind {
            Kind::basename | Kind::path => {
                let ghost before = *self;
                self.matches.push(m.clone());
                let ghost ms = self@.matches;
                assert(ms =~= before@.matches.push(m@));
                let mut scratch: Vec<u8> = Vec::new();
                let res = self.build_path_dfa(&mut scratch, limit, Order::Little);
                self.matches.pop();
                assert(self.matches@ =~= before.matches@);
                match res {
                    Ok(_) => Ok(()),
                    Err(e) => {
                        proof {
                            no_build_with_error(path_patterns(ms), limit, e);
                        }
                        Err(e)
                    },
                }
            },
            Kind::ipv4 => match m.method {
                Method::full => {
                    match parse_ipv4(m.pattern.as_str()) {
                        Some(_) => Ok(()),
                        None => Err(Error::BadAddress(m.pattern.clone())),
                    }
                },
                Method::subnet => {
                    if parses_as_subnet(m.pattern.as_str()) {
                        Ok(())
                    } else {
                        Err(Error::BadSubnet(m.pattern.clone()))
                    }
                },
                _ => Err(Error::InvalidMethod(m.method, m.kind)),
            },
            _ => Ok(()),
        }
    }

    /// The position of the first match that is the same as another.
    fn position(&self, m: &Match) -> (r: Option<usize>)
        ensures
            match r {
                Some(pos) => first_same(self@.matches, m@, pos as int),
                None => none_same(self@.matches, m@),
            },
    {
        let mut i: usize = 0;
        while i < self.matches.len()
            invariant
                i <= self.matches@.len(),
                forall|j: int| 0 <= j < i ==> !same_match(#[trigger] self@.matches[j], m@),
            decreases self.matches.len() - i,
        {
            assert(self@.matches[i as int] == self.matches@[i as int]@);
            if self.matches[i].is_eq_to(m) {
                return Some(i);
            }
            i += 1;
        }
        None
    }

    /// Configures one more match, behind the present ones. Where it cannot be
    /// configured, nothing changes.
    pub fn add(&mut self, new: Match, limit: u32) -> (r: Result<(), Error>)
        requires
            old(self).generation < u64::MAX,
            old(self).dns_count + dns_bit(new@) <= i32::MAX,
        ensures
            r is Ok <==> acceptable(old(self)@.matches, new@, limit),
            r is Ok ==> final(self)@ == (MatchesView {
                matches: old(self)@.matches.push(new@),
                generation: (old(self).generation + 1) as u64,
                dns_count: (old(self).dns_count + dns_bit(new@)) as i32,
            }),
            r matches Err(e) ==> refusal(old(self)@.matches, new@, limit, e) && final(self)@
                == old(self)@,
            old(self)@.counted() ==> final(self)@.counted(),
    {
        if let Err(e) = self.try_parse(&new, limit) {
            return Err(e);
        }
        if new.is_dns() {
            self.dns_count = self.dns_count + 1;
        }
        let ghost before = self.matches@;
        self.matches.push(new);
        self.generation = self.generation + 1;
        proof {
            let ms = self@.matches;
            assert(ms =~= match_views(before).push(new@));
            assert(ms.drop_last() =~= match_views(before));
        }
        Ok(())
    }

    /// Puts a match in the place of the first one that is the same as `from`.
    /// Where either cannot be configured, or there is none, nothing changes.
    pub fn replace(&mut self, from: Match, to: Match, limit: u32) -> (r: Result<(), Error>)
        requires
            old(self).generation < u64::MAX,
            i32::MIN <= old(self).dns_count + dns_bit(to@) - dns_bit(from@) <= i32::MAX,
        ensures
            !acceptable(old(self)@.matches, from@, limit) ==> (r matches Err(e) && refusal(
                old(self)@.matches,
                from@,
                limit,
                e,
            )),
            acceptable(old(self)@.matches, from@, limit) && !acceptable(
                old(self)@.matches,
                to@,
                limit,
            ) ==> (r matches Err(e) && refusal(old(self)@.matches, to@, limit, e)),
            acceptable(old(self)@.matches, from@, limit) && acceptable(
                old(self)@.matches,
                to@,
                limit,
            ) ==> match r {
                Ok(_) => exists|pos: int|
                    {
                        &&& #[trigger] first_same(old(self)@.matches, from@, pos)
                        &&& final(self)@ == (MatchesView {
                            matches: old(self)@.matches.update(pos, to@),
                            generation: (old(self).generation + 1) as u64,
                            dns_count: (old(self).dns_count + dns_bit(to@) - dns_bit(
                                from@,
                            )) as i32,
                        })
                    },
                Err(e) => e is NoSuchMatch && none_same(old(self)@.matches, from@),
            },
            r is Err ==> final(self)@ == old(self)@,
            old(self)@.counted() ==> final(self)@.counted(),
    {
        if let Err(e) = self.try_parse(&from, limit) {
            return Err(e);
        }
        if let Err(e) = self.try_parse(&to, limit) {
            return Err(e);
        }
        let pos: usize = match self.position(&from) {
            Some(pos) => pos,
            None => {
                assert(self@.matches == old(self)@.matches);
                return Err(Error::NoSuchMatch);
            },
        };
        let ghost before = self@;
        let ghost vec = self.matches@;
        assert(before.matches == match_views(vec));
        if to.is_dns() {
            if !from.is_dns() {
                self.dns_count = self.dns_count + 1;
            }
        } else if from.is_dns() {
            self.dns_count = self.dns_count - 1;
        }
        self.matches.set(pos, to);
        self.generation = self.generation + 1;
        proof {
            assert(self@.matches =~= before.matches.update(pos as int, to@));
            dns_total_of_update(before.matches, pos as int, to@);
            assert(first_same(before.matches, from@, pos as int));
        }
        Ok(())
    }

    /// Takes out the first match that is the same as `new`. Where that could not
    /// be configured, or there is none, nothing changes.
    pub fn del(&mut self, new: Match, limit: u32) -> (r: Result<(), Error>)
        requires
            old(self).generation < u64::MAX,
            i32::MIN <= old(self).dns_count - dns_bit(new@),
        ensures
            !acceptable(old(self)@.matches, new@, limit) ==> (r matches Err(e) && refusal(
                old(self)@.matches,
                new@,
                limit,
                e,
            )),
            acceptable(old(self)@.matches, new@, limit) ==> match r {
                Ok(_) => exists|pos: int|
                    {
                        &&& #[trigger] first_same(old(self)@.matches, new@, pos)
                        &&& final(self)@ == (MatchesView {
                            matches: old(self)@.matches.remove(pos),
                            generation: (old(self).generation + 1) as u64,
                            dns_count: (old(self).dns_count - dns_bit(new@)) as i32,
                        })
                    },
                Err(e) => e is NoSuchMatch && none_same(old(self)@.matches, new@),
            },
            r is Err ==> final(self)@ == old(self)@,
            old(self)@.counted() ==> final(self)@.counted(),
    {
        if let Err(e) = self.try_parse(&new, limit) {
            return Err(e);
        }
        let pos: usize = match self.position(&new) {
            Some(pos) => pos,
            None => {
                assert(self@.matches == old(self)@.matches);
                return Err(Error::NoSuchMatch);
            },
        };
        let ghost before = self@;
        let gone = self.matches.remove(pos);
        assert(before.matches[pos as int] == gone@);
        if gone.is_dns() {
            self.dns_count = self.dns_count - 1;
        }
        self.generation = self.generation + 1;
        proof {
            assert(self@.matches =~= before.matches.remove(pos as int));
            dns_total_of_remove(before.matches, pos as int);
            assert(first_same(before.matches, new@, pos as int));
        }
        Ok(())
    }
}

/// Taking out a match that was just added gives back the matches before it,
/// unless one of those was the same.
pub proof fn del_undoes_add(ms: Seq<MatchView>, m: MatchView, pos: int)
    requires
        none_same(ms, m),
        first_same(ms.push(m), m, pos),
    ensures
        ms.push(m).remove(pos) == ms,
{
    if pos < ms.len() {
        assert(ms.push(m)[pos] == ms[pos]);
    }
    assert(ms.push(m).remove(pos) =~= ms);
}

/// Among matches there is one first match that is the same as another.
pub proof fn first_same_is_unique(ms: Seq<MatchView>, m: MatchView, a: int, b: int)
    requires
        first_same(ms, m, a),
        first_same(ms, m, b),
    ensures
        a == b,
{
    if a < b {
        assert(!same_match(ms[a], m));
    }
    if b < a {
        assert(!same_match(ms[b], m));
    }
}

/// The match that is named is the first with the same pattern, kind, direction,
/// user and number of the user, whatever its kind and whatever its method: each
/// before it differs in one of them.
pub proof fn named_match_is_told_by_fields(ms: Seq<MatchView>, m: MatchView, pos: int)
    ensures
        first_same(ms, m, pos) <==> {
            &&& 0 <= pos < ms.len()
            &&& ms[pos].pattern == m.pattern
            &&& ms[pos].kind == m.kind
            &&& ms[pos].direction == m.direction
            &&& ms[pos].user == m.user
            &&& ms[pos].uid == m.uid
            &&& forall|j: int|
                0 <= j < pos ==> (#[trigger] ms[j]).pattern != m.pattern || ms[j].kind != m.kind
                    || ms[j].direction != m.direction || ms[j].user != m.user || ms[j].uid
                    != m.uid
        },
        none_same(ms, m) <==> forall|j: int|
            0 <= j < ms.len() ==> (#[trigger] ms[j]).pattern != m.pattern || ms[j].kind != m.kind
                || ms[j].direction != m.direction || ms[j].user != m.user || ms[j].uid != m.uid,
{
}

/// Replacing or taking out a match leaves every match with another pattern, kind,
/// direction or user, in the order in which they were.
pub proof fn other_matches_stay(ms: Seq<MatchView>, m: MatchView, to: MatchView, pos: int, k: int)
    requires
        first_same(ms, m, pos),
        0 <= k < ms.len(),
        ms[k].pattern != m.pattern || ms[k].kind != m.kind || ms[k].direction != m.direction
            || ms[k].user != m.user || ms[k].uid != m.uid,
    ensures
        k != pos,
        ms.update(pos, to)[k] == ms[k],
        ms.update(pos, to)[pos] == to,
        k < pos ==> ms.remove(pos)[k] == ms[k],
        k > pos ==> ms.remove(pos)[k - 1] == ms[k],
        ms.update(pos, to).len() == ms.len(),
        ms.remove(pos).len() == ms.len() - 1,
{
}

/// The count of matches that look at domain names is that of the matches of that
/// kind.
pub proof fn dns_matches_are_counted(ms: Seq<MatchView>)
    ensures
        dns_total(ms) == ms.filter(|m: MatchView| m.kind == Kind::dns).len(),
    decreases ms.len(),
{
    reveal(Seq::filter);
    if ms.len() > 0 {
        dns_matches_are_counted(ms.drop_last());
    }
}

/// A match of an address can be configured where its pattern is one, a match of a
/// network where it is one, and neither in another way; a match of a domain name
/// always can. What is there already does not matter to them.
pub proof fn addresses_are_acceptable(ms: Seq<MatchView>, m: MatchView, limit: u32, a: u32)
    ensures
        m.kind == Kind::dns ==> acceptable(ms, m, limit),
        m.kind == Kind::ipv4 && m.method == Method::full && m.pattern == dotted(a) ==> acceptable(
            ms,
            m,
            limit,
        ),
        m.kind == Kind::ipv4 && m.method == Method::full && acceptable(ms, m, limit) ==> exists|
            b: u32,
        | m.pattern == #[trigger] dotted(b),
        m.kind == Kind::ipv4 && m.method == Method::subnet ==> (acceptable(ms, m, limit)
            <==> is_subnet(m.pattern)),
        m.kind == Kind::ipv4 && m.method != Method::full && m.method != Method::subnet
            ==> !acceptable(ms, m, limit) && refusal(
            ms,
            m,
            limit,
            Error::InvalidMethod(m.method, m.kind),
        ),
{
}

} // verus!
