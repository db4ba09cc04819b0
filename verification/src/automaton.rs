//! The dense automata of `regex_automata`: what such an automaton holds, and
//! the calls that build and query it.

use crate::text::texts_of;
use regex_automata::dfa::dense;
use regex_automata::dfa::dense::DFA as DenseDfa;
use regex_automata::dfa::{Automaton, StartKind};
use regex_automata::nfa::thompson;
use regex_automata::util::primitives::StateID;
use regex_automata::util::start;
use vstd::prelude::*;

verus! {

/// A dense automaton of `regex_automata`: a table of transitions.
#[verifier::external_type_specification]
#[verifier::external_body]
#[verifier::reject_recursive_types(T)]
pub struct ExDenseDfa<T>(DenseDfa<T>);

/// The reason why `regex_automata` refused to build an automaton.
#[verifier::external_type_specification]
#[verifier::external_body]
pub struct ExBuildError(dense::BuildError);

/// Whether a search may start anywhere in the haystack or only where it begins.
#[derive(Clone, Copy, Debug, PartialEq, Eq, Structural)]
pub enum Anchored {
    No,
    Yes,
}

/// The entries of the transition table as read through byte zero. State
/// identifiers are offsets of rows in this table.
pub uninterp spec fn transitions(d: dense::DFA<Vec<u32>>) -> Seq<u32>;

/// The equivalence class of each of the 256 bytes.
pub uninterp spec fn byte_classes(d: dense::DFA<Vec<u32>>) -> Seq<u8>;

/// The number of entries that a state takes up in the transition table.
pub uninterp spec fn row_length(d: dense::DFA<Vec<u32>>) -> nat;

/// The start state, if the automaton supports that kind of search.
pub uninterp spec fn start_of(d: dense::DFA<Vec<u32>>, anchored: Anchored) -> Option<u32>;

/// The identifier of the quit state.
pub uninterp spec fn quit_id(d: dense::DFA<Vec<u32>>) -> nat;

/// The identifier of the first match state, zero where there is none.
pub uninterp spec fn first_match(d: dense::DFA<Vec<u32>>) -> nat;

/// The identifier of the last match state, zero where there is none.
pub uninterp spec fn last_match(d: dense::DFA<Vec<u32>>) -> nat;

/// The patterns that match in each match state.
pub uninterp spec fn match_lists(d: dense::DFA<Vec<u32>>) -> Map<int, Seq<u32>>;

/// The automaton that the given patterns compile to within a size limit, or the
/// message of why they do not.
pub uninterp spec fn compiled(pats: Seq<Seq<char>>, reverse: bool, limit: u32) -> Result<
    dense::DFA<Vec<u32>>,
    Seq<char>,
>;

/// The message of an error.
pub uninterp spec fn error_text(e: dense::BuildError) -> Seq<char>;

/// Whether a state identifier is that of a match state.
pub open spec fn is_match(d: dense::DFA<Vec<u32>>, i: int) -> bool {
    i != 0 && first_match(d) <= i <= last_match(d)
}

/// What holds of every automaton that the builder returns: its table has room
/// for every state that a transition or the start leads to, states are whole
/// rows, the dead state leads nowhere, the classes of the bytes are numbered
/// without gaps and fit in a row, and some pattern matches in every match state.
pub open spec fn well_built(d: dense::DFA<Vec<u32>>) -> bool {
    &&& 2 <= row_length(d) <= 512
    &&& transitions(d).len() <= 0x4000_0000
    &&& forall|i: int|
        0 <= i < transitions(d).len() ==> #[trigger] transitions(d)[i] + row_length(d)
            <= transitions(d).len() && transitions(d)[i] as nat % row_length(d) == 0
    &&& forall|i: int|
        0 <= i < row_length(d) && i < transitions(d).len() ==> #[trigger] transitions(d)[i] == 0
    &&& forall|a: Anchored| #[trigger]
        start_of(d, a) matches Some(s) ==> s + row_length(d) <= transitions(d).len() && s as nat
            % row_length(d) == 0
    &&& byte_classes(d).len() == 256
    &&& byte_classes(d)[0] == 0
    &&& forall|i: int, j: int|
        0 <= i && j == i + 1 && j < 256 ==> #[trigger] byte_classes(d)[i]
            <= #[trigger] byte_classes(d)[j] <= byte_classes(d)[i] + 1
    &&& byte_classes(d)[255] + 2 <= row_length(d)
    &&& forall|i: int| #[trigger] is_match(d, i) ==> match_lists(d)[i].len() > 0
}

/// Whether searches start where the text begins, and nowhere else.
pub open spec fn starts_anchored(d: dense::DFA<Vec<u32>>) -> bool {
    start_of(d, Anchored::Yes) is Some && start_of(d, Anchored::No) is None
}

/// Whether the match states name only patterns below a bound.
pub open spec fn names_below(d: dense::DFA<Vec<u32>>, patterns: nat) -> bool {
    forall|i: int, k: int|
        is_match(d, i) && 0 <= k < match_lists(d)[i].len() ==> #[trigger] match_lists(d)[i][k]
            < patterns
}

/// The first byte of each run of bytes with one class, among the first `n`.
pub open spec fn run_starts(classes: Seq<u8>, n: int) -> Seq<Option<u8>>
    decreases n,
{
    if n <= 0 {
        Seq::empty()
    } else if n == 1 || classes[n - 1] != classes[n - 2] {
        run_starts(classes, n - 1).push(Some((n - 1) as u8))
    } else {
        run_starts(classes, n - 1)
    }
}

/// `dense::Builder::build_many`, set up for anchored searches, without
/// acceleration, within a memory limit, and forward or in reverse. The outcome,
/// the message of an error included, depends on the arguments alone. What is
/// built is well built and supports anchored searches only, and its match states
/// name patterns that were given.
#[verifier::external_body]
pub(crate) fn compile(pats: &Vec<String>, reverse: bool, limit: u32) -> (r: Result<
    dense::DFA<Vec<u32>>,
    dense::BuildError,
>)
    ensures
        match r {
            Ok(d) => compiled(texts_of(pats@), reverse, limit) == Ok::<_, Seq<char>>(d)
                && well_built(d) && names_below(d, pats@.len()) && starts_anchored(d),
            Err(e) => compiled(texts_of(pats@), reverse, limit) == Err::<
                dense::DFA<Vec<u32>>,
                _,
            >(error_text(e)),
        },
{
    dense::DFA::builder()
        .thompson(thompson::Config::new().reverse(reverse).shrink(true))
        .configure(
            dense::Config::new()
                .start_kind(StartKind::Anchored)
                .dfa_size_limit(Some(limit as usize))
                .accelerate(false),
        )
        .build_many(pats)
}

/// The `Display` of a `dense::BuildError`, which depends on the error alone.
#[verifier::external_body]
pub(crate) fn build_error_text(e: &dense::BuildError) -> (r: String)
    ensures
        r@ == error_text(*e),
{
    format!("{}", e)
}

/// `ByteClasses::get`: the class of one byte.
#[verifier::external_body]
pub(crate) fn class_of(d: &dense::DFA<Vec<u32>>, byte: u8) -> (r: u8)
    ensures
        r == byte_classes(*d)[byte as int],
{
    d.byte_classes().get(byte)
}

/// `ByteClasses::eoi`: the class that stands for the end of the input, one
/// above that of the last byte.
#[verifier::external_body]
pub(crate) fn eoi_class(d: &dense::DFA<Vec<u32>>) -> (r: usize)
    ensures
        r == byte_classes(*d)[255] + 1,
{
    d.byte_classes().eoi().as_usize()
}

/// `dense::DFA::alphabet_len`: the number of classes, the end of the input
/// being one of them.
#[verifier::external_body]
pub(crate) fn alphabet_len(d: &dense::DFA<Vec<u32>>) -> (r: usize)
    ensures
        r == byte_classes(*d)[255] + 2,
{
    d.alphabet_len()
}

/// `ByteClasses::representatives` over everything: the first byte of each run
/// of bytes with one class, then the end of the input, which stands as `None`.
#[verifier::external_body]
pub(crate) fn representatives(d: &dense::DFA<Vec<u32>>) -> (r: Vec<Option<u8>>)
    ensures
        r@ == run_starts(byte_classes(*d), 256).push(None),
{
    d.byte_classes().representatives(..).map(|u| u.as_u8()).collect()
}

/// `dense::DFA::stride`: the length of a row.
#[verifier::external_body]
pub(crate) fn stride(d: &dense::DFA<Vec<u32>>) -> (r: usize)
    ensures
        r == row_length(*d),
{
    d.stride()
}

/// `Automaton::start_state` at the beginning of the text.
#[verifier::external_body]
pub(crate) fn start_state(d: &dense::DFA<Vec<u32>>, anchored: Anchored) -> (r: Option<u32>)
    ensures
        r == start_of(*d, anchored),
{
    let mode = match anchored {
        Anchored::No => regex_automata::Anchored::No,
        Anchored::Yes => regex_automata::Anchored::Yes,
    };
    d.start_state(&start::Config::new().anchored(mode)).ok().map(|s| s.as_u32())
}

/// `Automaton::next_state` on byte zero: one entry of the transition table.
#[verifier::external_body]
pub(crate) fn transition(d: &dense::DFA<Vec<u32>>, i: usize) -> (r: u32)
    requires
        i < transitions(*d).len(),
        i < 0x7fff_ffff,
    ensures
        r == transitions(*d)[i as int],
{
    d.next_state(StateID::new(i).unwrap(), 0).as_u32()
}

/// `Automaton::is_quit_state`: the quit state has one identifier, never that
/// of the dead state.
#[verifier::external_body]
pub(crate) fn is_quit_state(d: &dense::DFA<Vec<u32>>, i: usize) -> (r: bool)
    requires
        i < 0x7fff_ffff,
    ensures
        r == (i != 0 && i == quit_id(*d)),
{
    d.is_quit_state(StateID::new(i).unwrap())
}

/// `Automaton::is_match_state`: the match states are a contiguous range of
/// identifiers without the dead state.
#[verifier::external_body]
pub(crate) fn is_match_state(d: &dense::DFA<Vec<u32>>, i: usize) -> (r: bool)
    requires
        i < 0x7fff_ffff,
    ensures
        r == (i != 0 && first_match(*d) <= i && i <= last_match(*d)),
{
    d.is_match_state(StateID::new(i).unwrap())
}

/// `Automaton::match_len`: how many patterns match in a match state.
#[verifier::external_body]
pub(crate) fn match_len(d: &dense::DFA<Vec<u32>>, i: usize) -> (r: usize)
    requires
        i < 0x7fff_ffff,
        is_match(*d, i as int),
    ensures
        r == match_lists(*d)[i as int].len(),
{
    d.match_len(StateID::new(i).unwrap())
}

/// `Automaton::match_pattern`: one of the patterns that match in a match state.
#[verifier::external_body]
pub(crate) fn match_pattern(d: &dense::DFA<Vec<u32>>, i: usize, k: usize) -> (r: u32)
    requires
        i < 0x7fff_ffff,
        is_match(*d, i as int),
        k < match_lists(*d)[i as int].len(),
    ensures
        r == match_lists(*d)[i as int][k as int],
{
    d.match_pattern(StateID::new(i).unwrap(), k).as_u32()
}

} // verus!
