//! The state that the service keeps, and how it is kept on disk.

use crate::config::{default_config, Config};
use crate::error::Error;
use crate::kinds::Kind;
use crate::matches::{dns_matches_are_counted, dns_total, Matches, MatchesView};
use crate::matching::MatchView;
use vstd::prelude::*;

verus! {

/// What the service keeps.
#[derive(Debug)]
pub struct State {
    pub enable: bool,
    pub to_dev: String,
    pub config: Config,
    pub matches: Matches,
    pub generation: u64,
}

/// What a state says.
#[verifier::ext_equal]
pub struct StateView {
    pub enable: bool,
    pub to_dev: Seq<char>,
    pub config: Config,
    pub matches: MatchesView,
    pub generation: u64,
}

impl View for State {
    type V = StateView;

    open spec fn view(&self) -> StateView {
        StateView {
            enable: self.enable,
            to_dev: self.to_dev@,
            config: self.config,
            matches: self.matches@,
            generation: self.generation,
        }
    }
}

impl Clone for State {
    fn clone(&self) -> (r: Self)
        ensures
            r@ == self@,
    {
        State {
            enable: self.enable,
            to_dev: self.to_dev.clone(),
            config: self.config,
            matches: self.matches.clone(),
            generation: self.generation,
        }
    }
}

/// The state where nothing was kept.
pub open spec fn default_state() -> StateView {
    StateView {
        enable: false,
        to_dev: Seq::empty(),
        config: default_config(),
        matches: MatchesView { matches: Seq::empty(), generation: 0, dns_count: 0 },
        generation: 0,
    }
}

impl Default for State {
    fn default() -> (r: Self)
        ensures
            r@ == default_state(),
    {
        let r = State {
            enable: false,
            to_dev: String::new(),
            config: Config::default(),
            matches: Matches::default(),
            generation: 0,
        };
        assert(r@.matches.matches =~= Seq::empty());
        r
    }
}

/// A state with its count of matches that look at domain names made right.
pub open spec fn recounted(s: StateView) -> StateView {
    StateView {
        matches: MatchesView { dns_count: dns_total(s.matches.matches) as i32, ..s.matches },
        ..s
    }
}

/// Which of the slots read so far is the one to go by: the last of those with
/// the highest generation. A slot that could not be read is passed over.
pub open spec fn chosen_slot(slots: Seq<Option<State>>) -> Option<int>
    decreases slots.len(),
{
    if slots.len() == 0 {
        None
    } else {
        let before = chosen_slot(slots.drop_last());
        match slots.last() {
            None => before,
            Some(s) => match before {
                None => Some(slots.len() - 1),
                Some(b) => if slots[b]->0.generation <= s.generation {
                    Some(slots.len() - 1)
                } else {
                    before
                },
            },
        }
    }
}

/// The chosen slot can be read, none that can has a higher generation, and none
/// behind it the same.
pub proof fn chosen_slot_is_newest(slots: Seq<Option<State>>)
    ensures
        match chosen_slot(slots) {
            None => forall|i: int| 0 <= i < slots.len() ==> (#[trigger] slots[i]) is None,
            Some(c) => {
                &&& 0 <= c < slots.len()
                &&& slots[c] is Some
                &&& forall|i: int|
                    0 <= i < slots.len() && (#[trigger] slots[i]) is Some ==> slots[i]->0.generation
                        <= slots[c]->0.generation
                &&& forall|i: int|
                    c < i < slots.len() && (#[trigger] slots[i]) is Some ==> slots[i]->0.generation
                        < slots[c]->0.generation
            },
        },
    decreases slots.len(),
{
    if slots.len() > 0 {
        let front = slots.drop_last();
        chosen_slot_is_newest(front);
        let n = slots.len() - 1;
        assert(forall|i: int| 0 <= i < n ==> front[i] == slots[i]);
    }
}

/// Chooses among the slots on disk: the state to start from, and the slot that
/// it came from, the first one where none could be read.
pub fn load_state(slots: Vec<Option<State>>) -> (r: (State, usize))
    ensures
        match chosen_slot(slots@) {
            None => r.0@ == default_state() && r.1 == 0,
            Some(c) => r.0@ == recounted(slots@[c]->0@) && r.1 == c,
        },
{
    let mut state = State::default();
    let mut last_i: usize = 0;
    let mut last_gen: u64 = 0;
    let mut i: usize = 0;
    let ghost all = slots@;
    while i < slots.len()
        invariant
            all == slots@,
            i <= all.len(),
            match chosen_slot(all.take(i as int)) {
                None => state@ == default_state() && last_i == 0 && last_gen == 0,
                Some(c) => {
                    &&& 0 <= c < i
                    &&& all[c] is Some
                    &&& state@ == recounted(all[c]->0@)
                    &&& last_i == c
                    &&& last_gen == all[c]->0.generation
                },
            },
        decreases slots.len() - i,
    {
        let ghost now = all.take(i + 1);
        assert(now.drop_last() == all.take(i as int));
        assert(now.last() == all[i as int]);
        proof {
            chosen_slot_is_newest(all.take(i as int));
        }
        if let Some(next) = &slots[i] {
            if last_gen <= next.generation {
                last_gen = next.generation;
                last_i = i;
                let mut kept = next.clone();
                kept.matches.update();
                state = kept;
                assert(state@ == recounted(next@));
            }
        }
        i += 1;
    }
    assert(all.take(all.len() as int) == all);
    (state, last_i)
}

/// What is written next, and where.
#[derive(Clone, Copy, Debug, PartialEq, Eq, Structural)]
pub struct Saver {
    pub generation: u64,
    pub slot: usize,
}

impl Saver {
    /// Goes on from a state that was kept in a slot.
    pub fn new(state: &State, slot: usize) -> (r: Saver)
        ensures
            r == (Saver { generation: state.generation, slot }),
    {
        Saver { generation: state.generation, slot }
    }

    /// The state to write, with the next generation, and the slot to write it to.
    /// The slot after it is next.
    pub fn save(&mut self, state: &State, slots: usize) -> (r: (State, usize))
        requires
            old(self).generation < u64::MAX,
            old(self).slot < slots,
        ensures
            r.0@ == (StateView { generation: (old(self).generation + 1) as u64, ..state@ }),
            r.1 == old(self).slot,
            final(self).generation == old(self).generation + 1,
            final(self).slot == (if old(self).slot + 1 == slots {
                0
            } else {
                old(self).slot + 1
            }),
    {
        let mut conf = state.clone();
        self.generation = self.generation + 1;
        conf.generation = self.generation;
        let slot = self.slot;
        self.slot = if slot + 1 == slots {
            0
        } else {
            slot + 1
        };
        (conf, slot)
    }
}

/// What was written last is what is loaded, as long as it carries a higher
/// generation than what stands in the other slots.
pub proof fn last_saved_is_loaded(slots: Seq<Option<State>>, slot: int)
    requires
        0 <= slot < slots.len(),
        slots[slot] is Some,
        forall|i: int|
            0 <= i < slots.len() && i != slot && (#[trigger] slots[i]) is Some
                ==> slots[i]->0.generation < slots[slot]->0.generation,
    ensures
        chosen_slot(slots) == Some(slot),
{
    chosen_slot_is_newest(slots);
}

/// Whether to start enabled, given what was kept and what was asked for. Both at
/// once cannot be asked for.
pub fn start_enabled(kept: bool, enable: bool, disable: bool) -> (r: Result<bool, Error>)
    ensures
        r is Err <==> enable && disable,
        r matches Err(e) ==> e is EnableAndDisable,
        r matches Ok(b) ==> b == (if enable {
            true
        } else if disable {
            false
        } else {
            kept
        }),
{
    if enable && disable {
        return Err(Error::EnableAndDisable);
    }
    if (enable || disable) && kept != enable {
        return Ok(enable);
    }
    Ok(kept)
}

/// What is loaded is what was kept, with the count of its matches that look at domain
/// names made right.
pub proof fn loaded_is_what_was_kept(s: StateView)
    requires
        s.matches.matches.len() <= i32::MAX,
    ensures
        recounted(s).enable == s.enable,
        recounted(s).to_dev == s.to_dev,
        recounted(s).config == s.config,
        recounted(s).generation == s.generation,
        recounted(s).matches.matches == s.matches.matches,
        recounted(s).matches.generation == s.matches.generation,
        recounted(s).matches.dns_count == s.matches.matches.filter(
            |m: MatchView| m.kind == Kind::dns,
        ).len(),
{
    dns_matches_are_counted(s.matches.matches);
    let f = |m: MatchView| m.kind == Kind::dns;
    s.matches.matches.lemma_filter_len(f);
}

} // verus!
