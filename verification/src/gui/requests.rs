//! The connection of the window to the service.

use crate::fields::entries;
use crate::gui::message::{
    among, match_text_entries, settings_entries, DView, MatchText, SettingsView, D,
};
use crate::text::{chars_of, same_text, text_of_range};
use vstd::prelude::*;

verus! {

/// What becomes of a request: a count of windows, or a call of the service.
#[derive(Debug)]
pub enum Call {
    /// One more window shows what is active.
    AddWindow,
    /// One window less does.
    TakeWindow,
    Enable,
    Disable,
    ChangeOutput(String),
    UpdateConfig(Vec<(String, String)>),
    AddMatch(Vec<(String, String)>),
    DeleteMatch(Vec<(String, String)>),
    UpdateMatch(Vec<(String, String)>, Vec<(String, String)>),
}

impl Call {
    /// Whether this is what a request becomes.
    pub open spec fn carries_out(self, d: DView) -> bool {
        match d {
            DView::WindowOpened => self is AddWindow,
            DView::WindowClosed => self is TakeWindow,
            DView::Enable => self is Enable,
            DView::Disable => self is Disable,
            DView::ChangeOutput(s) => self matches Call::ChangeOutput(t) && t@ == s,
            DView::SettingsUpdate(s) => self matches Call::UpdateConfig(h) && entries(h@)
                == settings_entries(s),
            DView::MatchAdd(m) => self matches Call::AddMatch(h) && entries(h@)
                == match_text_entries(m),
            DView::MatchDelete(m) => self matches Call::DeleteMatch(h) && entries(h@)
                == match_text_entries(m),
            DView::MatchUpdate(f, t) => self matches Call::UpdateMatch(a, b) && entries(a@)
                == match_text_entries(f) && entries(b@) == match_text_entries(t),
        }
    }

    /// What a request becomes.
    pub fn of(d: D) -> (r: Call)
        ensures
            r.carries_out(d@),
    {
        match d {
            D::WindowOpened => Call::AddWindow,
            D::WindowClosed => Call::TakeWindow,
            D::Enable => Call::Enable,
            D::Disable => Call::Disable,
            D::ChangeOutput(s) => Call::ChangeOutput(s),
            D::SettingsUpdate(s) => Call::UpdateConfig(s.into_hashmap()),
            D::MatchAdd(m) => Call::AddMatch(m.to_hashmap()),
            D::MatchDelete(m) => Call::DeleteMatch(m.to_hashmap()),
            D::MatchUpdate(f, t) => Call::UpdateMatch(f.to_hashmap(), t.to_hashmap()),
        }
    }

    /// Whether a refusal by the service is shown: not for switching on and off,
    /// and a count of windows asks nothing of the service.
    pub fn reports_refusal(&self) -> (r: bool)
        ensures
            r == !(self is AddWindow || self is TakeWindow || self is Enable || self is Disable),
    {
        match self {
            Call::AddWindow | Call::TakeWindow | Call::Enable | Call::Disable => false,
            _ => true,
        }
    }

    /// Whether a request is carried out while the service is not there: only the
    /// count of windows is kept, anything else is dropped.
    pub fn works_offline(&self) -> (r: bool)
        ensures
            r == (self is AddWindow || self is TakeWindow),
    {
        match self {
            Call::AddWindow | Call::TakeWindow => true,
            _ => false,
        }
    }
}

/// A property of the service that the window shows.
#[derive(Clone, Copy, Debug, PartialEq, Eq, Structural)]
pub enum Property {
    Attached,
    Matches,
    Config,
}

impl Property {
    /// The name of a property.
    pub open spec fn spelling(self) -> Seq<char> {
        match self {
            Property::Attached => "Attached"@,
            Property::Matches => "Matches"@,
            Property::Config => "Config"@,
        }
    }

    /// The property of a name, if the window shows it.
    pub fn of_name(name: &str) -> (r: Option<Property>)
        ensures
            match r {
                Some(p) => name@ == p.spelling(),
                None => forall|p: Property| name@ != #[trigger] p.spelling(),
            },
    {
        if same_text(name, "Attached") {
            Some(Property::Attached)
        } else if same_text(name, "Matches") {
            Some(Property::Matches)
        } else if same_text(name, "Config") {
            Some(Property::Config)
        } else {
            None
        }
    }
}

/// The lines of a text that are not empty, the last of them being `line`, which
/// is not at its end yet.
pub open spec fn lines(s: Seq<char>) -> (Seq<Seq<char>>, Seq<char>)
    decreases s.len(),
{
    if s.len() == 0 {
        (Seq::empty(), Seq::empty())
    } else {
        let (done, line) = lines(s.drop_last());
        if s.last() != '\n' {
            (done, line.push(s.last()))
        } else if line.len() > 0 {
            (done.push(line), Seq::empty())
        } else {
            (done, Seq::empty())
        }
    }
}

/// Whether a line that is not empty stands in a text.
pub open spec fn has_line(s: Seq<char>, line: Seq<char>) -> bool {
    line.len() > 0 && (lines(s).0.contains(line) || lines(s).1 == line)
}

/// Whether one of the records gives a name.
pub open spec fn has_record(records: Seq<Vec<(String, String)>>, name: Seq<char>) -> bool {
    exists|i: int, j: int|
        0 <= i < records.len() && 0 <= j < records[i]@.len() && (
        #[trigger] records[i]@[j]).0@ == "name"@ && records[i]@[j].1@ == name
}

/// Whether no name occurs twice.
pub open spec fn distinct_names(v: Seq<String>) -> bool {
    forall|i: int, j: int| 0 <= i < j < v.len() ==> (#[trigger] v[i])@ != (#[trigger] v[j])@
}

/// Adds a name, unless it is there.
fn add_name(v: &mut Vec<String>, s: &str)
    requires
        distinct_names(old(v)@),
    ensures
        distinct_names(final(v)@),
        forall|t: Seq<char>| #[trigger] among(final(v)@, t) <==> among(old(v)@, t) || t == s@,
{
    let ghost before = v@;
    let mut i: usize = 0;
    while i < v.len()
        invariant
            v@ == before,
            distinct_names(before),
            i <= v@.len(),
            forall|j: int| 0 <= j < i ==> #[trigger] v@[j]@ != s@,
        decreases v.len() - i,
    {
        if same_text(v[i].as_str(), s) {
            assert(before[i as int]@ == s@);
            return;
        }
        i += 1;
    }
    v.push(s.to_owned());
    proof {
        assert forall|t: Seq<char>| #[trigger] among(v@, t) <==> among(before, t) || t == s@ by {
            if among(before, t) {
                let k = choose|k: int| 0 <= k < before.len() && #[trigger] before[k]@ == t;
                assert(v@[k]@ == t);
            }
            if t == s@ {
                assert(v@[before.len() as int]@ == t);
            }
            if among(v@, t) {
                let k = choose|k: int| 0 <= k < v@.len() && #[trigger] v@[k]@ == t;
                if k < before.len() {
                    assert(before[k]@ == t);
                }
            }
        }
    }
}

/// Adds the lines of a text that are not empty.
fn add_lines(v: &mut Vec<String>, s: &str)
    requires
        distinct_names(old(v)@),
    ensures
        distinct_names(final(v)@),
        forall|t: Seq<char>| #[trigger]
            among(final(v)@, t) <==> among(old(v)@, t) || has_line(s@, t),
{
    let ghost before = v@;
    let cs = chars_of(s);
    let mut from: usize = 0;
    let mut i: usize = 0;
    assert(s@.subrange(0, 0) == Seq::<char>::empty());
    while i < cs.len()
        invariant
            cs@ == s@,
            from <= i <= cs@.len(),
            distinct_names(v@),
            lines(s@.take(i as int)).1 == s@.subrange(from as int, i as int),
            forall|t: Seq<char>| #[trigger]
                among(v@, t) <==> among(before, t) || lines(s@.take(i as int)).0.contains(t),
            !lines(s@.take(i as int)).0.contains(Seq::empty()),
        decreases cs.len() - i,
    {
        let ghost now = s@.take(i + 1);
        let ghost done = lines(s@.take(i as int)).0;
        let ghost line = lines(s@.take(i as int)).1;
        assert(now.drop_last() == s@.take(i as int));
        assert(now.last() == s@[i as int]);
        if cs[i] == '\n' {
            if from < i {
                let l = text_of_range(&cs, from, i);
                add_name(v, l.as_str());
                proof {
                    assert forall|t: Seq<char>| #[trigger]
                        done.push(line).contains(t) <==> done.contains(t) || t == line by {
                        contains_pushed(done, line, t);
                    }
                }
            }
            from = i + 1;
            assert(s@.subrange(i + 1, i + 1) == Seq::<char>::empty());
        } else {
            assert(line.push(s@[i as int]) =~= s@.subrange(from as int, i + 1));
        }
        i += 1;
    }
    assert(s@.take(s@.len() as int) == s@);
    if from < cs.len() {
        let l = text_of_range(&cs, from, cs.len());
        add_name(v, l.as_str());
    }
    proof {
        assert forall|t: Seq<char>| #[trigger]
            among(v@, t) <==> among(before, t) || has_line(s@, t) by {
            if t.len() == 0 {
                assert(t =~= Seq::empty());
            }
        }
    }
}

/// A sequence with one more item holds that item and those before.
proof fn contains_pushed(s: Seq<Seq<char>>, x: Seq<char>, t: Seq<char>)
    ensures
        s.push(x).contains(t) <==> s.contains(t) || t == x,
{
    let p = s.push(x);
    if s.contains(t) {
        let k = choose|k: int| 0 <= k < s.len() && s[k] == t;
        assert(p[k] == t);
    }
    if t == x {
        assert(p[s.len() as int] == t);
    }
    if p.contains(t) {
        let k = choose|k: int| 0 <= k < p.len() && p[k] == t;
        if k < s.len() {
            assert(s[k] == t);
        }
    }
}

/// The active domain names and programs: the names of the records, and the lines
/// that list programs.
pub fn active_names(records: &Vec<Vec<(String, String)>>, programs: &str) -> (r: Vec<String>)
    ensures
        distinct_names(r@),
        forall|t: Seq<char>| #[trigger]
            among(r@, t) <==> has_record(records@, t) || has_line(programs@, t),
{
    let mut r: Vec<String> = Vec::new();
    let mut i: usize = 0;
    while i < records.len()
        invariant
            i <= records@.len(),
            distinct_names(r@),
            forall|t: Seq<char>| #[trigger]
                among(r@, t) <==> has_record(records@.take(i as int), t),
        decreases records.len() - i,
    {
        let h = &records[i];
        let ghost before = r@;
        let mut k: usize = 0;
        while k < h.len()
            invariant
                k <= h@.len(),
                distinct_names(r@),
                forall|t: Seq<char>| #[trigger]
                    among(r@, t) <==> among(before, t) || exists|j: int|
                        0 <= j < k && (#[trigger] h@[j]).0@ == "name"@ && h@[j].1@ == t,
            decreases h.len() - k,
        {
            if same_text(h[k].0.as_str(), "name") {
                add_name(&mut r, h[k].1.as_str());
            }
            k += 1;
        }
        proof {
            let was = records@.take(i as int);
            let now = records@.take(i + 1);
            assert forall|t: Seq<char>| #[trigger] among(r@, t) <==> has_record(now, t) by {
                if has_record(was, t) {
                    let (a, b) = choose|a: int, b: int|
                        0 <= a < was.len() && 0 <= b < was[a]@.len() && (
                        #[trigger] was[a]@[b]).0@ == "name"@ && was[a]@[b].1@ == t;
                    assert(now[a]@[b].0@ == "name"@);
                }
                if exists|j: int|
                    0 <= j < h@.len() && (#[trigger] h@[j]).0@ == "name"@ && h@[j].1@ == t {
                    let j = choose|j: int|
                        0 <= j < h@.len() && (#[trigger] h@[j]).0@ == "name"@ && h@[j].1@ == t;
                    assert(now[i as int]@[j].0@ == "name"@);
                }
                if has_record(now, t) {
                    let (a, b) = choose|a: int, b: int|
                        0 <= a < now.len() && 0 <= b < now[a]@.len() && (
                        #[trigger] now[a]@[b]).0@ == "name"@ && now[a]@[b].1@ == t;
                    if a < i {
                        assert(was[a]@[b].0@ == "name"@);
                    } else {
                        assert(h@[b].0@ == "name"@);
                    }
                }
            }
        }
        i += 1;
    }
    assert(records@.take(records@.len() as int) == records@);
    add_lines(&mut r, programs);
    r
}

/// What the link to the service has told already.
#[derive(Clone, Copy, Debug, PartialEq, Eq, Structural)]
pub struct Link {
    pub err_sent: bool,
}

/// What follows when the service was asked whether it is there.
#[derive(Clone, Copy, Debug, PartialEq, Eq, Structural)]
pub enum Probed {
    /// Tell that it cannot be reached, then wait until its owner changes.
    TellAndWait,
    /// Wait until its owner changes.
    Wait,
    /// Tell that it is there, and listen.
    Listen,
}

impl Link {
    /// A link that has told nothing.
    pub fn new() -> (r: Link)
        ensures
            !r.err_sent,
    {
        Link { err_sent: false }
    }

    /// Takes note of whether the service answered. That it does not is told once,
    /// until it answers again.
    pub fn probed(&mut self, answered: bool) -> (r: Probed)
        ensures
            final(self).err_sent == !answered,
            r == (if answered {
                Probed::Listen
            } else if old(self).err_sent {
                Probed::Wait
            } else {
                Probed::TellAndWait
            }),
    {
        if !answered {
            if self.err_sent {
                return Probed::Wait;
            }
            self.err_sent = true;
            return Probed::TellAndWait;
        }
        self.err_sent = false;
        Probed::Listen
    }
}

/// Each request of the window becomes the call that it names, with what it gives.
pub proof fn requests_are_carried_out(c: Call)
    ensures
        c.carries_out(DView::WindowOpened) <==> c is AddWindow,
        c.carries_out(DView::WindowClosed) <==> c is TakeWindow,
        c.carries_out(DView::Enable) <==> c is Enable,
        c.carries_out(DView::Disable) <==> c is Disable,
        forall|s: Seq<char>| #[trigger]
            c.carries_out(DView::ChangeOutput(s)) ==> c is ChangeOutput && c->ChangeOutput_0@ == s,
        forall|s: SettingsView| #[trigger]
            c.carries_out(DView::SettingsUpdate(s)) ==> c is UpdateConfig && entries(
                c->UpdateConfig_0@,
            ) == settings_entries(s),
        forall|m: MatchText| #[trigger]
            c.carries_out(DView::MatchAdd(m)) ==> c is AddMatch && entries(c->AddMatch_0@)
                == match_text_entries(m),
        forall|m: MatchText| #[trigger]
            c.carries_out(DView::MatchDelete(m)) ==> c is DeleteMatch && entries(c->DeleteMatch_0@)
                == match_text_entries(m),
        forall|f: MatchText, t: MatchText| #[trigger]
            c.carries_out(DView::MatchUpdate(f, t)) ==> c is UpdateMatch && entries(
                c->UpdateMatch_0@,
            ) == match_text_entries(f) && entries(c->UpdateMatch_1@) == match_text_entries(t),
{
}

} // verus!
