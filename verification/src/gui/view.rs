//! What the window shows.

use crate::addr::parse_ipv4;
use crate::config::address_of;
use crate::gui::laws::programs_are_known;
use crate::gui::message::picks_some;
use crate::gui::procs::counted;
use crate::gui::state::{pick_of, ErrorsView, Pick, RowView, State, StateView};
use crate::gui::update::draft;
use crate::kinds::Direction;
use crate::text::{decimal, decimal_text, same_text, texts_of};
use vstd::prelude::*;
use vstd::string::StringExecFns;

verus! {

/// The order in which names are offered for a text, the best first.
pub uninterp spec fn best_first(s: Seq<char>, names: Seq<Seq<char>>) -> Seq<Seq<char>>;

/// The character at a place in a text, a space where there is none.
pub open spec fn char_or_space(s: Seq<char>, i: int) -> char {
    if 0 <= i < s.len() {
        s[i]
    } else {
        ' '
    }
}

/// The character at a place in a text and the two before it.
pub open spec fn trigram(s: Seq<char>, i: int) -> (char, char, char) {
    (char_or_space(s, i - 2), char_or_space(s, i - 1), char_or_space(s, i))
}

/// Whether three characters follow each other in a name, spaces being around it.
pub open spec fn has_trigram(name: Seq<char>, t: (char, char, char)) -> bool {
    exists|j: int| 0 <= j <= name.len() && #[trigger] trigram(name, j) == t
}

/// How many of the trigrams of a text a name has too, among the first `n`.
pub open spec fn shared(s: Seq<char>, name: Seq<char>, n: nat) -> nat
    decreases n,
{
    if n == 0 {
        0
    } else if has_trigram(name, trigram(s, n - 1)) {
        shared(s, name, (n - 1) as nat) + 1
    } else {
        shared(s, name, (n - 1) as nat)
    }
}

/// How much a name has in common with a text.
pub open spec fn likeness(s: Seq<char>, name: Seq<char>) -> nat {
    shared(s, name, s.len() + 1)
}

/// Whether no name has more in common with a text than one before it.
pub open spec fn best_come_first(s: Seq<char>, names: Seq<Seq<char>>) -> bool {
    forall|i: int, j: int|
        0 <= i < j < names.len() ==> likeness(s, #[trigger] names[j]) <= likeness(
            s,
            #[trigger] names[i],
        )
}

/// The longest text for which scores keep likenesses apart.
pub const LONGEST: usize = 0x10_0000;

/// `rust_fuzzy_search::fuzzy_search_sorted`, without the scores: the names, each
/// as often as it was there, in an order that depends on the text and the names
/// alone. Names come by falling score, the share of the trigrams of the text that
/// they have. The scores are of single precision, so that of texts beyond
/// `LONGEST` only the other two facts are stated.
#[verifier::external_body]
fn search(s: &str, names: &Vec<String>) -> (r: Vec<String>)
    ensures
        texts_of(r@) == best_first(s@, texts_of(names@)),
        texts_of(r@).to_multiset() == texts_of(names@).to_multiset(),
        s@.len() <= LONGEST ==> best_come_first(s@, texts_of(r@)),
{
    let list: Vec<&str> = names.iter().map(|n| n.as_str()).collect();
    let found = rust_fuzzy_search::fuzzy_search_sorted(s, &list);
    found.into_iter().map(|(n, _)| n.to_owned()).collect()
}

/// Whether something is shown over the window.
pub open spec fn is_covered(s: StateView) -> bool {
    s.errors.modal is Some || s.panel.show_settings
}

/// What is offered while the output is typed in: the devices, the best first, or
/// that there are none. Nothing is offered otherwise.
pub open spec fn devices_offered(s: StateView, devices: Seq<Seq<char>>) -> Option<Seq<Seq<char>>> {
    if s.output_dev.popup_focus || s.output_dev.input_focus {
        Some(best_first(s.output_dev.input, devices))
    } else {
        None
    }
}

/// The label of a program.
pub open spec fn program_label(e: (Seq<char>, u32)) -> Seq<char> {
    e.0 + " ("@ + decimal(e.1 as nat) + ")"@
}

/// The programs that are offered.
pub struct OfferView {
    pub labels: Seq<Seq<char>>,
    pub more: bool,
}

/// The programs that are offered while a match is typed in, and whether there may
/// be more. Nothing is offered otherwise.
pub open spec fn programs_offered(s: StateView) -> Option<OfferView> {
    if (s.proc.popup_focus || s.proc.input_focus) && s.proc.input.len() > 0 {
        let all = s.proc.procs_all->0;
        Some(
            OfferView {
                labels: all.map_values(|e: (Seq<char>, u32)| program_label(e)),
                more: all.len() > 0 && s.proc.procs_all_max == all.len(),
            },
        )
    } else {
        None
    }
}

/// The direction that a text names, and redirecting where it names none.
pub open spec fn shown_direction(d: Seq<char>) -> Direction {
    if d == "bypass"@ {
        Direction::bypass
    } else {
        Direction::redirect
    }
}

/// How a match is shown.
pub struct LineView {
    pub kind: Pick,
    pub direction: Direction,
    pub pattern: Seq<char>,
    pub active: bool,
}

/// How a match is shown: as it is being changed, and as active where the service
/// knows it to be, unless the window is covered or a match is typed in.
pub open spec fn line_of(s: StateView, r: RowView) -> LineView {
    let m = draft(r);
    LineView {
        kind: pick_of(m.kind),
        direction: shown_direction(m.direction),
        pattern: m.pattern,
        active: !is_covered(s) && s.proc.input.len() == 0 && picks_some(
            r.m,
            s.list.procs_active,
        ),
    }
}

/// The line that says how things are, and whether it is a warning.
pub open spec fn status_line(s: StateView) -> (Seq<char>, bool) {
    match s.errors.dbus_conn_err {
        Some(e) => if e.service_unknown {
            ("Service not started"@, true)
        } else {
            (e.text, true)
        },
        None => if s.attached.blocker.len() > 0 {
            (s.attached.blocker, true)
        } else if !s.attached.attached {
            ("Not connected"@, true)
        } else if s.attached.enabled {
            ("Status: Enabled"@, false)
        } else {
            ("Status: Disabled"@, false)
        },
    }
}

/// What the button for switching does.
#[derive(Clone, Copy, Debug, PartialEq, Eq, Structural)]
pub enum Switch {
    /// It would switch on, but cannot be pressed.
    Idle,
    Enable,
    Disable,
}

/// What the button for switching does.
pub open spec fn switch_of(s: StateView) -> Switch {
    if !s.attached.attached {
        Switch::Idle
    } else if !s.attached.enabled {
        Switch::Enable
    } else {
        Switch::Disable
    }
}

/// What is shown over the window.
#[derive(Clone, Copy, Debug, PartialEq, Eq, Structural)]
pub enum Cover {
    Nothing,
    Error,
    Settings,
}

/// What is shown over the window: an error comes first.
pub open spec fn cover_of(s: StateView) -> Cover {
    if s.errors.modal is Some {
        Cover::Error
    } else if s.panel.show_settings {
        Cover::Settings
    } else {
        Cover::Nothing
    }
}

/// How many errors there are, unless there is one.
pub open spec fn count_of(e: ErrorsView) -> Seq<char> {
    if e.dbus_errs.len() != 1 {
        "1 / "@ + decimal(e.dbus_errs.len())
    } else {
        Seq::empty()
    }
}

/// The programs that are offered.
#[derive(Debug)]
pub struct Offer {
    pub labels: Vec<String>,
    pub more: bool,
}

/// How a match is shown.
#[derive(Debug)]
pub struct Line {
    pub kind: Pick,
    pub direction: Direction,
    pub pattern: String,
    pub active: bool,
}

impl View for Offer {
    type V = OfferView;

    open spec fn view(&self) -> OfferView {
        OfferView { labels: texts_of(self.labels@), more: self.more }
    }
}

impl View for Line {
    type V = LineView;

    open spec fn view(&self) -> LineView {
        LineView {
            kind: self.kind,
            direction: self.direction,
            pattern: self.pattern@,
            active: self.active,
        }
    }
}

/// What the window shows.
#[derive(Debug)]
pub struct Screen {
    /// Whether the output that is typed in is a device.
    pub output_found: bool,
    pub devices: Option<Vec<String>>,
    pub programs: Option<Offer>,
    pub lines: Vec<Line>,
    pub status: String,
    pub warning: bool,
    pub switch: Switch,
    /// Whether the error of the connection can be asked for.
    pub status_clickable: bool,
    pub cover: Cover,
    pub error_count: String,
    /// Whether the address for DNS in the settings is one.
    pub dns_ip_ok: bool,
}

/// Whether an address reads as one.
pub open spec fn is_address(v: Seq<char>) -> bool {
    address_of(v) is Some
}

/// How each match is shown.
pub open spec fn lines_of(v: Seq<Line>) -> Seq<LineView> {
    v.map_values(|l: Line| l@)
}

/// The label of a direction.
pub fn direction_letter(d: Direction) -> (r: &'static str)
    ensures
        r@ == (match d {
            Direction::redirect => "R"@,
            Direction::bypass => "B"@,
        }),
{
    match d {
        Direction::redirect => "R",
        Direction::bypass => "B",
    }
}

/// Whether a name is among names.
fn is_among(names: &Vec<String>, s: &String) -> (r: bool)
    ensures
        r == texts_of(names@).contains(s@),
{
    let ghost all = texts_of(names@);
    let mut i: usize = 0;
    while i < names.len()
        invariant
            all == texts_of(names@),
            i <= names@.len(),
            forall|j: int| 0 <= j < i ==> #[trigger] all[j] != s@,
        decreases names.len() - i,
    {
        if same_text(names[i].as_str(), s.as_str()) {
            assert(all[i as int] == s@);
            return true;
        }
        i += 1;
    }
    false
}

/// The devices that are offered.
fn offer_devices(s: &State, devices: &Vec<String>) -> (r: Option<Vec<String>>)
    ensures
        match r {
            Some(v) => devices_offered(s@, texts_of(devices@)) == Some(texts_of(v@)),
            None => devices_offered(s@, texts_of(devices@)) is None,
        },
        r matches Some(v) ==> texts_of(v@).to_multiset() == texts_of(devices@).to_multiset(),
        r matches Some(v) ==> (s@.output_dev.input.len() <= LONGEST ==> best_come_first(
            s@.output_dev.input,
            texts_of(v@),
        )),
{
    if s.output_dev.popup_focus || s.output_dev.input_focus {
        Some(search(s.output_dev.input.as_str(), devices))
    } else {
        None
    }
}

/// The programs that are offered.
fn offer_programs(s: &State) -> (r: Option<Offer>)
    requires
        programs_are_known(s@),
    ensures
        match r {
            Some(o) => programs_offered(s@) == Some(o@),
            None => programs_offered(s@) is None,
        },
{
    if !((s.proc.popup_focus || s.proc.input_focus) && !s.proc.input.as_str().is_empty()) {
        return None;
    }
    let ghost all = s@.proc.procs_all->0;
    let mut labels: Vec<String> = Vec::new();
    match &s.proc.procs_all {
        Some(v) => {
            let mut i: usize = 0;
            while i < v.len()
                invariant
                    all == counted(v@),
                    i <= v@.len(),
                    texts_of(labels@) == all.map_values(
                        |e: (Seq<char>, u32)| program_label(e),
                    ).take(i as int),
                decreases v.len() - i,
            {
                let ghost before = labels@;
                let label = v[i].0.clone().concat(" (").concat(
                    decimal_text(v[i].1 as u64).as_str(),
                ).concat(")");
                assert(label@ == program_label(all[i as int]));
                labels.push(label);
                i += 1;
                assert(texts_of(labels@) =~= texts_of(before).push(label@));
                assert(texts_of(labels@) =~= all.map_values(
                    |e: (Seq<char>, u32)| program_label(e),
                ).take(i as int));
            }
            assert(texts_of(labels@) =~= all.map_values(|e: (Seq<char>, u32)| program_label(e)));
            Some(Offer { labels, more: v.len() > 0 && s.proc.procs_all_max == v.len() })
        },
        None => None,
    }
}

/// How the matches are shown.
fn show_lines(s: &State) -> (r: Vec<Line>)
    ensures
        lines_of(r@) == s@.list.matches.map_values(|m: RowView| line_of(s@, m)),
{
    let ghost all = s@.list.matches.map_values(|m: RowView| line_of(s@, m));
    let quiet = s.errors.modal.is_some() || s.panel.show_settings
        || !s.proc.input.as_str().is_empty();
    let mut r: Vec<Line> = Vec::new();
    let mut i: usize = 0;
    while i < s.list.matches.len()
        invariant
            all == s@.list.matches.map_values(|m: RowView| line_of(s@, m)),
            quiet == (is_covered(s@) || s@.proc.input.len() > 0),
            i <= s.list.matches@.len(),
            lines_of(r@) == all.take(i as int),
        decreases s.list.matches.len() - i,
    {
        let ghost before = r@;
        let row = &s.list.matches[i];
        let m = row.draft_of();
        let direction = if same_text(m.direction.as_str(), "bypass") {
            Direction::bypass
        } else {
            Direction::redirect
        };
        let line = Line {
            kind: Pick::kind_or_unk(m.kind.as_str()),
            direction,
            pattern: m.pattern,
            active: !quiet && row.m.is_in(&s.list.procs_active),
        };
        assert(s@.list.matches[i as int] == row@);
        assert(line@ == line_of(s@, row@));
        r.push(line);
        i += 1;
        assert(lines_of(r@) =~= lines_of(before).push(line@));
        assert(lines_of(r@) =~= all.take(i as int));
    }
    assert(lines_of(r@) =~= all);
    r
}

/// The line that says how things are.
fn show_status(s: &State) -> (r: (String, bool))
    ensures
        (r.0@, r.1) == status_line(s@),
{
    match &s.errors.dbus_conn_err {
        Some(e) => if e.service_unknown {
            ("Service not started".to_owned(), true)
        } else {
            (e.text.clone(), true)
        },
        None => if !s.attached.blocker.as_str().is_empty() {
            (s.attached.blocker.clone(), true)
        } else if !s.attached.attached {
            ("Not connected".to_owned(), true)
        } else if s.attached.enabled {
            ("Status: Enabled".to_owned(), false)
        } else {
            ("Status: Disabled".to_owned(), false)
        },
    }
}

/// What the window shows, where these devices are there.
pub fn view(s: &State, devices: &Vec<String>) -> (r: Screen)
    requires
        programs_are_known(s@),
    ensures
        r.output_found == texts_of(devices@).contains(s@.output_dev.input),
        match r.devices {
            Some(v) => devices_offered(s@, texts_of(devices@)) == Some(texts_of(v@)),
            None => devices_offered(s@, texts_of(devices@)) is None,
        },
        r.devices matches Some(v) ==> texts_of(v@).to_multiset() == texts_of(
            devices@,
        ).to_multiset(),
        r.devices matches Some(v) ==> (s@.output_dev.input.len() <= LONGEST ==> best_come_first(
            s@.output_dev.input,
            texts_of(v@),
        )),
        match r.programs {
            Some(o) => programs_offered(s@) == Some(o@),
            None => programs_offered(s@) is None,
        },
        lines_of(r.lines@) == s@.list.matches.map_values(|m: RowView| line_of(s@, m)),
        (r.status@, r.warning) == status_line(s@),
        r.switch == switch_of(s@),
        r.status_clickable == (s@.errors.dbus_conn_err is Some && s@.errors.modal is None),
        r.cover == cover_of(s@),
        r.error_count@ == count_of(s@.errors),
        r.dns_ip_ok == is_address(s@.panel.settings.spoof_dns_ipv4),
{
    let (status, warning) = show_status(s);
    let dns_ip_ok = match parse_ipv4(s.panel.settings.spoof_dns_ipv4.as_str()) {
        Some(_) => true,
        None => false,
    };
    let n: usize = s.errors.dbus_errs.len();
    let error_count = if n != 1 {
        "1 / ".to_owned().concat(decimal_text(n as u64).as_str())
    } else {
        String::new()
    };
    assert(error_count@ =~= count_of(s@.errors));
    Screen {
        output_found: is_among(devices, &s.output_dev.input),
        devices: offer_devices(s, devices),
        programs: offer_programs(s),
        lines: show_lines(s),
        status,
        warning,
        switch: if !s.attached.attached {
            Switch::Idle
        } else if !s.attached.enabled {
            Switch::Enable
        } else {
            Switch::Disable
        },
        status_clickable: s.errors.dbus_conn_err.is_some() && s.errors.modal.is_none(),
        cover: if s.errors.modal.is_some() {
            Cover::Error
        } else if s.panel.show_settings {
            Cover::Settings
        } else {
            Cover::Nothing
        },
        error_count,
        dns_ip_ok,
    }
}

} // verus!
