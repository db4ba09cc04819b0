//! How the window answers to what happens.

use crate::gui::message::{
    empty_attached, empty_match, Attached, AttachedView, DView, Match, MatchText, Settings,
    SettingsView, Tray, TrayState, TrayTheme, D,
};
use crate::gui::procs::{
    counted, listing, listing_is_unique, procs_all_with, tally, Filter, FilterView, ProcEntry,
};
use crate::gui::state::{
    effect_views, error_views, row_views, DbusError, Effect, EffectView, ErrorView, Errors,
    ErrorsView, ListView, MatchList, OutputDev, OutputView, Panel, PanelView, Pick, ProcInput,
    ProcView, Row, RowView, Shell, State, StateView, TrayView, M, OFFERED,
};
use crate::kinds::Direction;
use crate::text::{base_name, base_name_of, same_text, texts_of};
use vstd::prelude::*;

verus! {

/// The settings are sent where they are not those of the service.
pub open spec fn settings_submitted(p: PanelView) -> Seq<EffectView> {
    if p.settings != p.settings_override {
        seq![EffectView::Send(DView::SettingsUpdate(p.settings))]
    } else {
        seq![]
    }
}

/// The settings after something happened to them, and what is to be done.
pub open spec fn panel_updated(p: PanelView, message: M) -> (PanelView, Seq<EffectView>) {
    match message {
        M::SettingsOpen => (PanelView { show_settings: true, ..p }, seq![]),
        M::SettingsClose => {
            let q = PanelView { show_settings: false, ..p };
            (q, settings_submitted(q))
        },
        M::SettingsLan(n) => {
            let q = PanelView { settings: SettingsView { allow_lan: n, ..p.settings }, ..p };
            (q, settings_submitted(q))
        },
        M::SettingsDns(n) => {
            let q = PanelView { settings: SettingsView { spoof_dns: n, ..p.settings }, ..p };
            (q, settings_submitted(q))
        },
        M::SettingsDnsIp(n) => (
            PanelView { settings: SettingsView { spoof_dns_ipv4: n@, ..p.settings }, ..p },
            seq![],
        ),
        M::SettingsDropEgressWithoutOutput(n) => {
            let q = PanelView {
                settings: SettingsView { drop_egress_without_output: n, ..p.settings },
                ..p
            };
            (q, settings_submitted(q))
        },
        M::SettingsDnsIpSubmit | M::SettingsSubmit => (p, settings_submitted(p)),
        M::Settings(n) => (PanelView { settings_override: n@, settings: n@, ..p }, seq![]),
        _ => (p, seq![]),
    }
}

/// The output is being typed in.
pub open spec fn output_typed(o: OutputView, n: Seq<char>, ifname: Seq<char>) -> OutputView {
    OutputView { input_sent: ifname == n, input: n, ..o }
}

/// The output that was typed in is sent, unless it was sent already or is that
/// of the service.
pub open spec fn output_submitted(o: OutputView, ifname: Seq<char>) -> (
    OutputView,
    Seq<EffectView>,
) {
    let left = OutputView { input_focus: false, popup_focus: false, ..o };
    if !o.input_sent && o.input != ifname {
        (
            OutputView { input_sent: true, ..left },
            seq![
                EffectView::Send(DView::ChangeOutput(o.input)),
                EffectView::UnfocusOutputDev,
            ],
        )
    } else {
        (left, seq![EffectView::UnfocusOutputDev])
    }
}

/// Where the output is typed in, after something happened there, and what is to
/// be done. `ifname` is the output of the service.
pub open spec fn output_updated(o: OutputView, ifname: Seq<char>, message: M) -> (
    OutputView,
    Seq<EffectView>,
) {
    match message {
        M::OutputDevClick => (OutputView { input_focus: true, ..o }, seq![]),
        M::OutputDevFocus => (
            OutputView { input_focus: o.input_focus || o.popup_focus, ..o },
            seq![],
        ),
        M::OutputDevUnfocus => if o.popup_focus {
            (OutputView { input_focus: false, ..o }, seq![])
        } else {
            output_submitted(o, ifname)
        },
        M::OutputDevPopupFocus => (OutputView { popup_focus: true, ..o }, seq![]),
        M::OutputDevPopupUnfocus => if o.input_focus {
            (OutputView { popup_focus: false, ..o }, seq![])
        } else {
            output_submitted(o, ifname)
        },
        M::OutputDevSetSubmit(n) => output_submitted(output_typed(o, n@, ifname), ifname),
        M::OutputDevSet(n) => (output_typed(o, n@, ifname), seq![]),
        M::OutputDevSubmit => output_submitted(o, ifname),
        _ => (o, seq![]),
    }
}

/// The match that is being typed in.
pub open spec fn typed_match(p: ProcView) -> MatchText {
    MatchText {
        pattern: p.input,
        kind: p.kind.spelling(),
        direction: p.dir.spelling(),
        ..empty_match()
    }
}

/// The programs that fit what is typed in are looked for.
pub open spec fn with_programs(p: ProcView, procs: Seq<ProcEntry>) -> ProcView {
    ProcView {
        procs_all: Some(
            listing(tally(procs, FilterView::Matching(typed_match(p)), OFFERED as nat)),
        ),
        procs_all_max: OFFERED,
        ..p
    }
}

/// A match is being typed in.
pub open spec fn program_typed(p: ProcView, n: Seq<char>, procs: Seq<ProcEntry>) -> ProcView {
    let typed = ProcView {
        input_sent: false,
        input: n,
        procs_all: None,
        kind: if p.kind_after_refine {
            Pick::Substring
        } else {
            p.kind
        },
        kind_after_refine: false,
        ..p
    };
    if n.len() > 0 {
        with_programs(typed, procs)
    } else {
        typed
    }
}

/// A program was picked.
pub open spec fn program_picked(p: ProcView, i: int, procs: Seq<ProcEntry>) -> ProcView {
    let picked = ProcView {
        kind: Pick::Basename,
        input: base_name(p.procs_all->0[i].0),
        kind_after_refine: true,
        ..p
    };
    ProcView { popup_focus: false, input_focus: false, ..with_programs(picked, procs) }
}

/// The other direction.
pub open spec fn turned(d: Direction) -> Direction {
    match d {
        Direction::redirect => Direction::bypass,
        Direction::bypass => Direction::redirect,
    }
}

/// Where a new match is typed in, after something happened there, and what is to
/// be done. `gen` is the current generation.
pub open spec fn proc_updated(p: ProcView, gen: u64, message: M, procs: Seq<ProcEntry>) -> (
    ProcView,
    Seq<EffectView>,
) {
    match message {
        M::MatchAdd => (
            ProcView { input_sent: true, ..p },
            seq![EffectView::Send(DView::MatchAdd(typed_match(p))), EffectView::UnfocusProc],
        ),
        M::MatchDir => (ProcView { dir: turned(p.dir), ..p }, seq![]),
        M::MatchFromProc(g, i) => if g == gen {
            (program_picked(p, i as int, procs), seq![])
        } else {
            (p, seq![])
        },
        M::Procs(n) => (program_typed(p, n@, procs), seq![]),
        M::Kind(n) => (ProcView { kind: n, kind_after_refine: false, ..p }, seq![]),
        M::ProcPopupFocus => (ProcView { popup_focus: true, ..p }, seq![]),
        M::ProcPopupUnfocus => (ProcView { popup_focus: false, ..p }, seq![]),
        M::MatchUnfocus => (
            ProcView { input_focus: false, ..p },
            seq![EffectView::UnfocusProc],
        ),
        M::MatchFocus => (ProcView { input_focus: true, ..p }, seq![]),
        _ => (p, seq![]),
    }
}

/// What a match is, or is being changed to.
pub open spec fn draft(r: RowView) -> MatchText {
    match r.edited {
        Some(e) => e,
        None => r.m,
    }
}

/// A match is being changed.
pub open spec fn match_edited(l: ListView, i: int, m: MatchText) -> ListView {
    ListView { matches: l.matches.update(i, RowView { edited: Some(m), ..l.matches[i] }), ..l }
}

/// The change of a match is sent, where it is one.
pub open spec fn match_submitted(l: ListView, i: usize) -> (ListView, Seq<EffectView>) {
    let row = l.matches[i as int];
    let done = ListView {
        matches: l.matches.update(i as int, RowView { edited: None, ..row }),
        ..l
    };
    if row.edited is Some && row.edited->0 != row.m {
        (
            done,
            seq![
                EffectView::Send(DView::MatchUpdate(row.m, row.edited->0)),
                EffectView::UnfocusMatch(i),
            ],
        )
    } else {
        (done, seq![EffectView::UnfocusMatch(i)])
    }
}

/// The other direction, and redirecting where the text names none.
pub open spec fn turned_text(d: Seq<char>) -> Seq<char> {
    if d == "redirect"@ {
        "bypass"@
    } else {
        "redirect"@
    }
}

/// The matches after something happened to them, and what is to be done. What is
/// about an earlier generation is passed over.
pub open spec fn list_updated(l: ListView, message: M) -> (ListView, Seq<EffectView>) {
    match message {
        M::MatchDelete(g, i) => if g == l.matches_gen {
            (l, seq![EffectView::Send(DView::MatchDelete(l.matches[i as int].m))])
        } else {
            (l, seq![])
        },
        M::MatchKind(g, i, k) => if g == l.matches_gen {
            let m = MatchText { kind: k.spelling(), ..draft(l.matches[i as int]) };
            match_submitted(match_edited(l, i as int, m), i)
        } else {
            (l, seq![])
        },
        M::MatchUpdate(g, i, n) => if g == l.matches_gen {
            let m = MatchText { pattern: n@, ..draft(l.matches[i as int]) };
            (match_edited(l, i as int, m), seq![])
        } else {
            (l, seq![])
        },
        M::MatchUpdateDir(g, i) => if g == l.matches_gen {
            let was = draft(l.matches[i as int]);
            let m = MatchText { direction: turned_text(was.direction), ..was };
            match_submitted(match_edited(l, i as int, m), i)
        } else {
            (l, seq![])
        },
        M::MatchSubmit(g, i) => if g == l.matches_gen {
            match_submitted(l, i)
        } else {
            (l, seq![])
        },
        M::ActiveProcs(n) => (
            ListView {
                procs_active: texts_of(n@),
                matches_gen: (l.matches_gen + 1) as u64,
                ..l
            },
            seq![],
        ),
        _ => (l, seq![]),
    }
}

/// The text of the first error.
pub open spec fn first_text(errs: Seq<ErrorView>) -> Option<Seq<char>> {
    if errs.len() > 0 {
        Some(errs[0].text)
    } else {
        None
    }
}

/// The first error is shown.
pub open spec fn error_shown(e: ErrorsView) -> (ErrorsView, Seq<EffectView>) {
    (
        ErrorsView { modal: first_text(e.dbus_errs), ..e },
        seq![EffectView::ModalText(first_text(e.dbus_errs))],
    )
}

/// The first error was looked at.
pub open spec fn error_dismissed(e: ErrorsView) -> (ErrorsView, Seq<EffectView>) {
    error_shown(
        ErrorsView {
            dbus_errs: if e.dbus_errs.len() > 0 {
                e.dbus_errs.drop_first()
            } else {
                e.dbus_errs
            },
            ..e
        },
    )
}

/// An error joins those to be shown.
pub open spec fn error_joined(e: ErrorsView, x: ErrorView) -> (ErrorsView, Seq<EffectView>) {
    let more = ErrorsView { dbus_errs: e.dbus_errs.push(x), ..e };
    if e.modal is None {
        error_shown(more)
    } else {
        (more, seq![])
    }
}

/// Matches without the changes that were not sent.
pub open spec fn unedited(rows: Seq<RowView>) -> Seq<RowView> {
    rows.map_values(|r: RowView| RowView { edited: None, ..r })
}

/// A request was refused: what was typed in is taken back, and the error joins
/// those to be shown.
pub open spec fn refused(s: StateView, x: ErrorView) -> (StateView, Seq<EffectView>) {
    let (errors, effects) = error_joined(s.errors, x);
    (
        StateView {
            panel: PanelView { settings: s.panel.settings_override, ..s.panel },
            output_dev: OutputView {
                input: s.attached.to_ifname,
                input_sent: true,
                ..s.output_dev
            },
            list: ListView { matches: unedited(s.list.matches), ..s.list },
            errors,
            ..s
        },
        effects,
    )
}

/// What the tray icon is told of the state of the service.
pub open spec fn tray_told(theme: TrayTheme, a: AttachedView) -> EffectView {
    EffectView::Tray(
        TrayView {
            state: if !a.attached {
                Tray::NotConnected
            } else if a.enabled {
                Tray::Enabled
            } else {
                Tray::Disabled
            },
            theme,
            blocker: a.blocker,
            output_dev: a.to_ifname,
        },
    )
}

/// The service cannot be reached: nothing of it is known.
pub open spec fn disconnected(s: StateView, x: ErrorView) -> (StateView, Seq<EffectView>) {
    (
        StateView {
            attached: empty_attached(),
            list: ListView {
                matches: Seq::empty(),
                matches_gen: (s.list.matches_gen + 1) as u64,
                ..s.list
            },
            errors: ErrorsView { dbus_conn_err: Some(x), ..s.errors },
            ..s
        },
        seq![tray_told(s.shell.tray_theme, empty_attached())],
    )
}

/// The window is closed, and with it the program where there is no tray icon.
pub open spec fn window_closed(s: Shell) -> (Shell, Seq<EffectView>) {
    (
        Shell { window: false, ..s },
        seq![
            EffectView::Send(DView::WindowClosed),
            if s.tray_up {
                EffectView::CloseWindow
            } else {
                EffectView::Exit
            },
        ],
    )
}

/// The window is opened.
pub open spec fn window_opened(s: Shell) -> (Shell, Seq<EffectView>) {
    (
        Shell { window: true, ..s },
        seq![EffectView::Send(DView::WindowOpened), EffectView::OpenWindow],
    )
}

/// The program after something happened to it, and what is to be done.
pub open spec fn shell_updated(s: Shell, message: M) -> (Shell, Seq<EffectView>) {
    match message {
        M::Exit => (s, seq![EffectView::Exit]),
        M::TrayUp => (Shell { tray_up: true, ..s }, seq![]),
        M::WindowToggle => if s.window {
            window_closed(s)
        } else {
            window_opened(s)
        },
        M::WindowCloseId => if s.window {
            window_closed(s)
        } else {
            (s, seq![])
        },
        M::WindowOpen => if !s.window {
            window_opened(s)
        } else {
            (s, seq![])
        },
        M::Enable => (s, seq![EffectView::Send(DView::Enable)]),
        M::Disable => (s, seq![EffectView::Send(DView::Disable)]),
        _ => (s, seq![]),
    }
}

/// Whether one of the matches has this pattern.
pub open spec fn has_pattern(ms: Seq<Match>, p: Seq<char>) -> bool {
    exists|i: int| 0 <= i < ms.len() && (#[trigger] ms[i]).pattern@ == p
}

/// Matches that are not being changed.
pub open spec fn plain_rows(ms: Seq<Match>) -> Seq<RowView> {
    ms.map_values(|m: Match| RowView { m: m@, edited: None })
}

/// The service told its matches. What was typed in is cleared where it has become
/// one of them.
pub open spec fn matches_told(s: StateView, ms: Seq<Match>) -> StateView {
    StateView {
        list: ListView {
            matches: plain_rows(ms),
            matches_gen: (s.list.matches_gen + 1) as u64,
            ..s.list
        },
        proc: if s.proc.input_sent && has_pattern(ms, s.proc.input) {
            ProcView { input_sent: false, input: Seq::empty(), ..s.proc }
        } else {
            s.proc
        },
        ..s
    }
}

/// Escape was pressed: an error was looked at, or the settings or the programs
/// that are offered are left.
pub open spec fn escaped(s: StateView) -> (StateView, Seq<EffectView>) {
    if s.errors.dbus_errs.len() > 0 {
        let (errors, effects) = error_dismissed(s.errors);
        (StateView { errors, ..s }, effects)
    } else if s.panel.show_settings {
        (StateView { panel: PanelView { show_settings: false, ..s.panel }, ..s }, seq![])
    } else if (s.proc.input_focus || s.proc.popup_focus) && s.proc.input.len() > 0 {
        (
            StateView {
                proc: ProcView { input_focus: false, popup_focus: false, ..s.proc },
                ..s
            },
            seq![],
        )
    } else {
        (s, seq![])
    }
}

/// The part of the window that something is about.
pub enum Part {
    Shell,
    Panel,
    OutputDev,
    Proc,
    List,
    Whole,
}

/// The part of the window that something is about.
pub open spec fn part_of(message: M) -> Part {
    match message {
        M::Exit | M::TrayUp | M::WindowToggle | M::WindowCloseId | M::WindowOpen | M::Enable
        | M::Disable => Part::Shell,
        M::SettingsOpen | M::SettingsClose | M::SettingsLan(_) | M::SettingsDns(_)
        | M::SettingsDnsIp(_) | M::SettingsDropEgressWithoutOutput(_) | M::SettingsDnsIpSubmit
        | M::SettingsSubmit | M::Settings(_) => Part::Panel,
        M::OutputDevClick | M::OutputDevFocus | M::OutputDevUnfocus | M::OutputDevPopupFocus
        | M::OutputDevPopupUnfocus | M::OutputDevSetSubmit(_) | M::OutputDevSet(_)
        | M::OutputDevSubmit => Part::OutputDev,
        M::MatchAdd | M::MatchDir | M::MatchFromProc(..) | M::Procs(_) | M::Kind(_)
        | M::ProcPopupFocus | M::ProcPopupUnfocus | M::MatchUnfocus | M::MatchFocus => Part::Proc,
        M::MatchDelete(..) | M::MatchKind(..) | M::MatchUpdate(..) | M::MatchUpdateDir(..)
        | M::MatchSubmit(..) | M::ActiveProcs(_) => Part::List,
        _ => Part::Whole,
    }
}

/// The state after something happened that is about the whole window, and what is
/// to be done.
pub open spec fn whole_updated(s: StateView, message: M) -> (StateView, Seq<EffectView>) {
    match message {
        M::Attached(n) => (
            StateView {
                attached: n@,
                output_dev: OutputView {
                    input: n@.to_ifname,
                    input_sent: true,
                    ..s.output_dev
                },
                ..s
            },
            seq![tray_told(s.shell.tray_theme, n@)],
        ),
        M::Stats(n) => (StateView { stats: n, ..s }, seq![]),
        M::Matches(n) => (matches_told(s, n@), seq![]),
        M::DbusConnected => (
            StateView { errors: ErrorsView { dbus_conn_err: None, ..s.errors }, ..s },
            seq![],
        ),
        M::DbusFail(x) => {
            let (mid, first) = refused(s, x@);
            let (end, second) = disconnected(mid, x@);
            (end, first + second)
        },
        M::DbusErr(x) => refused(s, x@),
        M::DbusCantConnect(x) => disconnected(s, x@),
        M::Esc => escaped(s),
        M::ModalNext => {
            let (errors, effects) = error_dismissed(s.errors);
            (StateView { errors, ..s }, effects)
        },
        M::ModalReplace => {
            let (errors, effects) = error_shown(s.errors);
            (StateView { errors, ..s }, effects)
        },
        M::StatusShow => match s.errors.dbus_conn_err {
            Some(x) => refused(s, x),
            None => (s, seq![]),
        },
        M::ModalEditAction(changes) => if !changes && s.errors.modal is Some {
            (s, seq![EffectView::ModalPerform])
        } else {
            (s, seq![])
        },
        _ => (s, seq![]),
    }
}

/// The state after something happened, and what is to be done.
pub open spec fn updated(s: StateView, message: M, procs: Seq<ProcEntry>) -> (
    StateView,
    Seq<EffectView>,
) {
    match part_of(message) {
        Part::Shell => {
            let (shell, effects) = shell_updated(s.shell, message);
            (StateView { shell, ..s }, effects)
        },
        Part::Panel => {
            let (panel, effects) = panel_updated(s.panel, message);
            (StateView { panel, ..s }, effects)
        },
        Part::OutputDev => {
            let (output_dev, effects) = output_updated(
                s.output_dev,
                s.attached.to_ifname,
                message,
            );
            (StateView { output_dev, ..s }, effects)
        },
        Part::Proc => {
            let (proc, effects) = proc_updated(s.proc, s.list.matches_gen, message, procs);
            (StateView { proc, ..s }, effects)
        },
        Part::List => {
            let (list, effects) = list_updated(s.list, message);
            (StateView { list, ..s }, effects)
        },
        Part::Whole => whole_updated(s, message),
    }
}

/// Whether what happened to a match of the current generation happened to one
/// that is there.
pub open spec fn match_is_there(l: ListView, message: M) -> bool {
    match message {
        M::MatchDelete(g, i) => g == l.matches_gen ==> i < l.matches.len(),
        M::MatchKind(g, i, _) => g == l.matches_gen ==> i < l.matches.len(),
        M::MatchUpdate(g, i, _) => g == l.matches_gen ==> i < l.matches.len(),
        M::MatchUpdateDir(g, i) => g == l.matches_gen ==> i < l.matches.len(),
        M::MatchSubmit(g, i) => g == l.matches_gen ==> i < l.matches.len(),
        _ => true,
    }
}

/// Whether the program that was picked in the current generation is one that was
/// offered.
pub open spec fn program_is_there(p: ProcView, gen: u64, message: M) -> bool {
    message matches M::MatchFromProc(g, i) ==> g == gen ==> p.procs_all is Some && i
        < p.procs_all->0.len()
}

/// Whether something begins another generation of matches.
pub open spec fn begins_generation(message: M) -> bool {
    message is Matches || message is ActiveProcs || message is DbusFail
        || message is DbusCantConnect
}

/// Whether there is another generation, where something begins one.
pub open spec fn has_generation(gen: u64, message: M) -> bool {
    begins_generation(message) ==> gen < u64::MAX
}

/// Whether something can be answered: what it is about is there, and there is
/// another generation where it begins one.
pub fn is_answerable(s: &State, message: &M) -> (r: bool)
    ensures
        r == (match_is_there(s@.list, *message) && program_is_there(
            s@.proc,
            s@.list.matches_gen,
            *message,
        ) && has_generation(s@.list.matches_gen, *message)),
{
    let current: u64 = s.list.matches_gen;
    match message {
        M::Matches(_) | M::ActiveProcs(_) | M::DbusFail(_) | M::DbusCantConnect(_) => current
            < u64::MAX,
        M::MatchDelete(g, i) => *g != current || *i < s.list.matches.len(),
        M::MatchKind(g, i, _) => *g != current || *i < s.list.matches.len(),
        M::MatchUpdate(g, i, _) => *g != current || *i < s.list.matches.len(),
        M::MatchUpdateDir(g, i) => *g != current || *i < s.list.matches.len(),
        M::MatchSubmit(g, i) => *g != current || *i < s.list.matches.len(),
        M::MatchFromProc(g, i) => *g != current || match &s.proc.procs_all {
            Some(v) => *i < v.len(),
            None => false,
        },
        _ => true,
    }
}

/// Adds something to be done.
fn put(out: &mut Vec<Effect>, e: Effect)
    ensures
        effect_views(final(out)@) == effect_views(old(out)@) + seq![e@],
{
    let ghost before = out@;
    out.push(e);
    assert(effect_views(out@) =~= effect_views(before) + seq![e@]);
}

/// Nothing more to be done.
proof fn nothing_more(e: Seq<EffectView>)
    ensures
        e + Seq::<EffectView>::empty() == e,
{
    assert(e + Seq::<EffectView>::empty() =~= e);
}

impl Shell {
    fn update(&mut self, message: &M, out: &mut Vec<Effect>)
        ensures
            *final(self) == shell_updated(*old(self), *message).0,
            effect_views(final(out)@) == effect_views(old(out)@) + shell_updated(
                *old(self),
                *message,
            ).1,
    {
        proof {
            nothing_more(effect_views(out@));
        }
        match message {
            M::Exit => put(out, Effect::Exit),
            M::TrayUp => {
                self.tray_up = true;
            },
            M::WindowToggle => if self.window {
                self.close(out);
            } else {
                self.open(out);
            },
            M::WindowCloseId => if self.window {
                self.close(out);
            },
            M::WindowOpen => if !self.window {
                self.open(out);
            },
            M::Enable => put(out, Effect::Send(D::Enable)),
            M::Disable => put(out, Effect::Send(D::Disable)),
            _ => {},
        }
    }

    fn close(&mut self, out: &mut Vec<Effect>)
        ensures
            *final(self) == window_closed(*old(self)).0,
            effect_views(final(out)@) == effect_views(old(out)@) + window_closed(*old(self)).1,
    {
        put(out, Effect::Send(D::WindowClosed));
        self.window = false;
        if self.tray_up {
            put(out, Effect::CloseWindow);
        } else {
            put(out, Effect::Exit);
        }
        assert(effect_views(out@) =~= effect_views(old(out)@) + window_closed(*old(self)).1);
    }

    fn open(&mut self, out: &mut Vec<Effect>)
        ensures
            *final(self) == window_opened(*old(self)).0,
            effect_views(final(out)@) == effect_views(old(out)@) + window_opened(*old(self)).1,
    {
        put(out, Effect::Send(D::WindowOpened));
        self.window = true;
        put(out, Effect::OpenWindow);
        assert(effect_views(out@) =~= effect_views(old(out)@) + window_opened(*old(self)).1);
    }
}

impl Panel {
    fn submit(&self, out: &mut Vec<Effect>)
        ensures
            effect_views(final(out)@) == effect_views(old(out)@) + settings_submitted(self@),
    {
        proof {
            nothing_more(effect_views(out@));
        }
        if !self.settings.same(&self.settings_override) {
            put(out, Effect::Send(D::SettingsUpdate(self.settings.clone())));
        }
    }

    fn update(&mut self, message: &M, out: &mut Vec<Effect>)
        ensures
            final(self)@ == panel_updated(old(self)@, *message).0,
            effect_views(final(out)@) == effect_views(old(out)@) + panel_updated(
                old(self)@,
                *message,
            ).1,
    {
        proof {
            nothing_more(effect_views(out@));
        }
        match message {
            M::SettingsOpen => {
                self.show_settings = true;
            },
            M::SettingsClose => {
                self.show_settings = false;
                self.submit(out);
            },
            M::SettingsLan(n) => {
                self.settings.allow_lan = *n;
                self.submit(out);
            },
            M::SettingsDns(n) => {
                self.settings.spoof_dns = *n;
                self.submit(out);
            },
            M::SettingsDnsIp(n) => {
                self.settings.spoof_dns_ipv4 = n.clone();
            },
            M::SettingsDropEgressWithoutOutput(n) => {
                self.settings.drop_egress_without_output = *n;
                self.submit(out);
            },
            M::SettingsDnsIpSubmit | M::SettingsSubmit => {
                self.submit(out);
            },
            M::Settings(n) => {
                self.settings_override = n.clone();
                self.settings = n.clone();
            },
            _ => {},
        }
    }
}

impl OutputDev {
    fn set(&mut self, n: &String, ifname: &String)
        ensures
            final(self)@ == output_typed(old(self)@, n@, ifname@),
    {
        self.input_sent = same_text(ifname.as_str(), n.as_str());
        self.input = n.clone();
    }

    fn submit(&mut self, ifname: &String, out: &mut Vec<Effect>)
        ensures
            final(self)@ == output_submitted(old(self)@, ifname@).0,
            effect_views(final(out)@) == effect_views(old(out)@) + output_submitted(
                old(self)@,
                ifname@,
            ).1,
    {
        self.input_focus = false;
        self.popup_focus = false;
        if !self.input_sent && !same_text(self.input.as_str(), ifname.as_str()) {
            self.input_sent = true;
            put(out, Effect::Send(D::ChangeOutput(self.input.clone())));
        }
        put(out, Effect::UnfocusOutputDev);
        assert(effect_views(out@) =~= effect_views(old(out)@) + output_submitted(
            old(self)@,
            ifname@,
        ).1);
    }

    fn update(&mut self, ifname: &String, message: &M, out: &mut Vec<Effect>)
        ensures
            final(self)@ == output_updated(old(self)@, ifname@, *message).0,
            effect_views(final(out)@) == effect_views(old(out)@) + output_updated(
                old(self)@,
                ifname@,
                *message,
            ).1,
    {
        proof {
            nothing_more(effect_views(out@));
        }
        match message {
            M::OutputDevClick => {
                self.input_focus = true;
            },
            M::OutputDevFocus => {
                self.input_focus = self.input_focus || self.popup_focus;
            },
            M::OutputDevUnfocus => if self.popup_focus {
                self.input_focus = false;
            } else {
                self.submit(ifname, out);
            },
            M::OutputDevPopupFocus => {
                self.popup_focus = true;
            },
            M::OutputDevPopupUnfocus => if self.input_focus {
                self.popup_focus = false;
            } else {
                self.submit(ifname, out);
            },
            M::OutputDevSetSubmit(n) => {
                self.set(n, ifname);
                self.submit(ifname, out);
            },
            M::OutputDevSet(n) => {
                self.set(n, ifname);
            },
            M::OutputDevSubmit => {
                self.submit(ifname, out);
            },
            _ => {},
        }
    }
}

impl ProcInput {
    /// The match that is being typed in.
    pub fn current_match(&self) -> (r: Match)
        ensures
            r@ == typed_match(self@),
    {
        Match {
            pattern: self.input.clone(),
            kind: self.kind.name().to_owned(),
            direction: self.dir.name().to_owned(),
            user: String::new(),
            uid: String::new(),
        }
    }

    /// Looks for the programs that fit what is typed in.
    pub fn refresh_procs_all(&mut self, procs: &Vec<ProcEntry>)
        requires
            procs@.len() <= u32::MAX,
        ensures
            final(self)@ == with_programs(old(self)@, procs@),
    {
        let filter = Filter::Matching(self.current_match());
        let found = procs_all_with(procs, &filter, OFFERED);
        proof {
            listing_is_unique(counted(found@), tally(procs@, filter@, OFFERED as nat));
        }
        self.procs_all_max = OFFERED;
        self.procs_all = Some(found);
    }

    fn set(&mut self, n: &String, procs: &Vec<ProcEntry>)
        requires
            procs@.len() <= u32::MAX,
        ensures
            final(self)@ == program_typed(old(self)@, n@, procs@),
    {
        self.input_sent = false;
        self.input = n.clone();
        self.procs_all = None;
        if self.kind_after_refine {
            self.kind = Pick::Substring;
            self.kind_after_refine = false;
        }
        if !self.input.as_str().is_empty() {
            self.refresh_procs_all(procs);
        }
    }

    fn pick(&mut self, i: usize, procs: &Vec<ProcEntry>)
        requires
            procs@.len() <= u32::MAX,
            old(self)@.procs_all is Some,
            i < old(self)@.procs_all->0.len(),
        ensures
            final(self)@ == program_picked(old(self)@, i as int, procs@),
    {
        let name = match &self.procs_all {
            Some(v) => base_name_of(v[i].0.as_str()),
            None => String::new(),
        };
        self.kind = Pick::Basename;
        self.input = name;
        self.kind_after_refine = true;
        self.refresh_procs_all(procs);
        self.popup_focus = false;
        self.input_focus = false;
    }

    fn update(&mut self, gen: u64, message: &M, procs: &Vec<ProcEntry>, out: &mut Vec<Effect>)
        requires
            procs@.len() <= u32::MAX,
            program_is_there(old(self)@, gen, *message),
        ensures
            final(self)@ == proc_updated(old(self)@, gen, *message, procs@).0,
            effect_views(final(out)@) == effect_views(old(out)@) + proc_updated(
                old(self)@,
                gen,
                *message,
                procs@,
            ).1,
    {
        proof {
            nothing_more(effect_views(out@));
        }
        match message {
            M::MatchAdd => {
                let ghost before = effect_views(out@);
                put(out, Effect::Send(D::MatchAdd(self.current_match())));
                self.input_sent = true;
                put(out, Effect::UnfocusProc);
                assert(effect_views(out@) =~= before + proc_updated(
                    old(self)@,
                    gen,
                    *message,
                    procs@,
                ).1);
            },
            M::MatchDir => {
                self.dir = match self.dir {
                    Direction::redirect => Direction::bypass,
                    Direction::bypass => Direction::redirect,
                };
            },
            M::MatchFromProc(g, i) => if *g == gen {
                self.pick(*i, procs);
            },
            M::Procs(n) => {
                self.set(n, procs);
            },
            M::Kind(n) => {
                self.kind = *n;
                self.kind_after_refine = false;
            },
            M::ProcPopupFocus => {
                self.popup_focus = true;
            },
            M::ProcPopupUnfocus => {
                self.popup_focus = false;
            },
            M::MatchUnfocus => {
                self.input_focus = false;
                put(out, Effect::UnfocusProc);
            },
            M::MatchFocus => {
                self.input_focus = true;
            },
            _ => {},
        }
    }
}

/// Whether two matches have the same texts.
fn same_texts(a: &Match, b: &Match) -> (r: bool)
    ensures
        r == (a@ == b@),
{
    same_text(a.pattern.as_str(), b.pattern.as_str()) && same_text(
        a.kind.as_str(),
        b.kind.as_str(),
    ) && same_text(a.direction.as_str(), b.direction.as_str()) && same_text(
        a.user.as_str(),
        b.user.as_str(),
    ) && same_text(a.uid.as_str(), b.uid.as_str())
}

impl Row {
    /// What a match is, or is being changed to.
    pub fn draft_of(&self) -> (m: Match)
        ensures
            m@ == draft(self@),
    {
        match &self.edited {
            Some(e) => e.clone(),
            None => self.m.clone(),
        }
    }
}

impl MatchList {
    fn edit(&mut self, i: usize, m: Match)
        requires
            i < old(self).matches@.len(),
        ensures
            final(self)@ == match_edited(old(self)@, i as int, m@),
            final(self).matches@.len() == old(self).matches@.len(),
    {
        let kept = self.matches[i].m.clone();
        self.matches.set(i, Row { m: kept, edited: Some(m) });
        assert(row_views(self.matches@) =~= match_edited(old(self)@, i as int, m@).matches);
    }

    fn submit(&mut self, i: usize, out: &mut Vec<Effect>)
        requires
            i < old(self).matches@.len(),
        ensures
            final(self)@ == match_submitted(old(self)@, i).0,
            effect_views(final(out)@) == effect_views(old(out)@) + match_submitted(
                old(self)@,
                i,
            ).1,
    {
        let ghost was = self@.matches[i as int];
        assert(was == self.matches@[i as int]@);
        let kept = self.matches[i].m.clone();
        let edited = match &self.matches[i].edited {
            Some(e) => Some(e.clone()),
            None => None,
        };
        if let Some(m) = edited {
            if !same_texts(&m, &kept) {
                put(out, Effect::Send(D::MatchUpdate(kept.clone(), m)));
            }
        }
        self.matches.set(i, Row { m: kept, edited: None });
        put(out, Effect::UnfocusMatch(i));
        assert(row_views(self.matches@) =~= match_submitted(old(self)@, i).0.matches);
        assert(effect_views(out@) =~= effect_views(old(out)@) + match_submitted(old(self)@, i).1);
    }

    fn update(&mut self, message: &M, out: &mut Vec<Effect>)
        requires
            has_generation(old(self).matches_gen, *message),
            match_is_there(old(self)@, *message),
        ensures
            final(self)@ == list_updated(old(self)@, *message).0,
            effect_views(final(out)@) == effect_views(old(out)@) + list_updated(
                old(self)@,
                *message,
            ).1,
    {
        proof {
            nothing_more(effect_views(out@));
        }
        match message {
            M::MatchDelete(g, i) => if *g == self.matches_gen {
                put(out, Effect::Send(D::MatchDelete(self.matches[*i].m.clone())));
            },
            M::MatchKind(g, i, k) => if *g == self.matches_gen {
                let mut m = self.matches[*i].draft_of();
                m.kind = k.name().to_owned();
                self.edit(*i, m);
                self.submit(*i, out);
            },
            M::MatchUpdate(g, i, n) => if *g == self.matches_gen {
                let mut m = self.matches[*i].draft_of();
                m.pattern = n.clone();
                self.edit(*i, m);
            },
            M::MatchUpdateDir(g, i) => if *g == self.matches_gen {
                let mut m = self.matches[*i].draft_of();
                m.direction = if same_text(m.direction.as_str(), "redirect") {
                    "bypass".to_owned()
                } else {
                    "redirect".to_owned()
                };
                self.edit(*i, m);
                self.submit(*i, out);
            },
            M::MatchSubmit(g, i) => if *g == self.matches_gen {
                self.submit(*i, out);
            },
            M::ActiveProcs(n) => {
                self.procs_active = copied(n);
                self.matches_gen = self.matches_gen + 1;
            },
            _ => {},
        }
    }
}

/// A copy of texts.
fn copied(v: &Vec<String>) -> (r: Vec<String>)
    ensures
        texts_of(r@) == texts_of(v@),
{
    let mut r: Vec<String> = Vec::new();
    let mut i: usize = 0;
    while i < v.len()
        invariant
            i <= v@.len(),
            texts_of(r@) == texts_of(v@).take(i as int),
        decreases v.len() - i,
    {
        let ghost before = r@;
        let t = v[i].clone();
        r.push(t);
        i += 1;
        assert(texts_of(r@) =~= texts_of(before).push(t@));
        assert(texts_of(r@) =~= texts_of(v@).take(i as int));
    }
    assert(texts_of(r@) =~= texts_of(v@));
    r
}

/// Takes back all changes of matches that were not sent.
fn drop_edits(rows: &Vec<Row>) -> (r: Vec<Row>)
    ensures
        row_views(r@) == unedited(row_views(rows@)),
{
    let mut r: Vec<Row> = Vec::new();
    let mut i: usize = 0;
    while i < rows.len()
        invariant
            i <= rows@.len(),
            row_views(r@) == unedited(row_views(rows@)).take(i as int),
        decreases rows.len() - i,
    {
        let ghost before = r@;
        let row = Row { m: rows[i].m.clone(), edited: None };
        r.push(row);
        i += 1;
        assert(row_views(r@) =~= row_views(before).push(row@));
        assert(row_views(r@) =~= unedited(row_views(rows@)).take(i as int));
    }
    assert(row_views(r@) =~= unedited(row_views(rows@)));
    r
}

impl Errors {
    fn show(&mut self, out: &mut Vec<Effect>)
        ensures
            final(self)@ == error_shown(old(self)@).0,
            effect_views(final(out)@) == effect_views(old(out)@) + error_shown(old(self)@).1,
    {
        if self.dbus_errs.len() > 0 {
            let t = self.dbus_errs[0].text.clone();
            self.modal = Some(t.clone());
            put(out, Effect::ModalText(Some(t)));
        } else {
            self.modal = None;
            put(out, Effect::ModalText(None));
        }
    }

    fn next(&mut self, out: &mut Vec<Effect>)
        ensures
            final(self)@ == error_dismissed(old(self)@).0,
            effect_views(final(out)@) == effect_views(old(out)@) + error_dismissed(old(self)@).1,
    {
        let ghost before = self.dbus_errs@;
        if self.dbus_errs.len() > 0 {
            self.dbus_errs.remove(0);
            assert(error_views(self.dbus_errs@) =~= error_views(before).drop_first());
        }
        self.show(out);
    }

    fn join(&mut self, x: DbusError, out: &mut Vec<Effect>)
        ensures
            final(self)@ == error_joined(old(self)@, x@).0,
            effect_views(final(out)@) == effect_views(old(out)@) + error_joined(
                old(self)@,
                x@,
            ).1,
    {
        proof {
            nothing_more(effect_views(out@));
        }
        let ghost before = self.dbus_errs@;
        self.dbus_errs.push(x);
        assert(error_views(self.dbus_errs@) =~= error_views(before).push(x@));
        if self.modal.is_none() {
            self.show(out);
        }
    }
}

/// Matches that are not being changed.
fn rows_of(ms: &Vec<Match>) -> (r: Vec<Row>)
    ensures
        row_views(r@) == plain_rows(ms@),
{
    let mut rows: Vec<Row> = Vec::new();
    let mut i: usize = 0;
    while i < ms.len()
        invariant
            i <= ms@.len(),
            row_views(rows@) == plain_rows(ms@).take(i as int),
        decreases ms.len() - i,
    {
        let ghost before = rows@;
        let row = Row { m: ms[i].clone(), edited: None };
        rows.push(row);
        i += 1;
        assert(row_views(rows@) =~= row_views(before).push(row@));
        assert(row_views(rows@) =~= plain_rows(ms@).take(i as int));
    }
    assert(row_views(rows@) =~= plain_rows(ms@));
    rows
}

/// Whether one of the matches has this pattern.
fn pattern_is_there(ms: &Vec<Match>, p: &String) -> (r: bool)
    ensures
        r == has_pattern(ms@, p@),
{
    let mut i: usize = 0;
    while i < ms.len()
        invariant
            i <= ms@.len(),
            forall|k: int| 0 <= k < i ==> (#[trigger] ms@[k]).pattern@ != p@,
        decreases ms.len() - i,
    {
        if same_text(ms[i].pattern.as_str(), p.as_str()) {
            assert(ms@[i as int].pattern@ == p@);
            return true;
        }
        i += 1;
    }
    false
}

impl State {
    fn refuse(&mut self, x: DbusError, out: &mut Vec<Effect>)
        ensures
            final(self)@ == refused(old(self)@, x@).0,
            effect_views(final(out)@) == effect_views(old(out)@) + refused(old(self)@, x@).1,
            final(self).list.matches_gen == old(self).list.matches_gen,
    {
        self.panel.settings = self.panel.settings_override.clone();
        self.output_dev.input = self.attached.to_ifname.clone();
        self.output_dev.input_sent = true;
        self.list.matches = drop_edits(&self.list.matches);
        self.errors.join(x, out);
    }

    fn tell_tray(&self, out: &mut Vec<Effect>)
        ensures
            effect_views(final(out)@) == effect_views(old(out)@) + seq![
                tray_told(self.shell.tray_theme, self.attached@),
            ],
    {
        let state = if !self.attached.attached {
            Tray::NotConnected
        } else if self.attached.enabled {
            Tray::Enabled
        } else {
            Tray::Disabled
        };
        put(
            out,
            Effect::Tray(
                TrayState {
                    state,
                    theme: self.shell.tray_theme,
                    blocker: self.attached.blocker.clone(),
                    output_dev: self.attached.to_ifname.clone(),
                },
            ),
        );
    }

    fn disconnect(&mut self, x: DbusError, out: &mut Vec<Effect>)
        requires
            old(self).list.matches_gen < u64::MAX,
        ensures
            final(self)@ == disconnected(old(self)@, x@).0,
            effect_views(final(out)@) == effect_views(old(out)@) + disconnected(
                old(self)@,
                x@,
            ).1,
    {
        self.attached = Attached::default();
        self.list.matches = Vec::new();
        self.list.matches_gen = self.list.matches_gen + 1;
        self.errors.dbus_conn_err = Some(x);
        assert(row_views(self.list.matches@) =~= Seq::<RowView>::empty());
        self.tell_tray(out);
    }

    fn tell_matches(&mut self, ms: &Vec<Match>)
        requires
            old(self).list.matches_gen < u64::MAX,
        ensures
            final(self)@ == matches_told(old(self)@, ms@),
    {
        if self.proc.input_sent && pattern_is_there(ms, &self.proc.input) {
            self.proc.input_sent = false;
            self.proc.input = String::new();
            assert(self.proc.input@ =~= Seq::empty());
        }
        self.list.matches = rows_of(ms);
        self.list.matches_gen = self.list.matches_gen + 1;
    }

    fn escape(&mut self, out: &mut Vec<Effect>)
        ensures
            final(self)@ == escaped(old(self)@).0,
            effect_views(final(out)@) == effect_views(old(out)@) + escaped(old(self)@).1,
    {
        proof {
            nothing_more(effect_views(out@));
        }
        if self.errors.dbus_errs.len() > 0 {
            self.errors.next(out);
        } else if self.panel.show_settings {
            self.panel.show_settings = false;
        } else if (self.proc.input_focus || self.proc.popup_focus)
            && !self.proc.input.as_str().is_empty() {
            self.proc.input_focus = false;
            self.proc.popup_focus = false;
        }
    }

    fn update_whole(&mut self, message: M, out: &mut Vec<Effect>)
        requires
            has_generation(old(self).list.matches_gen, message),
        ensures
            final(self)@ == whole_updated(old(self)@, message).0,
            effect_views(final(out)@) == effect_views(old(out)@) + whole_updated(
                old(self)@,
                message,
            ).1,
    {
        let ghost before = effect_views(out@);
        proof {
            nothing_more(before);
        }
        match message {
            M::Attached(n) => {
                self.output_dev.input = n.to_ifname.clone();
                self.output_dev.input_sent = true;
                self.attached = n;
                self.tell_tray(out);
            },
            M::Stats(n) => {
                self.stats = n;
            },
            M::Matches(n) => {
                self.tell_matches(&n);
            },
            M::DbusConnected => {
                self.errors.dbus_conn_err = None;
            },
            M::DbusFail(x) => {
                let again = x.clone();
                self.refuse(x, out);
                self.disconnect(again, out);
                assert(effect_views(out@) =~= before + whole_updated(old(self)@, message).1);
            },
            M::DbusErr(x) => {
                self.refuse(x, out);
            },
            M::DbusCantConnect(x) => {
                self.disconnect(x, out);
            },
            M::Esc => {
                self.escape(out);
            },
            M::ModalNext => {
                self.errors.next(out);
            },
            M::ModalReplace => {
                self.errors.show(out);
            },
            M::StatusShow => {
                let err = match &self.errors.dbus_conn_err {
                    Some(x) => Some(x.clone()),
                    None => None,
                };
                if let Some(x) = err {
                    self.refuse(x, out);
                }
            },
            M::ModalEditAction(changes) => if !changes && self.errors.modal.is_some() {
                put(out, Effect::ModalPerform);
            },
            _ => {},
        }
    }
}

/// Answers to something that happened: changes the state, and gives what is to be
/// done.
pub fn update(s: &mut State, message: M, procs: &Vec<ProcEntry>) -> (r: Vec<Effect>)
    requires
        match_is_there(old(s)@.list, message),
        program_is_there(old(s)@.proc, old(s)@.list.matches_gen, message),
        has_generation(old(s).list.matches_gen, message),
        procs@.len() <= u32::MAX,
    ensures
        final(s)@ == updated(old(s)@, message, procs@).0,
        effect_views(r@) == updated(old(s)@, message, procs@).1,
{
    let mut out: Vec<Effect> = Vec::new();
    assert forall|e: Seq<EffectView>| #[trigger] (effect_views(out@) + e) == e by {
        assert(effect_views(out@) + e =~= e);
    }
    match &message {
        M::Exit | M::TrayUp | M::WindowToggle | M::WindowCloseId | M::WindowOpen | M::Enable
        | M::Disable => {
            s.shell.update(&message, &mut out);
        },
        M::SettingsOpen | M::SettingsClose | M::SettingsLan(_) | M::SettingsDns(_)
        | M::SettingsDnsIp(_) | M::SettingsDropEgressWithoutOutput(_) | M::SettingsDnsIpSubmit
        | M::SettingsSubmit | M::Settings(_) => {
            s.panel.update(&message, &mut out);
        },
        M::OutputDevClick | M::OutputDevFocus | M::OutputDevUnfocus | M::OutputDevPopupFocus
        | M::OutputDevPopupUnfocus | M::OutputDevSetSubmit(_) | M::OutputDevSet(_)
        | M::OutputDevSubmit => {
            let ifname = s.attached.to_ifname.clone();
            s.output_dev.update(&ifname, &message, &mut out);
        },
        M::MatchAdd | M::MatchDir | M::MatchFromProc(..) | M::Procs(_) | M::Kind(_)
        | M::ProcPopupFocus | M::ProcPopupUnfocus | M::MatchUnfocus | M::MatchFocus => {
            let gen: u64 = s.list.matches_gen;
            s.proc.update(gen, &message, procs, &mut out);
        },
        M::MatchDelete(..) | M::MatchKind(..) | M::MatchUpdate(..) | M::MatchUpdateDir(..)
        | M::MatchSubmit(..) | M::ActiveProcs(_) => {
            s.list.update(&message, &mut out);
        },
        _ => {
            s.update_whole(message, &mut out);
        },
    }
    out
}

} // verus!
