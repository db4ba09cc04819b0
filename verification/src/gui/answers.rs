//! What each thing that happens in the window leads to.

use crate::addr::dotted;
use crate::gui::message::{
    matches_text, picks_some, Attached, DView, Match, MatchText, Settings, SettingsView, Stats,
    Tray, TrayState, TrayTheme, D,
};
use crate::gui::procs::{
    program, tally, tally_bounds, tally_is_listed, FilterView, ProcEntry,
};
use crate::gui::requests::lines;
use crate::gui::state::{
    first_state, pick_reads_back, DbusError, EffectView, OutputView, Pick, ProcView, RowView,
    StateView, M, OFFERED,
};
use crate::gui::tray::{menu_action, tip, MenuAction};
use crate::gui::update::{typed_match, updated};
use crate::gui::view::{
    count_of, cover_of, devices_offered, is_address, line_of, programs_offered, status_line,
    switch_of, Cover, Switch,
};
use crate::kinds::Direction;
use crate::paths::base_name_begins;
use crate::text::{base_name, comes_before, decimal, dots_go_from_ends, is_digit};
use vstd::prelude::*;

verus! {

/// Whether a state differs from another at most in one match of the list.
pub open spec fn only_row_changes(s: StateView, t: StateView, i: int) -> bool {
    &&& t.list.matches.len() == s.list.matches.len()
    &&& forall|j: int|
        0 <= j < s.list.matches.len() && j != i ==> #[trigger] t.list.matches[j]
            == s.list.matches[j]
    &&& t.list.matches_gen == s.list.matches_gen
    &&& t.list.procs_active == s.list.procs_active
    &&& t.shell == s.shell
    &&& t.panel == s.panel
    &&& t.output_dev == s.output_dev
    &&& t.proc == s.proc
    &&& t.attached == s.attached
    &&& t.stats == s.stats
    &&& t.errors == s.errors
}

/// Deleting a listed match asks the service to take away that match, and changes
/// nothing by itself.
pub proof fn deletion_is_sent(s: StateView, i: usize, procs: Seq<ProcEntry>)
    requires
        i < s.list.matches.len(),
    ensures
        updated(s, M::MatchDelete(s.list.matches_gen, i), procs) == (
            s,
            seq![EffectView::Send(DView::MatchDelete(s.list.matches[i as int].m))],
        ),
{
}

/// Typing into a listed match changes its pattern, and nothing else of what it is
/// being changed to. Nothing is sent yet.
pub proof fn pattern_is_typed(s: StateView, i: usize, n: String, procs: Seq<ProcEntry>)
    requires
        i < s.list.matches.len(),
    ensures
        ({
            let row = s.list.matches[i as int];
            let was = if row.edited is Some {
                row.edited->0
            } else {
                row.m
            };
            let (t, effects) = updated(s, M::MatchUpdate(s.list.matches_gen, i, n), procs);
            &&& effects == Seq::<EffectView>::empty()
            &&& only_row_changes(s, t, i as int)
            &&& t.list.matches[i as int].m == row.m
            &&& t.list.matches[i as int].edited == Some(MatchText { pattern: n@, ..was })
        }),
{
}

/// Leaving a listed match that was changed asks the service for the change, from the
/// match as it is listed to what it was changed to; a change to the same is not
/// sent. Either way it is no longer being changed.
pub proof fn change_is_sent(s: StateView, i: usize, to: MatchText, procs: Seq<ProcEntry>)
    requires
        i < s.list.matches.len(),
        s.list.matches[i as int].edited == Some(to),
    ensures
        ({
            let row = s.list.matches[i as int];
            let (t, effects) = updated(s, M::MatchSubmit(s.list.matches_gen, i), procs);
            &&& to != row.m ==> effects == seq![
                EffectView::Send(DView::MatchUpdate(row.m, to)),
                EffectView::UnfocusMatch(i),
            ]
            &&& to == row.m ==> effects == seq![EffectView::UnfocusMatch(i)]
            &&& only_row_changes(s, t, i as int)
            &&& t.list.matches[i as int] == (RowView { m: row.m, edited: None })
        }),
{
}

/// Picking another kind for a listed match asks the service for the match with that
/// kind, under its name, and with what else was changed of it.
pub proof fn kind_is_sent(s: StateView, i: usize, kind: Pick, procs: Seq<ProcEntry>)
    requires
        i < s.list.matches.len(),
    ensures
        ({
            let row = s.list.matches[i as int];
            let was = if row.edited is Some {
                row.edited->0
            } else {
                row.m
            };
            let to = MatchText {
                kind: match kind {
                    Pick::Basename => "basename"@,
                    Pick::Substring => "substring"@,
                    Pick::Prefix => "prefix"@,
                    Pick::Ipv4 => "ipv4"@,
                    Pick::Subnet => "ipv4/subnet"@,
                    Pick::Dns => "dns"@,
                },
                ..was
            };
            let (t, effects) = updated(s, M::MatchKind(s.list.matches_gen, i, kind), procs);
            &&& to != row.m ==> effects == seq![
                EffectView::Send(DView::MatchUpdate(row.m, to)),
                EffectView::UnfocusMatch(i),
            ]
            &&& to == row.m ==> effects == seq![EffectView::UnfocusMatch(i)]
            &&& only_row_changes(s, t, i as int)
            &&& t.list.matches[i as int] == (RowView { m: row.m, edited: None })
        }),
{
}

/// Pressing the direction button of a match, whether it is being changed or not,
/// asks the service for the other direction than the one that is shown, with what
/// else was changed of it.
pub proof fn shown_direction_is_turned(s: StateView, i: usize, procs: Seq<ProcEntry>)
    requires
        i < s.list.matches.len(),
    ensures
        ({
            let row = s.list.matches[i as int];
            let was = if row.edited is Some {
                row.edited->0
            } else {
                row.m
            };
            let to = MatchText {
                direction: if line_of(s, row).direction == Direction::redirect && was.direction
                    == "redirect"@ {
                    "bypass"@
                } else {
                    "redirect"@
                },
                ..was
            };
            let (t, effects) = updated(s, M::MatchUpdateDir(s.list.matches_gen, i), procs);
            &&& to != row.m ==> effects == seq![
                EffectView::Send(DView::MatchUpdate(row.m, to)),
                EffectView::UnfocusMatch(i),
            ]
            &&& to == row.m ==> effects == seq![EffectView::UnfocusMatch(i)]
            &&& only_row_changes(s, t, i as int)
            &&& t.list.matches[i as int] == (RowView { m: row.m, edited: None })
        }),
{
    reveal_strlit("redirect");
    reveal_strlit("bypass");
    assert("redirect"@.len() != "bypass"@.len());
}

/// Adding the match that was typed in asks the service for it: the pattern as it was
/// typed, with the kind and the direction that are picked, of nobody in particular.
pub proof fn typed_match_is_sent(s: StateView, procs: Seq<ProcEntry>)
    ensures
        ({
            let (t, effects) = updated(s, M::MatchAdd, procs);
            &&& effects.len() == 2
            &&& effects[0] matches EffectView::Send(DView::MatchAdd(m)) && {
                &&& m.pattern == s.proc.input
                &&& m.kind == match s.proc.kind {
                    Pick::Basename => "basename"@,
                    Pick::Substring => "substring"@,
                    Pick::Prefix => "prefix"@,
                    Pick::Ipv4 => "ipv4"@,
                    Pick::Subnet => "ipv4/subnet"@,
                    Pick::Dns => "dns"@,
                }
                &&& m.direction == match s.proc.dir {
                    Direction::redirect => "redirect"@,
                    Direction::bypass => "bypass"@,
                }
                &&& m.user.len() == 0
                &&& m.uid.len() == 0
            }
            &&& effects[1] == EffectView::UnfocusProc
            &&& t == (StateView { proc: ProcView { input_sent: true, ..s.proc }, ..s })
        }),
{
}

/// The direction button beside what is typed in turns the direction that a new match
/// will have, from redirect to bypass and back.
pub proof fn new_direction_is_turned(s: StateView, procs: Seq<ProcEntry>)
    ensures
        ({
            let (t, effects) = updated(s, M::MatchDir, procs);
            &&& effects == Seq::<EffectView>::empty()
            &&& t.proc.dir != s.proc.dir
            &&& t == (StateView { proc: ProcView { dir: t.proc.dir, ..s.proc }, ..s })
        }),
{
}

/// Changing one of the settings sends all of them to the service with that one
/// changed, unless they are those of the service already. The others stay.
pub proof fn setting_is_sent(s: StateView, message: M, procs: Seq<ProcEntry>)
    requires
        message is SettingsLan || message is SettingsDns
            || message is SettingsDropEgressWithoutOutput,
    ensures
        ({
            let was = s.panel.settings;
            let now = match message {
                M::SettingsLan(n) => SettingsView { allow_lan: n, ..was },
                M::SettingsDns(n) => SettingsView { spoof_dns: n, ..was },
                M::SettingsDropEgressWithoutOutput(n) => SettingsView {
                    drop_egress_without_output: n,
                    ..was
                },
                _ => was,
            };
            let (t, effects) = updated(s, message, procs);
            &&& t.panel.settings == now
            &&& t.panel.settings_override == s.panel.settings_override
            &&& t.panel.show_settings == s.panel.show_settings
            &&& t == (StateView { panel: t.panel, ..s })
            &&& now != s.panel.settings_override ==> effects == seq![
                EffectView::Send(DView::SettingsUpdate(now)),
            ]
            &&& now == s.panel.settings_override ==> effects == Seq::<EffectView>::empty()
        }),
{
}

/// The address of the server for names is typed in without being sent; it is sent
/// when it is done or the settings are left, unless all is as the service has it.
pub proof fn server_is_sent_when_done(s: StateView, n: String, message: M, procs: Seq<ProcEntry>)
    requires
        message is SettingsDnsIpSubmit || message is SettingsSubmit || message is SettingsClose,
    ensures
        ({
            let (t, effects) = updated(s, M::SettingsDnsIp(n), procs);
            let (u, sent) = updated(s, message, procs);
            &&& effects == Seq::<EffectView>::empty()
            &&& t.panel.settings == (SettingsView { spoof_dns_ipv4: n@, ..s.panel.settings })
            &&& t.panel.settings_override == s.panel.settings_override
            &&& u.panel.settings == s.panel.settings
            &&& u.panel.show_settings == (s.panel.show_settings && !(message is SettingsClose))
            &&& s.panel.settings != s.panel.settings_override ==> sent == seq![
                EffectView::Send(DView::SettingsUpdate(s.panel.settings)),
            ]
            &&& s.panel.settings == s.panel.settings_override ==> sent == Seq::<EffectView>::empty()
        }),
{
}

/// Settings that the service tells are those that are shown.
pub proof fn told_settings_are_shown(s: StateView, n: Settings, procs: Seq<ProcEntry>)
    ensures
        ({
            let (t, effects) = updated(s, M::Settings(n), procs);
            &&& t.panel.settings == n@
            &&& t.panel.settings_override == n@
            &&& t.panel.show_settings == s.panel.show_settings
            &&& effects == Seq::<EffectView>::empty()
        }),
{
}

/// The output that was typed in is sent when it is done, unless it was sent or is
/// that of the service; what is typed and sent at once likewise.
pub proof fn output_is_sent(s: StateView, n: String, procs: Seq<ProcEntry>)
    ensures
        ({
            let (t, effects) = updated(s, M::OutputDevSet(n), procs);
            let (u, sent) = updated(s, M::OutputDevSubmit, procs);
            let (v, both) = updated(s, M::OutputDevSetSubmit(n), procs);
            &&& effects == Seq::<EffectView>::empty()
            &&& t.output_dev.input == n@
            &&& t.output_dev.input_sent == (n@ == s.attached.to_ifname)
            &&& u.output_dev.input == s.output_dev.input
            &&& !s.output_dev.input_sent && s.output_dev.input != s.attached.to_ifname ==> sent
                == seq![
                EffectView::Send(DView::ChangeOutput(s.output_dev.input)),
                EffectView::UnfocusOutputDev,
            ] && u.output_dev.input_sent
            &&& s.output_dev.input_sent || s.output_dev.input == s.attached.to_ifname ==> sent
                == seq![EffectView::UnfocusOutputDev]
            &&& !u.output_dev.input_focus && !u.output_dev.popup_focus
            &&& v.output_dev.input == n@
            &&& n@ != s.attached.to_ifname ==> both == seq![
                EffectView::Send(DView::ChangeOutput(n@)),
                EffectView::UnfocusOutputDev,
            ]
            &&& n@ == s.attached.to_ifname ==> both == seq![EffectView::UnfocusOutputDev]
        }),
{
}

/// Leaving where the output is typed in sends it only once neither the text nor what
/// is offered beside it is pointed at.
pub proof fn output_is_sent_when_left(s: StateView, procs: Seq<ProcEntry>)
    ensures
        ({
            let submitted = updated(s, M::OutputDevSubmit, procs);
            let (t, left) = updated(s, M::OutputDevUnfocus, procs);
            let (u, gone) = updated(s, M::OutputDevPopupUnfocus, procs);
            &&& s.output_dev.popup_focus ==> left == Seq::<EffectView>::empty() && t.output_dev == (
            OutputView { input_focus: false, ..s.output_dev })
            &&& !s.output_dev.popup_focus ==> (t, left) == submitted
            &&& s.output_dev.input_focus ==> gone == Seq::<EffectView>::empty() && u.output_dev == (
            OutputView { popup_focus: false, ..s.output_dev })
            &&& !s.output_dev.input_focus ==> (u, gone) == submitted
        }),
{
}

/// Switching on and off is passed on to the service, and leaving leaves.
pub proof fn switching_is_passed_on(s: StateView, procs: Seq<ProcEntry>)
    ensures
        updated(s, M::Enable, procs) == (s, seq![EffectView::Send(DView::Enable)]),
        updated(s, M::Disable, procs) == (s, seq![EffectView::Send(DView::Disable)]),
        updated(s, M::Exit, procs) == (s, seq![EffectView::Exit]),
{
}

/// Closing the window ends the program where there is no tray icon, and only then.
pub proof fn closing_keeps_tray(s: StateView, message: M, procs: Seq<ProcEntry>)
    requires
        message is WindowToggle || message is WindowCloseId,
        s.shell.window,
    ensures
        ({
            let (t, effects) = updated(s, message, procs);
            &&& !t.shell.window
            &&& effects.len() == 2
            &&& effects[0] == EffectView::Send(DView::WindowClosed)
            &&& s.shell.tray_up ==> effects[1] == EffectView::CloseWindow
            &&& !s.shell.tray_up ==> effects[1] == EffectView::Exit
        }),
{
}

/// What the service tells of its state is shown, also as the output, and the tray
/// icon is told: not connected, or whether redirecting is switched on.
pub proof fn told_state_is_shown(s: StateView, n: Attached, procs: Seq<ProcEntry>)
    ensures
        ({
            let (t, effects) = updated(s, M::Attached(n), procs);
            &&& t.attached == n@
            &&& t.output_dev.input == n.to_ifname@
            &&& t.output_dev.input_sent
            &&& t.list == s.list
            &&& t.panel == s.panel
            &&& t.proc == s.proc
            &&& t.errors == s.errors
            &&& effects.len() == 1
            &&& effects[0] matches EffectView::Tray(v) && {
                &&& v.theme == s.shell.tray_theme
                &&& v.blocker == n.blocker@
                &&& v.output_dev == n.to_ifname@
                &&& v.state == if !n.attached {
                    Tray::NotConnected
                } else if n.enabled {
                    Tray::Enabled
                } else {
                    Tray::Disabled
                }
            }
        }),
{
}

/// Where the service cannot be reached, nothing of it is shown: no match, no output,
/// and the tray icon is that of one that is not connected.
pub proof fn lost_service_is_forgotten(s: StateView, x: DbusError, procs: Seq<ProcEntry>)
    ensures
        ({
            let (t, effects) = updated(s, M::DbusCantConnect(x), procs);
            &&& t.list.matches.len() == 0
            &&& !t.attached.attached
            &&& !t.attached.enabled
            &&& t.attached.to_ifname.len() == 0
            &&& t.attached.blocker.len() == 0
            &&& t.errors.dbus_conn_err == Some(x@)
            &&& t.errors.dbus_errs == s.errors.dbus_errs
            &&& effects.len() == 1
            &&& effects[0] matches EffectView::Tray(v) && v.state == Tray::NotConnected
            &&& updated(t, M::DbusConnected, procs).0.errors.dbus_conn_err is None
        }),
{
}

/// The matches that the service tells are those that are listed, none of them being
/// changed. What was typed in is cleared where it was sent and is one of their
/// patterns now, and stays otherwise.
pub proof fn told_matches_are_listed(s: StateView, n: Vec<Match>, procs: Seq<ProcEntry>)
    ensures
        ({
            let (t, effects) = updated(s, M::Matches(n), procs);
            let there = exists|i: int|
                0 <= i < n@.len() && (#[trigger] n@[i]).pattern@ == s.proc.input;
            &&& effects == Seq::<EffectView>::empty()
            &&& t.list.matches.len() == n@.len()
            &&& forall|i: int|
                0 <= i < n@.len() ==> (#[trigger] t.list.matches[i]).m == n@[i]@
                    && t.list.matches[i].edited is None
            &&& s.proc.input_sent && there ==> t.proc.input.len() == 0 && !t.proc.input_sent
            &&& !(s.proc.input_sent && there) ==> t.proc == s.proc
            &&& s.list.matches_gen < u64::MAX ==> t.list.matches_gen == s.list.matches_gen + 1
        }),
{
}

/// The first of several errors is shown until it was looked at, then the next one.
pub proof fn errors_are_shown_in_order(s: StateView, x: DbusError, procs: Seq<ProcEntry>)
    ensures
        ({
            let (t, effects) = updated(s, M::DbusErr(x), procs);
            let (u, next) = updated(s, M::ModalNext, procs);
            let errs = s.errors.dbus_errs;
            &&& t.errors.dbus_errs == errs.push(x@)
            &&& s.errors.modal is Some ==> effects == Seq::<EffectView>::empty()
                && t.errors.modal == s.errors.modal
            &&& s.errors.modal is None && errs.len() == 0 ==> effects == seq![
                EffectView::ModalText(Some(x.text@)),
            ] && t.errors.modal == Some(x.text@)
            &&& errs.len() > 1 ==> u.errors.dbus_errs == errs.skip(1) && next == seq![
                EffectView::ModalText(Some(errs[1].text)),
            ] && u.errors.modal == Some(errs[1].text)
            &&& errs.len() == 1 ==> u.errors.dbus_errs.len() == 0 && next == seq![
                EffectView::ModalText(None),
            ] && u.errors.modal is None
        }),
{
    let errs = s.errors.dbus_errs;
    if errs.len() > 0 {
        assert(errs.drop_first() =~= errs.skip(1));
    }
}

/// Escape leaves one thing at a time: an error before the settings, and these before
/// the programs that are offered. Settings that are left so are not sent.
pub proof fn escape_leaves_one_thing(s: StateView, procs: Seq<ProcEntry>)
    ensures
        ({
            let (t, effects) = updated(s, M::Esc, procs);
            let offered = (s.proc.input_focus || s.proc.popup_focus) && s.proc.input.len() > 0;
            &&& s.errors.dbus_errs.len() > 0 ==> (t, effects) == updated(s, M::ModalNext, procs)
            &&& s.errors.dbus_errs.len() == 0 ==> effects == Seq::<EffectView>::empty()
            &&& s.errors.dbus_errs.len() == 0 && s.panel.show_settings ==> !t.panel.show_settings
                && t.panel.settings == s.panel.settings && t.proc == s.proc
            &&& s.errors.dbus_errs.len() == 0 && !s.panel.show_settings && offered
                ==> !t.proc.input_focus && !t.proc.popup_focus && t.proc.input == s.proc.input
            &&& s.errors.dbus_errs.len() == 0 && !s.panel.show_settings && !offered ==> t == s
        }),
{
}

/// Picking a program that is offered takes over its base name as a match of a base
/// name; typing on after that looks for a part of the text again.
pub proof fn picked_program_is_taken_over(s: StateView, i: usize, n: String, procs: Seq<ProcEntry>)
    requires
        s.proc.procs_all is Some,
        i < s.proc.procs_all->0.len(),
    ensures
        ({
            let (t, effects) = updated(s, M::MatchFromProc(s.list.matches_gen, i), procs);
            let u = updated(t, M::Procs(n), procs).0;
            &&& effects == Seq::<EffectView>::empty()
            &&& t.proc.input == base_name((s.proc.procs_all->0)[i as int].0)
            &&& t.proc.kind == Pick::Basename
            &&& !t.proc.popup_focus && !t.proc.input_focus
            &&& t.proc.dir == s.proc.dir
            &&& u.proc.input == n@
            &&& u.proc.kind == Pick::Substring
            &&& !u.proc.input_sent
        }),
{
}

/// The kind that is picked for a new match stays while it is typed.
pub proof fn picked_kind_stays(s: StateView, kind: Pick, n: String, procs: Seq<ProcEntry>)
    ensures
        ({
            let t = updated(s, M::Kind(kind), procs).0;
            let u = updated(t, M::Procs(n), procs).0;
            &&& t.proc.kind == kind
            &&& t.proc.input == s.proc.input
            &&& u.proc.kind == kind
            &&& u.proc.input == n@
            &&& u.proc.dir == s.proc.dir
            &&& n@.len() == 0 ==> u.proc.procs_all is None
        }),
{
}

/// The status says first why the service cannot be reached, then why nothing is
/// redirected, then that the service has not set up the kernel side, and without any
/// of these whether redirecting is switched on. Only the last is no warning.
pub proof fn status_says_what_is_wrong(s: StateView)
    ensures
        ({
            let (text, warning) = status_line(s);
            let e = s.errors.dbus_conn_err;
            let a = s.attached;
            &&& warning <==> e is Some || a.blocker.len() > 0 || !a.attached
            &&& e is Some && e->0.service_unknown ==> text == "Service not started"@
            &&& e is Some && !e->0.service_unknown ==> text == e->0.text
            &&& e is None && a.blocker.len() > 0 ==> text == a.blocker
            &&& e is None && a.blocker.len() == 0 && !a.attached ==> text == "Not connected"@
            &&& !warning && a.enabled ==> text == "Status: Enabled"@
            &&& !warning && !a.enabled ==> text == "Status: Disabled"@
        }),
{
}

/// The button switches to what is not: off where redirecting is on, and on where it
/// is off; without the service it does nothing.
pub proof fn button_switches_over(s: StateView)
    ensures
        switch_of(s) == Switch::Disable <==> s.attached.attached && s.attached.enabled,
        switch_of(s) == Switch::Enable <==> s.attached.attached && !s.attached.enabled,
        switch_of(s) == Switch::Idle <==> !s.attached.attached,
{
}

/// An error covers the settings, and these the window.
pub proof fn errors_cover_all(s: StateView)
    ensures
        cover_of(s) == Cover::Error <==> s.errors.modal is Some,
        cover_of(s) == Cover::Settings <==> s.errors.modal is None && s.panel.show_settings,
        cover_of(s) == Cover::Nothing <==> s.errors.modal is None && !s.panel.show_settings,
{
}

/// A listed match is shown as it is being changed, and as active only where nothing
/// covers the window, nothing is typed in, and what the service has of it picks one
/// of the active names.
pub proof fn lines_show_changes(s: StateView, r: RowView)
    ensures
        ({
            let l = line_of(s, r);
            let m = if r.edited is Some {
                r.edited->0
            } else {
                r.m
            };
            &&& l.pattern == m.pattern
            &&& m.direction == "bypass"@ ==> l.direction == Direction::bypass
            &&& m.direction == "redirect"@ ==> l.direction == Direction::redirect
            &&& l.active ==> s.errors.modal is None && !s.panel.show_settings && s.proc.input.len()
                == 0 && picks_some(r.m, s.list.procs_active)
            &&& s.errors.modal is None && !s.panel.show_settings && s.proc.input.len() == 0
                && picks_some(r.m, s.list.procs_active) ==> l.active
        }),
{
    reveal_strlit("redirect");
    reveal_strlit("bypass");
    assert("redirect"@.len() != "bypass"@.len());
}

/// Programs are offered with their number while a match is typed in, and it is said
/// that there may be more where as many are offered as there is room for.
pub proof fn offers_are_counted(s: StateView, i: int)
    requires
        s.proc.popup_focus || s.proc.input_focus,
        s.proc.input.len() > 0,
        s.proc.procs_all is Some,
        0 <= i < s.proc.procs_all->0.len(),
    ensures
        programs_offered(s) is Some,
        programs_offered(s)->0.labels.len() == s.proc.procs_all->0.len(),
        programs_offered(s)->0.labels[i] == (s.proc.procs_all->0)[i].0 + " ("@ + decimal(
            (s.proc.procs_all->0)[i].1 as nat,
        ) + ")"@,
        programs_offered(s)->0.more <==> s.proc.procs_all->0.len() == s.proc.procs_all_max,
{
}

/// Only a click counts in the menu, and the entries do what they say.
pub proof fn menu_does_what_it_says(id: i32, event: Seq<char>)
    ensures
        menu_action(id, event) is Some <==> event == "clicked"@ && (id == 2 || id == 3 || id == 4),
        menu_action(2, "clicked"@) == Some(MenuAction::Send(D::Enable)),
        menu_action(3, "clicked"@) == Some(MenuAction::Send(D::Disable)),
        menu_action(4, "clicked"@) == Some(MenuAction::Exit),
{
}

/// Pointing at the tray icon tells why nothing is redirected, or else how things are,
/// and behind it the output, where there is one.
pub proof fn tip_tells_state(s: TrayState)
    ensures
        ({
            let why = if s.blocker@.len() > 0 {
                s.blocker@
            } else {
                match s.state {
                    Tray::NotConnected => "NotConnected"@,
                    Tray::Enabled => "Enabled"@,
                    Tray::Disabled => "Disabled"@,
                }
            };
            &&& s.output_dev@.len() == 0 ==> tip(s) == "Rebpf: "@ + why
            &&& s.output_dev@.len() > 0 ==> tip(s) == "Rebpf: "@ + why + " ("@ + s.output_dev@ + ")"@
        }),
{
    reveal_strlit("Rebpf");
    reveal_strlit(": ");
    reveal_strlit("Rebpf: ");
    assert("Rebpf"@ + ": "@ =~= "Rebpf: "@);
}

/// The kinds under which a match can stand are different from one another.
proof fn kinds_differ()
    ensures
        "basename"@ != "prefix"@,
        "basename"@ != "substring"@,
        "basename"@ != "dns"@,
        "prefix"@ != "substring"@,
        "prefix"@ != "dns"@,
        "substring"@ != "dns"@,
{
    reveal_strlit("basename");
    reveal_strlit("prefix");
    reveal_strlit("substring");
    reveal_strlit("dns");
    assert("basename"@.len() == 8);
    assert("prefix"@.len() == 6);
    assert("substring"@.len() == 9);
    assert("dns"@.len() == 3);
}

/// A match of a base name picks what ends with a slash and its pattern, or is its
/// pattern; of a beginning what goes on from it; of a part what has it anywhere; of a
/// domain name the same name with or without dots at its ends; and any other match
/// just its pattern.
pub proof fn matches_pick_by_kind(m: MatchText, before: Seq<char>, after: Seq<char>)
    requires
        forall|i: int| 0 <= i < m.pattern.len() ==> #[trigger] m.pattern[i] != '/',
    ensures
        m.kind == "basename"@ ==> matches_text(m, m.pattern) && matches_text(
            m,
            before + seq!['/'] + m.pattern,
        ),
        m.kind == "prefix"@ ==> matches_text(m, m.pattern + after),
        m.kind == "substring"@ ==> matches_text(m, before + m.pattern + after),
        m.kind != "basename"@ && m.kind != "dns"@ ==> matches_text(m, m.pattern),
        m.kind != "basename"@ && m.kind != "prefix"@ && m.kind != "substring"@ && m.kind != "dns"@
            ==> (matches_text(m, after) <==> after == m.pattern),
{
    kinds_differ();
    let p = m.pattern;
    let whole = before + seq!['/'] + p;
    let k = base_name_begins(whole);
    let n = before.len() + 1;
    if k < n {
        assert(whole.skip(k)[n - 1 - k] == '/');
    } else if k > n {
        assert(whole[k - 1] == p[k - 1 - n]);
    }
    assert(whole.skip(n as int) =~= p);
    let l = base_name_begins(p);
    assert(p.skip(0) =~= p);
    assert((p + after).take(p.len() as int) =~= p);
    assert(p.is_prefix_of(p + after));
    assert(p.is_prefix_of(p));
    let b = before + p + after;
    assert(b.subrange(before.len() as int, before.len() as int + p.len()) =~= p);
    assert(p.subrange(0, 0int + p.len()) =~= p);
}

/// What a match of a beginning picks begins with its pattern; what one of a part
/// picks has it somewhere; what one of a base name picks has it behind the last
/// slash; and what one of a domain name picks has only dots around it.
pub proof fn picked_fits_kind(m: MatchText, s: Seq<char>) -> (r: (int, int))
    requires
        matches_text(m, s),
    ensures
        0 <= r.0 <= r.1 <= s.len(),
        s.subrange(r.0, r.1) == m.pattern,
        m.kind == "prefix"@ ==> r.0 == 0,
        m.kind == "basename"@ ==> r.1 == s.len() && (r.0 == 0 || s[r.0 - 1] == '/') && forall|i: int|
            0 <= i < m.pattern.len() ==> #[trigger] m.pattern[i] != '/',
        m.kind == "dns"@ ==> forall|i: int|
            0 <= i < r.0 || r.1 <= i < s.len() ==> #[trigger] s[i] == '.',
{
    kinds_differ();
    let n = m.pattern.len() as int;
    if m.kind == "basename"@ {
        let k = base_name_begins(s);
        assert(s.subrange(k, s.len() as int) =~= s.skip(k));
        (k, s.len() as int)
    } else if m.kind == "prefix"@ {
        assert(s.subrange(0, n) =~= m.pattern);
        (0, n)
    } else if m.kind == "substring"@ {
        let i = choose|i: int|
            0 <= i && i + n <= s.len() && #[trigger] s.subrange(i, i + n) == m.pattern;
        (i, i + n)
    } else if m.kind == "dns"@ {
        dots_go_from_ends(s)
    } else {
        assert(s.subrange(0, n) =~= s);
        (0, n)
    }
}

/// As long as there is room for all, a program that is asked for is counted as often
/// as it runs, and none that is not asked for.
pub proof fn programs_are_counted(
    es: Seq<ProcEntry>,
    filter: FilterView,
    max_len: nat,
    exe: Seq<char>,
)
    requires
        es.len() <= max_len,
    ensures
        ({
            let t = tally(es, filter, max_len);
            let n = es.filter(|e: ProcEntry| program(e) == Some(exe)).len();
            &&& t.dom().finite()
            &&& t.dom().len() <= es.len()
            &&& t.dom().contains(exe) <==> filter.admits(exe) && n > 0
            &&& filter.admits(exe) && n > 0 ==> t[exe] == n
        }),
    decreases es.len(),
{
    reveal(Seq::filter);
    if es.len() > 0 {
        programs_are_counted(es.drop_last(), filter, max_len, exe);
    }
}

/// Whether a text stands in another as a line.
pub open spec fn is_line(s: Seq<char>, from: int, to: int) -> bool {
    &&& 0 <= from < to <= s.len()
    &&& from == 0 || s[from - 1] == '\n'
    &&& forall|i: int| from <= i < to ==> #[trigger] s[i] != '\n'
}

/// Whether a line stands in a text and is at its end.
spec fn is_ended(s: Seq<char>, line: Seq<char>) -> bool {
    exists|a: int, b: int|
        #[trigger] is_line(s, a, b) && b < s.len() && s[b] == '\n' && s.subrange(a, b) == line
}

/// A line that is at its end is so too where the text goes on.
proof fn ended_stays_ended(s: Seq<char>, line: Seq<char>)
    requires
        s.len() > 0,
        is_ended(s.drop_last(), line),
    ensures
        is_ended(s, line),
{
    let t = s.drop_last();
    let (a, b) = choose|a: int, b: int|
        #[trigger] is_line(t, a, b) && b < t.len() && t[b] == '\n' && t.subrange(a, b) == line;
    assert(forall|j: int| 0 <= j < t.len() ==> s[j] == t[j]);
    assert(is_line(s, a, b));
    assert(s.subrange(a, b) =~= t.subrange(a, b));
}

/// What is not at its end yet is what follows the last end of a line, and the lines
/// that are done each stand between two ends of lines.
proof fn lines_stand_between(s: Seq<char>) -> (k: int)
    ensures
        0 <= k <= s.len(),
        lines(s).1 == s.skip(k),
        k == 0 || s[k - 1] == '\n',
        forall|i: int| k <= i < s.len() ==> #[trigger] s[i] != '\n',
        forall|i: int| 0 <= i < lines(s).0.len() ==> is_ended(s, #[trigger] lines(s).0[i]),
    decreases s.len(),
{
    if s.len() == 0 {
        assert(s.skip(0) =~= Seq::empty());
        0
    } else {
        let t = s.drop_last();
        let k = lines_stand_between(t);
        let done = lines(t).0;
        assert forall|i: int| 0 <= i < done.len() implies is_ended(s, #[trigger] done[i]) by {
            ended_stays_ended(s, done[i]);
        }
        if s.last() != '\n' {
            assert(s.skip(k) =~= t.skip(k).push(s.last()));
            assert forall|i: int| k <= i < s.len() implies #[trigger] s[i] != '\n' by {
                if i < t.len() {
                    assert(t[i] != '\n');
                }
            }
            k
        } else {
            assert(s.skip(s.len() as int) =~= Seq::empty());
            if k < t.len() {
                assert forall|i: int| k <= i < t.len() implies #[trigger] s[i] != '\n' by {
                    assert(t[i] != '\n');
                }
                assert(is_line(s, k, t.len() as int));
                assert(s.subrange(k, t.len() as int) =~= t.skip(k));
                assert(is_ended(s, t.skip(k)));
                assert(lines(s).0 == done.push(t.skip(k)));
            }
            s.len() as int
        }
    }
}

/// A name that is listed among lines is a whole line of them, between two ends of
/// lines or the ends of the text.
pub proof fn listed_names_are_lines(s: Seq<char>, line: Seq<char>) -> (r: (int, int))
    requires
        line.len() > 0,
        lines(s).0.contains(line) || lines(s).1 == line,
    ensures
        is_line(s, r.0, r.1),
        r.1 == s.len() || s[r.1] == '\n',
        s.subrange(r.0, r.1) == line,
{
    let k = lines_stand_between(s);
    if lines(s).1 == line {
        assert(s.subrange(k, s.len() as int) =~= s.skip(k));
        (k, s.len() as int)
    } else {
        assert(is_ended(s, line));
        let (a, b) = choose|a: int, b: int|
            #[trigger] is_line(s, a, b) && b < s.len() && s[b] == '\n' && s.subrange(a, b) == line;
        (a, b)
    }
}

/// A line that is at its end is done.
proof fn ended_lines_are_done(s: Seq<char>, from: int, to: int)
    requires
        is_line(s, from, to),
        to < s.len(),
        s[to] == '\n',
    ensures
        lines(s).0.contains(s.subrange(from, to)),
    decreases s.len(),
{
    let t = s.drop_last();
    let line = s.subrange(from, to);
    assert(forall|i: int| 0 <= i < t.len() ==> t[i] == s[i]);
    assert(is_line(t, from, to));
    assert(t.subrange(from, to) =~= line);
    let done = lines(t).0;
    let all = lines(s).0;
    if to == t.len() {
        let j = lines_stand_between(t);
        if j < from {
            assert(t[from - 1] == '\n');
        } else if j > from {
            assert(t[j - 1] != '\n');
        }
        assert(t.skip(j) =~= line);
        assert(all[all.len() - 1] == line);
    } else {
        ended_lines_are_done(t, from, to);
        let i = choose|i: int| 0 <= i < done.len() && done[i] == line;
        assert(all[i] == line);
    }
}

/// Every whole line that is not empty is listed.
pub proof fn lines_are_listed(s: Seq<char>, from: int, to: int)
    requires
        is_line(s, from, to),
        to == s.len() || s[to] == '\n',
    ensures
        lines(s).0.contains(s.subrange(from, to)) || lines(s).1 == s.subrange(from, to),
{
    if to == s.len() {
        let k = lines_stand_between(s);
        if k < from {
            assert(s[from - 1] == '\n');
        } else if k > from {
            assert(s[k - 1] != '\n');
        }
        assert(s.skip(k) =~= s.subrange(from, to));
    } else {
        ended_lines_are_done(s, from, to);
    }
}

/// The active names that the service tells are those that are shown, and what was
/// offered before is stale.
pub proof fn told_names_are_active(s: StateView, n: Vec<String>, procs: Seq<ProcEntry>)
    requires
        s.list.matches_gen < u64::MAX,
    ensures
        ({
            let (t, effects) = updated(s, M::ActiveProcs(n), procs);
            &&& effects == Seq::<EffectView>::empty()
            &&& t.list.procs_active.len() == n@.len()
            &&& forall|i: int| 0 <= i < n@.len() ==> #[trigger] t.list.procs_active[i] == n@[i]@
            &&& t.list.matches == s.list.matches
            &&& t.list.matches_gen == s.list.matches_gen + 1
            &&& t == (StateView { list: t.list, ..s })
        }),
{
}

/// Where the link to the service fails, the request that was under way is taken back
/// and nothing of the service is shown any more.
pub proof fn failed_link_takes_back_and_forgets(s: StateView, x: DbusError, procs: Seq<ProcEntry>)
    ensures
        ({
            let (t, effects) = updated(s, M::DbusFail(x), procs);
            let (u, first) = updated(s, M::DbusErr(x), procs);
            let (v, second) = updated(u, M::DbusCantConnect(x), procs);
            &&& t == v
            &&& effects == first + second
        }),
{
}

/// Asking for the status shows the error of the connection, where there is one.
pub proof fn status_shows_error(s: StateView, procs: Seq<ProcEntry>)
    ensures
        ({
            let (t, effects) = updated(s, M::StatusShow, procs);
            &&& s.errors.dbus_conn_err is None ==> t == s && effects == Seq::<EffectView>::empty()
            &&& s.errors.dbus_conn_err is Some ==> t.errors.dbus_errs == s.errors.dbus_errs.push(
                s.errors.dbus_conn_err->0,
            )
        }),
{
}

/// An error that is shown can be read, but not changed.
pub proof fn errors_cannot_be_changed(s: StateView, changes: bool, procs: Seq<ProcEntry>)
    ensures
        updated(s, M::ModalEditAction(changes), procs).0 == s,
        updated(s, M::ModalEditAction(changes), procs).1.len() > 0 <==> !changes && s.errors.modal
            is Some,
        !changes && s.errors.modal is Some ==> updated(s, M::ModalEditAction(changes), procs).1
            == seq![EffectView::ModalPerform],
{
}

/// Opening the window where it is closed tells the service so and opens it; where it
/// is open nothing happens.
pub proof fn opening_is_told(s: StateView, procs: Seq<ProcEntry>)
    ensures
        ({
            let (t, effects) = updated(s, M::WindowOpen, procs);
            &&& s.shell.window ==> t == s && effects == Seq::<EffectView>::empty()
            &&& !s.shell.window ==> t.shell.window && effects == seq![
                EffectView::Send(DView::WindowOpened),
                EffectView::OpenWindow,
            ]
            &&& !s.shell.window ==> updated(s, M::WindowToggle, procs) == (t, effects)
            &&& !s.shell.window ==> updated(s, M::WindowCloseId, procs) == (
                s,
                Seq::<EffectView>::empty(),
            )
            &&& updated(s, M::TrayUp, procs).0.shell.tray_up
            &&& updated(s, M::TrayUp, procs).0.shell.window == s.shell.window
        }),
{
}

/// Where the pointer and the text cursor are is kept apart for what is typed in and
/// for what is offered beside it, and coming and going changes nothing else.
pub proof fn focus_is_kept(s: StateView, procs: Seq<ProcEntry>)
    ensures
        updated(s, M::MatchFocus, procs) == (
            StateView { proc: ProcView { input_focus: true, ..s.proc }, ..s },
            Seq::<EffectView>::empty(),
        ),
        updated(s, M::MatchUnfocus, procs) == (
            StateView { proc: ProcView { input_focus: false, ..s.proc }, ..s },
            seq![EffectView::UnfocusProc],
        ),
        updated(s, M::ProcPopupFocus, procs) == (
            StateView { proc: ProcView { popup_focus: true, ..s.proc }, ..s },
            Seq::<EffectView>::empty(),
        ),
        updated(s, M::ProcPopupUnfocus, procs) == (
            StateView { proc: ProcView { popup_focus: false, ..s.proc }, ..s },
            Seq::<EffectView>::empty(),
        ),
        updated(s, M::OutputDevClick, procs) == (
            StateView { output_dev: OutputView { input_focus: true, ..s.output_dev }, ..s },
            Seq::<EffectView>::empty(),
        ),
        updated(s, M::OutputDevPopupFocus, procs) == (
            StateView { output_dev: OutputView { popup_focus: true, ..s.output_dev }, ..s },
            Seq::<EffectView>::empty(),
        ),
        updated(s, M::SettingsOpen, procs).0.panel.show_settings,
        updated(s, M::SettingsOpen, procs).0.panel.settings == s.panel.settings,
        updated(s, M::SettingsOpen, procs).1 == Seq::<EffectView>::empty(),
{
}

/// Programs that are offered run, fit what is typed in under the kind that is picked,
/// and come in the order of their names, each once.
pub proof fn offered_programs_fit(s: StateView, n: String, procs: Seq<ProcEntry>, i: int)
    requires
        n@.len() > 0,
        procs.len() <= u32::MAX,
        updated(s, M::Procs(n), procs).0.proc.procs_all is Some,
        0 <= i < updated(s, M::Procs(n), procs).0.proc.procs_all->0.len(),
    ensures
        ({
            let t = updated(s, M::Procs(n), procs).0;
            let v = t.proc.procs_all->0;
            let kind = match t.proc.kind {
                Pick::Basename => "basename"@,
                Pick::Substring => "substring"@,
                Pick::Prefix => "prefix"@,
                Pick::Ipv4 => "ipv4"@,
                Pick::Subnet => "ipv4/subnet"@,
                Pick::Dns => "dns"@,
            };
            &&& v.len() <= 10
            &&& t.proc.procs_all_max == 10
            &&& forall|m: MatchText|
                m.pattern == n@ && m.kind == kind ==> #[trigger] matches_text(m, v[i].0)
            &&& exists|k: int| 0 <= k < procs.len() && program(#[trigger] procs[k]) == Some(v[i].0)
            &&& v[i].1 > 0
            &&& forall|j: int| 0 <= j < i ==> comes_before((#[trigger] v[j]).0, v[i].0)
        }),
{
    let t = updated(s, M::Procs(n), procs).0;
    let v = t.proc.procs_all->0;
    let f = FilterView::Matching(typed_match(t.proc));
    tally_is_listed(procs, f, OFFERED as nat);
    tally_bounds(procs, f, OFFERED as nat);
    counted_programs_run(procs, f, OFFERED as nat, v[i].0);
    assert(tally(procs, f, OFFERED as nat).dom().contains(v[i].0));
}

/// A program that is counted runs and was asked for.
proof fn counted_programs_run(
    es: Seq<ProcEntry>,
    filter: FilterView,
    max_len: nat,
    exe: Seq<char>,
)
    ensures
        tally(es, filter, max_len).dom().contains(exe) ==> filter.admits(exe) && tally(
            es,
            filter,
            max_len,
        )[exe] > 0 && exists|k: int| 0 <= k < es.len() && program(#[trigger] es[k]) == Some(exe),
    decreases es.len(),
{
    if es.len() > 0 {
        let front = es.drop_last();
        counted_programs_run(front, filter, max_len, exe);
        if program(es.last()) == Some(exe) {
            assert(program(es[es.len() - 1]) == Some(exe));
        }
        if exists|k: int| 0 <= k < front.len() && program(#[trigger] front[k]) == Some(exe) {
            let k = choose|k: int| 0 <= k < front.len() && program(#[trigger] front[k]) == Some(exe);
            assert(es[k] == front[k]);
        }
    }
}

/// Devices are offered while the output is typed in, and not otherwise; a server for
/// names is one where it is written as an address.
pub proof fn devices_are_offered_while_typing(
    s: StateView,
    devices: Seq<Seq<char>>,
    v: Seq<char>,
)
    ensures
        devices_offered(s, devices) is Some <==> s.output_dev.popup_focus
            || s.output_dev.input_focus,
        is_address(v) <==> exists|a: u32| #[trigger] dotted(a) == v,
        s.errors.dbus_errs.len() == 1 ==> count_of(s.errors).len() == 0,
        s.errors.dbus_errs.len() > 1 ==> count_of(s.errors) == "1 / "@ + decimal(
            s.errors.dbus_errs.len(),
        ),
{
}

/// An entry is that of a process where its name holds nothing but digits and the
/// program can be read.
pub proof fn processes_have_numbers(e: ProcEntry)
    ensures
        program(e) is Some <==> e.exe is Some && forall|i: int|
            0 <= i < e.name@.len() ==> '0' <= #[trigger] e.name@[i] <= '9',
        program(e) is Some ==> program(e)->0 == e.exe->0@,
{
    if program(e) is Some {
        assert forall|i: int| 0 <= i < e.name@.len() implies '0' <= #[trigger] e.name@[i] <= '9' by {
            assert(is_digit(e.name@[i]));
        }
    }
    if e.exe is Some && (forall|i: int|
        0 <= i < e.name@.len() ==> '0' <= #[trigger] e.name@[i] <= '9') {
        assert forall|i: int| 0 <= i < e.name@.len() implies is_digit(#[trigger] e.name@[i]) by {}
    }
}

/// A listed match is shown under the kind that it names, and as a part of a text
/// where it names none of those that are offered.
pub proof fn lines_show_kinds(s: StateView, r: RowView, kind: Pick)
    requires
        r.edited is None,
    ensures
        r.m.kind == kind.spelling() ==> line_of(s, r).kind == kind,
        (forall|k: Pick| r.m.kind != #[trigger] k.spelling()) ==> line_of(s, r).kind
            == Pick::Substring,
        kind.spelling() == match kind {
            Pick::Basename => "basename"@,
            Pick::Substring => "substring"@,
            Pick::Prefix => "prefix"@,
            Pick::Ipv4 => "ipv4"@,
            Pick::Subnet => "ipv4/subnet"@,
            Pick::Dns => "dns"@,
        },
{
    pick_reads_back(kind);
    if forall|k: Pick| r.m.kind != #[trigger] k.spelling() {
        assert(r.m.kind != Pick::Basename.spelling());
        assert(r.m.kind != Pick::Substring.spelling());
        assert(r.m.kind != Pick::Prefix.spelling());
        assert(r.m.kind != Pick::Ipv4.spelling());
        assert(r.m.kind != Pick::Subnet.spelling());
        assert(r.m.kind != Pick::Dns.spelling());
    }
}

/// Coming back to the output counts as typing where the text or what is offered beside
/// it was pointed at.
pub proof fn output_is_typed_on(s: StateView, procs: Seq<ProcEntry>)
    ensures
        updated(s, M::OutputDevFocus, procs).0.output_dev.input_focus == (s.output_dev.input_focus
            || s.output_dev.popup_focus),
        updated(s, M::OutputDevFocus, procs).0.output_dev.input == s.output_dev.input,
        updated(s, M::OutputDevFocus, procs).1 == Seq::<EffectView>::empty(),
{
}

/// The error that is shown is always the first one, also when it is shown anew.
pub proof fn first_error_is_shown_anew(s: StateView, procs: Seq<ProcEntry>)
    ensures
        s.errors.dbus_errs.len() > 0 ==> updated(s, M::ModalReplace, procs).1 == seq![
            EffectView::ModalText(Some(s.errors.dbus_errs[0].text)),
        ],
        s.errors.dbus_errs.len() == 0 ==> updated(s, M::ModalReplace, procs).1 == seq![
            EffectView::ModalText(None),
        ],
        updated(s, M::ModalReplace, procs).0.errors.dbus_errs == s.errors.dbus_errs,
{
}

/// Numbers that the service tells are those that are shown.
pub proof fn told_numbers_are_shown(s: StateView, n: Stats, procs: Seq<ProcEntry>)
    ensures
        updated(s, M::Stats(n), procs) == (
            StateView { stats: n, ..s },
            Seq::<EffectView>::empty(),
        ),
{
}

/// The window starts closed, in the theme of the panel, with nothing known of the
/// service and nothing typed in; a new match would redirect what holds a text.
pub proof fn window_starts_empty(theme: TrayTheme)
    ensures
        ({
            let s = first_state(theme);
            &&& s.shell.tray_theme == theme
            &&& !s.shell.window && !s.shell.tray_up
            &&& !s.attached.attached && !s.attached.enabled
            &&& s.list.matches.len() == 0
            &&& s.proc.input.len() == 0 && !s.proc.input_sent
            &&& s.proc.dir == Direction::redirect
            &&& s.proc.kind == Pick::Substring
            &&& s.output_dev.input.len() == 0
            &&& s.errors.dbus_errs.len() == 0 && s.errors.dbus_conn_err is None
            &&& !s.panel.show_settings
            &&& s.panel.settings == s.panel.settings_override
        }),
{
}

} // verus!
