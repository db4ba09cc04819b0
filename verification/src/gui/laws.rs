//! What always holds of the window.

use crate::gui::message::{DView, MatchText, Settings, TrayTheme};
use crate::gui::procs::{tally_bounds, tally_is_listed, FilterView, ProcEntry};
use crate::gui::state::{first_state, DbusError, EffectView, StateView, M, OFFERED};
use crate::gui::update::{first_text, typed_match, unedited, updated};
use vstd::prelude::*;

verus! {

/// Whether the programs that are to be offered were looked for.
pub open spec fn programs_are_known(s: StateView) -> bool {
    (s.proc.popup_focus || s.proc.input_focus) && s.proc.input.len() > 0
        ==> s.proc.procs_all is Some
}

/// Whether a state is sound: where a match is being typed in, programs were looked
/// for, and the first error is the one that is shown.
pub open spec fn is_sound(s: StateView) -> bool {
    &&& s.proc.input.len() > 0 ==> s.proc.procs_all is Some
    &&& s.errors.modal == first_text(s.errors.dbus_errs)
}

/// The window starts in a sound state.
pub proof fn first_state_is_sound(theme: TrayTheme)
    ensures
        is_sound(first_state(theme)),
{
}

/// Whatever happens, a sound state is followed by a sound one.
pub proof fn soundness_is_kept(s: StateView, message: M, procs: Seq<ProcEntry>)
    requires
        is_sound(s),
    ensures
        is_sound(updated(s, message, procs).0),
        programs_are_known(updated(s, message, procs).0),
{
}

/// Whether no more programs are offered than there is room for.
pub open spec fn few_programs(s: StateView) -> bool {
    s.proc.procs_all matches Some(v) ==> v.len() <= OFFERED
}

/// Whatever happens, no more programs are offered than there is room for.
pub proof fn few_programs_are_offered(s: StateView, message: M, procs: Seq<ProcEntry>)
    requires
        few_programs(s),
        procs.len() <= u32::MAX,
    ensures
        few_programs(updated(s, message, procs).0),
{
    let t = updated(s, message, procs).0;
    let filter = FilterView::Matching(typed_match(t.proc));
    tally_bounds(procs, filter, OFFERED as nat);
    tally_is_listed(procs, filter, OFFERED as nat);
}

/// Whether something is about matches or programs of another generation.
pub open spec fn is_stale(gen: u64, message: M) -> bool {
    match message {
        M::MatchDelete(g, _) => g != gen,
        M::MatchKind(g, _, _) => g != gen,
        M::MatchUpdate(g, _, _) => g != gen,
        M::MatchUpdateDir(g, _) => g != gen,
        M::MatchSubmit(g, _) => g != gen,
        M::MatchFromProc(g, _) => g != gen,
        _ => false,
    }
}

/// What is about matches or programs of another generation changes nothing.
pub proof fn stale_is_passed_over(s: StateView, message: M, procs: Seq<ProcEntry>)
    requires
        is_stale(s.list.matches_gen, message),
    ensures
        updated(s, message, procs).0 == s,
        updated(s, message, procs).1 == Seq::<EffectView>::empty(),
{
}

/// The service is told of the window exactly when it opens or closes.
pub proof fn window_is_told(s: StateView, message: M, procs: Seq<ProcEntry>)
    ensures
        ({
            let (t, effects) = updated(s, message, procs);
            &&& effects.contains(EffectView::Send(DView::WindowOpened)) <==> !s.shell.window
                && t.shell.window
            &&& effects.contains(EffectView::Send(DView::WindowClosed)) <==> s.shell.window
                && !t.shell.window
        }),
{
    let (t, effects) = updated(s, message, procs);
    if effects.len() > 0 {
        assert(effects.contains(effects[0]));
    }
}

/// Opening and closing the window leaves the rest as it was.
pub proof fn window_toggles_back(s: StateView, procs: Seq<ProcEntry>)
    ensures
        updated(updated(s, M::WindowToggle, procs).0, M::WindowToggle, procs).0 == s,
{
}

/// Turning the direction twice leaves it as it was.
pub proof fn direction_turns_back(s: StateView, procs: Seq<ProcEntry>)
    ensures
        updated(updated(s, M::MatchDir, procs).0, M::MatchDir, procs).0 == s,
{
}

/// Settings that the service told are not sent back.
pub proof fn told_settings_are_not_sent(s: StateView, n: Settings, procs: Seq<ProcEntry>)
    ensures
        updated(updated(s, M::Settings(n), procs).0, M::SettingsSubmit, procs).1 == Seq::<
            EffectView,
        >::empty(),
{
}

/// What was typed in as the output is sent once.
pub proof fn output_is_sent_once(s: StateView, procs: Seq<ProcEntry>, to: Seq<char>)
    ensures
        !updated(updated(s, M::OutputDevSubmit, procs).0, M::OutputDevSubmit, procs).1.contains(
            EffectView::Send(DView::ChangeOutput(to)),
        ),
{
}

/// A refused request is taken back: the settings and the output are again those
/// that the service told, no match is being changed, and the error is the last of
/// those to be shown.
pub proof fn refusal_takes_back(s: StateView, x: DbusError, procs: Seq<ProcEntry>)
    ensures
        ({
            let t = updated(s, M::DbusErr(x), procs).0;
            &&& t.panel.settings == s.panel.settings_override
            &&& t.panel.settings_override == s.panel.settings_override
            &&& t.output_dev.input == s.attached.to_ifname
            &&& t.output_dev.input_sent
            &&& t.list.matches == unedited(s.list.matches)
            &&& t.errors.dbus_errs == s.errors.dbus_errs.push(x@)
            &&& t.attached == s.attached
        }),
{
}

/// Where a match is not being changed, leaving it sends nothing.
pub proof fn unchanged_match_is_not_sent(s: StateView, i: usize, procs: Seq<ProcEntry>)
    requires
        i < s.list.matches.len(),
        s.list.matches[i as int].edited is None,
    ensures
        updated(s, M::MatchSubmit(s.list.matches_gen, i), procs).0 == s,
        updated(s, M::MatchSubmit(s.list.matches_gen, i), procs).1 == seq![
            EffectView::UnfocusMatch(i),
        ],
{
    let t = updated(s, M::MatchSubmit(s.list.matches_gen, i), procs).0;
    assert(t.list.matches =~= s.list.matches);
}

/// Whether the running programs are looked at.
pub open spec fn looks_at_programs(message: M) -> bool {
    message is Procs || message is MatchFromProc
}

/// Where the running programs are not looked at, they do not matter.
pub proof fn programs_do_not_matter(
    s: StateView,
    message: M,
    a: Seq<ProcEntry>,
    b: Seq<ProcEntry>,
)
    requires
        !looks_at_programs(message),
    ensures
        updated(s, message, a) == updated(s, message, b),
{
}

/// Whether the running programs have to be looked at.
pub fn needs_programs(message: &M) -> (r: bool)
    ensures
        r == looks_at_programs(*message),
{
    match message {
        M::Procs(_) | M::MatchFromProc(..) => true,
        _ => false,
    }
}

/// Pressing the direction button of a match that is not being changed asks the
/// service for that match in the other direction: bypass where it was redirect, and
/// redirect where it was bypass. Nothing else of it changes.
pub proof fn direction_is_turned(s: StateView, i: usize, procs: Seq<ProcEntry>)
    requires
        i < s.list.matches.len(),
        s.list.matches[i as int].edited is None,
    ensures
        ({
            let m = s.list.matches[i as int].m;
            let (t, effects) = updated(s, M::MatchUpdateDir(s.list.matches_gen, i), procs);
            &&& m.direction == "redirect"@ ==> effects == seq![
                EffectView::Send(
                    DView::MatchUpdate(m, MatchText { direction: "bypass"@, ..m }),
                ),
                EffectView::UnfocusMatch(i),
            ]
            &&& m.direction == "bypass"@ ==> effects == seq![
                EffectView::Send(
                    DView::MatchUpdate(m, MatchText { direction: "redirect"@, ..m }),
                ),
                EffectView::UnfocusMatch(i),
            ]
            &&& t == s
        }),
{
    reveal_strlit("redirect");
    reveal_strlit("bypass");
    assert("redirect"@.len() != "bypass"@.len());
    let l = s.list.matches;
    let t = updated(s, M::MatchUpdateDir(s.list.matches_gen, i), procs).0;
    assert(t.list.matches =~= l);
}

/// Pressing the direction button again, once the service tells the match as it was
/// asked for, asks for the match as it was at first.
pub proof fn direction_is_turned_back(
    s: StateView,
    t: StateView,
    i: usize,
    to: MatchText,
    procs: Seq<ProcEntry>,
)
    requires
        i < s.list.matches.len(),
        i < t.list.matches.len(),
        s.list.matches[i as int].edited is None,
        t.list.matches[i as int].edited is None,
        s.list.matches[i as int].m.direction == "redirect"@
            || s.list.matches[i as int].m.direction == "bypass"@,
        updated(s, M::MatchUpdateDir(s.list.matches_gen, i), procs).1[0] == EffectView::Send(
            DView::MatchUpdate(s.list.matches[i as int].m, to),
        ),
        t.list.matches[i as int].m == to,
    ensures
        to.direction != s.list.matches[i as int].m.direction,
        updated(t, M::MatchUpdateDir(t.list.matches_gen, i), procs).1[0] == EffectView::Send(
            DView::MatchUpdate(to, s.list.matches[i as int].m),
        ),
{
    direction_is_turned(s, i, procs);
    direction_is_turned(t, i, procs);
    reveal_strlit("redirect");
    reveal_strlit("bypass");
    assert("redirect"@.len() != "bypass"@.len());
}

} // verus!
