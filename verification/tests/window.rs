use rebpf::gui::laws::needs_programs;
use rebpf::gui::message::{Attached, Match, Settings, Stats, Tray, TrayTheme, D};
use rebpf::gui::procs::ProcEntry;
use rebpf::gui::state::{DbusError, Effect, Pick, State, M};
use rebpf::gui::update::{is_answerable, update};
use rebpf::gui::view::{direction_letter, view, Cover, Switch};
use rebpf::kinds::Direction;

fn step(s: &mut State, m: M) -> Vec<Effect> {
    update(s, m, &vec![])
}

fn shown(kind: &str, pattern: &str) -> Match {
    Match {
        kind: kind.to_string(),
        pattern: pattern.to_string(),
        direction: "redirect".to_string(),
        ..Match::default()
    }
}

fn attached(enabled: bool, ifname: &str) -> Attached {
    Attached { enabled, attached: true, to_ifname: ifname.to_string(), ..Attached::default() }
}

fn err(text: &str, service_unknown: bool) -> DbusError {
    DbusError { text: text.to_string(), service_unknown }
}

fn programs() -> Vec<ProcEntry> {
    ["/usr/bin/curl", "/usr/bin/curl", "/opt/curlew", "/bin/ssh"]
        .iter()
        .map(|e| ProcEntry { name: "1".to_string(), exe: Some(e.to_string()) })
        .collect()
}

#[test]
fn window_opens_and_closes() {
    let mut s = State::new(TrayTheme::Dark);
    let e = step(&mut s, M::WindowOpen);
    assert!(matches!(e[..], [Effect::Send(D::WindowOpened), Effect::OpenWindow]));
    assert!(step(&mut s, M::WindowOpen).is_empty());
    let e = step(&mut s, M::WindowToggle);
    assert!(matches!(e[..], [Effect::Send(D::WindowClosed), Effect::Exit]));
    assert!(step(&mut s, M::WindowCloseId).is_empty());
    step(&mut s, M::TrayUp);
    step(&mut s, M::WindowToggle);
    assert!(s.shell.window);
    let e = step(&mut s, M::WindowCloseId);
    assert!(matches!(e[..], [Effect::Send(D::WindowClosed), Effect::CloseWindow]));
    assert!(matches!(step(&mut s, M::Exit)[..], [Effect::Exit]));
    assert!(matches!(step(&mut s, M::Enable)[..], [Effect::Send(D::Enable)]));
    assert!(matches!(step(&mut s, M::Disable)[..], [Effect::Send(D::Disable)]));
}

#[test]
fn settings_are_sent_when_they_change() {
    let mut s = State::new(TrayTheme::Dark);
    let told = Settings { allow_lan: true, ..Settings::default() };
    assert!(step(&mut s, M::Settings(told)).is_empty());
    assert!(step(&mut s, M::SettingsSubmit).is_empty());
    let e = step(&mut s, M::SettingsDns(true));
    assert!(matches!(&e[..], [Effect::Send(D::SettingsUpdate(n))] if n.spoof_dns && n.allow_lan));
    assert!(step(&mut s, M::SettingsDnsIp("8.8.4.4".to_string())).is_empty());
    let e = step(&mut s, M::SettingsDnsIpSubmit);
    assert!(matches!(&e[..], [Effect::Send(D::SettingsUpdate(n))] if n.spoof_dns_ipv4 == "8.8.4.4"));
    step(&mut s, M::SettingsOpen);
    assert_eq!(view(&s, &vec![]).cover, Cover::Settings);
    assert!(view(&s, &vec![]).dns_ip_ok);
    assert_eq!(step(&mut s, M::SettingsClose).len(), 1);
    assert!(!s.panel.show_settings);
    let e = step(&mut s, M::SettingsLan(false));
    assert!(matches!(&e[..], [Effect::Send(D::SettingsUpdate(n))] if !n.allow_lan));
    let e = step(&mut s, M::SettingsDropEgressWithoutOutput(true));
    assert!(matches!(&e[..], [Effect::Send(D::SettingsUpdate(n))] if n.drop_egress_without_output));
}

#[test]
fn output_is_typed_and_sent() {
    let mut s = State::new(TrayTheme::Light);
    let e = step(&mut s, M::Attached(attached(true, "tun0")));
    assert!(matches!(
        &e[..],
        [Effect::Tray(t)] if t.state == Tray::Enabled && t.theme == TrayTheme::Light && t.output_dev == "tun0"
    ));
    assert_eq!(s.output_dev.input, "tun0");
    step(&mut s, M::OutputDevClick);
    step(&mut s, M::OutputDevSet("wg".to_string()));
    let devices = vec!["eth0".to_string(), "wgx".to_string(), "wg".to_string(), "wlan0".to_string()];
    let v = view(&s, &devices);
    assert_eq!(v.devices.unwrap(), ["wg", "wgx", "wlan0", "eth0"]);
    let devices = vec!["eth0".to_string(), "wg0".to_string()];
    let v = view(&s, &devices);
    assert!(!v.output_found);
    assert_eq!(v.devices.unwrap(), ["wg0", "eth0"]);
    let e = step(&mut s, M::OutputDevSubmit);
    assert!(matches!(
        &e[..],
        [Effect::Send(D::ChangeOutput(n)), Effect::UnfocusOutputDev] if n == "wg"
    ));
    assert!(view(&s, &devices).devices.is_none());
    assert!(matches!(step(&mut s, M::OutputDevSubmit)[..], [Effect::UnfocusOutputDev]));
    let e = step(&mut s, M::OutputDevSetSubmit("wg0".to_string()));
    assert_eq!(e.len(), 2);
    assert!(view(&s, &devices).output_found);
}

#[test]
fn output_is_left_through_its_list() {
    let mut s = State::new(TrayTheme::Dark);
    step(&mut s, M::OutputDevClick);
    step(&mut s, M::OutputDevPopupFocus);
    assert!(step(&mut s, M::OutputDevUnfocus).is_empty());
    assert!(!s.output_dev.input_focus && s.output_dev.popup_focus);
    step(&mut s, M::OutputDevFocus);
    assert!(s.output_dev.input_focus);
    assert!(step(&mut s, M::OutputDevPopupUnfocus).is_empty());
    assert!(!s.output_dev.popup_focus);
    assert_eq!(step(&mut s, M::OutputDevUnfocus).len(), 1);
    assert!(!s.output_dev.input_focus);
    step(&mut s, M::OutputDevFocus);
    assert!(!s.output_dev.input_focus);
    assert_eq!(step(&mut s, M::OutputDevPopupUnfocus).len(), 1);
}

#[test]
fn match_is_typed_and_added() {
    let mut s = State::new(TrayTheme::Dark);
    assert!(needs_programs(&M::Procs(String::new())) && !needs_programs(&M::MatchAdd));
    step(&mut s, M::MatchFocus);
    update(&mut s, M::Procs("curl".to_string()), &programs());
    let v = view(&s, &vec![]);
    let offer = v.programs.unwrap();
    assert_eq!(offer.labels, ["/opt/curlew (1)", "/usr/bin/curl (2)"]);
    assert!(!offer.more);
    update(&mut s, M::MatchFromProc(0, 1), &programs());
    assert_eq!((s.proc.input.as_str(), s.proc.kind), ("curl", Pick::Basename));
    assert_eq!(s.proc.procs_all.as_ref().unwrap().len(), 1);
    assert!(view(&s, &vec![]).programs.is_none());
    step(&mut s, M::MatchDir);
    let e = step(&mut s, M::MatchAdd);
    match &e[..] {
        [Effect::Send(D::MatchAdd(m)), Effect::UnfocusProc] => {
            assert_eq!((m.pattern.as_str(), m.kind.as_str()), ("curl", "basename"));
            assert_eq!((m.direction.as_str(), m.user.as_str()), ("bypass", ""));
        }
        e => panic!("{e:?}"),
    }
    step(&mut s, M::Matches(vec![shown("basename", "ssh")]));
    assert_eq!(s.proc.input, "curl");
    step(&mut s, M::Matches(vec![shown("basename", "ssh"), shown("basename", "curl")]));
    assert_eq!(s.proc.input, "");
    assert_eq!(s.list.matches_gen, 2);
}

#[test]
fn picked_kind_is_given_up() {
    let mut s = State::new(TrayTheme::Dark);
    update(&mut s, M::Procs("curl".to_string()), &programs());
    update(&mut s, M::MatchFromProc(0, 0), &programs());
    update(&mut s, M::Procs("ssh".to_string()), &programs());
    assert_eq!(s.proc.kind, Pick::Substring);
    step(&mut s, M::Kind(Pick::Prefix));
    update(&mut s, M::Procs("ssh".to_string()), &programs());
    assert_eq!(s.proc.kind, Pick::Prefix);
    update(&mut s, M::Procs(String::new()), &programs());
    assert!(s.proc.procs_all.is_none());
    step(&mut s, M::ProcPopupFocus);
    assert!(view(&s, &vec![]).programs.is_none());
    step(&mut s, M::ProcPopupUnfocus);
    assert!(matches!(step(&mut s, M::MatchUnfocus)[..], [Effect::UnfocusProc]));
}

#[test]
fn many_programs_are_cut_off() {
    let mut s = State::new(TrayTheme::Dark);
    let ps: Vec<ProcEntry> = (0..20)
        .map(|i| ProcEntry { name: i.to_string(), exe: Some(format!("/bin/p{i}")) })
        .collect();
    step(&mut s, M::MatchFocus);
    update(&mut s, M::Procs("p".to_string()), &ps);
    let offer = view(&s, &vec![]).programs.unwrap();
    assert_eq!(offer.labels.len(), 10);
    assert!(offer.more);
}

#[test]
fn matches_are_changed() {
    let mut s = State::new(TrayTheme::Dark);
    step(&mut s, M::Matches(vec![shown("dns", "a"), shown("path", "b")]));
    assert!(step(&mut s, M::MatchUpdate(1, 1, "c".to_string())).is_empty());
    assert_eq!(view(&s, &vec![]).lines[1].pattern, "c");
    let e = step(&mut s, M::MatchSubmit(1, 1));
    assert!(matches!(
        &e[..],
        [Effect::Send(D::MatchUpdate(f, t)), Effect::UnfocusMatch(1)] if f.pattern == "b" && t.pattern == "c"
    ));
    assert!(matches!(step(&mut s, M::MatchSubmit(1, 1))[..], [Effect::UnfocusMatch(1)]));
    let e = step(&mut s, M::MatchKind(1, 0, Pick::Subnet));
    assert!(matches!(&e[0], Effect::Send(D::MatchUpdate(_, t)) if t.kind == "ipv4/subnet"));
    let e = step(&mut s, M::MatchUpdateDir(1, 0));
    assert!(matches!(&e[0], Effect::Send(D::MatchUpdate(_, t)) if t.direction == "bypass"));
    let e = step(&mut s, M::MatchDelete(1, 0));
    assert!(matches!(&e[..], [Effect::Send(D::MatchDelete(m))] if m.pattern == "a"));
}

#[test]
fn other_generations_are_passed_over() {
    let mut s = State::new(TrayTheme::Dark);
    step(&mut s, M::Matches(vec![shown("dns", "a")]));
    step(&mut s, M::ActiveProcs(vec!["a.".to_string()]));
    assert_eq!(s.list.matches_gen, 2);
    assert!(step(&mut s, M::MatchDelete(1, 0)).is_empty());
    assert!(step(&mut s, M::MatchSubmit(1, 9)).is_empty());
    assert!(step(&mut s, M::MatchFromProc(1, 9)).is_empty());
    assert!(step(&mut s, M::MatchKind(1, 9, Pick::Dns)).is_empty());
    assert!(step(&mut s, M::MatchUpdate(1, 9, String::new())).is_empty());
    assert!(step(&mut s, M::MatchUpdateDir(1, 9)).is_empty());
    assert!(s.list.matches[0].edited.is_none());
}

#[test]
fn lines_show_what_is_active() {
    let mut s = State::new(TrayTheme::Dark);
    let unknown = Match { direction: "bypass".to_string(), ..shown("path", "b") };
    step(&mut s, M::Matches(vec![shown("dns", "a"), unknown]));
    step(&mut s, M::ActiveProcs(vec!["a.".to_string()]));
    let v = view(&s, &vec![]);
    assert!(v.lines[0].active && !v.lines[1].active);
    assert_eq!((v.lines[0].kind, v.lines[0].direction), (Pick::Dns, Direction::redirect));
    assert_eq!((v.lines[1].kind, v.lines[1].direction), (Pick::Substring, Direction::bypass));
    assert_eq!(direction_letter(v.lines[1].direction), "B");
    assert_eq!(direction_letter(v.lines[0].direction), "R");
    step(&mut s, M::SettingsOpen);
    assert!(!view(&s, &vec![]).lines[0].active);
}

#[test]
fn refusals_are_shown_one_after_the_other() {
    let mut s = State::new(TrayTheme::Dark);
    step(&mut s, M::Attached(attached(false, "tun0")));
    step(&mut s, M::Matches(vec![shown("dns", "a")]));
    step(&mut s, M::Settings(Settings { allow_lan: true, ..Settings::default() }));
    assert_eq!(step(&mut s, M::SettingsDns(true)).len(), 1);
    step(&mut s, M::OutputDevSet("x".to_string()));
    step(&mut s, M::MatchUpdate(1, 0, "c".to_string()));
    let e = step(&mut s, M::DbusErr(err("first", false)));
    assert!(matches!(&e[..], [Effect::ModalText(Some(t))] if t == "first"));
    assert_eq!(s.output_dev.input, "tun0");
    assert!(s.list.matches[0].edited.is_none());
    assert!(s.panel.settings.allow_lan && !s.panel.settings.spoof_dns);
    assert!(s.panel.settings_override.allow_lan && !s.panel.settings_override.spoof_dns);
    assert!(step(&mut s, M::SettingsSubmit).is_empty());
    assert!(matches!(
        &step(&mut s, M::SettingsDns(true))[..],
        [Effect::Send(D::SettingsUpdate(n))] if n.spoof_dns && n.allow_lan
    ));
    step(&mut s, M::SettingsDns(false));
    assert_eq!(view(&s, &vec![]).error_count, "");
    assert!(step(&mut s, M::DbusErr(err("second", false))).is_empty());
    let v = view(&s, &vec![]);
    assert_eq!((v.error_count.as_str(), v.cover), ("1 / 2", Cover::Error));
    assert!(matches!(step(&mut s, M::ModalEditAction(false))[..], [Effect::ModalPerform]));
    assert!(step(&mut s, M::ModalEditAction(true)).is_empty());
    let e = step(&mut s, M::ModalNext);
    assert!(matches!(&e[..], [Effect::ModalText(Some(t))] if t == "second"));
    let e = step(&mut s, M::Esc);
    assert!(matches!(e[..], [Effect::ModalText(None)]));
    assert!(s.errors.modal.is_none());
    assert!(step(&mut s, M::ModalEditAction(false)).is_empty());
    assert!(step(&mut s, M::Nop).is_empty() && step(&mut s, M::ModalDismiss).is_empty());
    assert_eq!(step(&mut s, M::ModalReplace).len(), 1);
}

#[test]
fn escape_leaves_what_is_open() {
    let mut s = State::new(TrayTheme::Dark);
    step(&mut s, M::SettingsOpen);
    step(&mut s, M::MatchFocus);
    update(&mut s, M::Procs("p".to_string()), &programs());
    step(&mut s, M::Esc);
    assert!(!s.panel.show_settings && s.proc.input_focus);
    step(&mut s, M::Esc);
    assert!(!s.proc.input_focus);
    assert!(step(&mut s, M::Esc).is_empty());
}

#[test]
fn status_line_says_how_things_are() {
    let mut s = State::new(TrayTheme::Dark);
    let status = |s: &State| {
        let v = view(s, &vec![]);
        (v.status, v.warning, v.switch)
    };
    assert_eq!(status(&s), ("Not connected".to_string(), true, Switch::Idle));
    step(&mut s, M::Attached(attached(true, "")));
    assert_eq!(status(&s), ("Status: Enabled".to_string(), false, Switch::Disable));
    step(&mut s, M::Attached(attached(false, "")));
    assert_eq!(status(&s), ("Status: Disabled".to_string(), false, Switch::Enable));
    let down = Attached { blocker: "down".to_string(), ..attached(true, "") };
    step(&mut s, M::Attached(down));
    assert_eq!(status(&s), ("down".to_string(), true, Switch::Disable));
    let e = step(&mut s, M::DbusCantConnect(err("gone", true)));
    assert!(matches!(&e[..], [Effect::Tray(t)] if t.state == Tray::NotConnected));
    assert_eq!(status(&s).0, "Service not started");
    assert!(view(&s, &vec![]).status_clickable);
    step(&mut s, M::StatusShow);
    assert!(!view(&s, &vec![]).status_clickable);
    assert_eq!(s.errors.modal.as_deref(), Some("gone"));
    step(&mut s, M::ModalNext);
    let e = step(&mut s, M::DbusFail(err("broken", false)));
    assert!(matches!(&e[..], [Effect::ModalText(Some(_)), Effect::Tray(_)]));
    assert_eq!(status(&s).0, "broken");
    step(&mut s, M::DbusConnected);
    assert_eq!(status(&s).0, "Not connected");
    assert!(step(&mut s, M::StatusShow).is_empty());
    step(&mut s, M::Stats(Stats { tx_bytes: 1, rx_bytes: 2 }));
    assert_eq!(s.stats.rx_bytes, 2);
}

#[test]
fn kinds_are_offered() {
    let all: Vec<&str> = Pick::all().iter().map(|p| p.name()).collect();
    assert_eq!(all, ["basename", "substring", "prefix", "ipv4", "ipv4/subnet", "dns"]);
    for p in Pick::all() {
        assert_eq!(Pick::kind_or_unk(p.name()), p);
    }
    assert_eq!(Pick::kind_or_unk("path"), Pick::Substring);
}

#[test]
fn what_is_not_there_is_not_answerable() {
    let mut s = State::new(TrayTheme::Dark);
    step(&mut s, M::Matches(vec![shown("basename", "curl")]));
    let g = s.list.matches_gen;
    assert!(is_answerable(&s, &M::MatchDelete(g, 0)));
    assert!(!is_answerable(&s, &M::MatchDelete(g, 1)));
    assert!(is_answerable(&s, &M::MatchDelete(g + 1, 1)));
    assert!(!is_answerable(&s, &M::MatchFromProc(g, 0)));
    assert!(is_answerable(&s, &M::Esc));
}

#[test]
fn failure_takes_settings_back() {
    let mut s = State::new(TrayTheme::Dark);
    step(&mut s, M::Settings(Settings { spoof_dns: true, ..Settings::default() }));
    step(&mut s, M::SettingsLan(true));
    step(&mut s, M::DbusFail(err("gone", true)));
    assert!(s.panel.settings.spoof_dns && !s.panel.settings.allow_lan);
    assert!(step(&mut s, M::SettingsSubmit).is_empty());
}

#[test]
fn few_programs_are_offered() {
    let mut s = State::new(TrayTheme::Dark);
    let many: Vec<ProcEntry> = (0..30)
        .map(|i| ProcEntry { name: format!("{i}"), exe: Some(format!("/bin/p{i}")) })
        .collect();
    update(&mut s, M::Procs("p".to_string()), &many);
    assert_eq!(s.proc.procs_all.as_ref().unwrap().len(), 10);
}

#[test]
fn only_new_generations_need_room() {
    let mut s = State::new(TrayTheme::Dark);
    s.list.matches_gen = u64::MAX;
    assert!(!is_answerable(&s, &M::Matches(vec![])));
    assert!(!is_answerable(&s, &M::ActiveProcs(vec![])));
    assert!(!is_answerable(&s, &M::DbusFail(err("x", false))));
    assert!(!is_answerable(&s, &M::DbusCantConnect(err("x", false))));
    assert!(is_answerable(&s, &M::DbusErr(err("x", false))));
    assert!(is_answerable(&s, &M::SettingsOpen));
    step(&mut s, M::SettingsOpen);
    assert!(s.panel.show_settings);
}
