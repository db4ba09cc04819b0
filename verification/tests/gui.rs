use rebpf::gui::hook::Hook;
use rebpf::gui::icons::{rgba_to_argb, tray_argb, tray_rgba, Drawings, DRAWING_LEN};
use rebpf::gui::message::{Attached, Match, Settings, Stats, Tray, TrayState, TrayTheme, D};
use rebpf::gui::procs::{procs_all, procs_all_with, Filter, ProcEntry};
use rebpf::gui::requests::{active_names, Call, Link, Probed, Property};
use rebpf::gui::tray::{
    event, event_group, get_group_properties, get_layout, icon_pixmap, simple_menu_layout, tool_tip,
    MenuAction,
};

fn fields(h: &[(&str, &str)]) -> Vec<(String, String)> {
    h.iter().map(|(k, v)| (k.to_string(), v.to_string())).collect()
}

fn pairs(h: &[(String, String)]) -> Vec<(&str, &str)> {
    h.iter().map(|(k, v)| (k.as_str(), v.as_str())).collect()
}

fn shown(kind: &str, pattern: &str) -> Match {
    Match { kind: kind.to_string(), pattern: pattern.to_string(), ..Match::default() }
}

fn names(v: &[&str]) -> Vec<String> {
    v.iter().map(|s| s.to_string()).collect()
}

#[test]
fn matches_pick_programs() {
    assert!(shown("basename", "curl").matches("/usr/bin/curl"));
    assert!(shown("basename", "curl").matches("curl"));
    assert!(!shown("basename", "url").matches("/usr/bin/curl"));
    assert!(shown("prefix", "/usr").matches("/usr/bin/curl"));
    assert!(!shown("prefix", "/bin").matches("/usr/bin/curl"));
    assert!(shown("substring", "bin/c").matches("/usr/bin/curl"));
    assert!(shown("substring", "").matches("/usr/bin/curl"));
    assert!(!shown("substring", "curls").matches("/usr/bin/curl"));
    assert!(shown("dns", "one.org").matches("..one.org."));
    assert!(!shown("dns", "one.org.").matches("one.org."));
    assert!(shown("ipv4", "1.1.1.1").matches("1.1.1.1"));
    assert!(!shown("path", "curl").matches("/usr/bin/curl"));
}

#[test]
fn base_names_are_looked_up_as_they_are() {
    assert!(shown("basename", "curl").is_in(&names(&["ssh", "curl"])));
    assert!(!shown("basename", "curl").is_in(&names(&["/usr/bin/curl"])));
    assert!(shown("substring", "cur").is_in(&names(&["ssh", "/usr/bin/curl"])));
    assert!(!shown("substring", "cur").is_in(&vec![]));
}

#[test]
fn matches_are_read_and_sent() {
    let m = Match::from_hashmap(&fields(&[("pattern", "a"), ("uid", "7"), ("method", "full")]));
    assert_eq!((m.pattern.as_str(), m.uid.as_str(), m.kind.as_str()), ("a", "7", ""));
    assert_eq!(pairs(&m.to_hashmap()), [("pattern", "a"), ("uid", "7")]);
}

#[test]
fn settings_are_read_and_sent() {
    let h = fields(&[("allow-lan", "true"), ("spoof_dns", "maybe"), ("spoof-dns-ipv4", "8.8.4.4")]);
    let s = Settings::from_hashmap(&h);
    assert!(s.allow_lan && !s.spoof_dns && !s.drop_egress_without_output);
    let expected = [
        ("allow_lan", "true"),
        ("spoof_dns", "false"),
        ("spoof_dns_ipv4", "8.8.4.4"),
        ("drop_egress_without_output", "false"),
    ];
    assert_eq!(pairs(&s.into_hashmap()), expected);
    assert!(s.same(&s.clone()));
    assert!(!s.same(&Settings::default()));
}

#[test]
fn state_of_the_service_is_read() {
    let a = Attached::from_hashmap(&fields(&[
        ("enabled", "true"),
        ("attached", "1"),
        ("to-ifname", "tun0"),
        ("to-ifindex", "7"),
        ("to-addr", "10.0.0.2"),
        ("blocker", "no"),
        ("to-is-up", "true"),
    ]));
    assert!(a.enabled && !a.attached);
    assert_eq!((a.to_ifname.as_str(), a.to_ifindex.as_str()), ("tun0", "7"));
    assert_eq!((a.to_addr.as_str(), a.blocker.as_str()), ("10.0.0.2", "no"));
    let s = Stats::from_hashmap(&fields(&[("tx-bytes", "5"), ("rx_bytes", "x"), ("other", "9")]));
    assert_eq!(s, Stats { tx_bytes: 5, rx_bytes: 0 });
}

fn drawings() -> Drawings {
    Drawings {
        warn_white: vec![1, 2, 3, 4],
        off_white: vec![5, 6, 7, 8],
        on_white: vec![9, 10, 11, 12],
        warn_black: vec![13, 14, 15, 16],
        off_black: vec![17, 18, 19, 20],
        on_black: vec![21, 22, 23, 24, 25, 26, 27, 28],
    }
}

#[test]
fn pixels_are_turned() {
    assert_eq!(rgba_to_argb(vec![1, 2, 3, 4, 5, 6, 7, 8]), vec![4, 1, 2, 3, 8, 5, 6, 7]);
    let d = drawings();
    assert_eq!(tray_rgba(&d, Tray::NotConnected, TrayTheme::Dark), d.warn_white);
    assert_eq!(tray_rgba(&d, Tray::Disabled, TrayTheme::Dark), d.off_white);
    assert_eq!(tray_rgba(&d, Tray::Enabled, TrayTheme::Dark), d.on_white);
    assert_eq!(tray_rgba(&d, Tray::NotConnected, TrayTheme::Light), d.warn_black);
    assert_eq!(tray_rgba(&d, Tray::Disabled, TrayTheme::Light), d.off_black);
    let turned = vec![24, 21, 22, 23, 28, 25, 26, 27];
    assert_eq!(tray_argb(&d, Tray::Enabled, TrayTheme::Light), turned);
}

#[test]
fn themes_of_the_desktop() {
    assert_eq!(TrayTheme::of_color_scheme(Some(2)), TrayTheme::Light);
    assert_eq!(TrayTheme::of_color_scheme(Some(1)), TrayTheme::Dark);
    assert_eq!(TrayTheme::of_color_scheme(None), TrayTheme::Dark);
    assert_eq!(TrayTheme::default(), TrayTheme::Dark);
}

fn tray(state: Tray, blocker: &str, output_dev: &str) -> TrayState {
    TrayState {
        state,
        theme: TrayTheme::Dark,
        blocker: blocker.to_string(),
        output_dev: output_dev.to_string(),
    }
}

#[test]
fn tray_tells_its_state() {
    assert_eq!(tool_tip(&tray(Tray::Enabled, "", "tun0")), "Rebpf: Enabled (tun0)");
    assert_eq!(tool_tip(&tray(Tray::Disabled, "", "")), "Rebpf: Disabled");
    assert_eq!(tool_tip(&tray(Tray::NotConnected, "", "")), "Rebpf: NotConnected");
    assert_eq!(tool_tip(&tray(Tray::Enabled, "down", "tun0")), "Rebpf: down (tun0)");
    let (w, h, p) = icon_pixmap(&drawings(), &tray(Tray::Disabled, "", ""));
    assert_eq!((w, h, p), (128, 128, vec![8, 5, 6, 7]));
}

#[test]
fn menu_of_the_tray() {
    let items = simple_menu_layout();
    let labels: Vec<(i32, &str)> = items.iter().map(|i| (i.id, i.label.as_str())).collect();
    assert_eq!(labels, [(2, "Enable"), (3, "Disable"), (4, "Quit Rebpf")]);
    assert!(matches!(event(2, "clicked"), Some(MenuAction::Send(D::Enable))));
    assert!(matches!(event(3, "clicked"), Some(MenuAction::Send(D::Disable))));
    assert!(matches!(event(4, "clicked"), Some(MenuAction::Exit)));
    assert!(event(2, "hovered").is_none() && event(5, "clicked").is_none());
    let group = vec![(4, "clicked".to_string()), (2, "x".to_string()), (3, "clicked".to_string())];
    let actions = event_group(&group);
    assert_eq!(actions.len(), 2);
    assert!(matches!(actions[0], MenuAction::Exit));
    let some = get_group_properties(&vec![4, 2, 9]);
    assert_eq!(some.iter().map(|i| i.id).collect::<Vec<_>>(), [2, 4]);
    assert_eq!(get_layout(0).items.len(), 3);
    let below = get_layout(3);
    assert!(below.items.is_empty() && !below.submenu && below.id == 3);
}

#[test]
fn hooks_tell_once() {
    let mut hovered = false;
    let mut h = Hook::new().on_hover(1).on_leave(2).on_click(3).show_clickable(true);
    assert!(h.update(&mut hovered, false, true).is_empty());
    assert_eq!(h.update(&mut hovered, true, true), vec![1, 3]);
    assert!(hovered && h.shows_pointer(true) && !h.shows_pointer(false));
    assert!(h.update(&mut hovered, true, true).is_empty());
    assert_eq!(h.update(&mut hovered, false, false), vec![2]);
    assert!(h.update(&mut hovered, true, false).is_empty());
    assert!(h.update(&mut hovered, false, false).is_empty());
}

fn proc(name: &str, exe: Option<&str>) -> ProcEntry {
    ProcEntry { name: name.to_string(), exe: exe.map(|e| e.to_string()) }
}

#[test]
fn programs_are_counted() {
    let ps = vec![
        proc("12", Some("/bin/b")),
        proc("self", Some("/bin/c")),
        proc("7", None),
        proc("13", Some("/bin/a")),
        proc("14", Some("/bin/b")),
    ];
    let all = procs_all(&ps);
    assert_eq!(all, [("/bin/a".to_string(), 1), ("/bin/b".to_string(), 2)]);
    let one = procs_all_with(&ps, &Filter::Any, 1);
    assert_eq!(one, [("/bin/b".to_string(), 1)]);
    let fit = procs_all_with(&ps, &Filter::Matching(shown("basename", "a")), 10);
    assert_eq!(fit, [("/bin/a".to_string(), 1)]);
    assert!(procs_all_with(&ps, &Filter::Any, 0).is_empty());
}

#[test]
fn requests_become_calls() {
    assert!(matches!(Call::of(D::WindowOpened), Call::AddWindow));
    assert!(matches!(Call::of(D::WindowClosed), Call::TakeWindow));
    let c = Call::of(D::MatchUpdate(shown("dns", "a"), shown("dns", "b")));
    match &c {
        Call::UpdateMatch(a, b) => {
            assert_eq!(pairs(a), [("pattern", "a"), ("kind", "dns")]);
            assert_eq!(pairs(b), [("pattern", "b"), ("kind", "dns")]);
        }
        c => panic!("{c:?}"),
    }
    assert!(c.reports_refusal() && !c.works_offline());
    assert!(!Call::of(D::Enable).reports_refusal());
    assert!(Call::of(D::WindowOpened).works_offline());
    assert_eq!(Property::of_name("Matches"), Some(Property::Matches));
    assert_eq!(Property::of_name("matches"), None);
}

#[test]
fn active_names_are_gathered() {
    let records = vec![fields(&[("ttl", "1"), ("name", "one.org.")]), fields(&[("name", "curl")])];
    let v = active_names(&records, "ssh\n\ncurl\nssh");
    assert_eq!(v, ["one.org.", "curl", "ssh"]);
    assert!(active_names(&vec![], "").is_empty());
}

#[test]
fn lost_service_is_told_once() {
    let mut l = Link::new();
    assert_eq!(l.probed(false), Probed::TellAndWait);
    assert_eq!(l.probed(false), Probed::Wait);
    assert_eq!(l.probed(true), Probed::Listen);
    assert_eq!(l.probed(false), Probed::TellAndWait);
}

#[test]
fn icon_has_as_many_pixels_as_it_tells() {
    let pixels: Vec<u8> = (0..4 * 128 * 128).map(|i| (i % 251) as u8).collect();
    let drawn = Drawings { on_white: pixels.clone(), ..drawings() };
    let (w, h, p) = icon_pixmap(&drawn, &tray(Tray::Enabled, "", ""));
    assert_eq!(p.len(), (4 * w * h) as usize);
    let at = 4 * 5000;
    assert_eq!(p[at], pixels[at + 3]);
    assert_eq!(p[at + 1..at + 4], pixels[at..at + 3]);
    assert_eq!(tray_argb(&drawn, Tray::Enabled, TrayTheme::Dark).len(), DRAWING_LEN);
}
