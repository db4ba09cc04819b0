use rebpf::addr::{dotted_text, parse_ipv4};
use rebpf::config::Config;
use rebpf::dbus::{attached_property, needs_auth, needs_auth_to_replace};
use rebpf::error::Error;
use rebpf::fields::value_of;
use rebpf::kinds::{Direction, Kind, Method};
use rebpf::matching::Match;
use rebpf::route::{IpAddr, Route};
use rebpf::start::{kernel_is_supported, numbered_user, slot_name};
use rebpf::state::{load_state, start_enabled, Saver, State};
use rebpf::text::{decimal_text, parse_bool, parse_unsigned};

fn fields(h: &[(&str, &str)]) -> Vec<(String, String)> {
    h.iter().map(|(k, v)| (k.to_string(), v.to_string())).collect()
}

fn pairs(h: &[(String, String)]) -> Vec<(&str, &str)> {
    h.iter().map(|(k, v)| (k.as_str(), v.as_str())).collect()
}

fn owned(kind: Kind, uid: u32) -> Match {
    Match {
        pattern: "x".to_string(),
        kind,
        method: Method::full,
        direction: Direction::redirect,
        user: String::new(),
        uid,
    }
}

#[test]
fn own_processes_need_no_authorisation() {
    assert!(!needs_auth(0, &owned(Kind::dns, 7)));
    assert!(!needs_auth(5, &owned(Kind::basename, 5)));
    assert!(!needs_auth(5, &owned(Kind::path, 5)));
    assert!(needs_auth(5, &owned(Kind::path, 6)));
    assert!(needs_auth(5, &owned(Kind::dns, 5)));
    assert!(needs_auth(5, &owned(Kind::ipv4, 5)));
    let own = owned(Kind::path, 5);
    assert!(!needs_auth_to_replace(5, &own, &owned(Kind::basename, 5)));
    assert!(needs_auth_to_replace(5, &own, &owned(Kind::dns, 5)));
    assert!(needs_auth_to_replace(5, &owned(Kind::path, 0), &own));
    assert!(!needs_auth_to_replace(0, &owned(Kind::dns, 3), &owned(Kind::ipv4, 4)));
}

#[test]
fn state_is_switched() {
    let mut s = State::default();
    s.switch_on();
    assert!(s.enable);
    s.toggle();
    assert!(!s.enable);
    s.toggle();
    s.switch_off();
    assert!(!s.enable);
    s.change_output("tun0".to_string());
    assert_eq!(s.to_dev, "tun0");
}

#[test]
fn settings_are_updated_together() {
    let mut s = State::default();
    s.update_config(&fields(&[("allow_lan", "false"), ("dns_max_ttl_sec", "60")])).unwrap();
    assert!(!s.config.allow_lan);
    assert_eq!(s.config.dns_max_ttl_sec, 60);
    let r = s.update_config(&fields(&[("spoof_dns", "true"), ("spoof_dns_ipv4", "8.8.8")]));
    assert!(matches!(r, Err(Error::BadAddress(t)) if t == "8.8.8"));
    assert!(!s.config.spoof_dns);
    let r = s.update_config(&fields(&[("spoof_dns", "yes")]));
    assert!(matches!(r, Err(Error::BadBool(t)) if t == "yes"));
    let r = s.update_config(&fields(&[("dns_max_ttl_sec", "x")]));
    assert!(matches!(r, Err(Error::BadNumber(_))));
    let r = s.update_config(&fields(&[("other", "1")]));
    assert!(matches!(r, Err(Error::UnknownConfigField(t)) if t == "other"));
    assert_eq!(
        pairs(&s.config_property()),
        [
            ("probe_ipv4_addr", "1.2.3.4"),
            ("allow_lan", "false"),
            ("spoof_dns", "false"),
            ("spoof_dns_ipv4", "8.8.8.8"),
            ("drop_egress_without_output", "false"),
            ("dns_max_ttl_sec", "60")
        ]
    );
}

#[test]
fn settings_have_defaults() {
    let c = Config::default();
    assert_eq!(c.probe_ipv4_addr, 0x0102_0304);
    assert!(c.allow_lan && !c.spoof_dns && !c.drop_egress_without_output);
    assert_eq!((c.spoof_dns_ipv4, c.dns_max_ttl_sec), (0x0808_0808, 3600));
    assert_eq!(Config::from_hashmap(&c.to_hashmap(), &c).unwrap(), c);
}

#[test]
fn state_of_the_service_is_told() {
    let mut s = State::default();
    s.to_dev = "wg0".to_string();
    let r = attached_property(&s, false, &"no".to_string(), None);
    let expected = [("enabled", "false"), ("attached", "false"), ("blocker", "no"), ("to-ifname", "wg0")];
    assert_eq!(pairs(&r), expected);
    let to = Route {
        is_up: true,
        ifindex: 7,
        ifname: "tun0".to_string(),
        addrs: vec![IpAddr::V4(0x0a00_0002), IpAddr::V6(1)],
        gateway: None,
    };
    s.enable = true;
    let r = attached_property(&s, true, &String::new(), Some(&to));
    assert_eq!(
        pairs(&r),
        [
            ("enabled", "true"),
            ("attached", "true"),
            ("to-is-up", "true"),
            ("to-ifname", "tun0"),
            ("to-ifindex", "7"),
            ("to-addr", "10.0.0.2")
        ]
    );
}

#[test]
fn matches_are_listed() {
    let mut s = State::default();
    s.matches.matches = vec![owned(Kind::dns, 1), owned(Kind::path, 2)];
    let r = s.matches_property();
    assert_eq!(r.len(), 2);
    assert_eq!(pairs(&r[1])[1], ("kind", "path"));
    assert_eq!(pairs(&r[1])[4], ("uid", "2"));
}

fn kept(generation: u64, to_dev: &str) -> State {
    let mut s = State::default();
    s.generation = generation;
    s.to_dev = to_dev.to_string();
    s
}

#[test]
fn newest_slot_is_loaded() {
    let (s, i) = load_state(vec![Some(kept(3, "a")), Some(kept(2, "b"))]);
    assert_eq!((s.to_dev.as_str(), i), ("a", 0));
    let (s, i) = load_state(vec![Some(kept(3, "a")), Some(kept(3, "b"))]);
    assert_eq!((s.to_dev.as_str(), i), ("b", 1));
    let (s, i) = load_state(vec![None, Some(kept(0, "b"))]);
    assert_eq!((s.to_dev.as_str(), i), ("b", 1));
    let (s, i) = load_state(vec![None, None]);
    assert_eq!((s.to_dev.as_str(), s.generation, i), ("", 0, 0));
}

#[test]
fn loading_counts_anew() {
    let mut k = kept(1, "a");
    k.matches.matches = vec![owned(Kind::dns, 1)];
    k.matches.dns_count = 9;
    let (s, _) = load_state(vec![Some(k)]);
    assert_eq!(s.matches.dns_count, 1);
}

#[test]
fn slots_are_written_in_turn() {
    let s = kept(5, "a");
    let mut saver = Saver::new(&s, 1);
    let (w, slot) = saver.save(&s, 2);
    assert_eq!((w.generation, w.to_dev.as_str(), slot), (6, "a", 1));
    let (w, slot) = saver.save(&s, 2);
    assert_eq!((w.generation, slot), (7, 0));
    assert_eq!(saver.slot, 1);
    let (l, i) = load_state(vec![Some(w), Some(s)]);
    assert_eq!((l.generation, i), (7, 0));
}

#[test]
fn switches_decide_how_to_start() {
    assert!(matches!(start_enabled(true, true, true), Err(Error::EnableAndDisable)));
    assert!(start_enabled(false, true, false).unwrap());
    assert!(!start_enabled(true, false, true).unwrap());
    assert!(start_enabled(true, false, false).unwrap());
    assert!(!start_enabled(false, false, false).unwrap());
}

#[test]
fn users_are_numbers_or_names() {
    assert_eq!(numbered_user("1000").unwrap(), Some(1000));
    assert_eq!(numbered_user("dbus").unwrap(), None);
    assert_eq!(numbered_user("+5").unwrap(), None);
    assert!(matches!(numbered_user(""), Err(Error::BadNumber(_))));
    assert!(matches!(numbered_user("99999999999"), Err(Error::BadNumber(_))));
}

#[test]
fn kernels_are_judged() {
    assert!(kernel_is_supported("Linux", "7.0.1").unwrap());
    assert!(kernel_is_supported("LINUX", "10.2").unwrap());
    assert!(!kernel_is_supported("Linux", "6.18.44-fc").unwrap());
    assert!(!kernel_is_supported("FreeBSD", "14.1").unwrap());
    assert!(matches!(kernel_is_supported("Linux", "7"), Err(Error::BadNumber(t)) if t.is_empty()));
    assert!(matches!(kernel_is_supported("Linux", "v7.0"), Err(Error::BadNumber(t)) if t == "v7"));
}

#[test]
fn slots_have_files() {
    assert_eq!(slot_name(0), "rebpf.state.0");
    assert_eq!(slot_name(1), "rebpf.state.1");
}

#[test]
fn later_values_count() {
    let h = fields(&[("a", "1"), ("b", "2"), ("a", "3")]);
    assert_eq!(value_of(&h, "a"), Some("3".to_string()));
    assert_eq!(value_of(&h, "b"), Some("2".to_string()));
    assert_eq!(value_of(&h, "c"), None);
}

#[test]
fn addresses_in_dotted_notation() {
    assert_eq!(parse_ipv4("192.168.0.255"), Some(0xc0a8_00ff));
    assert_eq!(parse_ipv4("0.0.0.0"), Some(0));
    for s in ["", "1.2.3", "1.2.3.4.5", "1.2.3.256", "01.2.3.4", "1.2.3.4 ", "1..3.4", "+1.2.3.4"] {
        assert_eq!(parse_ipv4(s), None, "{s}");
    }
    assert_eq!(dotted_text(0xc0a8_00ff), "192.168.0.255");
}

#[test]
fn numbers_and_truth_values() {
    assert_eq!(decimal_text(u64::MAX), "18446744073709551615");
    assert_eq!(parse_unsigned("18446744073709551615", u64::MAX), Some(u64::MAX));
    assert_eq!(parse_unsigned("18446744073709551616", u64::MAX), None);
    assert_eq!(parse_unsigned("+0012", 12), Some(12));
    assert_eq!(parse_unsigned("13", 12), None);
    assert_eq!(parse_unsigned("+", 12), None);
    assert_eq!(parse_unsigned("-0", 12), None);
    assert_eq!(parse_bool("true"), Some(true));
    assert_eq!(parse_bool("false"), Some(false));
    assert_eq!(parse_bool("True"), None);
}
