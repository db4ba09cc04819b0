//! What the window, the tray icon and the connection to the service tell one
//! another.

use crate::addr::dotted;
use crate::config::{
    address_of, bool_of, config_entries, config_field_ok, config_names_differ, config_with, Config,
};
use crate::fields::{
    as_map, entries, entry, normal, normal_entries, normal_key, normalized, plain_key_is_normal,
    value_or,
};
use crate::text::{
    base_name, base_name_of, bool_name, bool_names_differ, bool_text, contains_text, parse_bool,
    parse_unsigned, same_text, stands_in, starts_with, texts_of, trim_dots, unsigned, without_dots,
};
use vstd::prelude::*;

verus! {

/// What the tray icon shows.
#[derive(Clone, Copy, Debug, PartialEq, Eq, Structural)]
pub enum Tray {
    NotConnected,
    Enabled,
    Disabled,
}

/// The background that the tray icon is drawn for.
#[derive(Clone, Copy, Debug, PartialEq, Eq, Structural)]
pub enum TrayTheme {
    Dark,
    Light,
}

impl Default for TrayTheme {
    fn default() -> (r: Self)
        ensures
            r == TrayTheme::Dark,
    {
        TrayTheme::Dark
    }
}

impl TrayTheme {
    /// The theme for the colour scheme that the desktop prefers: light only
    /// where it says so.
    pub fn of_color_scheme(scheme: Option<u32>) -> (r: TrayTheme)
        ensures
            r == (if scheme == Some(2u32) {
                TrayTheme::Light
            } else {
                TrayTheme::Dark
            }),
    {
        match scheme {
            Some(n) => if n == 2 {
                TrayTheme::Light
            } else {
                TrayTheme::Dark
            },
            None => TrayTheme::Dark,
        }
    }
}

/// All that the tray icon tells.
#[derive(Debug)]
pub struct TrayState {
    pub state: Tray,
    pub theme: TrayTheme,
    pub blocker: String,
    pub output_dev: String,
}

/// A match as the window shows it.
#[derive(Debug)]
pub struct Match {
    pub pattern: String,
    pub kind: String,
    pub direction: String,
    pub user: String,
    pub uid: String,
}

/// The texts of a match.
pub struct MatchText {
    pub pattern: Seq<char>,
    pub kind: Seq<char>,
    pub direction: Seq<char>,
    pub user: Seq<char>,
    pub uid: Seq<char>,
}

impl View for Match {
    type V = MatchText;

    open spec fn view(&self) -> MatchText {
        MatchText {
            pattern: self.pattern@,
            kind: self.kind@,
            direction: self.direction@,
            user: self.user@,
            uid: self.uid@,
        }
    }
}

impl Clone for Match {
    fn clone(&self) -> (r: Self)
        ensures
            r@ == self@,
    {
        Match {
            pattern: self.pattern.clone(),
            kind: self.kind.clone(),
            direction: self.direction.clone(),
            user: self.user.clone(),
            uid: self.uid.clone(),
        }
    }
}

/// A match without any text.
pub open spec fn empty_match() -> MatchText {
    MatchText {
        pattern: Seq::empty(),
        kind: Seq::empty(),
        direction: Seq::empty(),
        user: Seq::empty(),
        uid: Seq::empty(),
    }
}

/// Whether a name is among names.
pub open spec fn among(names: Seq<String>, s: Seq<char>) -> bool {
    exists|i: int| 0 <= i < names.len() && #[trigger] names[i]@ == s
}

/// Whether a match picks a program or a domain name.
pub open spec fn matches_text(m: MatchText, s: Seq<char>) -> bool {
    if m.kind == "basename"@ {
        base_name(s) == m.pattern
    } else if m.kind == "prefix"@ {
        m.pattern.is_prefix_of(s)
    } else if m.kind == "substring"@ {
        stands_in(m.pattern, s)
    } else if m.kind == "dns"@ {
        m.pattern == without_dots(s)
    } else {
        m.pattern == s
    }
}

/// Whether a match picks one of the active programs and domain names. A base name
/// is looked up as it is.
pub open spec fn picks_some(m: MatchText, names: Seq<Seq<char>>) -> bool {
    if m.kind == "basename"@ {
        names.contains(m.pattern)
    } else {
        exists|i: int| 0 <= i < names.len() && matches_text(m, #[trigger] names[i])
    }
}

impl Match {
    /// Whether the match picks one of the active programs and domain names.
    pub fn is_in(&self, h: &Vec<String>) -> (r: bool)
        ensures
            r == picks_some(self@, texts_of(h@)),
    {
        let ghost names = texts_of(h@);
        let basename = same_text(self.kind.as_str(), "basename");
        let mut i: usize = 0;
        while i < h.len()
            invariant
                names == texts_of(h@),
                basename == (self.kind@ == "basename"@),
                i <= h@.len(),
                basename ==> forall|j: int| 0 <= j < i ==> #[trigger] names[j] != self.pattern@,
                !basename ==> forall|j: int|
                    0 <= j < i ==> !matches_text(self@, #[trigger] names[j]),
            decreases h.len() - i,
        {
            let found = if basename {
                same_text(h[i].as_str(), self.pattern.as_str())
            } else {
                self.matches(h[i].as_str())
            };
            if found {
                assert(names[i as int] == h@[i as int]@);
                return true;
            }
            i += 1;
        }
        false
    }

    /// Whether the match picks a program or a domain name.
    pub fn matches(&self, s: &str) -> (r: bool)
        ensures
            r == matches_text(self@, s@),
    {
        let kind = self.kind.as_str();
        let pattern = self.pattern.as_str();
        if same_text(kind, "basename") {
            same_text(base_name_of(s).as_str(), pattern)
        } else if same_text(kind, "prefix") {
            starts_with(s, pattern)
        } else if same_text(kind, "substring") {
            contains_text(s, pattern)
        } else if same_text(kind, "dns") {
            same_text(pattern, trim_dots(s).as_str())
        } else {
            same_text(pattern, s)
        }
    }
}

/// The settings that the window shows.
#[derive(Debug)]
pub struct Settings {
    pub allow_lan: bool,
    pub spoof_dns: bool,
    pub spoof_dns_ipv4: String,
    pub drop_egress_without_output: bool,
}

/// What settings say.
pub struct SettingsView {
    pub allow_lan: bool,
    pub spoof_dns: bool,
    pub spoof_dns_ipv4: Seq<char>,
    pub drop_egress_without_output: bool,
}

impl View for Settings {
    type V = SettingsView;

    open spec fn view(&self) -> SettingsView {
        SettingsView {
            allow_lan: self.allow_lan,
            spoof_dns: self.spoof_dns,
            spoof_dns_ipv4: self.spoof_dns_ipv4@,
            drop_egress_without_output: self.drop_egress_without_output,
        }
    }
}

impl Clone for Settings {
    fn clone(&self) -> (r: Self)
        ensures
            r@ == self@,
    {
        Settings {
            allow_lan: self.allow_lan,
            spoof_dns: self.spoof_dns,
            spoof_dns_ipv4: self.spoof_dns_ipv4.clone(),
            drop_egress_without_output: self.drop_egress_without_output,
        }
    }
}

/// The state of the service that the window shows.
#[derive(Debug)]
pub struct Attached {
    pub enabled: bool,
    pub attached: bool,
    pub blocker: String,
    pub to_ifname: String,
    pub to_ifindex: String,
    pub to_addr: String,
}

/// What the state of the service says.
pub struct AttachedView {
    pub enabled: bool,
    pub attached: bool,
    pub blocker: Seq<char>,
    pub to_ifname: Seq<char>,
    pub to_ifindex: Seq<char>,
    pub to_addr: Seq<char>,
}

impl View for Attached {
    type V = AttachedView;

    open spec fn view(&self) -> AttachedView {
        AttachedView {
            enabled: self.enabled,
            attached: self.attached,
            blocker: self.blocker@,
            to_ifname: self.to_ifname@,
            to_ifindex: self.to_ifindex@,
            to_addr: self.to_addr@,
        }
    }
}

impl Clone for Attached {
    fn clone(&self) -> (r: Self)
        ensures
            r@ == self@,
    {
        Attached {
            enabled: self.enabled,
            attached: self.attached,
            blocker: self.blocker.clone(),
            to_ifname: self.to_ifname.clone(),
            to_ifindex: self.to_ifindex.clone(),
            to_addr: self.to_addr.clone(),
        }
    }
}

/// How many bytes were sent and received.
#[derive(Clone, Copy, Debug, PartialEq, Eq, Structural)]
pub struct Stats {
    pub tx_bytes: u64,
    pub rx_bytes: u64,
}

impl Default for Match {
    fn default() -> (r: Self)
        ensures
            r@ == empty_match(),
    {
        Match {
            pattern: String::new(),
            kind: String::new(),
            direction: String::new(),
            user: String::new(),
            uid: String::new(),
        }
    }
}

/// Settings where none are known.
pub open spec fn empty_settings() -> SettingsView {
    SettingsView {
        allow_lan: false,
        spoof_dns: false,
        spoof_dns_ipv4: Seq::empty(),
        drop_egress_without_output: false,
    }
}

impl Default for Settings {
    fn default() -> (r: Self)
        ensures
            r@ == empty_settings(),
    {
        Settings {
            allow_lan: false,
            spoof_dns: false,
            spoof_dns_ipv4: String::new(),
            drop_egress_without_output: false,
        }
    }
}

/// The state of a service that is not there.
pub open spec fn empty_attached() -> AttachedView {
    AttachedView {
        enabled: false,
        attached: false,
        blocker: Seq::empty(),
        to_ifname: Seq::empty(),
        to_ifindex: Seq::empty(),
        to_addr: Seq::empty(),
    }
}

impl Default for Attached {
    fn default() -> (r: Self)
        ensures
            r@ == empty_attached(),
    {
        Attached {
            enabled: false,
            attached: false,
            blocker: String::new(),
            to_ifname: String::new(),
            to_ifindex: String::new(),
            to_addr: String::new(),
        }
    }
}

impl Default for Stats {
    fn default() -> (r: Self)
        ensures
            r == (Stats { tx_bytes: 0, rx_bytes: 0 }),
    {
        Stats { tx_bytes: 0, rx_bytes: 0 }
    }
}

/// The names of the fields are different from one another.
pub(crate) proof fn names_differ()
    ensures
        "pattern"@ != "kind"@,
        "pattern"@ != "direction"@,
        "pattern"@ != "user"@,
        "pattern"@ != "uid"@,
        "kind"@ != "direction"@,
        "kind"@ != "user"@,
        "kind"@ != "uid"@,
        "direction"@ != "user"@,
        "direction"@ != "uid"@,
        "user"@ != "uid"@,
        "allow_lan"@ != "spoof_dns"@,
        "allow_lan"@ != "spoof_dns_ipv4"@,
        "allow_lan"@ != "drop_egress_without_output"@,
        "spoof_dns"@ != "spoof_dns_ipv4"@,
        "spoof_dns"@ != "drop_egress_without_output"@,
        "spoof_dns_ipv4"@ != "drop_egress_without_output"@,
        "enabled"@ != "attached"@,
        "enabled"@ != "blocker"@,
        "enabled"@ != "to_ifname"@,
        "enabled"@ != "to_ifindex"@,
        "enabled"@ != "to_addr"@,
        "attached"@ != "blocker"@,
        "attached"@ != "to_ifname"@,
        "attached"@ != "to_ifindex"@,
        "attached"@ != "to_addr"@,
        "blocker"@ != "to_ifname"@,
        "blocker"@ != "to_ifindex"@,
        "blocker"@ != "to_addr"@,
        "to_ifname"@ != "to_ifindex"@,
        "to_ifname"@ != "to_addr"@,
        "to_ifindex"@ != "to_addr"@,
        "tx_bytes"@ != "rx_bytes"@,
{
    reveal_strlit("pattern");
    reveal_strlit("kind");
    reveal_strlit("direction");
    reveal_strlit("user");
    reveal_strlit("uid");
    reveal_strlit("allow_lan");
    reveal_strlit("spoof_dns");
    reveal_strlit("spoof_dns_ipv4");
    reveal_strlit("drop_egress_without_output");
    reveal_strlit("enabled");
    reveal_strlit("attached");
    reveal_strlit("blocker");
    reveal_strlit("to_ifname");
    reveal_strlit("to_ifindex");
    reveal_strlit("to_addr");
    reveal_strlit("tx_bytes");
    reveal_strlit("rx_bytes");
    assert("pattern"@.len() == 7);
    assert("kind"@.len() == 4);
    assert("direction"@.len() == 9);
    assert("user"@.len() == 4);
    assert("uid"@.len() == 3);
    assert("allow_lan"@.len() == 9);
    assert("spoof_dns"@.len() == 9);
    assert("spoof_dns_ipv4"@.len() == 14);
    assert("drop_egress_without_output"@.len() == 26);
    assert("enabled"@.len() == 7);
    assert("attached"@.len() == 8);
    assert("blocker"@.len() == 7);
    assert("to_ifname"@.len() == 9);
    assert("to_ifindex"@.len() == 10);
    assert("to_addr"@.len() == 7);
    assert("tx_bytes"@.len() == 8);
    assert("rx_bytes"@.len() == 8);
    assert("kind"@[0] != "user"@[0]);
    assert("allow_lan"@[0] != "spoof_dns"@[0]);
    assert("enabled"@[0] != "blocker"@[0]);
    assert("enabled"@[0] != "to_addr"@[0]);
    assert("blocker"@[0] != "to_addr"@[0]);
    assert("tx_bytes"@[0] != "rx_bytes"@[0]);
}

/// A match with the texts that a map names, and those of `m` otherwise.
pub open spec fn match_text_with(m: MatchText, h: Map<Seq<char>, Seq<char>>) -> MatchText {
    MatchText {
        pattern: value_or(h, "pattern"@, m.pattern),
        kind: value_or(h, "kind"@, m.kind),
        direction: value_or(h, "direction"@, m.direction),
        user: value_or(h, "user"@, m.user),
        uid: value_or(h, "uid"@, m.uid),
    }
}

/// An entry, unless the text is empty.
pub open spec fn entry_if_any(key: Seq<char>, value: Seq<char>) -> Seq<(Seq<char>, Seq<char>)> {
    if value.len() > 0 {
        seq![(key, value)]
    } else {
        seq![]
    }
}

/// The entries by which a match is sent: those that are not empty.
pub open spec fn match_text_entries(m: MatchText) -> Seq<(Seq<char>, Seq<char>)> {
    entry_if_any("pattern"@, m.pattern) + entry_if_any("kind"@, m.kind) + entry_if_any(
        "direction"@,
        m.direction,
    ) + entry_if_any("user"@, m.user) + entry_if_any("uid"@, m.uid)
}

impl Match {
    /// Puts a text into the field of a name; other names are passed over.
    fn set(&mut self, key: &str, value: &str)
        ensures
            final(self)@ == match_text_with(old(self)@, Map::empty().insert(key@, value@)),
    {
        proof {
            names_differ();
        }
        if same_text(key, "pattern") {
            self.pattern = value.to_owned();
        } else if same_text(key, "kind") {
            self.kind = value.to_owned();
        } else if same_text(key, "direction") {
            self.direction = value.to_owned();
        } else if same_text(key, "user") {
            self.user = value.to_owned();
        } else if same_text(key, "uid") {
            self.uid = value.to_owned();
        }
    }

    /// Reads a match from named values, hyphens in names being underscores.
    pub fn from_hashmap(h: &Vec<(String, String)>) -> (r: Match)
        ensures
            r@ == match_text_with(empty_match(), as_map(normal_entries(h@))),
    {
        let ghost all = normal_entries(h@);
        let mut m = Match::default();
        let mut i: usize = 0;
        assert(m@ == match_text_with(empty_match(), as_map(all.take(0))));
        while i < h.len()
            invariant
                all == normal_entries(h@),
                i <= h@.len(),
                m@ == match_text_with(empty_match(), as_map(all.take(i as int))),
            decreases h.len() - i,
        {
            assert(all.take(i + 1).drop_last() == all.take(i as int));
            assert(all.take(i + 1).last() == (normal_key(h@[i as int].0@), h@[i as int].1@));
            m.set(normalized(h[i].0.as_str()).as_str(), h[i].1.as_str());
            proof {
                names_differ();
            }
            i += 1;
        }
        assert(all.take(all.len() as int) == all);
        m
    }

    /// The named values of the match that are not empty.
    pub fn to_hashmap(&self) -> (r: Vec<(String, String)>)
        ensures
            entries(r@) == match_text_entries(self@),
    {
        let mut h: Vec<(String, String)> = Vec::new();
        push_if_any(&mut h, "pattern", &self.pattern);
        push_if_any(&mut h, "kind", &self.kind);
        push_if_any(&mut h, "direction", &self.direction);
        push_if_any(&mut h, "user", &self.user);
        push_if_any(&mut h, "uid", &self.uid);
        assert(entries(h@) =~= match_text_entries(self@));
        h
    }
}

/// Appends an entry, unless the text is empty.
fn push_if_any(h: &mut Vec<(String, String)>, key: &str, value: &String)
    ensures
        entries(final(h)@) == entries(old(h)@) + entry_if_any(key@, value@),
{
    if !value.as_str().is_empty() {
        h.push(entry(key, value.clone()));
    }
    assert(entries(h@) =~= entries(old(h)@) + entry_if_any(key@, value@));
}

/// The truth value that a map names, false where it names none.
pub open spec fn flag_in(h: Map<Seq<char>, Seq<char>>, key: Seq<char>, other: bool) -> bool {
    if h.dom().contains(key) {
        bool_of(h[key]) == Some(true)
    } else {
        other
    }
}

/// Settings with the values that a map names, and those of `s` otherwise. What
/// is no truth value counts as false.
pub open spec fn settings_with(s: SettingsView, h: Map<Seq<char>, Seq<char>>) -> SettingsView {
    SettingsView {
        allow_lan: flag_in(h, "allow_lan"@, s.allow_lan),
        spoof_dns: flag_in(h, "spoof_dns"@, s.spoof_dns),
        spoof_dns_ipv4: value_or(h, "spoof_dns_ipv4"@, s.spoof_dns_ipv4),
        drop_egress_without_output: flag_in(
            h,
            "drop_egress_without_output"@,
            s.drop_egress_without_output,
        ),
    }
}

/// The entries by which settings are sent.
pub open spec fn settings_entries(s: SettingsView) -> Seq<(Seq<char>, Seq<char>)> {
    seq![
        ("allow_lan"@, bool_name(s.allow_lan)),
        ("spoof_dns"@, bool_name(s.spoof_dns)),
        ("spoof_dns_ipv4"@, s.spoof_dns_ipv4),
        ("drop_egress_without_output"@, bool_name(s.drop_egress_without_output)),
    ]
}

/// The truth value of a text, if it is one.
fn read_flag(v: &str) -> (r: Option<bool>)
    ensures
        r == bool_of(v@),
{
    let r = parse_bool(v);
    proof {
        bool_names_differ();
    }
    r
}

impl Settings {
    /// Puts a value into the field of a name; other names are passed over.
    fn set(&mut self, key: &str, value: &str)
        ensures
            final(self)@ == settings_with(old(self)@, Map::empty().insert(key@, value@)),
    {
        proof {
            names_differ();
        }
        let flag = match read_flag(value) {
            Some(b) => b,
            None => false,
        };
        if same_text(key, "allow_lan") {
            self.allow_lan = flag;
        } else if same_text(key, "spoof_dns") {
            self.spoof_dns = flag;
        } else if same_text(key, "spoof_dns_ipv4") {
            self.spoof_dns_ipv4 = value.to_owned();
        } else if same_text(key, "drop_egress_without_output") {
            self.drop_egress_without_output = flag;
        }
    }

    /// Reads settings from named values, hyphens in names being underscores.
    pub fn from_hashmap(h: &Vec<(String, String)>) -> (r: Settings)
        ensures
            r@ == settings_with(empty_settings(), as_map(normal_entries(h@))),
    {
        let ghost all = normal_entries(h@);
        let mut s = Settings::default();
        let mut i: usize = 0;
        assert(s@ == settings_with(empty_settings(), as_map(all.take(0))));
        while i < h.len()
            invariant
                all == normal_entries(h@),
                i <= h@.len(),
                s@ == settings_with(empty_settings(), as_map(all.take(i as int))),
            decreases h.len() - i,
        {
            assert(all.take(i + 1).drop_last() == all.take(i as int));
            assert(all.take(i + 1).last() == (normal_key(h@[i as int].0@), h@[i as int].1@));
            s.set(normalized(h[i].0.as_str()).as_str(), h[i].1.as_str());
            proof {
                names_differ();
            }
            i += 1;
        }
        assert(all.take(all.len() as int) == all);
        s
    }

    /// The named values of the settings.
    pub fn into_hashmap(&self) -> (r: Vec<(String, String)>)
        ensures
            entries(r@) == settings_entries(self@),
    {
        let mut h: Vec<(String, String)> = Vec::new();
        h.push(entry("allow_lan", bool_text(self.allow_lan)));
        h.push(entry("spoof_dns", bool_text(self.spoof_dns)));
        h.push(entry("spoof_dns_ipv4", self.spoof_dns_ipv4.clone()));
        h.push(entry("drop_egress_without_output", bool_text(self.drop_egress_without_output)));
        assert(entries(h@) =~= settings_entries(self@));
        h
    }

    /// Whether two settings are the same.
    pub fn same(&self, other: &Settings) -> (r: bool)
        ensures
            r == (self@ == other@),
    {
        self.allow_lan == other.allow_lan && self.spoof_dns == other.spoof_dns && same_text(
            self.spoof_dns_ipv4.as_str(),
            other.spoof_dns_ipv4.as_str(),
        ) && self.drop_egress_without_output == other.drop_egress_without_output
    }
}

/// Whether an entry counts for the state of the service: a flag that is no truth
/// value does not.
pub open spec fn attached_entry_counts(e: (Seq<char>, Seq<char>)) -> bool {
    e.0 == "enabled"@ || e.0 == "attached"@ ==> bool_of(e.1) is Some
}

/// The state of the service with the values that a map names, and those of `a`
/// otherwise.
pub open spec fn attached_with(a: AttachedView, h: Map<Seq<char>, Seq<char>>) -> AttachedView {
    AttachedView {
        enabled: flag_in(h, "enabled"@, a.enabled),
        attached: flag_in(h, "attached"@, a.attached),
        blocker: value_or(h, "blocker"@, a.blocker),
        to_ifname: value_or(h, "to_ifname"@, a.to_ifname),
        to_ifindex: value_or(h, "to_ifindex"@, a.to_ifindex),
        to_addr: value_or(h, "to_addr"@, a.to_addr),
    }
}

impl Attached {
    /// Puts a value into the field of a name; other names, and flags that are no
    /// truth values, are passed over.
    fn set(&mut self, key: &str, value: &str)
        ensures
            final(self)@ == if attached_entry_counts((key@, value@)) {
                attached_with(old(self)@, Map::empty().insert(key@, value@))
            } else {
                old(self)@
            },
    {
        proof {
            names_differ();
        }
        if same_text(key, "enabled") {
            if let Some(b) = read_flag(value) {
                self.enabled = b;
            }
        } else if same_text(key, "attached") {
            if let Some(b) = read_flag(value) {
                self.attached = b;
            }
        } else if same_text(key, "blocker") {
            self.blocker = value.to_owned();
        } else if same_text(key, "to_ifname") {
            self.to_ifname = value.to_owned();
        } else if same_text(key, "to_ifindex") {
            self.to_ifindex = value.to_owned();
        } else if same_text(key, "to_addr") {
            self.to_addr = value.to_owned();
        }
    }

    /// Reads the state of the service from named values, hyphens in names being
    /// underscores.
    pub fn from_hashmap(h: &Vec<(String, String)>) -> (r: Attached)
        ensures
            r@ == attached_with(
                empty_attached(),
                as_map(normal_entries(h@).filter(|e: (Seq<char>, Seq<char>)| attached_entry_counts(e))),
            ),
    {
        let ghost all = normal_entries(h@);
        let ghost counts = |e: (Seq<char>, Seq<char>)| attached_entry_counts(e);
        let mut a = Attached::default();
        let mut i: usize = 0;
        proof {
            reveal(Seq::filter);
            assert(all.take(0).filter(counts) =~= Seq::<(Seq<char>, Seq<char>)>::empty());
        }
        assert(a@ == attached_with(empty_attached(), as_map(all.take(0).filter(counts))));
        while i < h.len()
            invariant
                all == normal_entries(h@),
                counts == (|e: (Seq<char>, Seq<char>)| attached_entry_counts(e)),
                i <= h@.len(),
                a@ == attached_with(empty_attached(), as_map(all.take(i as int).filter(counts))),
            decreases h.len() - i,
        {
            let ghost e = (normal_key(h@[i as int].0@), h@[i as int].1@);
            let ghost was = all.take(i as int).filter(counts);
            proof {
                reveal(Seq::filter);
                assert(all.take(i + 1).drop_last() == all.take(i as int));
                assert(all.take(i + 1).last() == e);
                assert(was.push(e).drop_last() == was);
            }
            a.set(normalized(h[i].0.as_str()).as_str(), h[i].1.as_str());
            proof {
                names_differ();
            }
            i += 1;
        }
        assert(all.take(all.len() as int) == all);
        a
    }
}

/// Whether an entry counts for the statistics: what is no number does not.
pub open spec fn stats_entry_counts(e: (Seq<char>, Seq<char>)) -> bool {
    unsigned(e.1, u64::MAX as nat) is Some
}

/// The number that a map names, or another.
pub open spec fn count_in(h: Map<Seq<char>, Seq<char>>, key: Seq<char>, other: u64) -> u64 {
    if h.dom().contains(key) {
        unsigned(h[key], u64::MAX as nat)->0 as u64
    } else {
        other
    }
}

/// Statistics with the numbers that a map names, and those of `s` otherwise.
pub open spec fn stats_with(s: Stats, h: Map<Seq<char>, Seq<char>>) -> Stats {
    Stats {
        tx_bytes: count_in(h, "tx_bytes"@, s.tx_bytes),
        rx_bytes: count_in(h, "rx_bytes"@, s.rx_bytes),
    }
}

impl Stats {
    /// Reads statistics from named values, hyphens in names being underscores.
    pub fn from_hashmap(h: &Vec<(String, String)>) -> (r: Stats)
        ensures
            r == stats_with(
                Stats { tx_bytes: 0, rx_bytes: 0 },
                as_map(normal_entries(h@).filter(|e: (Seq<char>, Seq<char>)| stats_entry_counts(e))),
            ),
    {
        let ghost all = normal_entries(h@);
        let ghost counts = |e: (Seq<char>, Seq<char>)| stats_entry_counts(e);
        let mut s = Stats { tx_bytes: 0, rx_bytes: 0 };
        let mut i: usize = 0;
        proof {
            reveal(Seq::filter);
            assert(all.take(0).filter(counts) =~= Seq::<(Seq<char>, Seq<char>)>::empty());
        }
        while i < h.len()
            invariant
                all == normal_entries(h@),
                counts == (|e: (Seq<char>, Seq<char>)| stats_entry_counts(e)),
                i <= h@.len(),
                s == stats_with(
                    Stats { tx_bytes: 0, rx_bytes: 0 },
                    as_map(all.take(i as int).filter(counts)),
                ),
            decreases h.len() - i,
        {
            let ghost e = (normal_key(h@[i as int].0@), h@[i as int].1@);
            let ghost was = all.take(i as int).filter(counts);
            proof {
                reveal(Seq::filter);
                assert(all.take(i + 1).drop_last() == all.take(i as int));
                assert(all.take(i + 1).last() == e);
                assert(was.push(e).drop_last() == was);
                names_differ();
            }
            let key = normalized(h[i].0.as_str());
            if let Some(n) = parse_unsigned(h[i].1.as_str(), u64::MAX) {
                if same_text(key.as_str(), "tx_bytes") {
                    s.tx_bytes = n;
                } else if same_text(key.as_str(), "rx_bytes") {
                    s.rx_bytes = n;
                }
            }
            i += 1;
        }
        assert(all.take(all.len() as int) == all);
        s
    }
}

/// What the window and the tray icon ask for.
#[derive(Debug)]
pub enum D {
    WindowOpened,
    WindowClosed,
    Enable,
    Disable,
    ChangeOutput(String),
    SettingsUpdate(Settings),
    MatchAdd(Match),
    MatchDelete(Match),
    MatchUpdate(Match, Match),
}

/// What a request says.
pub enum DView {
    WindowOpened,
    WindowClosed,
    Enable,
    Disable,
    ChangeOutput(Seq<char>),
    SettingsUpdate(SettingsView),
    MatchAdd(MatchText),
    MatchDelete(MatchText),
    MatchUpdate(MatchText, MatchText),
}

impl View for D {
    type V = DView;

    open spec fn view(&self) -> DView {
        match *self {
            D::WindowOpened => DView::WindowOpened,
            D::WindowClosed => DView::WindowClosed,
            D::Enable => DView::Enable,
            D::Disable => DView::Disable,
            D::ChangeOutput(s) => DView::ChangeOutput(s@),
            D::SettingsUpdate(s) => DView::SettingsUpdate(s@),
            D::MatchAdd(m) => DView::MatchAdd(m@),
            D::MatchDelete(m) => DView::MatchDelete(m@),
            D::MatchUpdate(f, t) => DView::MatchUpdate(f@, t@),
        }
    }
}

/// None of the field names holds a hyphen.
pub(crate) proof fn names_are_normal()
    ensures
        normal_key("pattern"@) == "pattern"@,
        normal_key("kind"@) == "kind"@,
        normal_key("method"@) == "method"@,
        normal_key("direction"@) == "direction"@,
        normal_key("user"@) == "user"@,
        normal_key("uid"@) == "uid"@,
        normal_key("allow_lan"@) == "allow_lan"@,
        normal_key("spoof_dns"@) == "spoof_dns"@,
        normal_key("spoof_dns_ipv4"@) == "spoof_dns_ipv4"@,
        normal_key("drop_egress_without_output"@) == "drop_egress_without_output"@,
        normal_key("probe_ipv4_addr"@) == "probe_ipv4_addr"@,
        normal_key("dns_max_ttl_sec"@) == "dns_max_ttl_sec"@,
{
    reveal_strlit("pattern");
    reveal_strlit("kind");
    reveal_strlit("method");
    reveal_strlit("direction");
    reveal_strlit("user");
    reveal_strlit("uid");
    reveal_strlit("allow_lan");
    reveal_strlit("spoof_dns");
    reveal_strlit("spoof_dns_ipv4");
    reveal_strlit("drop_egress_without_output");
    reveal_strlit("probe_ipv4_addr");
    reveal_strlit("dns_max_ttl_sec");
    plain_key_is_normal("pattern"@);
    plain_key_is_normal("kind"@);
    plain_key_is_normal("method"@);
    plain_key_is_normal("direction"@);
    plain_key_is_normal("user"@);
    plain_key_is_normal("uid"@);
    plain_key_is_normal("allow_lan"@);
    plain_key_is_normal("spoof_dns"@);
    plain_key_is_normal("spoof_dns_ipv4"@);
    plain_key_is_normal("drop_egress_without_output"@);
    plain_key_is_normal("probe_ipv4_addr"@);
    plain_key_is_normal("dns_max_ttl_sec"@);
}

/// Of entries in two parts, those of the second part count first.
pub proof fn map_of_joined(a: Seq<(Seq<char>, Seq<char>)>, b: Seq<(Seq<char>, Seq<char>)>)
    ensures
        as_map(a + b) == as_map(a).union_prefer_right(as_map(b)),
    decreases b.len(),
{
    if b.len() == 0 {
        assert(a + b =~= a);
        assert(as_map(a).union_prefer_right(as_map(b)) =~= as_map(a));
    } else {
        assert((a + b).drop_last() =~= a + b.drop_last());
        map_of_joined(a, b.drop_last());
        assert(as_map(a + b) =~= as_map(a).union_prefer_right(as_map(b)));
    }
}

/// The map of one entry, or of none.
pub(crate) proof fn map_of_entry_if_any(key: Seq<char>, value: Seq<char>)
    ensures
        as_map(entry_if_any(key, value)) == if value.len() > 0 {
            Map::<Seq<char>, Seq<char>>::empty().insert(key, value)
        } else {
            Map::empty()
        },
{
    reveal_with_fuel(as_map, 2);
    if value.len() > 0 {
        assert(entry_if_any(key, value).drop_last() =~= Seq::empty());
    }
}

/// The map of the entries by which a match is sent names each text that is not
/// empty.
pub(crate) proof fn map_of_match_text(m: MatchText)
    ensures
        as_map(match_text_entries(m)) == Map::<Seq<char>, Seq<char>>::empty().union_prefer_right(
            as_map(entry_if_any("pattern"@, m.pattern)),
        ).union_prefer_right(as_map(entry_if_any("kind"@, m.kind))).union_prefer_right(
            as_map(entry_if_any("direction"@, m.direction)),
        ).union_prefer_right(as_map(entry_if_any("user"@, m.user))).union_prefer_right(
            as_map(entry_if_any("uid"@, m.uid)),
        ),
{
    let a = entry_if_any("pattern"@, m.pattern);
    let b = entry_if_any("kind"@, m.kind);
    let c = entry_if_any("direction"@, m.direction);
    let d = entry_if_any("user"@, m.user);
    let e = entry_if_any("uid"@, m.uid);
    map_of_joined(a, b);
    map_of_joined(a + b, c);
    map_of_joined(a + b + c, d);
    map_of_joined(a + b + c + d, e);
    assert(Map::<Seq<char>, Seq<char>>::empty().union_prefer_right(as_map(a)) =~= as_map(a));
}

/// A match reads back from the values by which it is sent.
pub proof fn match_text_reads_back(m: MatchText)
    ensures
        match_text_with(empty_match(), as_map(normal(match_text_entries(m)))) == m,
{
    names_differ();
    names_are_normal();
    let h = match_text_entries(m);
    assert(normal(h) =~= h) by {
        assert forall|i: int| 0 <= i < h.len() implies normal(h)[i] == #[trigger] h[i] by {}
    }
    map_of_match_text(m);
    map_of_entry_if_any("pattern"@, m.pattern);
    map_of_entry_if_any("kind"@, m.kind);
    map_of_entry_if_any("direction"@, m.direction);
    map_of_entry_if_any("user"@, m.user);
    map_of_entry_if_any("uid"@, m.uid);
    let r = match_text_with(empty_match(), as_map(h));
    assert(r.pattern =~= m.pattern);
    assert(r.kind =~= m.kind);
    assert(r.direction =~= m.direction);
    assert(r.user =~= m.user);
    assert(r.uid =~= m.uid);
}

/// Settings read back from the values by which they are sent.
pub proof fn settings_read_back(s: SettingsView)
    ensures
        settings_with(empty_settings(), as_map(normal(settings_entries(s)))) == s,
{
    names_differ();
    names_are_normal();
    bool_names_differ();
    let h = settings_entries(s);
    assert(normal(h) =~= h);
    reveal_with_fuel(as_map, 5);
    assert(h.drop_last().drop_last().drop_last().drop_last() =~= Seq::<
        (Seq<char>, Seq<char>),
    >::empty());
}

/// The window reads the settings of the service as the service lists them.
pub proof fn settings_of_service(c: Config)
    ensures
        settings_with(empty_settings(), as_map(normal(config_entries(c)))) == (SettingsView {
            allow_lan: c.allow_lan,
            spoof_dns: c.spoof_dns,
            spoof_dns_ipv4: dotted(c.spoof_dns_ipv4),
            drop_egress_without_output: c.drop_egress_without_output,
        }),
{
    names_differ();
    names_are_normal();
    config_names_differ();
    bool_names_differ();
    let h = config_entries(c);
    assert(normal(h) =~= h);
    reveal_with_fuel(as_map, 7);
    assert(h.drop_last().drop_last().drop_last().drop_last().drop_last().drop_last() =~= Seq::<
        (Seq<char>, Seq<char>),
    >::empty());
}

/// The service takes over the settings that the window sends, keeps the two that
/// it does not send, and refuses them only where the address is none.
pub proof fn settings_reach_service(s: SettingsView, def: Config)
    ensures
        (forall|i: int|
            0 <= i < settings_entries(s).len() ==> config_field_ok(
                #[trigger] settings_entries(s)[i].0,
                settings_entries(s)[i].1,
            )) <==> address_of(s.spoof_dns_ipv4) is Some,
        config_with(def, as_map(settings_entries(s))) == (Config {
            allow_lan: s.allow_lan,
            spoof_dns: s.spoof_dns,
            spoof_dns_ipv4: address_of(s.spoof_dns_ipv4)->0,
            drop_egress_without_output: s.drop_egress_without_output,
            ..def
        }),
{
    names_differ();
    config_names_differ();
    bool_names_differ();
    let h = settings_entries(s);
    reveal_with_fuel(as_map, 5);
    assert(h.drop_last().drop_last().drop_last().drop_last() =~= Seq::<
        (Seq<char>, Seq<char>),
    >::empty());
    if address_of(s.spoof_dns_ipv4) is None {
        assert(!config_field_ok(h[2].0, h[2].1));
    }
}

} // verus!
