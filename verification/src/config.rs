//! The settings of the service.

use crate::addr::{dotted, dotted_injective, dotted_text, parse_ipv4};
use crate::error::Error;
use crate::fields::{as_map, distinct_keys, entries, entry, order_is_irrelevant};
use crate::text::{
    bool_name, bool_names_differ, bool_text, decimal, decimal_text, parse_bool, parse_unsigned,
    same_text, unsigned, unsigned_reads_back,
};
use vstd::prelude::*;

verus! {

/// The settings. Addresses are IPv4, the first octet in the highest byte.
#[derive(Clone, Copy, Debug, PartialEq, Eq, Structural)]
pub struct Config {
    pub probe_ipv4_addr: u32,
    pub allow_lan: bool,
    pub spoof_dns: bool,
    pub spoof_dns_ipv4: u32,
    pub drop_egress_without_output: bool,
    pub dns_max_ttl_sec: u32,
}

/// The settings where none are given: probe 1.2.3.4, allow the local network,
/// leave DNS alone (8.8.8.8 otherwise), keep traffic without an output, and keep
/// DNS records for at most an hour.
pub open spec fn default_config() -> Config {
    Config {
        probe_ipv4_addr: 0x01020304,
        allow_lan: true,
        spoof_dns: false,
        spoof_dns_ipv4: 0x08080808,
        drop_egress_without_output: false,
        dns_max_ttl_sec: 3600,
    }
}

impl Default for Config {
    fn default() -> (r: Self)
        ensures
            r == default_config(),
    {
        Config {
            probe_ipv4_addr: 0x01020304,
            allow_lan: true,
            spoof_dns: false,
            spoof_dns_ipv4: 0x08080808,
            drop_egress_without_output: false,
            dns_max_ttl_sec: 3600,
        }
    }
}

/// The address that a text denotes in dotted notation.
pub open spec fn address_of(v: Seq<char>) -> Option<u32> {
    if exists|a: u32| #[trigger] dotted(a) == v {
        Some(choose|a: u32| #[trigger] dotted(a) == v)
    } else {
        None
    }
}

/// The truth value that a text denotes.
pub open spec fn bool_of(v: Seq<char>) -> Option<bool> {
    if v == bool_name(true) {
        Some(true)
    } else if v == bool_name(false) {
        Some(false)
    } else {
        None
    }
}

/// An address reads back from its dotted notation.
pub proof fn address_reads_back(a: u32)
    ensures
        address_of(dotted(a)) == Some(a),
{
    let c = choose|c: u32| #[trigger] dotted(c) == dotted(a);
    dotted_injective(c, a);
}

/// A truth value reads back from its name.
pub proof fn bool_reads_back(b: bool)
    ensures
        bool_of(bool_name(b)) == Some(b),
{
    bool_names_differ();
}

/// The names of the settings are different from one another.
pub(crate) proof fn config_names_differ()
    ensures
        "probe_ipv4_addr"@ != "allow_lan"@,
        "probe_ipv4_addr"@ != "spoof_dns"@,
        "probe_ipv4_addr"@ != "spoof_dns_ipv4"@,
        "probe_ipv4_addr"@ != "drop_egress_without_output"@,
        "probe_ipv4_addr"@ != "dns_max_ttl_sec"@,
        "allow_lan"@ != "spoof_dns"@,
        "allow_lan"@ != "spoof_dns_ipv4"@,
        "allow_lan"@ != "drop_egress_without_output"@,
        "allow_lan"@ != "dns_max_ttl_sec"@,
        "spoof_dns"@ != "spoof_dns_ipv4"@,
        "spoof_dns"@ != "drop_egress_without_output"@,
        "spoof_dns"@ != "dns_max_ttl_sec"@,
        "spoof_dns_ipv4"@ != "drop_egress_without_output"@,
        "spoof_dns_ipv4"@ != "dns_max_ttl_sec"@,
        "drop_egress_without_output"@ != "dns_max_ttl_sec"@,
{
    reveal_strlit("probe_ipv4_addr");
    reveal_strlit("allow_lan");
    reveal_strlit("spoof_dns");
    reveal_strlit("spoof_dns_ipv4");
    reveal_strlit("drop_egress_without_output");
    reveal_strlit("dns_max_ttl_sec");
    assert("probe_ipv4_addr"@.len() == 15);
    assert("allow_lan"@.len() == 9);
    assert("spoof_dns_ipv4"@.len() == 14);
    assert("drop_egress_without_output"@.len() == 26);
    assert("allow_lan"@[0] != "spoof_dns"@[0]);
    assert("probe_ipv4_addr"@[0] != "dns_max_ttl_sec"@[0]);
}

/// Whether a setting has this name and can have this value.
pub open spec fn config_field_ok(key: Seq<char>, value: Seq<char>) -> bool {
    ||| key == "probe_ipv4_addr"@ && address_of(value) is Some
    ||| key == "allow_lan"@ && bool_of(value) is Some
    ||| key == "spoof_dns"@ && bool_of(value) is Some
    ||| key == "spoof_dns_ipv4"@ && address_of(value) is Some
    ||| key == "drop_egress_without_output"@ && bool_of(value) is Some
    ||| key == "dns_max_ttl_sec"@ && unsigned(value, u32::MAX as nat) is Some
}

/// Whether an error reports what is wrong with an entry.
pub open spec fn config_field_error(e: Error, key: Seq<char>, value: Seq<char>) -> bool {
    if key == "probe_ipv4_addr"@ || key == "spoof_dns_ipv4"@ {
        e matches Error::BadAddress(t) && t@ == value
    } else if key == "allow_lan"@ || key == "spoof_dns"@ || key == "drop_egress_without_output"@ {
        e matches Error::BadBool(t) && t@ == value
    } else if key == "dns_max_ttl_sec"@ {
        e matches Error::BadNumber(t) && t@ == value
    } else {
        e matches Error::UnknownConfigField(t) && t@ == key
    }
}

/// The setting of a truth value that a map gives, or another.
pub open spec fn bool_in(h: Map<Seq<char>, Seq<char>>, key: Seq<char>, other: bool) -> bool {
    if h.dom().contains(key) {
        bool_of(h[key])->0
    } else {
        other
    }
}

/// The setting of an address that a map gives, or another.
pub open spec fn address_in(h: Map<Seq<char>, Seq<char>>, key: Seq<char>, other: u32) -> u32 {
    if h.dom().contains(key) {
        address_of(h[key])->0
    } else {
        other
    }
}

/// Settings with the values that a map names, and those of `c` otherwise.
pub open spec fn config_with(c: Config, h: Map<Seq<char>, Seq<char>>) -> Config {
    Config {
        probe_ipv4_addr: address_in(h, "probe_ipv4_addr"@, c.probe_ipv4_addr),
        allow_lan: bool_in(h, "allow_lan"@, c.allow_lan),
        spoof_dns: bool_in(h, "spoof_dns"@, c.spoof_dns),
        spoof_dns_ipv4: address_in(h, "spoof_dns_ipv4"@, c.spoof_dns_ipv4),
        drop_egress_without_output: bool_in(
            h,
            "drop_egress_without_output"@,
            c.drop_egress_without_output,
        ),
        dns_max_ttl_sec: if h.dom().contains("dns_max_ttl_sec"@) {
            unsigned(h["dns_max_ttl_sec"@], u32::MAX as nat)->0 as u32
        } else {
            c.dns_max_ttl_sec
        },
    }
}

/// The entries by which settings are listed.
pub open spec fn config_entries(c: Config) -> Seq<(Seq<char>, Seq<char>)> {
    seq![
        ("probe_ipv4_addr"@, dotted(c.probe_ipv4_addr)),
        ("allow_lan"@, bool_name(c.allow_lan)),
        ("spoof_dns"@, bool_name(c.spoof_dns)),
        ("spoof_dns_ipv4"@, dotted(c.spoof_dns_ipv4)),
        ("drop_egress_without_output"@, bool_name(c.drop_egress_without_output)),
        ("dns_max_ttl_sec"@, decimal(c.dns_max_ttl_sec as nat)),
    ]
}

/// Reads an address.
fn read_address(v: &str) -> (r: Result<u32, Error>)
    ensures
        match r {
            Ok(a) => address_of(v@) == Some(a),
            Err(e) => address_of(v@) is None && (e matches Error::BadAddress(t) && t@ == v@),
        },
{
    match parse_ipv4(v) {
        Some(a) => {
            proof {
                address_reads_back(a);
            }
            Ok(a)
        },
        None => Err(Error::BadAddress(v.to_owned())),
    }
}

/// Reads a truth value.
fn read_bool(v: &str) -> (r: Result<bool, Error>)
    ensures
        match r {
            Ok(b) => bool_of(v@) == Some(b),
            Err(e) => bool_of(v@) is None && (e matches Error::BadBool(t) && t@ == v@),
        },
{
    match parse_bool(v) {
        Some(b) => {
            proof {
                bool_reads_back(b);
            }
            Ok(b)
        },
        None => Err(Error::BadBool(v.to_owned())),
    }
}

impl Config {
    /// The settings with one of them read from a text.
    fn with_field(self, key: &str, value: &str) -> (r: Result<Config, Error>)
        ensures
            match r {
                Ok(c) => config_field_ok(key@, value@) && c == config_with(
                    self,
                    Map::empty().insert(key@, value@),
                ),
                Err(e) => !config_field_ok(key@, value@) && config_field_error(e, key@, value@),
            },
    {
        proof {
            config_names_differ();
        }
        let mut c = self;
        if same_text(key, "probe_ipv4_addr") {
            match read_address(value) {
                Ok(a) => c.probe_ipv4_addr = a,
                Err(e) => return Err(e),
            }
        } else if same_text(key, "allow_lan") {
            match read_bool(value) {
                Ok(b) => c.allow_lan = b,
                Err(e) => return Err(e),
            }
        } else if same_text(key, "spoof_dns") {
            match read_bool(value) {
                Ok(b) => c.spoof_dns = b,
                Err(e) => return Err(e),
            }
        } else if same_text(key, "spoof_dns_ipv4") {
            match read_address(value) {
                Ok(a) => c.spoof_dns_ipv4 = a,
                Err(e) => return Err(e),
            }
        } else if same_text(key, "drop_egress_without_output") {
            match read_bool(value) {
                Ok(b) => c.drop_egress_without_output = b,
                Err(e) => return Err(e),
            }
        } else if same_text(key, "dns_max_ttl_sec") {
            match parse_unsigned(value, u32::MAX as u64) {
                Some(n) => c.dns_max_ttl_sec = n as u32,
                None => return Err(Error::BadNumber(value.to_owned())),
            }
        } else {
            return Err(Error::UnknownConfigField(key.to_owned()));
        }
        Ok(c)
    }

    /// Reads settings from named values. Those that are not named are those of
    /// `def`.
    pub fn from_hashmap(h: &Vec<(String, String)>, def: &Config) -> (r: Result<Config, Error>)
        ensures
            r is Ok <==> forall|i: int|
                0 <= i < h@.len() ==> config_field_ok(#[trigger] entries(h@)[i].0, entries(h@)[i].1),
            r matches Ok(c) ==> c == config_with(*def, as_map(entries(h@))),
            r matches Err(e) ==> exists|i: int|
                {
                    &&& 0 <= i < h@.len()
                    &&& forall|j: int|
                        0 <= j < i ==> config_field_ok(
                            #[trigger] entries(h@)[j].0,
                            entries(h@)[j].1,
                        )
                    &&& !config_field_ok(#[trigger] entries(h@)[i].0, entries(h@)[i].1)
                    &&& config_field_error(e, entries(h@)[i].0, entries(h@)[i].1)
                },
    {
        let ghost all = entries(h@);
        let mut c = *def;
        let mut i: usize = 0;
        assert(c == config_with(*def, as_map(all.take(0))));
        while i < h.len()
            invariant
                i <= h.len(),
                all == entries(h@),
                c == config_with(*def, as_map(all.take(i as int))),
                forall|j: int| 0 <= j < i ==> config_field_ok(#[trigger] all[j].0, all[j].1),
            decreases h.len() - i,
        {
            let ghost key = h@[i as int].0@;
            let ghost value = h@[i as int].1@;
            assert(all[i as int] == (key, value));
            assert(all.take(i + 1).drop_last() == all.take(i as int));
            assert(all.take(i + 1).last() == (key, value));
            match c.with_field(h[i].0.as_str(), h[i].1.as_str()) {
                Ok(next) => {
                    proof {
                        config_names_differ();
                    }
                    c = next;
                },
                Err(e) => {
                    assert(!config_field_ok(all[i as int].0, all[i as int].1));
                    return Err(e);
                },
            }
            assert(config_field_ok(all[i as int].0, all[i as int].1));
            i += 1;
        }
        assert(all.take(all.len() as int) == all);
        Ok(c)
    }

    /// The named values of the settings.
    pub fn to_hashmap(&self) -> (r: Vec<(String, String)>)
        ensures
            entries(r@) == config_entries(*self),
    {
        let mut h: Vec<(String, String)> = Vec::new();
        h.push(entry("probe_ipv4_addr", dotted_text(self.probe_ipv4_addr)));
        h.push(entry("allow_lan", bool_text(self.allow_lan)));
        h.push(entry("spoof_dns", bool_text(self.spoof_dns)));
        h.push(entry("spoof_dns_ipv4", dotted_text(self.spoof_dns_ipv4)));
        h.push(entry("drop_egress_without_output", bool_text(self.drop_egress_without_output)));
        h.push(entry("dns_max_ttl_sec", decimal_text(self.dns_max_ttl_sec as u64)));
        assert(entries(h@) =~= config_entries(*self));
        h
    }
}

/// Settings read back from the values by which they are listed, whatever they
/// would be otherwise.
pub proof fn config_reads_back(c: Config, def: Config)
    ensures
        forall|i: int|
            0 <= i < config_entries(c).len() ==> config_field_ok(
                #[trigger] config_entries(c)[i].0,
                config_entries(c)[i].1,
            ),
        config_with(def, as_map(config_entries(c))) == c,
{
    config_names_differ();
    address_reads_back(c.probe_ipv4_addr);
    address_reads_back(c.spoof_dns_ipv4);
    bool_reads_back(c.allow_lan);
    bool_reads_back(c.spoof_dns);
    bool_reads_back(c.drop_egress_without_output);
    unsigned_reads_back(c.dns_max_ttl_sec as nat, u32::MAX as nat);
    let h = config_entries(c);
    reveal_with_fuel(as_map, 7);
    assert(h.drop_last().drop_last().drop_last().drop_last().drop_last().drop_last() =~= Seq::<
        (Seq<char>, Seq<char>),
    >::empty());
}

/// In which order the named values come makes no difference to the settings
/// that are read, nor to whether they are read.
pub proof fn config_order_is_irrelevant(
    a: Seq<(Seq<char>, Seq<char>)>,
    b: Seq<(Seq<char>, Seq<char>)>,
    def: Config,
)
    requires
        distinct_keys(a),
        distinct_keys(b),
        forall|e: (Seq<char>, Seq<char>)| #[trigger] a.contains(e) <==> b.contains(e),
    ensures
        config_with(def, as_map(a)) == config_with(def, as_map(b)),
        (forall|i: int| 0 <= i < a.len() ==> config_field_ok(#[trigger] a[i].0, a[i].1)) <==> (
        forall|i: int| 0 <= i < b.len() ==> config_field_ok(#[trigger] b[i].0, b[i].1)),
{
    order_is_irrelevant(a, b);
    assert forall|i: int|
        0 <= i < a.len() && (forall|j: int|
            0 <= j < b.len() ==> config_field_ok(
                #[trigger] b[j].0,
                b[j].1,
            )) implies config_field_ok(#[trigger] a[i].0, a[i].1) by {
        assert(a.contains(a[i]));
        assert(b.contains(a[i]));
    }
    assert forall|i: int|
        0 <= i < b.len() && (forall|j: int|
            0 <= j < a.len() ==> config_field_ok(
                #[trigger] a[j].0,
                a[j].1,
            )) implies config_field_ok(#[trigger] b[i].0, b[i].1) by {
        assert(b.contains(b[i]));
        assert(a.contains(b[i]));
    }
}

/// Settings that are named take the value that is given under their name, the
/// others stay as they were.
pub proof fn named_settings_change(c: Config, h: Map<Seq<char>, Seq<char>>, a: u32, n: u32)
    ensures
        ({
            let d = config_with(c, h);
            &&& !h.dom().contains("probe_ipv4_addr"@) ==> d.probe_ipv4_addr == c.probe_ipv4_addr
            &&& !h.dom().contains("allow_lan"@) ==> d.allow_lan == c.allow_lan
            &&& !h.dom().contains("spoof_dns"@) ==> d.spoof_dns == c.spoof_dns
            &&& !h.dom().contains("spoof_dns_ipv4"@) ==> d.spoof_dns_ipv4 == c.spoof_dns_ipv4
            &&& !h.dom().contains("drop_egress_without_output"@) ==> d.drop_egress_without_output
                == c.drop_egress_without_output
            &&& !h.dom().contains("dns_max_ttl_sec"@) ==> d.dns_max_ttl_sec == c.dns_max_ttl_sec
            &&& h.contains_pair("probe_ipv4_addr"@, dotted(a)) ==> d.probe_ipv4_addr == a
            &&& h.contains_pair("spoof_dns_ipv4"@, dotted(a)) ==> d.spoof_dns_ipv4 == a
            &&& h.contains_pair("allow_lan"@, "true"@) ==> d.allow_lan
            &&& h.contains_pair("allow_lan"@, "false"@) ==> !d.allow_lan
            &&& h.contains_pair("spoof_dns"@, "true"@) ==> d.spoof_dns
            &&& h.contains_pair("spoof_dns"@, "false"@) ==> !d.spoof_dns
            &&& h.contains_pair("drop_egress_without_output"@, "true"@)
                ==> d.drop_egress_without_output
            &&& h.contains_pair("drop_egress_without_output"@, "false"@)
                ==> !d.drop_egress_without_output
            &&& h.contains_pair("dns_max_ttl_sec"@, decimal(n as nat)) ==> d.dns_max_ttl_sec == n
        }),
{
    address_reads_back(a);
    bool_reads_back(true);
    bool_reads_back(false);
    unsigned_reads_back(n as nat, u32::MAX as nat);
}

/// A setting can be given only under one of the known names, and only a value of its
/// kind: an address, a truth value or a number.
pub proof fn settings_are_checked(key: Seq<char>, value: Seq<char>)
    ensures
        config_field_ok(key, value) ==> key == "probe_ipv4_addr"@ || key == "allow_lan"@ || key
            == "spoof_dns"@ || key == "spoof_dns_ipv4"@ || key == "drop_egress_without_output"@
            || key == "dns_max_ttl_sec"@,
        key == "allow_lan"@ || key == "spoof_dns"@ || key == "drop_egress_without_output"@ ==> (
        config_field_ok(key, value) <==> value == "true"@ || value == "false"@),
        key == "probe_ipv4_addr"@ || key == "spoof_dns_ipv4"@ ==> (config_field_ok(key, value)
            <==> exists|a: u32| #[trigger] dotted(a) == value),
{
    config_names_differ();
}

} // verus!
