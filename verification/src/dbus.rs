//! What the service offers on the bus.

use crate::addr::{dotted, dotted_text, parse_ipv4};
use crate::config::{
    address_of, address_reads_back, config_entries, config_field_error, config_field_ok,
    config_with, Config,
};
use crate::dns::{
    cached, is_meant, meant_dests, name_labels, name_of, others, read_name, CachedView, DnsName,
    DnsState, RecordView,
};
use crate::error::Error;
use crate::fields::{as_map, entries, entry, value_of};
use crate::kinds::Kind;
use crate::matching::{match_entries, Match, MatchView};
use crate::netlink::route_view;
use crate::route::{Route, RouteView};
use crate::state::{State, StateView};
use crate::text::{bool_name, bool_text, decimal, decimal_text};
use vstd::prelude::*;

verus! {

/// Whether a match looks at the process that sends.
pub open spec fn per_process(m: MatchView) -> bool {
    m.kind == Kind::basename || m.kind == Kind::path
}

/// Whether a user may have a match changed without being authorised: the
/// superuser may, and others for their own processes.
pub open spec fn is_free(uid: u32, m: MatchView) -> bool {
    uid == 0 || (uid == m.uid && per_process(m))
}

/// Whether a user has to be authorised to have a match added or taken away.
pub fn needs_auth(uid: u32, m: &Match) -> (r: bool)
    ensures
        r == !is_free(uid, m@),
{
    uid != 0 && (uid != m.uid || !m.is_per_process())
}

/// Whether a user has to be authorised to have a match put in the place of
/// another.
pub fn needs_auth_to_replace(uid: u32, from: &Match, to: &Match) -> (r: bool)
    ensures
        r == !(is_free(uid, from@) && is_free(uid, to@)),
{
    uid != 0 && (uid != from.uid || uid != to.uid || !from.is_per_process()
        || !to.is_per_process())
}

impl State {
    /// Switches redirecting on.
    pub fn switch_on(&mut self)
        ensures
            final(self)@ == (StateView { enable: true, ..old(self)@ }),
    {
        self.enable = true;
    }

    /// Switches redirecting off.
    pub fn switch_off(&mut self)
        ensures
            final(self)@ == (StateView { enable: false, ..old(self)@ }),
    {
        self.enable = false;
    }

    /// Switches redirecting on or off, whichever it is not.
    pub fn toggle(&mut self)
        ensures
            final(self)@ == (StateView { enable: !old(self).enable, ..old(self)@ }),
    {
        self.enable = !self.enable;
    }

    /// Makes another device the output.
    pub fn change_output(&mut self, output: String)
        ensures
            final(self)@ == (StateView { to_dev: output@, ..old(self)@ }),
    {
        self.to_dev = output;
    }

    /// Changes the settings that are named. Where one cannot be read, all stay as
    /// they are.
    pub fn update_config(&mut self, new: &Vec<(String, String)>) -> (r: Result<(), Error>)
        ensures
            r is Ok <==> forall|i: int|
                0 <= i < new@.len() ==> config_field_ok(
                    #[trigger] entries(new@)[i].0,
                    entries(new@)[i].1,
                ),
            r is Ok ==> final(self)@ == (StateView {
                config: config_with(old(self).config, as_map(entries(new@))),
                ..old(self)@
            }),
            r matches Err(e) ==> final(self)@ == old(self)@ && exists|i: int|
                0 <= i < new@.len() && !config_field_ok(
                    #[trigger] entries(new@)[i].0,
                    entries(new@)[i].1,
                ) && config_field_error(e, entries(new@)[i].0, entries(new@)[i].1),
    {
        match Config::from_hashmap(new, &self.config) {
            Ok(c) => {
                self.config = c;
                Ok(())
            },
            Err(e) => Err(e),
        }
    }

    /// The matches, each by its named values.
    pub fn matches_property(&self) -> (r: Vec<Vec<(String, String)>>)
        ensures
            r@.len() == self.matches.matches@.len(),
            forall|i: int|
                0 <= i < r@.len() ==> entries((#[trigger] r@[i])@) == match_entries(
                    self@.matches.matches[i],
                ),
    {
        let mut r: Vec<Vec<(String, String)>> = Vec::new();
        let mut i: usize = 0;
        while i < self.matches.matches.len()
            invariant
                i <= self.matches.matches@.len(),
                r@.len() == i,
                forall|j: int|
                    0 <= j < i ==> entries((#[trigger] r@[j])@) == match_entries(
                        self@.matches.matches[j],
                    ),
            decreases self.matches.matches.len() - i,
        {
            assert(self@.matches.matches[i as int] == self.matches.matches@[i as int]@);
            r.push(self.matches.matches[i].to_hashmap());
            i += 1;
        }
        r
    }

    /// The named values of the settings.
    pub fn config_property(&self) -> (r: Vec<(String, String)>)
        ensures
            entries(r@) == config_entries(self.config),
    {
        self.config.to_hashmap()
    }
}

/// The entries about the output.
pub open spec fn output_entries(s: StateView, to: Option<RouteView>) -> Seq<(Seq<char>, Seq<char>)> {
    match to {
        Some(r) => {
            let base = seq![
                ("to-is-up"@, bool_name(r.is_up)),
                ("to-ifname"@, r.ifname),
                ("to-ifindex"@, decimal(r.ifindex as nat)),
            ];
            if r.addrs.len() > 0 {
                base.push(("to-addr"@, r.addrs[0].notation()))
            } else {
                base
            }
        },
        None => seq![("to-ifname"@, s.to_dev)],
    }
}

/// The entries by which the state of the service is told.
pub open spec fn attached_entries(
    s: StateView,
    attached: bool,
    blocker: Seq<char>,
    to: Option<RouteView>,
) -> Seq<(Seq<char>, Seq<char>)> {
    let why = if blocker.len() > 0 {
        seq![("blocker"@, blocker)]
    } else {
        seq![]
    };
    seq![("enabled"@, bool_name(s.enable)), ("attached"@, bool_name(attached))] + why
        + output_entries(s, to)
}

/// Tells the state of the service: whether redirecting is switched on, whether
/// the kernel side was set up, why nothing is redirected, and the output.
pub fn attached_property(s: &State, attached: bool, blocker: &String, to: Option<&Route>) -> (r: Vec<
    (String, String),
>)
    ensures
        entries(r@) == attached_entries(s@, attached, blocker@, route_view(to)),
{
    let mut h: Vec<(String, String)> = Vec::new();
    h.push(entry("enabled", bool_text(s.enable)));
    h.push(entry("attached", bool_text(attached)));
    if !blocker.as_str().is_empty() {
        h.push(entry("blocker", blocker.clone()));
    }
    match to {
        Some(r) => {
            h.push(entry("to-is-up", bool_text(r.is_up)));
            h.push(entry("to-ifname", r.ifname.clone()));
            h.push(entry("to-ifindex", decimal_text(r.ifindex as u64)));
            if r.addrs.len() > 0 {
                h.push(entry("to-addr", r.addrs[0].text()));
            }
        },
        None => {
            h.push(entry("to-ifname", s.to_dev.clone()));
        },
    }
    assert(entries(h@) =~= attached_entries(s@, attached, blocker@, route_view(to)));
    h
}

/// How many whole seconds there are until a moment.
pub open spec fn seconds_left(due: u64, now: u64) -> nat {
    if due > now {
        ((due - now) / 1_000_000_000) as nat
    } else {
        0
    }
}

/// The entries by which a DNS record is told.
pub open spec fn record_entries(r: RecordView, cache: Seq<CachedView>, now: u64) -> Seq<
    (Seq<char>, Seq<char>),
> {
    let base = seq![
        ("ttl"@, decimal(seconds_left(r.due, now))),
        ("name"@, r.name.text),
        ("address"@, dotted(r.dest)),
    ];
    match cached(cache, r.name.labels) {
        Some((d, id)) => base + seq![
            ("direction"@, d.spelling()),
            ("match-id"@, decimal(id as nat)),
        ],
        None => base,
    }
}

/// The address that a request to retire DNS records gives.
pub open spec fn retired_dest(h: Map<Seq<char>, Seq<char>>) -> Option<u32> {
    if h.dom().contains("destination"@) {
        address_of(h["destination"@])
    } else {
        None
    }
}

/// The labels of the name that a request to retire DNS records gives.
pub open spec fn retired_name(h: Map<Seq<char>, Seq<char>>) -> Option<Seq<Seq<u8>>> {
    if h.dom().contains("name"@) {
        match name_of(h["name"@]) {
            Some(n) => Some(n.0),
            None => None,
        }
    } else {
        None
    }
}

/// Whether a request to retire DNS records gives an address that is none.
pub open spec fn retires_bad_dest(h: Map<Seq<char>, Seq<char>>) -> bool {
    h.dom().contains("destination"@) && address_of(h["destination"@]) is None
}

/// Whether a request to retire DNS records gives a name that is none.
pub open spec fn retires_bad_name(h: Map<Seq<char>, Seq<char>>) -> bool {
    h.dom().contains("name"@) && name_of(h["name"@]) is None
}

impl DnsState {
    /// Tells the active DNS records, in their order.
    pub fn get_dns_records(&self, now: u64) -> (r: Vec<Vec<(String, String)>>)
        ensures
            r@.len() == self.records@.len(),
            forall|i: int|
                0 <= i < r@.len() ==> entries((#[trigger] r@[i])@) == record_entries(
                    self.view_records()[i],
                    self.view_cache(),
                    now,
                ),
    {
        let mut r: Vec<Vec<(String, String)>> = Vec::new();
        let mut i: usize = 0;
        while i < self.records.len()
            invariant
                i <= self.records@.len(),
                r@.len() == i,
                forall|j: int|
                    0 <= j < i ==> entries((#[trigger] r@[j])@) == record_entries(
                        self.view_records()[j],
                        self.view_cache(),
                        now,
                    ),
            decreases self.records.len() - i,
        {
            let rec = &self.records[i];
            let ttl: u64 = rec.due.saturating_sub(now) / 1_000_000_000;
            let mut h: Vec<(String, String)> = Vec::new();
            h.push(entry("ttl", decimal_text(ttl)));
            h.push(entry("name", rec.name.text.clone()));
            h.push(entry("address", dotted_text(rec.dest)));
            if let Some((d, id)) = self.lookup(&rec.name) {
                h.push(entry("direction", d.name().to_owned()));
                h.push(entry("match-id", decimal_text(id as u64)));
            }
            assert(self.view_records()[i as int] == rec@);
            assert(entries(h@) =~= record_entries(rec@, self.view_cache(), now));
            r.push(h);
            i += 1;
        }
        r
    }

    /// Takes away the records for an address and a name, as far as a request gives
    /// them, and gives the addresses whose routes go with them. Where the request
    /// cannot be read, or fits no record, nothing changes.
    pub fn retire_dns_record(&mut self, record: &Vec<(String, String)>) -> (r: Result<Vec<u32>, Error>)
        ensures
            ({
                let h = as_map(entries(record@));
                let all = old(self).view_records();
                let gone = meant_dests(all, retired_name(h), retired_dest(h));
                if retires_bad_dest(h) {
                    &&& r matches Err(Error::BadAddress(t))
                    &&& t@ == h["destination"@]
                    &&& final(self).view_records() == all
                } else if retires_bad_name(h) {
                    &&& r matches Err(Error::BadName(t))
                    &&& t@ == h["name"@]
                    &&& final(self).view_records() == all
                } else {
                    &&& final(self).view_records() == others(all, retired_name(h), retired_dest(h))
                    &&& gone.len() > 0 ==> (r matches Ok(v) && v@ == gone)
                    &&& gone.len() == 0 ==> (r matches Err(e) && e is NoSuchRecord)
                }
            }),
            final(self).view_cache() == old(self).view_cache(),
            old(self).wf() ==> final(self).wf(),
    {
        let ghost h = as_map(entries(record@));
        let dest: Option<u32> = match value_of(record, "destination") {
            Some(v) => match parse_ipv4(v.as_str()) {
                Some(a) => {
                    proof {
                        address_reads_back(a);
                    }
                    Some(a)
                },
                None => {
                    return Err(Error::BadAddress(v));
                },
            },
            None => None,
        };
        let name: Option<DnsName> = match value_of(record, "name") {
            Some(v) => match read_name(v.as_str()) {
                Some(n) => Some(n),
                None => {
                    return Err(Error::BadName(v));
                },
            },
            None => None,
        };
        let wanted: Option<&DnsName> = match &name {
            Some(n) => Some(n),
            None => None,
        };
        assert(name_labels(wanted) == retired_name(h));
        let gone = self.remove_records(wanted, dest);
        if gone.len() == 0 {
            Err(Error::NoSuchRecord)
        } else {
            Ok(gone)
        }
    }
}

/// Where no record fits a request, none goes.
pub proof fn records_stay_without_fit(
    rs: Seq<RecordView>,
    name: Option<Seq<Seq<u8>>>,
    dest: Option<u32>,
)
    requires
        meant_dests(rs, name, dest).len() == 0,
    ensures
        others(rs, name, dest) == rs,
    decreases rs.len(),
{
    reveal(Seq::filter);
    let keep = |r: RecordView| !is_meant(r, name, dest);
    if rs.len() > 0 {
        records_stay_without_fit(rs.drop_last(), name, dest);
        assert(rs.drop_last().push(rs.last()) =~= rs);
    }
    assert(rs.filter(keep) =~= rs);
}

} // verus!
