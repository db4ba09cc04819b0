//! The window and the service understand one another.

use crate::config::bool_reads_back;
use crate::dbus::attached_entries;
use crate::fields::{as_map, normal, normal_key, plain_key_is_normal, value_or};
use crate::gui::message::{
    attached_entry_counts, attached_with, empty_attached, empty_match, match_text_entries,
    map_of_entry_if_any, map_of_joined, map_of_match_text, match_text_with, names_are_normal,
    names_differ, stats_entry_counts, stats_with, AttachedView, MatchText, Stats,
};
use crate::matching::{
    default_match, direction_reads_back, field_names_differ, kind_reads_back, match_entries,
    match_field_ok, match_with, same_match, MatchView,
};
use crate::kinds::Method;
use crate::route::RouteView;
use crate::state::StateView;
use crate::stats::{traffic_entries, Traffic};
use crate::text::{bool_name, decimal, unsigned_reads_back};
use vstd::prelude::*;

verus! {

/// A match of the service as the window has it.
pub open spec fn shown(m: MatchView) -> MatchText {
    MatchText {
        pattern: m.pattern,
        kind: m.kind.spelling(),
        direction: m.direction.spelling(),
        user: m.user,
        uid: decimal(m.uid as nat),
    }
}

/// The window reads a match of the service as the service lists it, but for the
/// method.
pub proof fn match_of_service(m: MatchView)
    ensures
        match_text_with(empty_match(), as_map(normal(match_entries(m)))) == shown(m),
{
    names_differ();
    names_are_normal();
    field_names_differ();
    let h = match_entries(m);
    assert(normal(h) =~= h) by {
        assert forall|i: int| 0 <= i < h.len() implies normal(h)[i] == #[trigger] h[i] by {}
    }
    reveal_with_fuel(as_map, 7);
    let r = match_text_with(empty_match(), as_map(h));
    assert(r.pattern =~= m.pattern);
    assert(r.user =~= m.user);
    assert(r =~= shown(m));
}

/// The service takes the match that the window sends back, or asks to have taken
/// away, for the one that it listed.
pub proof fn match_goes_back(m: MatchView, uid: u32)
    ensures
        forall|i: int|
            0 <= i < match_text_entries(shown(m)).len() ==> match_field_ok(
                #[trigger] match_text_entries(shown(m))[i].0,
                match_text_entries(shown(m))[i].1,
            ),
        match_with(default_match(uid), as_map(match_text_entries(shown(m)))) == (MatchView {
            method: Method::full,
            ..m
        }),
        same_match(match_with(default_match(uid), as_map(match_text_entries(shown(m)))), m),
{
    names_differ();
    field_names_differ();
    kind_reads_back(m.kind);
    direction_reads_back(m.direction);
    unsigned_reads_back(m.uid as nat, u32::MAX as nat);
    let t = shown(m);
    map_of_match_text(t);
    map_of_entry_if_any("pattern"@, t.pattern);
    map_of_entry_if_any("kind"@, t.kind);
    map_of_entry_if_any("direction"@, t.direction);
    map_of_entry_if_any("user"@, t.user);
    map_of_entry_if_any("uid"@, t.uid);
    spelled_out(m);
    let r = match_with(default_match(uid), as_map(match_text_entries(t)));
    assert(r.pattern =~= m.pattern);
    assert(r.user =~= m.user);
}

/// The names and numbers of a match are no empty texts.
proof fn spelled_out(m: MatchView)
    ensures
        m.kind.spelling().len() > 0,
        m.direction.spelling().len() > 0,
        decimal(m.uid as nat).len() > 0,
{
    reveal_strlit("basename");
    reveal_strlit("path");
    reveal_strlit("ipv4");
    reveal_strlit("dns");
    reveal_strlit("redirect");
    reveal_strlit("bypass");
}

/// What the window has of the state of the service.
pub open spec fn attached_shown(
    s: StateView,
    attached: bool,
    blocker: Seq<char>,
    to: Option<RouteView>,
) -> AttachedView {
    AttachedView {
        enabled: s.enable,
        attached,
        blocker,
        to_ifname: match to {
            Some(r) => r.ifname,
            None => s.to_dev,
        },
        to_ifindex: match to {
            Some(r) => decimal(r.ifindex as nat),
            None => Seq::empty(),
        },
        to_addr: match to {
            Some(r) => if r.addrs.len() > 0 {
                r.addrs[0].notation()
            } else {
                Seq::empty()
            },
            None => Seq::empty(),
        },
    }
}

/// The names of what is told of the output and of traffic, with underscores.
proof fn output_names()
    ensures
        normal_key("enabled"@) == "enabled"@,
        normal_key("attached"@) == "attached"@,
        normal_key("blocker"@) == "blocker"@,
        normal_key("to-is-up"@) == "to_is_up"@,
        normal_key("to-ifname"@) == "to_ifname"@,
        normal_key("to-ifindex"@) == "to_ifindex"@,
        normal_key("to-addr"@) == "to_addr"@,
        normal_key("tx-bytes"@) == "tx_bytes"@,
        normal_key("rx-bytes"@) == "rx_bytes"@,
        normal_key("dtime-sec"@) == "dtime_sec"@,
        "to_is_up"@ != "to_addr"@,
        "to_is_up"@ != "to_ifname"@,
        "to_is_up"@ != "to_ifindex"@,
        "to_is_up"@ != "enabled"@,
        "to_is_up"@ != "attached"@,
        "to_is_up"@ != "blocker"@,
        "dtime_sec"@ != "tx_bytes"@,
        "dtime_sec"@ != "rx_bytes"@,
{
    reveal_strlit("enabled");
    reveal_strlit("attached");
    reveal_strlit("blocker");
    reveal_strlit("to-is-up");
    reveal_strlit("to-ifname");
    reveal_strlit("to-ifindex");
    reveal_strlit("to-addr");
    reveal_strlit("tx-bytes");
    reveal_strlit("rx-bytes");
    reveal_strlit("dtime-sec");
    reveal_strlit("to_is_up");
    reveal_strlit("to_ifname");
    reveal_strlit("to_ifindex");
    reveal_strlit("to_addr");
    reveal_strlit("tx_bytes");
    reveal_strlit("rx_bytes");
    reveal_strlit("dtime_sec");
    plain_key_is_normal("enabled"@);
    plain_key_is_normal("attached"@);
    plain_key_is_normal("blocker"@);
    assert(normal_key("to-is-up"@) =~= "to_is_up"@);
    assert(normal_key("to-ifname"@) =~= "to_ifname"@);
    assert(normal_key("to-ifindex"@) =~= "to_ifindex"@);
    assert(normal_key("to-addr"@) =~= "to_addr"@);
    assert(normal_key("tx-bytes"@) =~= "tx_bytes"@);
    assert(normal_key("rx-bytes"@) =~= "rx_bytes"@);
    assert(normal_key("dtime-sec"@) =~= "dtime_sec"@);
    assert("to_is_up"@.len() == 8);
    assert("to_addr"@.len() == 7);
    assert("to_ifname"@.len() == 9);
    assert("to_ifindex"@.len() == 10);
    assert("enabled"@.len() == 7);
    assert("attached"@.len() == 8);
    assert("attached"@[0] != "to_is_up"@[0]);
    assert("blocker"@.len() == 7);
    assert("dtime_sec"@.len() == 9);
    assert("tx_bytes"@.len() == 8);
    assert("rx_bytes"@.len() == 8);
}

/// Entries that all count stay as they are.
proof fn all_count(h: Seq<(Seq<char>, Seq<char>)>, counts: spec_fn((Seq<char>, Seq<char>)) -> bool)
    requires
        forall|i: int| 0 <= i < h.len() ==> counts(#[trigger] h[i]),
    ensures
        h.filter(counts) == h,
    decreases h.len(),
{
    reveal(Seq::filter);
    if h.len() > 0 {
        let rest = h.drop_last();
        assert forall|i: int| 0 <= i < rest.len() implies counts(#[trigger] rest[i]) by {
            assert(counts(h[i]));
        }
        all_count(rest, counts);
        assert(counts(h[h.len() - 1]));
        assert(rest.push(h.last()) =~= h);
    }
}

/// What is told of the output, with underscores in the names.
spec fn output_told(s: StateView, to: Option<RouteView>) -> Seq<(Seq<char>, Seq<char>)> {
    match to {
        Some(r) => {
            let base = seq![
                ("to_is_up"@, bool_name(r.is_up)),
                ("to_ifname"@, r.ifname),
                ("to_ifindex"@, decimal(r.ifindex as nat)),
            ];
            if r.addrs.len() > 0 {
                base.push(("to_addr"@, r.addrs[0].notation()))
            } else {
                base
            }
        },
        None => seq![("to_ifname"@, s.to_dev)],
    }
}

/// What is told of whether and why, with underscores in the names.
spec fn state_told(s: StateView, attached: bool, blocker: Seq<char>) -> Seq<
    (Seq<char>, Seq<char>),
> {
    let first = seq![("enabled"@, bool_name(s.enable)), ("attached"@, bool_name(attached))];
    if blocker.len() > 0 {
        first.push(("blocker"@, blocker))
    } else {
        first
    }
}

/// The map of what is told of the output.
proof fn map_of_output(s: StateView, to: Option<RouteView>)
    ensures
        ({
            let m = as_map(output_told(s, to));
            let w = attached_shown(s, true, Seq::empty(), to);
            &&& !m.dom().contains("enabled"@)
            &&& !m.dom().contains("attached"@)
            &&& !m.dom().contains("blocker"@)
            &&& value_or(m, "to_ifname"@, Seq::empty()) == w.to_ifname
            &&& value_or(m, "to_ifindex"@, Seq::empty()) == w.to_ifindex
            &&& value_or(m, "to_addr"@, Seq::empty()) == w.to_addr
        }),
{
    names_differ();
    output_names();
    let h = output_told(s, to);
    reveal_with_fuel(as_map, 5);
    match to {
        Some(r) => {
            let base = seq![
                ("to_is_up"@, bool_name(r.is_up)),
                ("to_ifname"@, r.ifname),
                ("to_ifindex"@, decimal(r.ifindex as nat)),
            ];
            assert(base.drop_last().drop_last().drop_last() =~= Seq::<
                (Seq<char>, Seq<char>),
            >::empty());
            if r.addrs.len() > 0 {
                assert(h.drop_last() =~= base);
            }
        },
        None => {
            assert(h.drop_last() =~= Seq::<(Seq<char>, Seq<char>)>::empty());
        },
    }
}

/// The map of what is told of whether and why.
proof fn map_of_state(s: StateView, attached: bool, blocker: Seq<char>)
    ensures
        ({
            let m = as_map(state_told(s, attached, blocker));
            &&& m.dom().contains("enabled"@) && m["enabled"@] == bool_name(s.enable)
            &&& m.dom().contains("attached"@) && m["attached"@] == bool_name(attached)
            &&& value_or(m, "blocker"@, Seq::empty()) == blocker
            &&& !m.dom().contains("to_ifname"@)
            &&& !m.dom().contains("to_ifindex"@)
            &&& !m.dom().contains("to_addr"@)
        }),
{
    names_differ();
    let h = state_told(s, attached, blocker);
    let first = seq![("enabled"@, bool_name(s.enable)), ("attached"@, bool_name(attached))];
    reveal_with_fuel(as_map, 4);
    assert(first.drop_last().drop_last() =~= Seq::<(Seq<char>, Seq<char>)>::empty());
    if blocker.len() > 0 {
        assert(h.drop_last() =~= first);
    } else {
        assert(blocker =~= Seq::empty());
    }
}

/// What is told counts.
proof fn told_counts(s: StateView, attached: bool, blocker: Seq<char>, to: Option<RouteView>)
    ensures
        ({
            let told = state_told(s, attached, blocker) + output_told(s, to);
            &&& normal(attached_entries(s, attached, blocker, to)) == told
            &&& told.filter(|e: (Seq<char>, Seq<char>)| attached_entry_counts(e)) == told
        }),
{
    names_differ();
    output_names();
    bool_reads_back(s.enable);
    bool_reads_back(attached);
    let told = state_told(s, attached, blocker) + output_told(s, to);
    assert(normal(attached_entries(s, attached, blocker, to)) =~= told);
    let counts = |e: (Seq<char>, Seq<char>)| attached_entry_counts(e);
    assert forall|i: int| 0 <= i < told.len() implies counts(#[trigger] told[i]) by {}
    all_count(told, counts);
}

/// The window reads the state of the service as the service tells it.
pub proof fn attached_of_service(
    s: StateView,
    attached: bool,
    blocker: Seq<char>,
    to: Option<RouteView>,
)
    ensures
        attached_with(
            empty_attached(),
            as_map(
                normal(attached_entries(s, attached, blocker, to)).filter(
                    |e: (Seq<char>, Seq<char>)| attached_entry_counts(e),
                ),
            ),
        ) == attached_shown(s, attached, blocker, to),
{
    told_counts(s, attached, blocker, to);
    map_of_state(s, attached, blocker);
    map_of_output(s, to);
    map_of_joined(state_told(s, attached, blocker), output_told(s, to));
    bool_reads_back(s.enable);
    bool_reads_back(attached);
}

/// The window reads traffic as the service tells it.
pub proof fn traffic_of_service(t: Traffic, seconds: Seq<char>)
    ensures
        stats_with(
            Stats { tx_bytes: 0, rx_bytes: 0 },
            as_map(
                normal(traffic_entries(t, seconds)).filter(
                    |e: (Seq<char>, Seq<char>)| stats_entry_counts(e),
                ),
            ),
        ) == (Stats { tx_bytes: t.tx, rx_bytes: t.rx }),
{
    names_differ();
    output_names();
    unsigned_reads_back(t.tx as nat, u64::MAX as nat);
    unsigned_reads_back(t.rx as nat, u64::MAX as nat);
    let h = normal(traffic_entries(t, seconds));
    let counts = |e: (Seq<char>, Seq<char>)| stats_entry_counts(e);
    let numbers = seq![
        ("tx_bytes"@, decimal(t.tx as nat)),
        ("rx_bytes"@, decimal(t.rx as nat)),
    ];
    assert(h =~= numbers.push(("dtime_sec"@, seconds)));
    assert(h.drop_last() =~= numbers);
    assert forall|i: int| 0 <= i < numbers.len() implies counts(#[trigger] numbers[i]) by {}
    all_count(numbers, counts);
    assert(h.filter(counts) == if counts(h.last()) {
        numbers.push(h.last())
    } else {
        numbers
    }) by {
        reveal(Seq::filter);
    }
    reveal_with_fuel(as_map, 4);
    assert(numbers.push(h.last()).drop_last() =~= numbers);
    assert(numbers.drop_last().drop_last() =~= Seq::<(Seq<char>, Seq<char>)>::empty());
}

} // verus!
