//! What becomes of the names and addresses that are learned.

use crate::addr::dotted;
use crate::config::address_reads_back;
use crate::dbus::{
    attached_entries, is_free, record_entries, retired_dest, retired_name, retires_bad_dest,
    retires_bad_name, seconds_left,
};
use crate::dns::{
    cache_of, cached, departing, directed, expiry, in_order, is_meant, meant_dests, name_of, others,
    same_record, still_cached, surviving, useful, useless, CachedView, MessageView, RecordView,
};
use crate::error::Error;
use crate::kinds::{Direction, Kind};
use crate::matching::MatchView;
use crate::route::RouteView;
use crate::state::StateView;
use crate::stats::{traffic_entries, Traffic};
use crate::text::decimal;
use vstd::prelude::*;

verus! {

/// Whether a match looks at a name.
pub open spec fn looks_at(m: MatchView, labels: Seq<Seq<u8>>) -> bool {
    m.kind == Kind::dns && (name_of(m.pattern) matches Some(n) && n.0 == labels)
}

/// What was taken over of matches tells of a name the position and the direction of
/// the last match that looks at it.
pub proof fn last_match_decides(ms: Seq<MatchView>, labels: Seq<Seq<u8>>)
    requires
        ms.len() <= usize::MAX,
    ensures
        match cached(cache_of(ms), labels) {
            Some((d, id)) => {
                &&& id < ms.len()
                &&& looks_at(ms[id as int], labels)
                &&& d == ms[id as int].direction
                &&& forall|k: int| id < k < ms.len() ==> !looks_at(#[trigger] ms[k], labels)
            },
            None => forall|k: int| 0 <= k < ms.len() ==> !looks_at(#[trigger] ms[k], labels),
        },
    decreases ms.len(),
{
    if ms.len() > 0 {
        let before = ms.drop_last();
        last_match_decides(before, labels);
        assert(forall|k: int| 0 <= k < before.len() ==> before[k] == ms[k]);
        let c = cache_of(ms);
        if c != cache_of(before) {
            assert(c.drop_last() =~= cache_of(before));
        }
    }
}

/// An answer holds as long as it says, but never longer than is allowed.
pub proof fn answers_hold_for_their_time(now: u64, ttl: u32, max_ttl: u32)
    requires
        now + max_ttl * 1_000_000_000 <= u64::MAX,
    ensures
        expiry(now, ttl, max_ttl) <= now + ttl * 1_000_000_000,
        expiry(now, ttl, max_ttl) <= now + max_ttl * 1_000_000_000,
        expiry(now, ttl, max_ttl) == now + ttl * 1_000_000_000 || expiry(now, ttl, max_ttl) == now
            + max_ttl * 1_000_000_000,
{
}

/// A message is of use where it is a response without a failure and holds a
/// question or an answer.
pub proof fn responses_are_useful(m: MessageView)
    ensures
        useful(m) <==> m.response && m.code == 0 && (m.queries > 0 || m.answers.len() > 0),
{
}

/// A record stays when time passes where it is not due yet or still holds. It keeps
/// its name, its address and until when it holds; one that was due is due again at
/// that time.
pub proof fn holding_records_stay(rs: Seq<RecordView>, now: u64, i: int)
    requires
        0 <= i < rs.len(),
        rs[i].due > now || rs[i].expires > now,
    ensures
        surviving(rs, now).contains(
            RecordView {
                due: if rs[i].due > now {
                    rs[i].due
                } else {
                    rs[i].expires
                },
                ..rs[i]
            },
        ),
    decreases rs.len(),
{
    let x = RecordView {
        due: if rs[i].due > now {
            rs[i].due
        } else {
            rs[i].expires
        },
        ..rs[i]
    };
    let front = surviving(rs.drop_last(), now);
    let all = surviving(rs, now);
    if i < rs.len() - 1 {
        holding_records_stay(rs.drop_last(), now, i);
        let k = choose|k: int| 0 <= k < front.len() && front[k] == x;
        assert(all[k] == x);
    } else {
        assert(all[all.len() - 1] == x);
    }
}

/// Each record either stays or goes when time passes, and those that go were due
/// and held no longer.
pub proof fn lapsed_records_go(rs: Seq<RecordView>, now: u64, i: int)
    requires
        0 <= i < rs.len(),
        rs[i].due <= now,
        rs[i].expires <= now,
    ensures
        departing(rs, now).contains((rs[i].due, rs[i].dest)),
        surviving(rs, now).len() + departing(rs, now).len() == rs.len(),
        surviving(rs, now).len() == rs.filter(
            |r: RecordView| r.due > now || r.expires > now,
        ).len(),
    decreases rs.len(),
{
    let x = (rs[i].due, rs[i].dest);
    let front = departing(rs.drop_last(), now);
    let all = departing(rs, now);
    if i < rs.len() - 1 {
        lapsed_records_go(rs.drop_last(), now, i);
        let k = choose|k: int| 0 <= k < front.len() && front[k] == x;
        assert(all[k] == x);
    } else {
        assert(all[all.len() - 1] == x);
    }
    some_stay(rs, now);
}

/// How many records stay and how many go.
proof fn some_stay(rs: Seq<RecordView>, now: u64)
    ensures
        surviving(rs, now).len() + departing(rs, now).len() == rs.len(),
        surviving(rs, now).len() == rs.filter(
            |r: RecordView| r.due > now || r.expires > now,
        ).len(),
    decreases rs.len(),
{
    reveal(Seq::filter);
    if rs.len() > 0 {
        some_stay(rs.drop_last(), now);
    }
}

/// A request to retire records takes those away that have the name and the address
/// that it gives, as far as it gives them, and tells their addresses; the others
/// stay.
pub proof fn meant_records_are_retired(
    rs: Seq<RecordView>,
    name: Option<Seq<Seq<u8>>>,
    dest: Option<u32>,
    i: int,
)
    requires
        0 <= i < rs.len(),
    ensures
        ({
            let fits = (name is None || rs[i].name.labels == name->0) && (dest is None || rs[i].dest
                == dest->0);
            &&& fits ==> meant_dests(rs, name, dest).contains(rs[i].dest) && !others(
                rs,
                name,
                dest,
            ).contains(rs[i])
            &&& !fits ==> others(rs, name, dest).contains(rs[i])
        }),
        others(rs, name, dest).len() + meant_dests(rs, name, dest).len() == rs.len(),
{
    broadcast use vstd::seq_lib::group_filter_ensures;

    let keep = |r: RecordView| !is_meant(r, name, dest);
    let left = rs.filter(keep);
    if left.contains(rs[i]) {
        let k = choose|k: int| 0 <= k < left.len() && left[k] == rs[i];
        assert(keep(left[k]));
    }
    if keep(rs[i]) {
        assert(rs.contains(rs[i]));
    }
    meant_are_told(rs, name, dest, i);
}

/// The addresses of records that are meant.
proof fn meant_are_told(
    rs: Seq<RecordView>,
    name: Option<Seq<Seq<u8>>>,
    dest: Option<u32>,
    i: int,
)
    requires
        i < rs.len(),
    ensures
        0 <= i && is_meant(rs[i], name, dest) ==> meant_dests(rs, name, dest).contains(rs[i].dest),
        others(rs, name, dest).len() + meant_dests(rs, name, dest).len() == rs.len(),
    decreases rs.len(),
{
    reveal(Seq::filter);
    if rs.len() > 0 {
        let front = meant_dests(rs.drop_last(), name, dest);
        let all = meant_dests(rs, name, dest);
        if i < rs.len() - 1 {
            meant_are_told(rs.drop_last(), name, dest, i);
            if 0 <= i && is_meant(rs[i], name, dest) {
                let k = choose|k: int| 0 <= k < front.len() && front[k] == rs[i].dest;
                assert(all[k] == rs[i].dest);
            }
        } else {
            meant_are_told(rs.drop_last(), name, dest, -1);
            if is_meant(rs[i], name, dest) {
                assert(all[all.len() - 1] == rs[i].dest);
            }
        }
    }
}

/// Once the matches were taken over, the records whose name a match looks at stay,
/// and each has its route in the direction of the last such match. The others go.
pub proof fn records_follow_matches(rs: Seq<RecordView>, ms: Seq<MatchView>, i: int)
    requires
        0 <= i < rs.len(),
        ms.len() <= usize::MAX,
    ensures
        ({
            let kept = still_cached(rs, cache_of(ms));
            let labels = rs[i].name.labels;
            &&& kept.contains(rs[i]) <==> exists|k: int|
                0 <= k < ms.len() && looks_at(#[trigger] ms[k], labels)
            &&& forall|k: int|
                #![trigger ms[k]]
                0 <= k < ms.len() && looks_at(ms[k], labels) && (forall|j: int|
                    k < j < ms.len() ==> !looks_at(#[trigger] ms[j], labels)) ==> directed(
                    kept,
                    cache_of(ms),
                ).contains((rs[i].dest, ms[k].direction))
        }),
{
    broadcast use vstd::seq_lib::group_filter_ensures;

    let cache = cache_of(ms);
    let labels = rs[i].name.labels;
    let keep = |r: RecordView| cached(cache, r.name.labels) is Some;
    let kept = rs.filter(keep);
    last_match_decides(ms, labels);
    if kept.contains(rs[i]) {
        let k = choose|k: int| 0 <= k < kept.len() && kept[k] == rs[i];
        assert(keep(kept[k]));
        let id = (cached(cache, labels)->0).1 as int;
        assert(looks_at(ms[id], labels));
    }
    assert forall|k: int| 0 <= k < ms.len() && looks_at(#[trigger] ms[k], labels) implies kept.contains(
        rs[i],
    ) by {
        assert(keep(rs[i]));
        assert(rs.contains(rs[i]));
    }
    assert forall|k: int|
        #![trigger ms[k]]
        0 <= k < ms.len() && looks_at(ms[k], labels) && (forall|j: int|
            k < j < ms.len() ==> !looks_at(#[trigger] ms[j], labels)) implies directed(
        kept,
        cache,
    ).contains((rs[i].dest, ms[k].direction)) by {
        let id = (cached(cache, labels)->0).1 as int;
        assert(looks_at(ms[id], labels));
        assert(id == k);
        assert(kept.contains(rs[i]));
        let at = choose|at: int| 0 <= at < kept.len() && kept[at] == rs[i];
        cached_are_directed(kept, cache, at);
    }
}

/// A record whose name is known has its direction.
proof fn cached_are_directed(rs: Seq<RecordView>, cache: Seq<CachedView>, i: int)
    requires
        0 <= i < rs.len(),
        cached(cache, rs[i].name.labels) is Some,
    ensures
        directed(rs, cache).contains((rs[i].dest, (cached(cache, rs[i].name.labels)->0).0)),
    decreases rs.len(),
{
    let x = (rs[i].dest, (cached(cache, rs[i].name.labels)->0).0);
    let front = directed(rs.drop_last(), cache);
    let all = directed(rs, cache);
    if i < rs.len() - 1 {
        cached_are_directed(rs.drop_last(), cache, i);
        let k = choose|k: int| 0 <= k < front.len() && front[k] == x;
        assert(all[k] == x);
    } else {
        assert(all[all.len() - 1] == x);
    }
}

/// The superuser may have every match changed. Any other user may without being
/// authorised only have those changed that look at programs and bear the number of
/// that user, and all of these.
pub proof fn users_change_their_own(uid: u32, m: MatchView)
    ensures
        is_free(0, m),
        uid != 0 && uid != m.uid ==> !is_free(uid, m),
        uid != 0 && (m.kind == Kind::ipv4 || m.kind == Kind::dns) ==> !is_free(uid, m),
        uid == m.uid && (m.kind == Kind::basename || m.kind == Kind::path) ==> is_free(uid, m),
{
}

/// A record is told by the seconds that are left, its name and its address, and by
/// the direction and the position of the last match that looks at its name.
pub proof fn record_is_told(r: RecordView, ms: Seq<MatchView>, now: u64, id: usize)
    requires
        ms.len() <= usize::MAX,
        id < ms.len(),
        looks_at(ms[id as int], r.name.labels),
        forall|k: int| id < k < ms.len() ==> !looks_at(#[trigger] ms[k], r.name.labels),
    ensures
        ({
            let e = record_entries(r, cache_of(ms), now);
            let left = seconds_left(r.due, now);
            &&& e.contains(("ttl"@, decimal(left)))
            &&& e.contains(("name"@, r.name.text))
            &&& e.contains(("address"@, dotted(r.dest)))
            &&& ms[id as int].direction == Direction::redirect ==> e.contains(
                ("direction"@, "redirect"@),
            )
            &&& ms[id as int].direction == Direction::bypass ==> e.contains(
                ("direction"@, "bypass"@),
            )
            &&& e.contains(("match-id"@, decimal(id as nat)))
            &&& e.len() == 5
            &&& r.due <= now ==> left == 0
            &&& r.due > now ==> now + left * 1_000_000_000 <= r.due < now + (left + 1)
                * 1_000_000_000
        }),
{
    last_match_decides(ms, r.name.labels);
    let got = (cached(cache_of(ms), r.name.labels)->0).1;
    assert(looks_at(ms[got as int], r.name.labels));
    let e = record_entries(r, cache_of(ms), now);
    assert(e[0] == ("ttl"@, decimal(seconds_left(r.due, now))));
    assert(e[1] == ("name"@, r.name.text));
    assert(e[2] == ("address"@, dotted(r.dest)));
    assert(e[3] == ("direction"@, ms[id as int].direction.spelling()));
    assert(e[4] == ("match-id"@, decimal(id as nat)));
}

/// The state of the service is told under fixed names: whether redirecting is
/// switched on, whether the kernel side was set up, why nothing is redirected, and
/// the output: its name as it was found, or else as it was given, and where it was
/// found whether it is up, its number and its first address.
pub proof fn state_is_told(
    s: StateView,
    attached: bool,
    blocker: Seq<char>,
    to: Option<RouteView>,
    v: Seq<char>,
)
    ensures
        ({
            let e = attached_entries(s, attached, blocker, to);
            &&& e.contains(("enabled"@, v)) <==> v == if s.enable {
                "true"@
            } else {
                "false"@
            }
            &&& e.contains(("attached"@, v)) <==> v == if attached {
                "true"@
            } else {
                "false"@
            }
            &&& e.contains(("blocker"@, v)) <==> v == blocker && v.len() > 0
            &&& e.contains(("to-ifname"@, v)) <==> v == match to {
                Some(r) => r.ifname,
                None => s.to_dev,
            }
            &&& e.contains(("to-is-up"@, v)) <==> to is Some && v == if to->0.is_up {
                "true"@
            } else {
                "false"@
            }
            &&& e.contains(("to-ifindex"@, v)) <==> to is Some && v == decimal(
                to->0.ifindex as nat,
            )
            &&& e.contains(("to-addr"@, v)) <==> to is Some && to->0.addrs.len() > 0 && v
                == to->0.addrs[0].notation()
        }),
{
    told_names_differ();
    let e = attached_entries(s, attached, blocker, to);
    let n = if blocker.len() > 0 {
        3int
    } else {
        2
    };
    assert(e[0].0 == "enabled"@);
    assert(e[1].0 == "attached"@);
    if blocker.len() > 0 {
        assert(e[2] == ("blocker"@, blocker));
    }
    if to is Some {
        assert(e[n].0 == "to-is-up"@);
        assert(e[n + 1] == ("to-ifname"@, to->0.ifname));
        assert(e[n + 2].0 == "to-ifindex"@);
        if to->0.addrs.len() > 0 {
            assert(e[n + 3].0 == "to-addr"@);
            assert(e.len() == n + 4);
        } else {
            assert(e.len() == n + 3);
        }
    } else {
        assert(e[n] == ("to-ifname"@, s.to_dev));
        assert(e.len() == n + 1);
    }
}

/// The names under which the state is told differ.
proof fn told_names_differ()
    ensures
        "enabled"@ != "attached"@,
        "enabled"@ != "blocker"@,
        "enabled"@ != "to-is-up"@,
        "enabled"@ != "to-ifname"@,
        "enabled"@ != "to-ifindex"@,
        "enabled"@ != "to-addr"@,
        "attached"@ != "blocker"@,
        "attached"@ != "to-is-up"@,
        "attached"@ != "to-ifname"@,
        "attached"@ != "to-ifindex"@,
        "attached"@ != "to-addr"@,
        "blocker"@ != "to-is-up"@,
        "blocker"@ != "to-ifname"@,
        "blocker"@ != "to-ifindex"@,
        "blocker"@ != "to-addr"@,
        "to-is-up"@ != "to-ifname"@,
        "to-is-up"@ != "to-ifindex"@,
        "to-is-up"@ != "to-addr"@,
        "to-ifname"@ != "to-ifindex"@,
        "to-ifname"@ != "to-addr"@,
        "to-ifindex"@ != "to-addr"@,
{
    reveal_strlit("enabled");
    reveal_strlit("attached");
    reveal_strlit("blocker");
    reveal_strlit("to-is-up");
    reveal_strlit("to-ifname");
    reveal_strlit("to-ifindex");
    reveal_strlit("to-addr");
    assert("enabled"@[0] != "blocker"@[0]);
    assert("enabled"@[0] != "to-addr"@[0]);
    assert("blocker"@[0] != "to-addr"@[0]);
    assert("attached"@[0] != "to-is-up"@[0]);
    assert("enabled"@.len() == 7 && "blocker"@.len() == 7 && "to-addr"@.len() == 7);
    assert("attached"@.len() == 8 && "to-is-up"@.len() == 8);
    assert("to-ifname"@.len() == 9 && "to-ifindex"@.len() == 10);
}

/// A request to retire records gives the address under `destination` and the name
/// under `name`; what it does not give does not count, and what cannot be read makes
/// it a bad one.
pub proof fn retiring_is_read(h: Map<Seq<char>, Seq<char>>, a: u32)
    ensures
        h.contains_pair("destination"@, dotted(a)) ==> retired_dest(h) == Some(a)
            && !retires_bad_dest(h),
        !h.dom().contains("destination"@) ==> retired_dest(h) is None && !retires_bad_dest(h),
        h.dom().contains("destination"@) && (forall|b: u32| #[trigger] dotted(b)
            != h["destination"@]) ==> retires_bad_dest(h),
        !h.dom().contains("name"@) ==> retired_name(h) is None && !retires_bad_name(h),
        h.dom().contains("name"@) ==> (retires_bad_name(h) <==> name_of(h["name"@]) is None),
        h.dom().contains("name"@) && name_of(h["name"@]) is Some ==> retired_name(h) == Some(
            (name_of(h["name"@])->0).0,
        ),
{
    address_reads_back(a);
}

/// Traffic is told under fixed names, what was sent and what was received apart.
pub proof fn traffic_is_told(t: Traffic, seconds: Seq<char>, v: Seq<char>)
    ensures
        traffic_entries(t, seconds).contains(("tx-bytes"@, v)) <==> v == decimal(t.tx as nat),
        traffic_entries(t, seconds).contains(("rx-bytes"@, v)) <==> v == decimal(t.rx as nat),
        traffic_entries(t, seconds).contains(("dtime-sec"@, v)) <==> v == seconds,
{
    reveal_strlit("tx-bytes");
    reveal_strlit("rx-bytes");
    reveal_strlit("dtime-sec");
    assert("tx-bytes"@[0] != "rx-bytes"@[0]);
    assert("dtime-sec"@.len() == 9 && "tx-bytes"@.len() == 8 && "rx-bytes"@.len() == 8);
    let e = traffic_entries(t, seconds);
    assert(e[0] == ("tx-bytes"@, decimal(t.tx as nat)));
    assert(e[1] == ("rx-bytes"@, decimal(t.rx as nat)));
    assert(e[2] == ("dtime-sec"@, seconds));
}

/// The reason why a message is of no use is the first that holds: that it is empty,
/// that it is no response, that it reports a failure.
pub proof fn useless_for_a_reason(m: MessageView, e: Error)
    ensures
        useless(m, e) ==> !useful(m),
        useless(m, e) && m.queries == 0 && m.answers.len() == 0 ==> e is EmptyMessage,
        useless(m, e) && (m.queries > 0 || m.answers.len() > 0) && !m.response ==> e
            is NotAResponse,
        useless(m, e) && (m.queries > 0 || m.answers.len() > 0) && m.response ==> e
            == Error::FailedResponse(m.code) && m.code != 0,
{
}

/// Of records that go, those that were due first come first.
pub proof fn first_due_goes_first(v: Seq<(u64, u32)>, i: int, j: int)
    requires
        in_order(v),
        0 <= i < j < v.len(),
    ensures
        v[i].0 <= v[j].0,
{
}

/// A record is for a name and an address where it has both of them, and its name is
/// found again where its labels are the same, however it is written.
pub proof fn records_are_told_apart(r: RecordView, labels: Seq<Seq<u8>>, dest: u32)
    ensures
        same_record(r, labels, dest) <==> r.name.labels == labels && r.dest == dest,
{
}

} // verus!
