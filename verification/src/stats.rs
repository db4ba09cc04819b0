//! How much goes through the output.

use crate::attrs::behind;
use crate::bytes::Machine;
use crate::error::Error;
use crate::fields::{entries, entry};
use crate::rtnl::{link_reply, stats_under};
use crate::text::{decimal, decimal_text};
use vstd::prelude::*;

verus! {

/// How old an answer may be before it is asked for again, in nanoseconds.
pub const FRESH: u64 = 1_000_000_000;

/// What had gone through a device at some moment. Times are in nanoseconds since
/// some moment in the past.
#[derive(Clone, Copy, Debug, PartialEq, Eq, Structural)]
pub struct Stats {
    pub time: u64,
    pub tx_bytes: u64,
    pub rx_bytes: u64,
}

/// The last two numbers that were got.
#[derive(Clone, Copy, Debug, PartialEq, Eq, Structural)]
pub struct StatsHist {
    pub prev: Stats,
    pub cur: Stats,
}

/// What went through between two moments: the bytes either way, and the time in
/// nanoseconds.
#[derive(Clone, Copy, Debug, PartialEq, Eq, Structural)]
pub struct Traffic {
    pub tx: u64,
    pub rx: u64,
    pub nanos: u64,
}

/// How far a number is above another, or zero.
pub open spec fn above(a: u64, b: u64) -> u64 {
    if a > b {
        (a - b) as u64
    } else {
        0
    }
}

/// Whether what was got at some moment has to be asked for again.
pub fn is_stale(got: u64, now: u64) -> (r: bool)
    ensures
        r == (above(now, got) > 1_000_000_000),
{
    now > got && now - got > FRESH
}

/// Nothing, counted at some moment.
pub open spec fn no_stats(now: u64) -> StatsHist {
    StatsHist {
        prev: Stats { time: now, tx_bytes: 0, rx_bytes: 0 },
        cur: Stats { time: now, tx_bytes: 0, rx_bytes: 0 },
    }
}

impl StatsHist {
    /// Nothing, counted now.
    pub fn new(now: u64) -> (r: StatsHist)
        ensures
            r == no_stats(now),
    {
        StatsHist {
            prev: Stats { time: now, tx_bytes: 0, rx_bytes: 0 },
            cur: Stats { time: now, tx_bytes: 0, rx_bytes: 0 },
        }
    }

    /// What the numbers with the next ones are.
    pub open spec fn followed(self, now: u64, tx: u64, rx: u64) -> StatsHist {
        StatsHist { prev: self.cur, cur: Stats { time: now, tx_bytes: tx, rx_bytes: rx } }
    }

    /// Takes the numbers from a reply about the device. Without them, nothing
    /// changes.
    pub fn get_stats(&mut self, m: &Machine, link: &Vec<u8>, now: u64) -> (r: Result<(), Error>)
        ensures
            match stats_under(m.layout(), behind(link@, 16), 23) {
                Some(s) => r is Ok && *final(self) == old(self).followed(now, s.0, s.1),
                None => (r matches Err(e) && e is MissingAttribute) && *final(self) == *old(self),
            },
    {
        match link_reply(m, link).stats {
            Some(s) => {
                self.prev = self.cur;
                self.cur = Stats { time: now, tx_bytes: s.0, rx_bytes: s.1 };
                Ok(())
            },
            None => Err(Error::MissingAttribute),
        }
    }

    /// Takes the numbers from the reply about the device, if one came. Where there
    /// are none, counting starts again.
    pub fn refresh(&mut self, m: &Machine, link: Option<&Vec<u8>>, now: u64)
        ensures
            *final(self) == match link {
                Some(b) => match stats_under(m.layout(), behind(b@, 16), 23) {
                    Some(s) => old(self).followed(now, s.0, s.1),
                    None => no_stats(now),
                },
                None => no_stats(now),
            },
    {
        let done = match link {
            Some(b) => self.get_stats(m, b, now).is_ok(),
            None => false,
        };
        if !done {
            *self = StatsHist::new(now);
        }
    }

    /// What went through lately. Nothing is known before there are two numbers.
    pub open spec fn spec_traffic(self) -> Traffic {
        if self.prev.tx_bytes == 0 && self.prev.rx_bytes == 0 {
            Traffic { tx: 0, rx: 0, nanos: 0 }
        } else {
            Traffic {
                tx: above(self.cur.tx_bytes, self.prev.tx_bytes),
                rx: above(self.cur.rx_bytes, self.prev.rx_bytes),
                nanos: above(self.cur.time, self.prev.time),
            }
        }
    }

    /// What went through lately.
    pub fn traffic(&self) -> (r: Traffic)
        ensures
            r == self.spec_traffic(),
    {
        if self.prev.tx_bytes == 0 && self.prev.rx_bytes == 0 {
            Traffic { tx: 0, rx: 0, nanos: 0 }
        } else {
            Traffic {
                tx: self.cur.tx_bytes.saturating_sub(self.prev.tx_bytes),
                rx: self.cur.rx_bytes.saturating_sub(self.prev.rx_bytes),
                nanos: self.cur.time.saturating_sub(self.prev.time),
            }
        }
    }
}

/// The entries by which traffic is told.
pub open spec fn traffic_entries(t: Traffic, seconds: Seq<char>) -> Seq<(Seq<char>, Seq<char>)> {
    seq![
        ("tx-bytes"@, decimal(t.tx as nat)),
        ("rx-bytes"@, decimal(t.rx as nat)),
        ("dtime-sec"@, seconds),
    ]
}

/// Tells what went through, the time being written out in seconds.
pub fn tell_traffic(t: &Traffic, seconds: String) -> (r: Vec<(String, String)>)
    ensures
        entries(r@) == traffic_entries(*t, seconds@),
{
    let mut h: Vec<(String, String)> = Vec::new();
    h.push(entry("tx-bytes", decimal_text(t.tx)));
    h.push(entry("rx-bytes", decimal_text(t.rx)));
    h.push(entry("dtime-sec", seconds));
    assert(entries(h@) =~= traffic_entries(*t, seconds@));
    h
}

/// Right after counting started, nothing went through.
pub proof fn nothing_counted_at_first(now: u64, later: u64, tx: u64, rx: u64)
    ensures
        no_stats(now).spec_traffic() == (Traffic { tx: 0, rx: 0, nanos: 0 }),
        no_stats(now).followed(later, tx, rx).spec_traffic() == (Traffic { tx: 0, rx: 0, nanos: 0 }),
{
}

/// Two numbers that follow one another tell what came between them.
pub proof fn traffic_is_difference(h: StatsHist, t1: u64, a1: u64, b1: u64, t2: u64, a2: u64, b2: u64)
    requires
        a1 <= a2,
        b1 <= b2,
        t1 <= t2,
        a1 > 0 || b1 > 0,
    ensures
        h.followed(t1, a1, b1).followed(t2, a2, b2).spec_traffic() == (Traffic {
            tx: (a2 - a1) as u64,
            rx: (b2 - b1) as u64,
            nanos: (t2 - t1) as u64,
        }),
{
}

/// What went through is never less than nothing: where a number went down, nothing
/// is told of it, whatever the other one did.
pub proof fn traffic_is_not_negative(h: StatsHist)
    ensures
        ({
            let t = h.spec_traffic();
            let known = h.prev.tx_bytes > 0 || h.prev.rx_bytes > 0;
            &&& known && h.prev.tx_bytes <= h.cur.tx_bytes ==> t.tx == h.cur.tx_bytes
                - h.prev.tx_bytes
            &&& known && h.prev.rx_bytes <= h.cur.rx_bytes ==> t.rx == h.cur.rx_bytes
                - h.prev.rx_bytes
            &&& known && h.prev.time <= h.cur.time ==> t.nanos == h.cur.time - h.prev.time
            &&& h.prev.tx_bytes > h.cur.tx_bytes ==> t.tx == 0
            &&& h.prev.rx_bytes > h.cur.rx_bytes ==> t.rx == 0
            &&& h.prev.time > h.cur.time ==> t.nanos == 0
            &&& !known ==> t.tx == 0 && t.rx == 0 && t.nanos == 0
        }),
{
}

} // verus!
