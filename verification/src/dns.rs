//! Domain names that were looked up, and the routes to what they stand for.

use crate::bytes::{Machine, Order};
use crate::error::Error;
use crate::kinds::{Direction, Kind};
use crate::matches::match_views;
use crate::matching::{Match, MatchView};
use crate::netlink::{route_view, same_bytes};
use crate::route::{IpAddr, Route, RouteView};
use crate::rtnl::{Request, UNICAST};
use crate::rules::{gone_route, host_gone, out_route, route_out, RequestView};
use hickory_proto::op::{Message, MessageType};
use hickory_proto::rr::{Name, RData};
use hickory_proto::serialize::binary::BinDecodable;
use vstd::prelude::*;

verus! {

/// A domain name: its labels in lower case, by which names are compared, and its
/// notation.
#[derive(Debug)]
pub struct DnsName {
    pub labels: Vec<Vec<u8>>,
    pub text: String,
}

/// The bytes of each label.
pub open spec fn label_views(v: Seq<Vec<u8>>) -> Seq<Seq<u8>> {
    v.map_values(|l: Vec<u8>| l@)
}

/// What a domain name says.
pub struct NameView {
    pub labels: Seq<Seq<u8>>,
    pub text: Seq<char>,
}

impl View for DnsName {
    type V = NameView;

    open spec fn view(&self) -> NameView {
        NameView { labels: label_views(self.labels@), text: self.text@ }
    }
}

/// The labels in lower case and the notation of the name that a text denotes, as
/// one that is complete.
pub uninterp spec fn name_of(s: Seq<char>) -> Option<(Seq<Seq<u8>>, Seq<char>)>;

/// `Name::from_str_relaxed` of `hickory_proto`, made a complete name by
/// `set_fqdn`, with its labels after `to_lowercase` and its `Display`: they
/// depend on the text alone. Complete names are equal where their labels are the
/// same in lower case.
#[verifier::external_body]
pub(crate) fn read_name(s: &str) -> (r: Option<DnsName>)
    ensures
        match r {
            Some(n) => name_of(s@) == Some((n@.labels, n@.text)),
            None => name_of(s@) is None,
        },
{
    let mut name = Name::from_str_relaxed(s).ok()?;
    name.set_fqdn(true);
    let labels = name.to_lowercase().iter().map(|l| l.to_vec()).collect();
    Some(DnsName { labels, text: format!("{}", name) })
}

/// An answer: the name, how many seconds it holds, and the IPv4 address where it
/// gives one.
#[derive(Debug)]
pub struct Answer {
    pub name: DnsName,
    pub ttl: u32,
    pub addr: Option<u32>,
}

/// What an answer says.
pub struct AnswerView {
    pub name: NameView,
    pub ttl: u32,
    pub addr: Option<u32>,
}

impl View for Answer {
    type V = AnswerView;

    open spec fn view(&self) -> AnswerView {
        AnswerView { name: self.name@, ttl: self.ttl, addr: self.addr }
    }
}

/// A DNS message, as far as it is of interest.
#[derive(Debug)]
pub struct DnsMessage {
    pub queries: usize,
    pub response: bool,
    pub code: u16,
    pub answers: Vec<Answer>,
}

/// What each answer of a list says.
pub open spec fn answer_views(v: Seq<Answer>) -> Seq<AnswerView> {
    v.map_values(|a: Answer| a@)
}

/// What a DNS message says.
pub struct MessageView {
    pub queries: usize,
    pub response: bool,
    pub code: u16,
    pub answers: Seq<AnswerView>,
}

impl View for DnsMessage {
    type V = MessageView;

    open spec fn view(&self) -> MessageView {
        MessageView {
            queries: self.queries,
            response: self.response,
            code: self.code,
            answers: answer_views(self.answers@),
        }
    }
}

/// What the bytes of a DNS message say, or the message of why they are none.
pub uninterp spec fn message_of(b: Seq<u8>) -> Result<MessageView, Seq<char>>;

/// `Message::from_bytes` of `hickory_proto`: what it gives, the names being
/// complete as in `read_name`, or the `Display` of its error, depends on the
/// bytes alone.
#[verifier::external_body]
fn read_message(b: &Vec<u8>) -> (r: Result<DnsMessage, String>)
    ensures
        match r {
            Ok(m) => message_of(b@) == Ok::<_, Seq<char>>(m@),
            Err(t) => message_of(b@) == Err::<MessageView, _>(t@),
        },
{
    let m = Message::from_bytes(b).map_err(|e| e.to_string())?;
    let response = m.metadata.message_type == MessageType::Response;
    let code = u16::from(m.metadata.response_code);
    let answers = m.answers.into_iter().map(|mut a| {
        a.name.set_fqdn(true);
        let labels = a.name.to_lowercase().iter().map(|l| l.to_vec()).collect();
        let addr = if let RData::A(ip) = a.data { Some(ip.0.to_bits()) } else { None };
        Answer { name: DnsName { labels, text: a.name.to_string() }, ttl: a.ttl, addr }
    });
    Ok(DnsMessage { queries: m.queries.len(), response, code, answers: answers.collect() })
}

/// An active record: for the name, the traffic to this address is routed. Times
/// are in nanoseconds since some moment in the past.
#[derive(Debug)]
pub struct DnsRecord {
    pub name: DnsName,
    pub dest: u32,
    /// When the record is looked at next.
    pub due: u64,
    /// Until when it holds, as last heard.
    pub expires: u64,
}

/// What an active record says.
pub struct RecordView {
    pub name: NameView,
    pub dest: u32,
    pub due: u64,
    pub expires: u64,
}

impl View for DnsRecord {
    type V = RecordView;

    open spec fn view(&self) -> RecordView {
        RecordView {
            name: self.name@,
            dest: self.dest,
            due: self.due,
            expires: self.expires,
        }
    }
}

/// What each record of a list says.
pub open spec fn record_views(v: Seq<DnsRecord>) -> Seq<RecordView> {
    v.map_values(|r: DnsRecord| r@)
}

/// A name that some match looks at, with the direction and the position of the
/// match.
#[derive(Debug)]
pub struct CachedName {
    pub name: DnsName,
    pub direction: Direction,
    pub match_id: usize,
}

/// What a name that some match looks at says.
pub struct CachedView {
    pub labels: Seq<Seq<u8>>,
    pub direction: Direction,
    pub match_id: usize,
}

impl View for CachedName {
    type V = CachedView;

    open spec fn view(&self) -> CachedView {
        CachedView {
            labels: self.name@.labels,
            direction: self.direction,
            match_id: self.match_id,
        }
    }
}

/// What each name of a list says.
pub open spec fn cached_views(v: Seq<CachedName>) -> Seq<CachedView> {
    v.map_values(|c: CachedName| c@)
}

/// What is known of domain names.
#[derive(Debug)]
pub struct DnsState {
    pub records: Vec<DnsRecord>,
    pub cache: Vec<CachedName>,
}

/// Whether no two records are for the same name and the same address.
pub open spec fn distinct_records(rs: Seq<RecordView>) -> bool {
    forall|i: int, j: int|
        0 <= i < j < rs.len() ==> !same_record(
            #[trigger] rs[i],
            (#[trigger] rs[j]).name.labels,
            rs[j].dest,
        )
}

/// Whether a record is for a name and an address.
pub open spec fn same_record(r: RecordView, labels: Seq<Seq<u8>>, dest: u32) -> bool {
    r.name.labels == labels && r.dest == dest
}

/// The names that matches look at, in their order. A pattern that is no name is
/// passed over.
pub open spec fn cache_of(ms: Seq<MatchView>) -> Seq<CachedView>
    decreases ms.len(),
{
    if ms.len() == 0 {
        Seq::empty()
    } else {
        let before = cache_of(ms.drop_last());
        match name_of(ms.last().pattern) {
            Some(n) => if ms.last().kind == Kind::dns {
                before.push(
                    CachedView {
                        labels: n.0,
                        direction: ms.last().direction,
                        match_id: (ms.len() - 1) as usize,
                    },
                )
            } else {
                before
            },
            None => before,
        }
    }
}

/// The direction and the position of the last match that looks at a name.
pub open spec fn cached(cache: Seq<CachedView>, labels: Seq<Seq<u8>>) -> Option<(Direction, usize)>
    decreases cache.len(),
{
    if cache.len() == 0 {
        None
    } else if cache.last().labels == labels {
        Some((cache.last().direction, cache.last().match_id))
    } else {
        cached(cache.drop_last(), labels)
    }
}

impl Clone for DnsName {
    fn clone(&self) -> (r: Self)
        ensures
            r@ == self@,
    {
        let mut labels: Vec<Vec<u8>> = Vec::new();
        let mut i: usize = 0;
        while i < self.labels.len()
            invariant
                i <= self.labels@.len(),
                label_views(labels@) == label_views(self.labels@).take(i as int),
            decreases self.labels.len() - i,
        {
            let ghost before = labels@;
            let l: Vec<u8> = self.labels[i].clone();
            assert(l@ =~= self.labels@[i as int]@);
            labels.push(l);
            i += 1;
            assert(label_views(labels@) =~= label_views(before).push(l@));
            assert(label_views(labels@) =~= label_views(self.labels@).take(i as int));
        }
        assert(label_views(labels@) =~= label_views(self.labels@));
        DnsName { labels, text: self.text.clone() }
    }
}

impl DnsName {
    /// Whether two names are the same, whatever their case.
    pub fn same(&self, other: &DnsName) -> (r: bool)
        ensures
            r == (self@.labels == other@.labels),
    {
        let ghost a = label_views(self.labels@);
        let ghost b = label_views(other.labels@);
        if self.labels.len() != other.labels.len() {
            assert(a.len() != b.len());
            return false;
        }
        let mut i: usize = 0;
        while i < self.labels.len()
            invariant
                a == label_views(self.labels@),
                b == label_views(other.labels@),
                i <= self.labels@.len(),
                self.labels@.len() == other.labels@.len(),
                forall|j: int| 0 <= j < i ==> a[j] == b[j],
            decreases self.labels.len() - i,
        {
            if !same_bytes(&self.labels[i], &other.labels[i]) {
                assert(a[i as int] != b[i as int]);
                return false;
            }
            i += 1;
        }
        assert(a =~= b);
        true
    }
}

/// When an answer that comes now ceases to hold: after its time, but not later
/// than the longest time that is allowed.
pub open spec fn expiry(now: u64, ttl: u32, max_ttl: u32) -> u64 {
    (now + (if ttl < max_ttl {
        ttl
    } else {
        max_ttl
    }) * 1_000_000_000) as u64
}

/// Where a name and an address stand among records.
pub open spec fn record_at(rs: Seq<RecordView>, labels: Seq<Seq<u8>>, dest: u32) -> Option<int>
    decreases rs.len(),
{
    if rs.len() == 0 {
        None
    } else if same_record(rs.last(), labels, dest) {
        Some(rs.len() - 1)
    } else {
        record_at(rs.drop_last(), labels, dest)
    }
}

/// A record that is found is one of them.
proof fn record_at_is_there(rs: Seq<RecordView>, labels: Seq<Seq<u8>>, dest: u32)
    ensures
        match record_at(rs, labels, dest) {
            Some(i) => 0 <= i < rs.len() && same_record(rs[i], labels, dest),
            None => forall|i: int| 0 <= i < rs.len() ==> !same_record(#[trigger] rs[i], labels, dest),
        },
    decreases rs.len(),
{
    if rs.len() > 0 {
        record_at_is_there(rs.drop_last(), labels, dest);
        assert(forall|i: int| 0 <= i < rs.len() - 1 ==> rs.drop_last()[i] == rs[i]);
    }
}

/// The records after the first `n` answers were heard: an address for a name
/// that matches look at makes a record, or gives the one that is there a new
/// time until which it holds.
pub open spec fn learned(
    rs: Seq<RecordView>,
    cache: Seq<CachedView>,
    answers: Seq<AnswerView>,
    n: int,
    now: u64,
    max_ttl: u32,
) -> Seq<RecordView>
    decreases n,
{
    if n <= 0 {
        rs
    } else {
        let before = learned(rs, cache, answers, n - 1, now, max_ttl);
        let a = answers[n - 1];
        match (a.addr, cached(cache, a.name.labels)) {
            (Some(dest), Some(_)) => {
                let t = expiry(now, a.ttl, max_ttl);
                match record_at(before, a.name.labels, dest) {
                    Some(i) => before.update(i, RecordView { expires: t, ..before[i] }),
                    None => before.push(RecordView { name: a.name, dest, due: t, expires: t }),
                }
            },
            _ => before,
        }
    }
}

/// The address and the direction of each record that the first `n` answers make.
pub open spec fn new_records(
    rs: Seq<RecordView>,
    cache: Seq<CachedView>,
    answers: Seq<AnswerView>,
    n: int,
    now: u64,
    max_ttl: u32,
) -> Seq<(u32, Direction)>
    decreases n,
{
    if n <= 0 {
        Seq::empty()
    } else {
        let before = learned(rs, cache, answers, n - 1, now, max_ttl);
        let news = new_records(rs, cache, answers, n - 1, now, max_ttl);
        let a = answers[n - 1];
        match (a.addr, cached(cache, a.name.labels)) {
            (Some(dest), Some(c)) => if record_at(before, a.name.labels, dest) is None {
                news.push((dest, c.0))
            } else {
                news
            },
            _ => news,
        }
    }
}

/// Whether an error says why a message is of no use.
pub open spec fn useless(m: MessageView, e: Error) -> bool {
    if m.queries == 0 && m.answers.len() == 0 {
        e is EmptyMessage
    } else if !m.response {
        e is NotAResponse
    } else {
        m.code != 0 && e == Error::FailedResponse(m.code)
    }
}

/// Whether a message is of use: it is a response without a failure.
pub open spec fn useful(m: MessageView) -> bool {
    !(m.queries == 0 && m.answers.len() == 0) && m.response && m.code == 0
}

impl DnsState {
    /// What the active records say.
    pub open spec fn view_records(self) -> Seq<RecordView> {
        record_views(self.records@)
    }

    /// What the names that matches look at say.
    pub open spec fn view_cache(self) -> Seq<CachedView> {
        cached_views(self.cache@)
    }

    /// Whether no two records are for the same name and the same address.
    pub open spec fn wf(self) -> bool {
        distinct_records(self.view_records())
    }

    /// Nothing is known.
    pub fn new() -> (r: DnsState)
        ensures
            r.view_records() == Seq::<RecordView>::empty(),
            r.view_cache() == Seq::<CachedView>::empty(),
            r.wf(),
    {
        let r = DnsState { records: Vec::new(), cache: Vec::new() };
        assert(r.view_records() =~= Seq::<RecordView>::empty());
        assert(r.view_cache() =~= Seq::<CachedView>::empty());
        r
    }

    /// The direction and the position of the last match that looks at a name.
    pub fn lookup(&self, name: &DnsName) -> (r: Option<(Direction, usize)>)
        ensures
            r == cached(self.view_cache(), name@.labels),
    {
        let ghost all = self.view_cache();
        let mut i: usize = self.cache.len();
        assert(all.take(all.len() as int) =~= all);
        while i > 0
            invariant
                all == cached_views(self.cache@),
                i <= self.cache@.len(),
                cached(all, name@.labels) == cached(all.take(i as int), name@.labels),
            decreases i,
        {
            assert(all.take(i as int).drop_last() =~= all.take(i - 1));
            assert(all.take(i as int).last() == self.cache@[i - 1]@);
            if self.cache[i - 1].name.same(name) {
                return Some((self.cache[i - 1].direction, self.cache[i - 1].match_id));
            }
            i -= 1;
        }
        None
    }

    /// Where a name and an address stand among the records.
    fn find(&self, name: &DnsName, dest: u32) -> (r: Option<usize>)
        ensures
            match r {
                Some(i) => record_at(self.view_records(), name@.labels, dest) == Some(i as int),
                None => record_at(self.view_records(), name@.labels, dest) is None,
            },
    {
        let ghost all = self.view_records();
        let mut i: usize = self.records.len();
        assert(all.take(all.len() as int) =~= all);
        while i > 0
            invariant
                all == record_views(self.records@),
                i <= self.records@.len(),
                record_at(all, name@.labels, dest) == record_at(
                    all.take(i as int),
                    name@.labels,
                    dest,
                ),
            decreases i,
        {
            assert(all.take(i as int).drop_last() =~= all.take(i - 1));
            assert(all.take(i as int).last() == self.records@[i - 1]@);
            if self.records[i - 1].dest == dest && self.records[i - 1].name.same(name) {
                return Some(i - 1);
            }
            i -= 1;
        }
        None
    }

    /// Takes in a message, and gives the address and the direction of each new
    /// record. A message that is of no use changes nothing.
    pub fn learn(&mut self, m: &DnsMessage, now: u64, max_ttl: u32) -> (r: Result<
        Vec<(u32, Direction)>,
        Error,
    >)
        requires
            now + max_ttl * 1_000_000_000 <= u64::MAX,
        ensures
            r is Ok <==> useful(m@),
            r matches Err(e) ==> useless(m@, e) && final(self).view_records() == old(
                self,
            ).view_records(),
            r matches Ok(news) ==> {
                &&& final(self).view_records() == learned(
                    old(self).view_records(),
                    old(self).view_cache(),
                    m@.answers,
                    m@.answers.len() as int,
                    now,
                    max_ttl,
                )
                &&& news@ == new_records(
                    old(self).view_records(),
                    old(self).view_cache(),
                    m@.answers,
                    m@.answers.len() as int,
                    now,
                    max_ttl,
                )
            },
            final(self).view_cache() == old(self).view_cache(),
            old(self).wf() ==> final(self).wf(),
    {
        if m.queries == 0 && m.answers.len() == 0 {
            return Err(Error::EmptyMessage);
        }
        if !m.response {
            return Err(Error::NotAResponse);
        }
        if m.code != 0 {
            return Err(Error::FailedResponse(m.code));
        }
        let ghost rs = self.view_records();
        let ghost cache = self.view_cache();
        let ghost answers = answer_views(m.answers@);
        let ghost fine = self.wf();
        let mut news: Vec<(u32, Direction)> = Vec::new();
        let mut i: usize = 0;
        while i < m.answers.len()
            invariant
                now + max_ttl * 1_000_000_000 <= u64::MAX,
                answers == answer_views(m.answers@),
                i <= m.answers@.len(),
                self.view_cache() == cache,
                self.view_records() == learned(rs, cache, answers, i as int, now, max_ttl),
                news@ == new_records(rs, cache, answers, i as int, now, max_ttl),
                fine ==> self.wf(),
            decreases m.answers.len() - i,
        {
            let a = &m.answers[i];
            let ghost before = self.view_records();
            let ghost vec = self.records@;
            assert(answers[i as int] == a@);
            if let Some(dest) = a.addr {
                if let Some((dir, _)) = self.lookup(&a.name) {
                    let ttl: u32 = if a.ttl < max_ttl {
                        a.ttl
                    } else {
                        max_ttl
                    };
                    let t: u64 = now + ttl as u64 * 1_000_000_000;
                    proof {
                        record_at_is_there(before, a.name@.labels, dest);
                    }
                    match self.find(&a.name, dest) {
                        Some(k) => {
                            let rec = DnsRecord {
                                name: self.records[k].name.clone(),
                                dest: self.records[k].dest,
                                due: self.records[k].due,
                                expires: t,
                            };
                            self.records.set(k, rec);
                            proof {
                                let want = before.update(
                                    k as int,
                                    RecordView { expires: t, ..before[k as int] },
                                );
                                assert(self.view_records() =~= want);
                                if fine {
                                    update_keeps_distinct(before, k as int, t);
                                }
                            }
                        },
                        None => {
                            let rec = DnsRecord { name: a.name.clone(), dest, due: t, expires: t };
                            let ghost v = rec@;
                            self.records.push(rec);
                            proof {
                                assert(self.view_records() =~= before.push(v));
                                if fine {
                                    push_keeps_distinct(before, v);
                                }
                            }
                            news.push((dest, dir));
                        },
                    }
                }
            }
            i += 1;
        }
        Ok(news)
    }
}

/// A new time for a record makes no record the same as another.
proof fn update_keeps_distinct(rs: Seq<RecordView>, k: int, t: u64)
    requires
        distinct_records(rs),
        0 <= k < rs.len(),
    ensures
        distinct_records(rs.update(k, RecordView { expires: t, ..rs[k] })),
{
    let u = rs.update(k, RecordView { expires: t, ..rs[k] });
    assert forall|i: int, j: int| 0 <= i < j < u.len() implies !same_record(
        #[trigger] u[i],
        (#[trigger] u[j]).name.labels,
        u[j].dest,
    ) by {
        assert(!same_record(rs[i], rs[j].name.labels, rs[j].dest));
    }
}

/// A record that is the same as none before makes no record the same as another.
proof fn push_keeps_distinct(rs: Seq<RecordView>, r: RecordView)
    requires
        distinct_records(rs),
        forall|i: int|
            0 <= i < rs.len() ==> !same_record(#[trigger] rs[i], r.name.labels, r.dest),
    ensures
        distinct_records(rs.push(r)),
{
}

/// Whether an answer gives an address for a name that matches look at.
pub open spec fn is_about(
    cache: Seq<CachedView>,
    a: AnswerView,
    labels: Seq<Seq<u8>>,
    dest: u32,
) -> bool {
    a.addr == Some(dest) && a.name.labels == labels && cached(cache, labels) is Some
}

/// The first of the first `n` answers that gives an address for a name.
pub open spec fn first_about(
    cache: Seq<CachedView>,
    answers: Seq<AnswerView>,
    n: int,
    labels: Seq<Seq<u8>>,
    dest: u32,
) -> Option<int>
    decreases n,
{
    if n <= 0 {
        None
    } else {
        match first_about(cache, answers, n - 1, labels, dest) {
            Some(k) => Some(k),
            None => if is_about(cache, answers[n - 1], labels, dest) {
                Some(n - 1)
            } else {
                None
            },
        }
    }
}

/// The last of the first `n` answers that gives an address for a name.
pub open spec fn last_about(
    cache: Seq<CachedView>,
    answers: Seq<AnswerView>,
    n: int,
    labels: Seq<Seq<u8>>,
    dest: u32,
) -> Option<int>
    decreases n,
{
    if n <= 0 {
        None
    } else if is_about(cache, answers[n - 1], labels, dest) {
        Some(n - 1)
    } else {
        last_about(cache, answers, n - 1, labels, dest)
    }
}

/// The first and the last answer about a name and an address are what they are
/// called, and there is none of them only where there is no such answer.
pub proof fn answers_about(
    cache: Seq<CachedView>,
    answers: Seq<AnswerView>,
    n: int,
    labels: Seq<Seq<u8>>,
    dest: u32,
)
    requires
        0 <= n <= answers.len(),
    ensures
        match (
            first_about(cache, answers, n, labels, dest),
            last_about(cache, answers, n, labels, dest),
        ) {
            (Some(f), Some(l)) => {
                &&& 0 <= f <= l < n
                &&& is_about(cache, answers[f], labels, dest)
                &&& is_about(cache, answers[l], labels, dest)
                &&& forall|k: int|
                    0 <= k < n && is_about(cache, #[trigger] answers[k], labels, dest) ==> f <= k
                        <= l
            },
            (None, None) => forall|k: int|
                0 <= k < n ==> !is_about(cache, #[trigger] answers[k], labels, dest),
            _ => false,
        },
    decreases n,
{
    if n > 0 {
        answers_about(cache, answers, n - 1, labels, dest);
    }
}

/// A new time for a record leaves every record where it is.
proof fn record_at_of_update(
    rs: Seq<RecordView>,
    k: int,
    t: u64,
    labels: Seq<Seq<u8>>,
    dest: u32,
)
    requires
        0 <= k < rs.len(),
    ensures
        record_at(rs.update(k, RecordView { expires: t, ..rs[k] }), labels, dest) == record_at(
            rs,
            labels,
            dest,
        ),
    decreases rs.len(),
{
    let u = rs.update(k, RecordView { expires: t, ..rs[k] });
    if k == rs.len() - 1 {
        assert(u.drop_last() =~= rs.drop_last());
    } else {
        let front = rs.drop_last();
        assert(u.drop_last() =~= front.update(k, RecordView { expires: t, ..front[k] }));
        record_at_of_update(front, k, t, labels, dest);
    }
}

/// Of all answers about a name and an address the last one decides until when
/// their record holds. A record that was there keeps its place and the time at
/// which it is looked at next; one that was not is looked at when the first of
/// the answers ceases to hold. Without such an answer the record, or its absence,
/// stays as it was.
pub proof fn last_answer_decides(
    rs: Seq<RecordView>,
    cache: Seq<CachedView>,
    answers: Seq<AnswerView>,
    n: int,
    now: u64,
    max_ttl: u32,
    labels: Seq<Seq<u8>>,
    dest: u32,
)
    requires
        0 <= n <= answers.len(),
    ensures
        ({
            let after = learned(rs, cache, answers, n, now, max_ttl);
            let was = record_at(rs, labels, dest);
            match last_about(cache, answers, n, labels, dest) {
                Some(l) => {
                    &&& record_at(after, labels, dest) matches Some(i)
                    &&& 0 <= i < after.len()
                    &&& same_record(after[i], labels, dest)
                    &&& after[i].expires == expiry(now, answers[l].ttl, max_ttl)
                    &&& match was {
                        Some(j) => i == j && after[i].due == rs[j].due && after[i].name
                            == rs[j].name,
                        None => first_about(cache, answers, n, labels, dest) matches Some(f)
                            && after[i].due == expiry(now, answers[f].ttl, max_ttl)
                            && after[i].name == answers[f].name,
                    }
                },
                None => record_at(after, labels, dest) == was && (was matches Some(j)
                    ==> after[j] == rs[j]),
            }
        }),
    decreases n,
{
    record_at_is_there(rs, labels, dest);
    if n > 0 {
        let before = learned(rs, cache, answers, n - 1, now, max_ttl);
        let after = learned(rs, cache, answers, n, now, max_ttl);
        let a = answers[n - 1];
        last_answer_decides(rs, cache, answers, n - 1, now, max_ttl, labels, dest);
        answers_about(cache, answers, n - 1, labels, dest);
        record_at_is_there(before, labels, dest);
        if a.addr is Some && cached(cache, a.name.labels) is Some {
            let there = a.addr->0;
            let t = expiry(now, a.ttl, max_ttl);
            record_at_is_there(before, a.name.labels, there);
            match record_at(before, a.name.labels, there) {
                Some(i) => {
                    record_at_of_update(before, i, t, labels, dest);
                },
                None => {
                    assert(after.drop_last() =~= before);
                },
            }
        }
    }
}

/// After a message no two records are for the same name and the same address,
/// where that was so before. So each name and address that is new has exactly one
/// record.
pub proof fn learned_is_distinct(
    rs: Seq<RecordView>,
    cache: Seq<CachedView>,
    answers: Seq<AnswerView>,
    n: int,
    now: u64,
    max_ttl: u32,
)
    requires
        distinct_records(rs),
    ensures
        distinct_records(learned(rs, cache, answers, n, now, max_ttl)),
    decreases n,
{
    if n > 0 {
        let before = learned(rs, cache, answers, n - 1, now, max_ttl);
        let a = answers[n - 1];
        learned_is_distinct(rs, cache, answers, n - 1, now, max_ttl);
        if a.addr is Some && cached(cache, a.name.labels) is Some {
            let t = expiry(now, a.ttl, max_ttl);
            record_at_is_there(before, a.name.labels, a.addr->0);
            match record_at(before, a.name.labels, a.addr->0) {
                Some(i) => {
                    update_keeps_distinct(before, i, t);
                },
                None => {
                    push_keeps_distinct(
                        before,
                        RecordView { name: a.name, dest: a.addr->0, due: t, expires: t },
                    );
                },
            }
        }
    }
}

/// A message changes of the records that were there nothing but until when they
/// hold. Behind them stand the new ones: those for whose name and address there
/// was none. Of each the route is asked for once, in the direction of its name.
pub proof fn new_records_are_routed(
    rs: Seq<RecordView>,
    cache: Seq<CachedView>,
    answers: Seq<AnswerView>,
    n: int,
    now: u64,
    max_ttl: u32,
)
    requires
        0 <= n <= answers.len(),
    ensures
        ({
            let after = learned(rs, cache, answers, n, now, max_ttl);
            let news = new_records(rs, cache, answers, n, now, max_ttl);
            &&& after.len() == rs.len() + news.len()
            &&& forall|i: int|
                0 <= i < rs.len() ==> #[trigger] after[i] == (RecordView {
                    expires: after[i].expires,
                    ..rs[i]
                })
            &&& forall|i: int|
                rs.len() <= i < after.len() ==> {
                    &&& record_at(rs, (#[trigger] after[i]).name.labels, after[i].dest) is None
                    &&& cached(cache, after[i].name.labels) matches Some(c) && news[i - rs.len()]
                        == (after[i].dest, c.0)
                }
        }),
    decreases n,
{
    if n > 0 {
        let before = learned(rs, cache, answers, n - 1, now, max_ttl);
        let a = answers[n - 1];
        new_records_are_routed(rs, cache, answers, n - 1, now, max_ttl);
        if a.addr is Some && cached(cache, a.name.labels) is Some {
            let there = a.addr->0;
            last_answer_decides(
                rs,
                cache,
                answers,
                n - 1,
                now,
                max_ttl,
                a.name.labels,
                there,
            );
            record_at_is_there(before, a.name.labels, there);
        }
    }
}

/// The request for the route to the address of a record: through the output for
/// what is redirected, by the default route for what is not. Where that way is
/// not known there is none.
pub open spec fn record_request(
    order: Order,
    dest: u32,
    dir: Direction,
    to: Option<RouteView>,
    default: Option<RouteView>,
    table: u32,
) -> Option<RequestView> {
    let way = match dir {
        Direction::redirect => to,
        Direction::bypass => default,
    };
    match way {
        Some(w) => Some(out_route(order, Some(dest), table, w)),
        None => None,
    }
}

/// The ways out that records can take: the output, the default route, and the
/// table that the routes go to.
pub struct Ways<'a> {
    pub to: Option<&'a Route>,
    pub default: Option<&'a Route>,
    pub table: u32,
}

impl<'a> Ways<'a> {
    /// The request for the route to the address of a record, if there is one.
    pub open spec fn request(self, order: Order, dest: u32, dir: Direction) -> Option<RequestView> {
        record_request(order, dest, dir, route_view(self.to), route_view(self.default), self.table)
    }

    /// The requests for the routes to addresses, in their order.
    pub open spec fn requests(self, order: Order, news: Seq<(u32, Direction)>) -> Seq<RequestView>
        decreases news.len(),
    {
        if news.len() == 0 {
            Seq::empty()
        } else {
            let before = self.requests(order, news.drop_last());
            match self.request(order, news.last().0, news.last().1) {
                Some(q) => before.push(q),
                None => before,
            }
        }
    }
}

/// Whether requests say what is meant, one after the other.
pub open spec fn requests_say(order: Order, rs: Seq<Request>, views: Seq<RequestView>) -> bool {
    &&& rs.len() == views.len()
    &&& forall|i: int| 0 <= i < rs.len() ==> (#[trigger] rs[i]).says(order, views[i])
}

/// The request for the route to the address of a record, if the way is known.
pub fn setup_record(m: &Machine, dest: u32, dir: Direction, ways: &Ways) -> (r: Option<Request>)
    ensures
        match ways.request(m.layout(), dest, dir) {
            Some(q) => r matches Some(x) && x.says(m.layout(), q),
            None => r is None,
        },
{
    let way = match dir {
        Direction::redirect => ways.to,
        Direction::bypass => ways.default,
    };
    match way {
        Some(w) => Some(route_out(m, Some(dest), ways.table, w)),
        None => None,
    }
}

/// The requests for the routes to addresses, in their order.
pub fn setup_records(m: &Machine, news: &Vec<(u32, Direction)>, ways: &Ways) -> (r: Vec<Request>)
    ensures
        requests_say(m.layout(), r@, ways.requests(m.layout(), news@)),
{
    let mut r: Vec<Request> = Vec::new();
    let mut i: usize = 0;
    while i < news.len()
        invariant
            i <= news@.len(),
            requests_say(m.layout(), r@, ways.requests(m.layout(), news@.take(i as int))),
        decreases news.len() - i,
    {
        assert(news@.take(i + 1).drop_last() =~= news@.take(i as int));
        if let Some(q) = setup_record(m, news[i].0, news[i].1, ways) {
            r.push(q);
        }
        i += 1;
    }
    assert(news@.take(news@.len() as int) =~= news@);
    r
}

/// The request to take away the route to the address of a record.
pub open spec fn gone_request(order: Order, dest: u32, table: u32) -> RequestView {
    gone_route(order, IpAddr::V4(dest), 32, 0, UNICAST, table)
}

/// Whether a record is due and no longer holds.
pub open spec fn is_gone(r: RecordView, now: u64) -> bool {
    r.due <= now && r.expires <= now
}

/// A record that is due is looked at again when it ceases to hold.
pub open spec fn renewed(r: RecordView, now: u64) -> RecordView {
    if r.due <= now {
        RecordView { due: r.expires, ..r }
    } else {
        r
    }
}

/// The records that are left when some time has come.
pub open spec fn surviving(rs: Seq<RecordView>, now: u64) -> Seq<RecordView>
    decreases rs.len(),
{
    if rs.len() == 0 {
        Seq::empty()
    } else if is_gone(rs.last(), now) {
        surviving(rs.drop_last(), now)
    } else {
        surviving(rs.drop_last(), now).push(renewed(rs.last(), now))
    }
}

/// The time at which each record that no longer holds was due, and its address.
pub open spec fn departing(rs: Seq<RecordView>, now: u64) -> Seq<(u64, u32)>
    decreases rs.len(),
{
    if rs.len() == 0 {
        Seq::empty()
    } else if is_gone(rs.last(), now) {
        departing(rs.drop_last(), now).push((rs.last().due, rs.last().dest))
    } else {
        departing(rs.drop_last(), now)
    }
}

/// Whether times come in their order.
pub open spec fn in_order(v: Seq<(u64, u32)>) -> bool {
    forall|i: int, j: int| 0 <= i < j < v.len() ==> (#[trigger] v[i]).0 <= (#[trigger] v[j]).0
}

/// Puts a time among times that are in order.
fn insert_in_order(v: &mut Vec<(u64, u32)>, x: (u64, u32))
    requires
        in_order(old(v)@),
    ensures
        in_order(final(v)@),
        final(v)@.to_multiset() == old(v)@.push(x).to_multiset(),
{
    let ghost before = v@;
    let mut i: usize = v.len();
    while i > 0 && v[i - 1].0 > x.0
        invariant
            v@ == before,
            in_order(before),
            i <= before.len(),
            forall|j: int| i <= j < before.len() ==> (#[trigger] before[j]).0 > x.0,
        decreases i,
    {
        i -= 1;
    }
    v.insert(i, x);
    proof {
        assert(v@ =~= before.insert(i as int, x));
        assert forall|a: int, b: int| 0 <= a < b < v@.len() implies (#[trigger] v@[a]).0 <= (
        #[trigger] v@[b]).0 by {
            let c = if a < i {
                a
            } else {
                a - 1
            };
            let d = if b < i {
                b
            } else {
                b - 1
            };
            if a != i && b != i {
                assert(before[c].0 <= before[d].0);
            } else if a == i {
                assert(before[d].0 > x.0);
            } else {
                assert(before[c].0 <= before[i - 1].0);
            }
        }
        broadcast use vstd::seq_lib::group_to_multiset_ensures;

        assert(before.insert(i as int, x).to_multiset() =~= before.to_multiset().insert(x));
        assert(before.push(x).to_multiset() =~= before.to_multiset().insert(x));
    }
}

impl DnsState {
    /// Reads a message and takes it in, and gives the requests for the routes to
    /// the addresses of new records.
    pub fn parse(&mut self, m: &Machine, data: &Vec<u8>, now: u64, max_ttl: u32, ways: &Ways) -> (r:
        Result<Vec<Request>, Error>)
        requires
            now + max_ttl * 1_000_000_000 <= u64::MAX,
        ensures
            match message_of(data@) {
                Err(t) => (r matches Err(Error::BadMessage(s)) && s@ == t)
                    && final(self).view_records() == old(self).view_records(),
                Ok(msg) => {
                    &&& r is Ok <==> useful(msg)
                    &&& r matches Err(e) ==> useless(msg, e) && final(self).view_records() == old(
                        self,
                    ).view_records()
                    &&& r matches Ok(requests) ==> {
                        &&& final(self).view_records() == learned(
                            old(self).view_records(),
                            old(self).view_cache(),
                            msg.answers,
                            msg.answers.len() as int,
                            now,
                            max_ttl,
                        )
                        &&& requests_say(
                            m.layout(),
                            requests@,
                            ways.requests(
                                m.layout(),
                                new_records(
                                    old(self).view_records(),
                                    old(self).view_cache(),
                                    msg.answers,
                                    msg.answers.len() as int,
                                    now,
                                    max_ttl,
                                ),
                            ),
                        )
                    }
                },
            },
            final(self).view_cache() == old(self).view_cache(),
            old(self).wf() ==> final(self).wf(),
    {
        match read_message(data) {
            Ok(msg) => match self.learn(&msg, now, max_ttl) {
                Ok(news) => Ok(setup_records(m, &news, ways)),
                Err(e) => Err(e),
            },
            Err(e) => Err(Error::BadMessage(e)),
        }
    }

    /// When the next record is due.
    pub fn next_due(&self) -> (r: Option<u64>)
        ensures
            match r {
                Some(t) => {
                    &&& exists|i: int|
                        0 <= i < self.records@.len() && (#[trigger] self.view_records()[i]).due == t
                    &&& forall|i: int|
                        0 <= i < self.records@.len() ==> t <= (#[trigger] self.view_records()[i]).due
                },
                None => self.records@.len() == 0,
            },
    {
        let ghost all = self.view_records();
        let mut best: Option<u64> = None;
        let mut i: usize = 0;
        while i < self.records.len()
            invariant
                all == record_views(self.records@),
                i <= self.records@.len(),
                match best {
                    Some(t) => {
                        &&& exists|j: int| 0 <= j < i && (#[trigger] all[j]).due == t
                        &&& forall|j: int| 0 <= j < i ==> t <= (#[trigger] all[j]).due
                    },
                    None => i == 0,
                },
            decreases self.records.len() - i,
        {
            let t: u64 = self.records[i].due;
            assert(all[i as int].due == t);
            best = match best {
                Some(b) => if b <= t {
                    Some(b)
                } else {
                    Some(t)
                },
                None => Some(t),
            };
            i += 1;
        }
        best
    }

    /// Lets time pass: records that are due and no longer hold go, and those that
    /// were renewed stay until then. Gives the addresses of those that go, the
    /// one that was due first coming first.
    pub fn expire(&mut self, now: u64) -> (r: Vec<(u64, u32)>)
        ensures
            final(self).view_records() == surviving(old(self).view_records(), now),
            final(self).view_cache() == old(self).view_cache(),
            in_order(r@),
            r@.to_multiset() == departing(old(self).view_records(), now).to_multiset(),
            old(self).wf() ==> final(self).wf(),
    {
        let ghost all = self.view_records();
        let mut kept: Vec<DnsRecord> = Vec::new();
        let mut gone: Vec<(u64, u32)> = Vec::new();
        let mut i: usize = 0;
        assert(record_views(kept@) =~= surviving(all.take(0), now));
        while i < self.records.len()
            invariant
                all == record_views(self.records@),
                i <= self.records@.len(),
                record_views(kept@) == surviving(all.take(i as int), now),
                in_order(gone@),
                gone@.to_multiset() == departing(all.take(i as int), now).to_multiset(),
            decreases self.records.len() - i,
        {
            let rec = &self.records[i];
            let ghost before = kept@;
            let ghost was = gone@;
            assert(all.take(i + 1).drop_last() =~= all.take(i as int));
            assert(all.take(i + 1).last() == rec@);
            if rec.due <= now && rec.expires <= now {
                insert_in_order(&mut gone, (rec.due, rec.dest));
                proof {
                    broadcast use vstd::seq_lib::group_to_multiset_ensures;

                    let d = departing(all.take(i as int), now);
                    let x = (rec.due, rec.dest);
                    assert(was.push(x).to_multiset() =~= was.to_multiset().insert(x));
                    assert(d.push(x).to_multiset() =~= d.to_multiset().insert(x));
                }
            } else {
                let next = DnsRecord {
                    name: rec.name.clone(),
                    dest: rec.dest,
                    due: if rec.due <= now {
                        rec.expires
                    } else {
                        rec.due
                    },
                    expires: rec.expires,
                };
                let ghost v = next@;
                kept.push(next);
                assert(record_views(kept@) =~= record_views(before).push(v));
            }
            i += 1;
        }
        assert(all.take(all.len() as int) =~= all);
        self.records = kept;
        proof {
            if distinct_records(all) {
                surviving_stay_distinct(all, now);
            }
        }
        gone
    }
}

/// The records that are left are some of those that were there.
proof fn surviving_are_some(rs: Seq<RecordView>, now: u64, i: int)
    requires
        0 <= i < surviving(rs, now).len(),
    ensures
        exists|j: int|
            0 <= j < rs.len() && same_record(
                #[trigger] rs[j],
                surviving(rs, now)[i].name.labels,
                surviving(rs, now)[i].dest,
            ),
    decreases rs.len(),
{
    let front = rs.drop_last();
    let s = surviving(front, now);
    if i < s.len() {
        surviving_are_some(front, now, i);
        let j = choose|j: int|
            0 <= j < front.len() && same_record(#[trigger] front[j], s[i].name.labels, s[i].dest);
        assert(rs[j] == front[j]);
    } else {
        assert(same_record(
            rs[rs.len() - 1],
            surviving(rs, now)[i].name.labels,
            surviving(rs, now)[i].dest,
        ));
    }
}

/// Letting time pass makes no record the same as another.
proof fn surviving_stay_distinct(rs: Seq<RecordView>, now: u64)
    requires
        distinct_records(rs),
    ensures
        distinct_records(surviving(rs, now)),
    decreases rs.len(),
{
    if rs.len() > 0 {
        let front = rs.drop_last();
        let s = surviving(front, now);
        assert forall|i: int, j: int| 0 <= i < j < front.len() implies !same_record(
            #[trigger] front[i],
            (#[trigger] front[j]).name.labels,
            front[j].dest,
        ) by {
            assert(!same_record(rs[i], rs[j].name.labels, rs[j].dest));
        }
        surviving_stay_distinct(front, now);
        if !is_gone(rs.last(), now) {
            let r = renewed(rs.last(), now);
            assert forall|i: int| 0 <= i < s.len() implies !same_record(
                #[trigger] s[i],
                r.name.labels,
                r.dest,
            ) by {
                surviving_are_some(front, now, i);
                let j = choose|j: int|
                    0 <= j < front.len() && same_record(
                        #[trigger] front[j],
                        s[i].name.labels,
                        s[i].dest,
                    );
                assert(!same_record(rs[j], rs[rs.len() - 1].name.labels, rs[rs.len() - 1].dest));
            }
            push_keeps_distinct(s, r);
        }
    }
}

/// After time has passed, no record is due.
pub proof fn nothing_is_due(rs: Seq<RecordView>, now: u64, i: int)
    requires
        0 <= i < surviving(rs, now).len(),
    ensures
        surviving(rs, now)[i].due > now,
    decreases rs.len(),
{
    let s = surviving(rs.drop_last(), now);
    if i < s.len() {
        nothing_is_due(rs.drop_last(), now, i);
    }
}

/// The request to take away the route to the address of a record.
pub fn remove_record(m: &Machine, dest: u32, table: u32) -> (r: Request)
    ensures
        r.says(m.layout(), gone_request(m.layout(), dest, table)),
{
    host_gone(m, dest, table)
}

/// Whether a record is for a name and an address, as far as they are given.
pub open spec fn is_meant(r: RecordView, name: Option<Seq<Seq<u8>>>, dest: Option<u32>) -> bool {
    &&& name matches Some(n) ==> r.name.labels == n
    &&& dest matches Some(d) ==> r.dest == d
}

/// The addresses of the records that are meant, in their order.
pub open spec fn meant_dests(
    rs: Seq<RecordView>,
    name: Option<Seq<Seq<u8>>>,
    dest: Option<u32>,
) -> Seq<u32>
    decreases rs.len(),
{
    if rs.len() == 0 {
        Seq::empty()
    } else if is_meant(rs.last(), name, dest) {
        meant_dests(rs.drop_last(), name, dest).push(rs.last().dest)
    } else {
        meant_dests(rs.drop_last(), name, dest)
    }
}

/// The records that are not meant, in their order.
pub open spec fn others(
    rs: Seq<RecordView>,
    name: Option<Seq<Seq<u8>>>,
    dest: Option<u32>,
) -> Seq<RecordView> {
    rs.filter(|r: RecordView| !is_meant(r, name, dest))
}

/// The records whose name some match looks at, in their order.
pub open spec fn still_cached(rs: Seq<RecordView>, cache: Seq<CachedView>) -> Seq<RecordView> {
    rs.filter(|r: RecordView| cached(cache, r.name.labels) is Some)
}

/// Some of the records, none of which is the same as another, are so too.
proof fn filter_keeps_distinct(rs: Seq<RecordView>, keep: spec_fn(RecordView) -> bool)
    requires
        distinct_records(rs),
    ensures
        distinct_records(rs.filter(keep)),
    decreases rs.len(),
{
    reveal(Seq::filter);
    if rs.len() > 0 {
        let front = rs.drop_last();
        assert forall|i: int, j: int| 0 <= i < j < front.len() implies !same_record(
            #[trigger] front[i],
            (#[trigger] front[j]).name.labels,
            front[j].dest,
        ) by {
            assert(!same_record(rs[i], rs[j].name.labels, rs[j].dest));
        }
        filter_keeps_distinct(front, keep);
        let s = front.filter(keep);
        if keep(rs.last()) {
            assert forall|i: int| 0 <= i < s.len() implies !same_record(
                #[trigger] s[i],
                rs.last().name.labels,
                rs.last().dest,
            ) by {
                front.lemma_filter_contains_rev(keep, s[i]);
                let j = choose|j: int| 0 <= j < front.len() && front[j] == s[i];
                assert(!same_record(rs[j], rs[rs.len() - 1].name.labels, rs[rs.len() - 1].dest));
            }
            push_keeps_distinct(s, rs.last());
        }
    }
}

/// A copy of a record.
fn copy_record(r: &DnsRecord) -> (c: DnsRecord)
    ensures
        c@ == r@,
{
    DnsRecord { name: r.name.clone(), dest: r.dest, due: r.due, expires: r.expires }
}

/// The labels of a name, if one is given.
pub open spec fn name_labels(name: Option<&DnsName>) -> Option<Seq<Seq<u8>>> {
    match name {
        Some(n) => Some(n@.labels),
        None => None,
    }
}

impl DnsState {
    /// Takes away the records for a name and an address, as far as they are given,
    /// and gives their addresses.
    pub fn remove_records(&mut self, name: Option<&DnsName>, dest: Option<u32>) -> (r: Vec<u32>)
        ensures
            final(self).view_records() == others(
                old(self).view_records(),
                name_labels(name),
                dest,
            ),
            r@ == meant_dests(old(self).view_records(), name_labels(name), dest),
            final(self).view_cache() == old(self).view_cache(),
            old(self).wf() ==> final(self).wf(),
    {
        let ghost all = self.view_records();
        let ghost labels = name_labels(name);
        let ghost keep = |r: RecordView| !is_meant(r, labels, dest);
        let mut kept: Vec<DnsRecord> = Vec::new();
        let mut gone: Vec<u32> = Vec::new();
        let mut i: usize = 0;
        proof {
            reveal(Seq::filter);
            assert(record_views(kept@) =~= all.take(0).filter(keep));
        }
        while i < self.records.len()
            invariant
                all == record_views(self.records@),
                labels == name_labels(name),
                keep == (|r: RecordView| !is_meant(r, labels, dest)),
                i <= self.records@.len(),
                record_views(kept@) == all.take(i as int).filter(keep),
                gone@ == meant_dests(all.take(i as int), labels, dest),
            decreases self.records.len() - i,
        {
            let rec = &self.records[i];
            let ghost before = kept@;
            proof {
                reveal(Seq::filter);
                assert(all.take(i + 1).drop_last() =~= all.take(i as int));
                assert(all.take(i + 1).last() == rec@);
            }
            let name_fits = match name {
                Some(n) => rec.name.same(n),
                None => true,
            };
            let dest_fits = match dest {
                Some(d) => rec.dest == d,
                None => true,
            };
            if name_fits && dest_fits {
                gone.push(rec.dest);
            } else {
                let c = copy_record(rec);
                kept.push(c);
                assert(record_views(kept@) =~= record_views(before).push(c@));
            }
            i += 1;
        }
        assert(all.take(all.len() as int) =~= all);
        self.records = kept;
        proof {
            if distinct_records(all) {
                filter_keeps_distinct(all, keep);
            }
        }
        gone
    }

    /// Takes over the names that matches look at.
    pub fn update_cache(&mut self, ms: &Vec<Match>)
        ensures
            final(self).view_cache() == cache_of(match_views(ms@)),
            final(self).records@ == old(self).records@,
    {
        let ghost all = match_views(ms@);
        let mut cache: Vec<CachedName> = Vec::new();
        let mut i: usize = 0;
        assert(cached_views(cache@) =~= cache_of(all.take(0)));
        while i < ms.len()
            invariant
                all == match_views(ms@),
                i <= ms@.len(),
                cached_views(cache@) == cache_of(all.take(i as int)),
            decreases ms.len() - i,
        {
            let ghost before = cache@;
            assert(all.take(i + 1).drop_last() =~= all.take(i as int));
            assert(all.take(i + 1).last() == ms@[i as int]@);
            if ms[i].is_dns() {
                if let Some(name) = read_name(ms[i].pattern.as_str()) {
                    let c = CachedName { name, direction: ms[i].direction, match_id: i };
                    let ghost v = c@;
                    cache.push(c);
                    assert(cached_views(cache@) =~= cached_views(before).push(v));
                }
            }
            i += 1;
        }
        assert(all.take(all.len() as int) =~= all);
        self.cache = cache;
    }

    /// Drops the records whose name no match looks at any more.
    pub fn retain_cached(&mut self)
        ensures
            final(self).view_records() == still_cached(
                old(self).view_records(),
                old(self).view_cache(),
            ),
            final(self).view_cache() == old(self).view_cache(),
            old(self).wf() ==> final(self).wf(),
    {
        let ghost all = self.view_records();
        let ghost cache = self.view_cache();
        let ghost keep = |r: RecordView| cached(cache, r.name.labels) is Some;
        let mut kept: Vec<DnsRecord> = Vec::new();
        let mut i: usize = 0;
        proof {
            reveal(Seq::filter);
            assert(record_views(kept@) =~= all.take(0).filter(keep));
        }
        while i < self.records.len()
            invariant
                all == record_views(self.records@),
                cache == self.view_cache(),
                keep == (|r: RecordView| cached(cache, r.name.labels) is Some),
                i <= self.records@.len(),
                record_views(kept@) == all.take(i as int).filter(keep),
            decreases self.records.len() - i,
        {
            let rec = &self.records[i];
            let ghost before = kept@;
            proof {
                reveal(Seq::filter);
                assert(all.take(i + 1).drop_last() =~= all.take(i as int));
                assert(all.take(i + 1).last() == rec@);
            }
            if self.lookup(&rec.name).is_some() {
                let c = copy_record(rec);
                kept.push(c);
                assert(record_views(kept@) =~= record_views(before).push(c@));
            }
            i += 1;
        }
        assert(all.take(all.len() as int) =~= all);
        self.records = kept;
        proof {
            if distinct_records(all) {
                filter_keeps_distinct(all, keep);
            }
        }
    }
}

/// The address and the direction of each record whose name some match looks at.
pub open spec fn directed(rs: Seq<RecordView>, cache: Seq<CachedView>) -> Seq<(u32, Direction)>
    decreases rs.len(),
{
    if rs.len() == 0 {
        Seq::empty()
    } else {
        match cached(cache, rs.last().name.labels) {
            Some(c) => directed(rs.drop_last(), cache).push((rs.last().dest, c.0)),
            None => directed(rs.drop_last(), cache),
        }
    }
}

impl DnsState {
    /// The address and the direction of each record.
    pub fn directions(&self) -> (r: Vec<(u32, Direction)>)
        ensures
            r@ == directed(self.view_records(), self.view_cache()),
    {
        let ghost all = self.view_records();
        let mut r: Vec<(u32, Direction)> = Vec::new();
        let mut i: usize = 0;
        while i < self.records.len()
            invariant
                all == self.view_records(),
                i <= self.records@.len(),
                r@ == directed(all.take(i as int), self.view_cache()),
            decreases self.records.len() - i,
        {
            assert(all.take(i + 1).drop_last() =~= all.take(i as int));
            assert(all.take(i + 1).last() == self.records@[i as int]@);
            if let Some((dir, _)) = self.lookup(&self.records[i].name) {
                r.push((self.records[i].dest, dir));
            }
            i += 1;
        }
        assert(all.take(all.len() as int) =~= all);
        r
    }

    /// Brings the records in line with the matches, taking these over where they
    /// have changed, and gives the requests that set up the routes of all records
    /// again, none where redirecting is switched off.
    pub fn refresh(
        &mut self,
        m: &Machine,
        changed: Option<&Vec<Match>>,
        enable: bool,
        ways: &Ways,
    ) -> (r: Vec<Request>)
        ensures
            final(self).view_cache() == (match changed {
                Some(ms) => cache_of(match_views(ms@)),
                None => old(self).view_cache(),
            }),
            final(self).view_records() == still_cached(
                old(self).view_records(),
                final(self).view_cache(),
            ),
            requests_say(
                m.layout(),
                r@,
                if enable {
                    ways.requests(
                        m.layout(),
                        directed(final(self).view_records(), final(self).view_cache()),
                    )
                } else {
                    Seq::empty()
                },
            ),
            old(self).wf() ==> final(self).wf(),
    {
        if let Some(ms) = changed {
            self.update_cache(ms);
        }
        self.retain_cached();
        if enable {
            let news = self.directions();
            setup_records(m, &news, ways)
        } else {
            Vec::new()
        }
    }
}

/// After records were brought in line, each has its direction: the routes of all
/// of them are asked for.
pub proof fn refreshed_are_directed(rs: Seq<RecordView>, cache: Seq<CachedView>)
    ensures
        directed(still_cached(rs, cache), cache).len() == still_cached(rs, cache).len(),
    decreases rs.len(),
{
    reveal(Seq::filter);
    if rs.len() > 0 {
        refreshed_are_directed(rs.drop_last(), cache);
        let front = still_cached(rs.drop_last(), cache);
        if cached(cache, rs.last().name.labels) is Some {
            assert(still_cached(rs, cache) == front.push(rs.last()));
            assert(front.push(rs.last()).drop_last() =~= front);
        } else {
            assert(still_cached(rs, cache) == front);
        }
    }
}

} // verus!
