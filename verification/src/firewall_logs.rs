//! The cache of firewall log entries that the log view reads: newest
//! entries first, bounded in size, filtered by the criteria the user set,
//! and polled at a rate that backs off while nothing new arrives.

use vstd::prelude::*;

verus! {

/// `chrono::ParseError`: why a timestamp was refused.
#[verifier::external_type_specification]
#[verifier::external_body]
pub struct ExParseError(chrono::ParseError);

/// The seconds since the Unix epoch that the RFC 3339 timestamp `text`
/// stands for, or `None` when `text` is no such timestamp.
pub uninterp spec fn rfc3339_seconds(text: Seq<char>) -> Option<i64>;

/// Calls `chrono::DateTime::parse_from_rfc3339` and `DateTime::timestamp`.
/// Trusted: whether the text parses, and the second it then names, depend
/// on the text alone.
#[verifier::external_body]
fn rfc3339_timestamp(text: &str) -> (res: Result<i64, chrono::ParseError>)
    ensures
        match res {
            Ok(seconds) => rfc3339_seconds(text@) == Some(seconds),
            Err(_) => rfc3339_seconds(text@) is None,
        },
{
    let parsed = chrono::DateTime::parse_from_rfc3339(text)?;
    Ok(parsed.timestamp())
}

/// One entry of the firewall's packet log, every field as the firewall
/// sent it.
#[derive(Debug, PartialEq, Eq)]
pub struct FirewallLog {
    pub rulenr: Option<String>,
    pub subrulenr: Option<String>,
    pub anchorname: Option<String>,
    pub rid: Option<String>,
    pub interface: Option<String>,
    pub reason: Option<String>,
    pub action: Option<String>,
    pub dir: Option<String>,
    pub ipversion: Option<String>,
    pub tos: Option<String>,
    pub ecn: Option<String>,
    pub ttl: Option<String>,
    pub id: Option<String>,
    pub offset: Option<String>,
    pub ipflags: Option<String>,
    pub protonum: Option<String>,
    pub protoname: Option<String>,
    pub length: Option<String>,
    pub src: Option<String>,
    pub dst: Option<String>,
    pub srcport: Option<String>,
    pub dstport: Option<String>,
    pub datalen: Option<String>,
    pub tcpflags: Option<String>,
    pub seq: Option<String>,
    pub ack: Option<String>,
    pub urp: Option<String>,
    pub tcpopts: Option<String>,
    pub timestamp: Option<String>,
    pub host: Option<String>,
    pub digest: Option<String>,
    pub spec: Option<Vec<String>>,
    pub label: Option<String>,
}

/// A [`FirewallLog`] as a mathematical value.
pub struct LogView {
    pub rulenr: Option<Seq<char>>,
    pub subrulenr: Option<Seq<char>>,
    pub anchorname: Option<Seq<char>>,
    pub rid: Option<Seq<char>>,
    pub interface: Option<Seq<char>>,
    pub reason: Option<Seq<char>>,
    pub action: Option<Seq<char>>,
    pub dir: Option<Seq<char>>,
    pub ipversion: Option<Seq<char>>,
    pub tos: Option<Seq<char>>,
    pub ecn: Option<Seq<char>>,
    pub ttl: Option<Seq<char>>,
    pub id: Option<Seq<char>>,
    pub offset: Option<Seq<char>>,
    pub ipflags: Option<Seq<char>>,
    pub protonum: Option<Seq<char>>,
    pub protoname: Option<Seq<char>>,
    pub length: Option<Seq<char>>,
    pub src: Option<Seq<char>>,
    pub dst: Option<Seq<char>>,
    pub srcport: Option<Seq<char>>,
    pub dstport: Option<Seq<char>>,
    pub datalen: Option<Seq<char>>,
    pub tcpflags: Option<Seq<char>>,
    pub seq: Option<Seq<char>>,
    pub ack: Option<Seq<char>>,
    pub urp: Option<Seq<char>>,
    pub tcpopts: Option<Seq<char>>,
    pub timestamp: Option<Seq<char>>,
    pub host: Option<Seq<char>>,
    pub digest: Option<Seq<char>>,
    pub spec: Option<Seq<Seq<char>>>,
    pub label: Option<Seq<char>>,
}

/// An optional text as a mathematical value.
pub open spec fn text_view(text: Option<String>) -> Option<Seq<char>> {
    match text {
        Some(t) => Some(t@),
        None => None,
    }
}

/// A list of texts as a mathematical value.
pub open spec fn texts_view(texts: Seq<String>) -> Seq<Seq<char>> {
    texts.map_values(|t: String| t@)
}

impl View for FirewallLog {
    type V = LogView;

    open spec fn view(&self) -> LogView {
        LogView {
            rulenr: text_view(self.rulenr),
            subrulenr: text_view(self.subrulenr),
            anchorname: text_view(self.anchorname),
            rid: text_view(self.rid),
            interface: text_view(self.interface),
            reason: text_view(self.reason),
            action: text_view(self.action),
            dir: text_view(self.dir),
            ipversion: text_view(self.ipversion),
            tos: text_view(self.tos),
            ecn: text_view(self.ecn),
            ttl: text_view(self.ttl),
            id: text_view(self.id),
            offset: text_view(self.offset),
            ipflags: text_view(self.ipflags),
            protonum: text_view(self.protonum),
            protoname: text_view(self.protoname),
            length: text_view(self.length),
            src: text_view(self.src),
            dst: text_view(self.dst),
            srcport: text_view(self.srcport),
            dstport: text_view(self.dstport),
            datalen: text_view(self.datalen),
            tcpflags: text_view(self.tcpflags),
            seq: text_view(self.seq),
            ack: text_view(self.ack),
            urp: text_view(self.urp),
            tcpopts: text_view(self.tcpopts),
            timestamp: text_view(self.timestamp),
            host: text_view(self.host),
            digest: text_view(self.digest),
            spec: match self.spec {
                Some(parts) => Some(texts_view(parts@)),
                None => None,
            },
            label: text_view(self.label),
        }
    }
}

fn copy_text(text: &Option<String>) -> (copy: Option<String>)
    ensures
        text_view(copy) == text_view(*text),
{
    match text {
        Some(t) => Some(t.clone()),
        None => None,
    }
}

fn copy_texts(texts: &Vec<String>) -> (copy: Vec<String>)
    ensures
        texts_view(copy@) == texts_view(texts@),
{
    let mut copy: Vec<String> = Vec::new();
    let mut i: usize = 0;
    while i < texts.len()
        invariant
            i <= texts.len(),
            copy.len() == i,
            forall|j: int| 0 <= j < i ==> (#[trigger] copy[j])@ == texts[j]@,
        decreases texts.len() - i,
    {
        copy.push(texts[i].clone());
        i = i + 1;
    }
    assert(texts_view(copy@) =~= texts_view(texts@));
    copy
}

impl Clone for FirewallLog {
    fn clone(&self) -> (copy: Self)
        ensures
            copy@ == self@,
    {
        FirewallLog {
            rulenr: copy_text(&self.rulenr),
            subrulenr: copy_text(&self.subrulenr),
            anchorname: copy_text(&self.anchorname),
            rid: copy_text(&self.rid),
            interface: copy_text(&self.interface),
            reason: copy_text(&self.reason),
            action: copy_text(&self.action),
            dir: copy_text(&self.dir),
            ipversion: copy_text(&self.ipversion),
            tos: copy_text(&self.tos),
            ecn: copy_text(&self.ecn),
            ttl: copy_text(&self.ttl),
            id: copy_text(&self.id),
            offset: copy_text(&self.offset),
            ipflags: copy_text(&self.ipflags),
            protonum: copy_text(&self.protonum),
            protoname: copy_text(&self.protoname),
            length: copy_text(&self.length),
            src: copy_text(&self.src),
            dst: copy_text(&self.dst),
            srcport: copy_text(&self.srcport),
            dstport: copy_text(&self.dstport),
            datalen: copy_text(&self.datalen),
            tcpflags: copy_text(&self.tcpflags),
            seq: copy_text(&self.seq),
            ack: copy_text(&self.ack),
            urp: copy_text(&self.urp),
            tcpopts: copy_text(&self.tcpopts),
            timestamp: copy_text(&self.timestamp),
            host: copy_text(&self.host),
            digest: copy_text(&self.digest),
            spec: match &self.spec {
                Some(parts) => Some(copy_texts(parts)),
                None => None,
            },
            label: copy_text(&self.label),
        }
    }
}

/// The log entries as mathematical values, in stored order.
pub open spec fn logs_view(logs: Seq<FirewallLog>) -> Seq<LogView> {
    logs.map_values(|log: FirewallLog| log@)
}

/// The values the firewall offers for each filter.
#[derive(Debug, PartialEq, Eq)]
pub struct LogFilters {
    pub action: Vec<String>,
    pub interface_name: Vec<String>,
    pub dir: Vec<String>,
}

/// One interface of the firewall: its device name and what the user calls it.
#[derive(Debug, PartialEq, Eq)]
pub struct InterfaceName {
    pub device: String,
    pub description: String,
}

/// The firewall's interfaces, device name to description.
#[derive(Debug, PartialEq, Eq)]
pub struct InterfaceNames(pub Vec<InterfaceName>);

/// What the user wants to see of the log: an empty text lets every value
/// through, `limit` bounds how many entries are shown and kept.
#[derive(Debug, PartialEq, Eq)]
pub struct LogFilterCriteria {
    pub action: String,
    pub interface: String,
    pub direction: String,
    pub limit: usize,
}

/// A [`LogFilterCriteria`] as a mathematical value.
pub struct CriteriaView {
    pub action: Seq<char>,
    pub interface: Seq<char>,
    pub direction: Seq<char>,
    pub limit: nat,
}

impl View for LogFilterCriteria {
    type V = CriteriaView;

    open spec fn view(&self) -> CriteriaView {
        CriteriaView {
            action: self.action@,
            interface: self.interface@,
            direction: self.direction@,
            limit: self.limit as nat,
        }
    }
}

/// The cache as a mathematical value.
pub struct CacheView {
    /// The entries held, newest first.
    pub logs: Seq<LogView>,
    /// The digest of the entry fetched last, which the next fetch resumes after.
    pub last_digest: Seq<char>,
    /// How many views are listening for new entries.
    pub active_listeners: nat,
    pub criteria: CriteriaView,
}

/// The second an entry is dated to: that of its timestamp, or 0 when it
/// has none or one that does not parse.
pub open spec fn log_time(log: LogView) -> i64 {
    match log.timestamp {
        Some(text) => match rfc3339_seconds(text) {
            Some(seconds) => seconds,
            None => 0,
        },
        None => 0,
    }
}

/// How many entries at the front of `logs` are dated later than `time`.
pub open spec fn later_than(logs: Seq<LogView>, time: i64) -> int
    decreases logs.len(),
{
    if logs.len() == 0 || log_time(logs[0]) <= time {
        0
    } else {
        1 + later_than(logs.drop_first(), time)
    }
}

/// The entries ordered newest first, entries of the same second in the
/// order in which they stand in `logs`.
pub open spec fn newest_first(logs: Seq<LogView>) -> Seq<LogView>
    decreases logs.len(),
{
    if logs.len() == 0 {
        logs
    } else {
        let rest = newest_first(logs.drop_first());
        rest.insert(later_than(rest, log_time(logs[0])), logs[0])
    }
}

/// Whether a filter lets a value through: an empty filter lets everything
/// through, any other only the value equal to it.
pub open spec fn lets_through(filter: Seq<char>, value: Option<Seq<char>>) -> bool {
    filter.len() == 0 || value == Some(filter)
}

/// Whether an entry meets the criteria.
pub open spec fn passes(log: LogView, criteria: CriteriaView) -> bool {
    &&& lets_through(criteria.action, log.action)
    &&& lets_through(criteria.interface, log.interface)
    &&& lets_through(criteria.direction, log.dir)
}

/// The first `n` entries, or all of them where there are fewer.
pub open spec fn first_n(logs: Seq<LogView>, n: nat) -> Seq<LogView> {
    if n < logs.len() {
        logs.take(n as int)
    } else {
        logs
    }
}

/// What the log view shows of a cache: the entries that meet the criteria,
/// in the cache's order, and no more than the limit.
pub open spec fn shown(cache: CacheView) -> Seq<LogView> {
    first_n(cache.logs.filter(|log: LogView| passes(log, cache.criteria)), cache.criteria.limit)
}

/// The cache after `fetched` entries have arrived. Nothing changes when
/// none arrived. Otherwise they join the entries held and all are ordered
/// newest first; once the cache holds more than one and a half times the
/// limit, only the newest `limit` entries are kept; and the digest becomes
/// that of the last entry fetched, if it has one.
pub open spec fn absorbed(cache: CacheView, fetched: Seq<LogView>) -> CacheView {
    if fetched.len() == 0 {
        cache
    } else {
        let all = newest_first(cache.logs + fetched);
        CacheView {
            logs: if all.len() > cache.criteria.limit * 3 / 2 {
                first_n(all, cache.criteria.limit)
            } else {
                all
            },
            last_digest: match fetched.last().digest {
                Some(digest) => digest,
                None => cache.last_digest,
            },
            ..cache
        }
    }
}

/// Newest-first ordering neither adds nor drops an entry.
pub proof fn lemma_newest_first_len(logs: Seq<LogView>)
    ensures
        newest_first(logs).len() == logs.len(),
    decreases logs.len(),
{
    if logs.len() > 0 {
        lemma_newest_first_len(logs.drop_first());
        lemma_later_than_bounds(newest_first(logs.drop_first()), log_time(logs[0]));
    }
}

/// The count of later entries lies within the sequence; the entries it
/// counts are all later, and the one that follows them is not.
pub proof fn lemma_later_than_bounds(logs: Seq<LogView>, time: i64)
    ensures
        0 <= later_than(logs, time) <= logs.len(),
        forall|i: int| 0 <= i < later_than(logs, time) ==> log_time(#[trigger] logs[i]) > time,
        later_than(logs, time) < logs.len() ==> log_time(logs[later_than(logs, time)]) <= time,
    decreases logs.len(),
{
    if logs.len() > 0 && log_time(logs[0]) > time {
        let rest = logs.drop_first();
        lemma_later_than_bounds(rest, time);
        assert forall|i: int| 0 <= i < later_than(logs, time) implies log_time(
            #[trigger] logs[i],
        ) > time by {
            if i > 0 {
                assert(logs[i] == rest[i - 1]);
            }
        }
        if later_than(logs, time) < logs.len() {
            assert(logs[later_than(logs, time)] == rest[later_than(rest, time)]);
        }
    }
}

/// Whether no entry is dated later than one that stands before it.
pub open spec fn is_newest_first(logs: Seq<LogView>) -> bool {
    forall|i: int, j: int|
        0 <= i < j < logs.len() ==> log_time(#[trigger] logs[i]) >= log_time(#[trigger] logs[j])
}

/// In an ordered sequence, every entry from the first that is not later
/// than `time` onwards is not later than `time`.
proof fn lemma_later_than_rest(logs: Seq<LogView>, time: i64, j: int)
    requires
        is_newest_first(logs),
        later_than(logs, time) <= j < logs.len(),
    ensures
        log_time(logs[j]) <= time,
{
    lemma_later_than_bounds(logs, time);
    let p = later_than(logs, time);
    if p < j {
        assert(log_time(logs[p]) >= log_time(logs[j]));
    }
}

/// What `newest_first` returns is ordered newest first.
pub proof fn lemma_newest_first_ordered(logs: Seq<LogView>)
    ensures
        is_newest_first(newest_first(logs)),
    decreases logs.len(),
{
    if logs.len() > 0 {
        let rest = newest_first(logs.drop_first());
        lemma_newest_first_ordered(logs.drop_first());
        let time = log_time(logs[0]);
        let p = later_than(rest, time);
        lemma_later_than_bounds(rest, time);
        let out = rest.insert(p, logs[0]);
        assert forall|i: int, j: int| 0 <= i < j < out.len() implies log_time(#[trigger] out[i])
            >= log_time(#[trigger] out[j]) by {
            if j < p {
                assert(out[i] == rest[i] && out[j] == rest[j]);
            } else if j == p {
                assert(out[i] == rest[i]);
            } else {
                assert(out[j] == rest[j - 1]);
                lemma_later_than_rest(rest, time, j - 1);
                if i < p {
                    assert(out[i] == rest[i]);
                } else if i > p {
                    assert(out[i] == rest[i - 1]);
                    assert(log_time(rest[i - 1]) >= log_time(rest[j - 1]));
                }
            }
        }
    }
}

/// What `newest_first` returns holds the entries it was given, each as
/// often as it was given.
pub proof fn lemma_newest_first_permutes(logs: Seq<LogView>)
    ensures
        newest_first(logs).to_multiset() == logs.to_multiset(),
    decreases logs.len(),
{
    broadcast use vstd::seq_lib::group_to_multiset_ensures;

    if logs.len() > 0 {
        let tail = logs.drop_first();
        let rest = newest_first(tail);
        lemma_newest_first_permutes(tail);
        let p = later_than(rest, log_time(logs[0]));
        lemma_later_than_bounds(rest, log_time(logs[0]));
        let out = rest.insert(p, logs[0]);
        assert(out.remove(p) =~= rest);
        assert(out.remove(p).to_multiset() =~= out.to_multiset().remove(out[p]));
        assert(logs.remove(0) =~= tail);
        assert(logs.remove(0).to_multiset() =~= logs.to_multiset().remove(logs[0]));
        assert(out.to_multiset().count(logs[0]) > 0) by {
            assert(out[p] == logs[0]);
            assert(out.contains(logs[0]));
        }
        assert(logs.to_multiset().count(logs[0]) > 0) by {
            assert(logs.contains(logs[0]));
        }
        assert(out.to_multiset() =~= logs.to_multiset());
    }
}

fn time_of(log: &FirewallLog) -> (time: i64)
    ensures
        time == log_time(log@),
{
    match &log.timestamp {
        Some(text) => match rfc3339_timestamp(text.as_str()) {
            Ok(seconds) => seconds,
            Err(_) => 0,
        },
        None => 0,
    }
}

fn sort_newest_first(logs: Vec<FirewallLog>) -> (out: Vec<FirewallLog>)
    ensures
        logs_view(out@) == newest_first(logs_view(logs@)),
{
    let ghost all = logs_view(logs@);
    let mut pending = logs;
    let mut out: Vec<FirewallLog> = Vec::new();
    let mut times: Vec<i64> = Vec::new();
    assert(all.skip(all.len() as int) =~= Seq::empty());
    assert(logs_view(out@) =~= newest_first(all.skip(all.len() as int)));
    while pending.len() > 0
        invariant
            pending.len() <= all.len(),
            logs_view(pending@) == all.take(pending.len() as int),
            logs_view(out@) == newest_first(all.skip(pending.len() as int)),
            times.len() == out.len(),
            forall|j: int| 0 <= j < times.len() ==> #[trigger] times[j] == log_time(out[j]@),
        decreases pending.len(),
    {
        let ghost before_pending = logs_view(pending@);
        let ghost k = pending.len() - 1;
        let log = pending.pop().unwrap();
        let time = time_of(&log);
        let ghost sorted = logs_view(out@);
        proof {
            assert(log@ == before_pending[k]);
            assert(log@ == all[k]);
            assert(logs_view(pending@) =~= all.take(k));
            assert(all.skip(k).drop_first() =~= all.skip(k + 1));
            assert(all.skip(k)[0] == all[k]);
        }
        let mut p: usize = 0;
        assert(sorted.skip(0) =~= sorted);
        while p < times.len() && times[p] > time
            invariant
                p <= times.len(),
                times.len() == out.len(),
                sorted == logs_view(out@),
                forall|j: int| 0 <= j < times.len() ==> #[trigger] times[j] == log_time(out[j]@),
                later_than(sorted, time) == p + later_than(sorted.skip(p as int), time),
            decreases times.len() - p,
        {
            proof {
                assert(sorted.skip(p as int)[0] == sorted[p as int]);
                assert(sorted.skip(p as int).drop_first() =~= sorted.skip(p + 1));
            }
            p = p + 1;
        }
        proof {
            if p < times.len() {
                assert(sorted.skip(p as int)[0] == sorted[p as int]);
            }
            assert(later_than(sorted, time) == p);
        }
        out.insert(p, log);
        times.insert(p, time);
        proof {
            assert(logs_view(out@) =~= sorted.insert(p as int, all[k]));
            assert forall|j: int| 0 <= j < times.len() implies #[trigger] times[j] == log_time(
                out[j]@,
            ) by {}
        }
    }
    assert(all.skip(0) =~= all);
    out
}

fn text_passes(filter: &String, value: &Option<String>) -> (yes: bool)
    ensures
        yes == lets_through(filter@, text_view(*value)),
{
    if filter.as_str().is_empty() {
        true
    } else {
        match value {
            Some(v) => *v == *filter,
            None => false,
        }
    }
}

fn log_passes(log: &FirewallLog, criteria: &LogFilterCriteria) -> (yes: bool)
    ensures
        yes == passes(log@, criteria@),
{
    text_passes(&criteria.action, &log.action) && text_passes(&criteria.interface, &log.interface)
        && text_passes(&criteria.direction, &log.dir)
}

/// Where the poller stands: how many fetches in a row brought nothing, and
/// how long it waits before the next one.
#[derive(Clone, Copy, Debug, PartialEq, Eq, Structural)]
pub struct PollState {
    pub consecutive_empty_responses: u64,
    pub poll_interval_ms: u64,
}

/// What a fetch brought.
#[derive(Clone, Copy, Debug, PartialEq, Eq, Structural)]
pub enum PollEvent {
    /// New entries arrived.
    Fetched,
    /// The firewall answered, with nothing new.
    Empty,
    /// The fetch failed.
    Failed,
}

/// What the poller does next.
#[derive(Clone, Copy, Debug, PartialEq, Eq, Structural)]
pub enum PollAction {
    /// Wait for so many milliseconds, then fetch again.
    Wait(u64),
    /// Nobody listens any more: stop polling.
    Stop,
}

/// Shortest wait between two fetches, in milliseconds.
pub const MIN_POLL_INTERVAL_MS: u64 = 1000;

/// Longest wait between two fetches, in milliseconds.
pub const MAX_POLL_INTERVAL_MS: u64 = 5000;

/// The poller's state after an event.
///
/// New entries reset the wait to the shortest. A failure sets it to the
/// longest. From the sixth empty answer in a row on, each one lengthens the
/// wait by a quarter, up to the longest.
pub open spec fn poll_step(state: PollState, event: PollEvent) -> PollState {
    match event {
        PollEvent::Fetched => PollState {
            consecutive_empty_responses: 0,
            poll_interval_ms: MIN_POLL_INTERVAL_MS,
        },
        PollEvent::Failed => PollState { poll_interval_ms: MAX_POLL_INTERVAL_MS, ..state },
        PollEvent::Empty => {
            let count = if state.consecutive_empty_responses < u64::MAX {
                (state.consecutive_empty_responses + 1) as u64
            } else {
                u64::MAX
            };
            let longer = state.poll_interval_ms as int * 5 / 4;
            PollState {
                consecutive_empty_responses: count,
                poll_interval_ms: if count <= 5 {
                    state.poll_interval_ms
                } else if longer < MAX_POLL_INTERVAL_MS {
                    longer as u64
                } else {
                    MAX_POLL_INTERVAL_MS
                },
            }
        },
    }
}

impl PollState {
    /// The state in which polling starts: no empty answers yet, the
    /// shortest wait.
    pub fn new() -> (state: Self)
        ensures
            state == (PollState {
                consecutive_empty_responses: 0,
                poll_interval_ms: MIN_POLL_INTERVAL_MS,
            }),
    {
        PollState { consecutive_empty_responses: 0, poll_interval_ms: MIN_POLL_INTERVAL_MS }
    }

    /// Takes in what the last fetch brought, and says what to do next:
    /// after a failure with nobody listening, stop; in every other case
    /// wait for the new state's interval.
    pub fn after(self, event: PollEvent, active_listeners: usize) -> (next: (PollState, PollAction))
        ensures
            next.0 == poll_step(self, event),
            next.1 == if event == PollEvent::Failed && active_listeners == 0 {
                PollAction::Stop
            } else {
                PollAction::Wait(poll_step(self, event).poll_interval_ms)
            },
    {
        let state = match event {
            PollEvent::Fetched => PollState {
                consecutive_empty_responses: 0,
                poll_interval_ms: MIN_POLL_INTERVAL_MS,
            },
            PollEvent::Failed => PollState {
                consecutive_empty_responses: self.consecutive_empty_responses,
                poll_interval_ms: MAX_POLL_INTERVAL_MS,
            },
            PollEvent::Empty => {
                let count = self.consecutive_empty_responses.saturating_add(1);
                let interval = if count <= 5 {
                    self.poll_interval_ms
                } else {
                    let longer = self.poll_interval_ms as u128 * 5 / 4;
                    if longer < MAX_POLL_INTERVAL_MS as u128 {
                        longer as u64
                    } else {
                        MAX_POLL_INTERVAL_MS
                    }
                };
                PollState { consecutive_empty_responses: count, poll_interval_ms: interval }
            },
        };
        let action = match event {
            PollEvent::Failed => if active_listeners == 0 {
                PollAction::Stop
            } else {
                PollAction::Wait(state.poll_interval_ms)
            },
            _ => PollAction::Wait(state.poll_interval_ms),
        };
        (state, action)
    }
}

/// The log entries held for the log view.
pub struct LogCache {
    logs: Vec<FirewallLog>,
    last_digest: String,
    active_listeners: usize,
    filter_criteria: LogFilterCriteria,
}

impl View for LogCache {
    type V = CacheView;

    closed spec fn view(&self) -> CacheView {
        CacheView {
            logs: logs_view(self.logs@),
            last_digest: self.last_digest@,
            active_listeners: self.active_listeners as nat,
            criteria: self.filter_criteria@,
        }
    }
}

impl LogCache {
    /// An empty cache with no filter set and a limit of 500 entries.
    pub fn new() -> (cache: Self)
        ensures
            cache@ == (CacheView {
                logs: Seq::empty(),
                last_digest: Seq::empty(),
                active_listeners: 0,
                criteria: CriteriaView {
                    action: Seq::empty(),
                    interface: Seq::empty(),
                    direction: Seq::empty(),
                    limit: 500,
                },
            }),
    {
        let cache = LogCache {
            logs: Vec::new(),
            last_digest: String::new(),
            active_listeners: 0,
            filter_criteria: LogFilterCriteria {
                action: String::new(),
                interface: String::new(),
                direction: String::new(),
                limit: 500,
            },
        };
        assert(cache@.logs =~= Seq::empty());
        cache
    }

    /// The digest the next fetch resumes after.
    pub fn last_digest(&self) -> (digest: String)
        ensures
            digest@ == self@.last_digest,
    {
        self.last_digest.clone()
    }

    /// How many views are listening.
    pub fn active_listeners(&self) -> (count: usize)
        ensures
            count == self@.active_listeners,
    {
        self.active_listeners
    }

    /// Takes in the entries a fetch brought.
    pub fn absorb(&mut self, fetched: Vec<FirewallLog>)
        ensures
            final(self)@ == absorbed(old(self)@, logs_view(fetched@)),
    {
        if fetched.len() == 0 {
            return ;
        }
        let ghost held = logs_view(self.logs@);
        let ghost came = logs_view(fetched@);
        match &fetched[fetched.len() - 1].digest {
            Some(digest) => {
                self.last_digest = digest.clone();
            },
            None => {},
        }
        let mut all: Vec<FirewallLog> = Vec::new();
        std::mem::swap(&mut all, &mut self.logs);
        let mut fetched = fetched;
        all.append(&mut fetched);
        assert(logs_view(all@) =~= held + came);
        let mut sorted = sort_newest_first(all);
        proof {
            lemma_newest_first_len(held + came);
        }
        let limit = self.filter_criteria.limit;
        if sorted.len() as u128 > limit as u128 * 3 / 2 {
            if limit < sorted.len() {
                sorted.truncate(limit);
                assert(logs_view(sorted@) =~= newest_first(held + came).take(limit as int));
            }
        }
        self.logs = sorted;
    }

    /// What the log view shows: the entries that meet the criteria, newest
    /// first, and no more than the limit.
    pub fn visible(&self) -> (list: Vec<FirewallLog>)
        ensures
            logs_view(list@) == shown(self@),
    {
        let ghost all = logs_view(self.logs@);
        let ghost criteria = self.filter_criteria@;
        let ghost keep = |log: LogView| passes(log, criteria);
        let mut list: Vec<FirewallLog> = Vec::new();
        let mut i: usize = 0;
        proof {
            reveal(Seq::filter);
            assert(all.take(0) =~= Seq::empty());
            assert(logs_view(list@) =~= all.take(0).filter(keep));
        }
        while i < self.logs.len() && list.len() < self.filter_criteria.limit
            invariant
                i <= self.logs.len(),
                all == logs_view(self.logs@),
                criteria == self.filter_criteria@,
                keep == (|log: LogView| passes(log, criteria)),
                logs_view(list@) == all.take(i as int).filter(keep),
                list.len() <= self.filter_criteria.limit,
            decreases self.logs.len() - i,
        {
            proof {
                reveal(Seq::filter);
                assert(all.take(i + 1).drop_last() =~= all.take(i as int));
                assert(all.take(i + 1).last() == all[i as int]);
            }
            let ghost before = logs_view(list@);
            if log_passes(&self.logs[i], &self.filter_criteria) {
                list.push(self.logs[i].clone());
                assert(logs_view(list@) =~= before.push(all[i as int]));
            }
            i = i + 1;
        }
        proof {
            lemma_filter_prefix(all, keep, i as int);
            assert(all.take(self.logs.len() as int) =~= all);
            let kept = all.filter(keep);
            if i < self.logs.len() {
                assert(list.len() == self.filter_criteria.limit);
                assert(logs_view(list@) =~= first_n(kept, criteria.limit));
            } else {
                assert(logs_view(list@) =~= first_n(kept, criteria.limit));
            }
        }
        list
    }

    /// Takes in the entries a fetch brought and returns what the log view
    /// then shows.
    pub fn get_firewall_logs(&mut self, fetched: Vec<FirewallLog>) -> (list: Vec<FirewallLog>)
        ensures
            final(self)@ == absorbed(old(self)@, logs_view(fetched@)),
            logs_view(list@) == shown(final(self)@),
    {
        self.absorb(fetched);
        self.visible()
    }

    /// Sets the criteria; without a limit given, 1000 entries are shown.
    pub fn update_log_filters(
        &mut self,
        action: String,
        interface: String,
        direction: String,
        limit: Option<usize>,
    )
        ensures
            final(self)@ == (CacheView {
                criteria: CriteriaView {
                    action: action@,
                    interface: interface@,
                    direction: direction@,
                    limit: match limit {
                        Some(n) => n as nat,
                        None => 1000,
                    },
                },
                ..old(self)@
            }),
    {
        let limit = match limit {
            Some(n) => n,
            None => 1000,
        };
        self.filter_criteria = LogFilterCriteria { action, interface, direction, limit };
    }

    /// Registers a listener, as long as the count still fits.
    pub fn start_log_polling(&mut self)
        ensures
            final(self)@ == (CacheView {
                active_listeners: if old(self)@.active_listeners < usize::MAX {
                    old(self)@.active_listeners + 1
                } else {
                    old(self)@.active_listeners
                },
                ..old(self)@
            }),
    {
        if self.active_listeners < usize::MAX {
            self.active_listeners = self.active_listeners + 1;
        }
    }

    /// Removes a listener, if there is one. Once nobody listens, the
    /// digest is forgotten so that polling starts afresh.
    pub fn stop_log_polling(&mut self)
        ensures
            final(self)@ == (CacheView {
                active_listeners: if old(self)@.active_listeners > 0 {
                    (old(self)@.active_listeners - 1) as nat
                } else {
                    0
                },
                last_digest: if old(self)@.active_listeners <= 1 {
                    Seq::empty()
                } else {
                    old(self)@.last_digest
                },
                ..old(self)@
            }),
    {
        if self.active_listeners > 0 {
            self.active_listeners = self.active_listeners - 1;
        }
        if self.active_listeners == 0 {
            self.last_digest = String::new();
        }
    }

    /// Drops every entry and forgets the digest.
    pub fn clear_log_cache(&mut self)
        ensures
            final(self)@ == (CacheView {
                logs: Seq::empty(),
                last_digest: Seq::empty(),
                ..old(self)@
            }),
    {
        self.logs = Vec::new();
        self.last_digest = String::new();
        assert(self@.logs =~= Seq::empty());
    }
}

/// The entries of a prefix that pass a filter are a prefix of those of the
/// whole that pass it.
proof fn lemma_filter_prefix(all: Seq<LogView>, keep: spec_fn(LogView) -> bool, i: int)
    requires
        0 <= i <= all.len(),
    ensures
        all.take(i).filter(keep) =~= all.filter(keep).take(all.take(i).filter(keep).len() as int),
        all.take(i).filter(keep).len() <= all.filter(keep).len(),
    decreases all.len() - i,
{
    reveal(Seq::filter);
    if i == all.len() {
        assert(all.take(i) =~= all);
    } else {
        lemma_filter_prefix(all, keep, i + 1);
        assert(all.take(i + 1).drop_last() =~= all.take(i));
        assert(all.take(i + 1).last() == all[i]);
    }
}

} // verus!
