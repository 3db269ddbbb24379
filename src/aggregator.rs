//! Session correlation in bounded memory.

use vstd::prelude::*;
use crate::clock::{now_epoch_micros, now_epoch_secs};
use crate::enrich::well_formed;
use crate::record::{
    get_str_attr, str_attr, LogRecord, LogRecordView,
};
use crate::text::{push_char, same_text, texts_view};

verus! {

/// How many records a session keeps; older ones are only counted.
pub const MAX_SESSION_LOGS: usize = 50;

/// Lifecycle of a session.
#[derive(Debug, Clone, Copy, PartialEq, Eq, Structural)]
pub enum SessionStatus {
    Active,
    Completed,
    Failed,
}

/// The aggregator's state for one correlation key.
#[derive(Debug, Clone)]
pub struct CallSession {
    pub session_id: String,
    /// Timestamp of the record that opened the session.
    pub start_time: String,
    /// Seconds since the epoch of the latest update.
    pub last_update_ts: i64,
    /// Records accepted into the session, including those no longer kept.
    pub logs_count: u64,
    /// The latest records, oldest first.
    pub logs: Vec<LogRecord>,
    pub status: SessionStatus,
    pub anomalies: Vec<String>,
}

/// Model of a [`CallSession`].
pub struct CallSessionView {
    pub session_id: Seq<char>,
    pub start_time: Seq<char>,
    pub last_update_ts: i64,
    pub logs_count: u64,
    pub logs: Seq<LogRecordView>,
    pub status: SessionStatus,
    pub anomalies: Seq<Seq<char>>,
}

/// The model of a vector of records.
pub open spec fn records_view(v: Seq<LogRecord>) -> Seq<LogRecordView> {
    v.map_values(|r: LogRecord| r@)
}

impl View for CallSession {
    type V = CallSessionView;

    open spec fn view(&self) -> CallSessionView {
        CallSessionView {
            session_id: self.session_id@,
            start_time: self.start_time@,
            last_update_ts: self.last_update_ts,
            logs_count: self.logs_count,
            logs: records_view(self.logs@),
            status: self.status,
            anomalies: texts_view(self.anomalies@),
        }
    }
}

/// The model of a vector of sessions.
pub open spec fn sessions_view(v: Seq<CallSession>) -> Seq<CallSessionView> {
    v.map_values(|s: CallSession| s@)
}

/// The text recorded for an error-level record.
pub open spec fn anomaly_text(r: LogRecordView) -> Seq<char> {
    seq!['['] + r.severity + seq![']', ' '] + r.message
}

pub open spec fn is_error_level(sev: Seq<char>) -> bool {
    sev == "ERROR"@ || sev == "FATAL"@
}

pub open spec fn is_terminal_event(ev: Seq<char>) -> bool {
    ev == "CALL_TERMINATED"@ || ev == "BYE"@
}

/// `s` after accepting record `r` at time `now`.
pub open spec fn touch(s: CallSessionView, r: LogRecordView, now: i64) -> CallSessionView {
    let logs = s.logs.push(r);
    CallSessionView {
        last_update_ts: if now > s.last_update_ts {
            now
        } else {
            s.last_update_ts
        },
        logs_count: if s.logs_count < u64::MAX {
            (s.logs_count + 1) as u64
        } else {
            s.logs_count
        },
        logs: if logs.len() > MAX_SESSION_LOGS {
            logs.drop_first()
        } else {
            logs
        },
        status: if is_error_level(r.severity) {
            SessionStatus::Failed
        } else if is_terminal_event(r.event) && s.status != SessionStatus::Failed {
            SessionStatus::Completed
        } else {
            s.status
        },
        anomalies: if is_error_level(r.severity) {
            s.anomalies.push(anomaly_text(r))
        } else {
            s.anomalies
        },
        ..s
    }
}

/// A session opened by record `r` at time `now`, before `r` is accepted.
pub open spec fn opened(r: LogRecordView, now: i64) -> CallSessionView {
    CallSessionView {
        session_id: r.trace_id->0,
        start_time: r.ts,
        last_update_ts: now,
        logs_count: 0,
        logs: Seq::empty(),
        status: SessionStatus::Active,
        anomalies: Seq::empty(),
    }
}

/// The session has gone `ttl` seconds without an update.
pub open spec fn is_stale(s: CallSessionView, now: i64, ttl: int) -> bool {
    now - s.last_update_ts >= ttl
}

/// The sessions that are not stale, in order.
pub open spec fn keep_fresh(ss: Seq<CallSessionView>, now: i64, ttl: int) -> Seq<CallSessionView>
    decreases ss.len(),
{
    if ss.len() == 0 {
        ss
    } else if is_stale(ss.last(), now, ttl) {
        keep_fresh(ss.drop_last(), now, ttl)
    } else {
        keep_fresh(ss.drop_last(), now, ttl).push(ss.last())
    }
}

/// The session map after a sweep at `now`: sessions idle for the TTL go,
/// then, while over capacity, those idle for half of it.
pub open spec fn swept(ss: Seq<CallSessionView>, max: usize, ttl: i64, now: i64) -> Seq<
    CallSessionView,
> {
    let p = keep_fresh(ss, now, ttl as int);
    if p.len() > max {
        keep_fresh(p, now, half_ttl(ttl))
    } else {
        p
    }
}

/// The record fails its session on admission.
pub open spec fn fails_session(r: LogRecordView) -> bool {
    keyed(r) && is_error_level(r.severity)
}

/// The emergency threshold: half the TTL.
pub open spec fn half_ttl(ttl: i64) -> int {
    if ttl >= 0 {
        ttl as int / 2
    } else {
        ttl as int
    }
}

/// `i` is the first session keyed `k`.
pub open spec fn is_first_session(ss: Seq<CallSessionView>, k: Seq<char>, i: int) -> bool {
    &&& 0 <= i < ss.len()
    &&& ss[i].session_id == k
    &&& forall|j: int| 0 <= j < i ==> #[trigger] ss[j].session_id != k
}

pub open spec fn has_session(ss: Seq<CallSessionView>, k: Seq<char>) -> bool {
    exists|i: int| 0 <= i < ss.len() && #[trigger] ss[i].session_id == k
}

pub open spec fn session_index(ss: Seq<CallSessionView>, k: Seq<char>) -> int {
    choose|i: int| is_first_session(ss, k, i)
}

/// The session map after admitting record `r` (which has a trace id) at `now`.
pub open spec fn admitted(
    ss: Seq<CallSessionView>,
    max: usize,
    ttl: i64,
    r: LogRecordView,
    now: i64,
) -> Seq<CallSessionView> {
    let k = r.trace_id->0;
    if has_session(ss, k) {
        ss.update(session_index(ss, k), touch(ss[session_index(ss, k)], r, now))
    } else if ss.len() < max {
        ss.push(touch(opened(r, now), r, now))
    } else {
        let purged = keep_fresh(ss, now, half_ttl(ttl));
        if purged.len() < max {
            purged.push(touch(opened(r, now), r, now))
        } else {
            purged
        }
    }
}

/// The record carries a non-empty string `sip.call_id`.
pub open spec fn call_id_usable(a: crate::record::AttrsView) -> bool {
    match str_attr(a, "sip.call_id"@) {
        Some(c) => c.len() > 0,
        None => false,
    }
}

/// The record carries a non-empty trace id.
pub open spec fn keyed(r: LogRecordView) -> bool {
    match r.trace_id {
        Some(k) => k.len() > 0,
        None => false,
    }
}

/// The record as forwarded: stamped with `idx`, and given its SIP Call-ID as
/// trace id when it has none.
pub open spec fn forwarded(r: LogRecordView, idx: u64) -> LogRecordView {
    LogRecordView {
        idx,
        trace_id: if r.trace_id is None && call_id_usable(r.attributes) {
            str_attr(r.attributes, "sip.call_id"@)
        } else {
            r.trace_id
        },
        ..r
    }
}

/// The next ordering stamp after `last` at clock reading `micros`.
pub open spec fn next_idx(last: u64, micros: u64) -> u64 {
    if micros > last {
        micros
    } else {
        (last + 1) as u64
    }
}

/// The invariants of one session: a key; a tail of the latest
/// `min(logs_count, MAX_SESSION_LOGS)` records, whose stamps strictly
/// increase and do not pass `last_idx`; and a failed status exactly where an
/// anomaly was recorded.
pub open spec fn session_wf(s: CallSessionView, last_idx: u64) -> bool {
    &&& s.session_id.len() > 0
    &&& s.logs.len() == if s.logs_count < MAX_SESSION_LOGS {
        s.logs_count as int
    } else {
        MAX_SESSION_LOGS as int
    }
    &&& forall|i: int, j: int|
        0 <= i < j < s.logs.len() ==> #[trigger] s.logs[i].idx < #[trigger] s.logs[j].idx
    &&& forall|i: int| 0 <= i < s.logs.len() ==> #[trigger] s.logs[i].idx <= last_idx
    &&& s.anomalies.len() > 0 <==> s.status == SessionStatus::Failed
}

/// The invariants of the session map: at most `max` sessions, distinct
/// keys, and each session well formed.
pub open spec fn sessions_wf(ss: Seq<CallSessionView>, max: usize, last_idx: u64) -> bool {
    ss.len() <= max && sessions_sound(ss, last_idx)
}

/// Correlates records into sessions keyed by trace id.
pub struct Aggregator {
    sessions: Vec<CallSession>,
    max_sessions: usize,
    ttl_seconds: i64,
    last_idx: u64,
}

/// `v` read from its end.
pub open spec fn backwards<A>(v: Seq<A>) -> Seq<A> {
    Seq::new(v.len(), |i: int| v[v.len() - 1 - i])
}

fn stale(s: &CallSession, now: i64, ttl: i64) -> (r: bool)
    ensures
        r == is_stale(s@, now, ttl as int),
{
    (now as i128) - (s.last_update_ts as i128) >= ttl as i128
}

/// Keeps the sessions that are not stale, in order.
fn retain_fresh(sessions: &mut Vec<CallSession>, now: i64, ttl: i64)
    ensures
        sessions_view(final(sessions)@) == keep_fresh(sessions_view(old(sessions)@), now, ttl as int),
{
    let ghost orig = sessions_view(sessions@);
    let mut src: Vec<CallSession> = Vec::new();
    std::mem::swap(&mut src, sessions);
    let mut rev: Vec<CallSession> = Vec::new();
    while src.len() > 0
        invariant
            orig.len() >= src@.len(),
            sessions_view(src@) == orig.take(src@.len() as int),
            keep_fresh(orig, now, ttl as int) == keep_fresh(
                orig.take(src@.len() as int),
                now,
                ttl as int,
            ) + backwards(sessions_view(rev@)),
        decreases src.len(),
    {
        let ghost n = src@.len() as int;
        let ghost k_rev = sessions_view(rev@);
        assert(orig.take(n).drop_last() =~= orig.take(n - 1));
        let s = src.pop().unwrap();
        assert(sessions_view(src@) =~= orig.take(n - 1));
        assert(s@ == orig.take(n).last());
        if !stale(&s, now, ttl) {
            rev.push(s);
            assert(sessions_view(rev@) =~= k_rev.push(orig.take(n).last()));
            assert(backwards(sessions_view(rev@)) =~= seq![orig.take(n).last()] + backwards(k_rev));
            assert(keep_fresh(orig.take(n), now, ttl as int) == keep_fresh(
                orig.take(n - 1),
                now,
                ttl as int,
            ).push(orig.take(n).last()));
            assert(keep_fresh(orig.take(n - 1), now, ttl as int).push(orig.take(n).last())
                + backwards(k_rev) =~= keep_fresh(orig.take(n - 1), now, ttl as int) + (seq![
                orig.take(n).last(),
            ] + backwards(k_rev)));
        }
    }
    assert(orig.take(0) =~= Seq::<CallSessionView>::empty());
    assert(keep_fresh(orig, now, ttl as int) =~= backwards(sessions_view(rev@)));
    while rev.len() > 0
        invariant
            sessions_view(src@) + backwards(sessions_view(rev@)) == keep_fresh(orig, now, ttl as int),
        decreases rev.len(),
    {
        let ghost before_src = sessions_view(src@);
        let ghost before_rev = sessions_view(rev@);
        let s = rev.pop().unwrap();
        assert(before_rev =~= sessions_view(rev@).push(s@));
        src.push(s);
        assert(sessions_view(src@) =~= before_src.push(s@));
        assert(backwards(before_rev) =~= seq![s@] + backwards(sessions_view(rev@)));
        assert(sessions_view(src@) + backwards(sessions_view(rev@)) =~= before_src + backwards(
            before_rev,
        ));
    }
    assert(backwards(sessions_view(rev@)) =~= Seq::<CallSessionView>::empty());
    assert(sessions_view(src@) =~= keep_fresh(orig, now, ttl as int));
    std::mem::swap(&mut src, sessions);
}

fn anomaly_of(r: &LogRecord) -> (t: String)
    ensures
        t@ == anomaly_text(r@),
{
    let mut t = String::new();
    push_char(&mut t, '[');
    t.append(r.severity.as_str());
    push_char(&mut t, ']');
    push_char(&mut t, ' ');
    t.append(r.message.as_str());
    assert(t@ =~= anomaly_text(r@));
    t
}

/// Accepts record `r` into session `s` at time `now`.
fn touch_session(s: &mut CallSession, r: &LogRecord, now: i64)
    ensures
        final(s)@ == touch(old(s)@, r@, now),
{
    let err = same_text(r.severity.as_str(), "ERROR") || same_text(r.severity.as_str(), "FATAL");
    let term = same_text(r.event.as_str(), "CALL_TERMINATED") || same_text(r.event.as_str(), "BYE");
    if now > s.last_update_ts {
        s.last_update_ts = now;
    }
    if s.logs_count < u64::MAX {
        s.logs_count = s.logs_count + 1;
    }
    let ghost logs0 = records_view(s.logs@);
    s.logs.push(r.duplicate());
    assert(records_view(s.logs@) =~= logs0.push(r@));
    if s.logs.len() > MAX_SESSION_LOGS {
        let ghost logs1 = records_view(s.logs@);
        s.logs.remove(0);
        assert(records_view(s.logs@) =~= logs1.drop_first());
    }
    if err {
        s.status = SessionStatus::Failed;
        let ghost an0 = texts_view(s.anomalies@);
        let t = anomaly_of(r);
        let ghost tv = t@;
        s.anomalies.push(t);
        assert(texts_view(s.anomalies@) =~= an0.push(tv));
    } else if term && s.status != SessionStatus::Failed {
        s.status = SessionStatus::Completed;
    }
}

proof fn lemma_first_session(ss: Seq<CallSessionView>, k: Seq<char>, i: int)
    requires
        is_first_session(ss, k, i),
    ensures
        has_session(ss, k),
        session_index(ss, k) == i,
{
    assert(ss[i].session_id == k);
    let c = session_index(ss, k);
    assert(is_first_session(ss, k, c));
    if c < i {
        assert(ss[c].session_id != k);
    } else if c > i {
        assert(ss[i].session_id != k);
    }
}

proof fn lemma_unique_index(ss: Seq<CallSessionView>, k: Seq<char>, i: int)
    requires
        0 <= i < ss.len(),
        ss[i].session_id == k,
        forall|a: int, b: int|
            0 <= a < ss.len() && 0 <= b < ss.len() && #[trigger] ss[a].session_id
                == #[trigger] ss[b].session_id ==> a == b,
    ensures
        has_session(ss, k),
        session_index(ss, k) == i,
{
    assert(is_first_session(ss, k, i));
    lemma_first_session(ss, k, i);
}

/// Position of the session keyed `k`.
fn find_session(sessions: &Vec<CallSession>, k: &str) -> (r: Option<usize>)
    ensures
        r is None <==> !has_session(sessions_view(sessions@), k@),
        r is Some ==> r->0 < sessions@.len() && session_index(sessions_view(sessions@), k@) == r->0
            && sessions_view(sessions@)[r->0 as int].session_id == k@,
{
    let ghost v = sessions_view(sessions@);
    let mut i: usize = 0;
    while i < sessions.len()
        invariant
            v == sessions_view(sessions@),
            i <= sessions@.len(),
            forall|j: int| 0 <= j < i ==> #[trigger] v[j].session_id != k@,
        decreases sessions.len() - i,
    {
        if same_text(sessions[i].session_id.as_str(), k) {
            proof {
                lemma_first_session(v, k@, i as int);
            }
            return Some(i);
        }
        i += 1;
    }
    assert forall|j: int| 0 <= j < v.len() implies v[j].session_id != k@ by {}
    None
}

/// No two sessions share a key, and each is well formed.
pub open spec fn sessions_sound(ss: Seq<CallSessionView>, last_idx: u64) -> bool {
    &&& forall|i: int, j: int|
        0 <= i < ss.len() && 0 <= j < ss.len() && #[trigger] ss[i].session_id
            == #[trigger] ss[j].session_id ==> i == j
    &&& forall|i: int| 0 <= i < ss.len() ==> session_wf(#[trigger] ss[i], last_idx)
}

proof fn lemma_keep_fresh(ss: Seq<CallSessionView>, now: i64, ttl: int, last_idx: u64)
    requires
        sessions_sound(ss, last_idx),
    ensures
        sessions_sound(keep_fresh(ss, now, ttl), last_idx),
        keep_fresh(ss, now, ttl).len() <= ss.len(),
        forall|k: Seq<char>| #[trigger]
            has_session(keep_fresh(ss, now, ttl), k) ==> has_session(ss, k),
    decreases ss.len(),
{
    if ss.len() > 0 {
        let pre = ss.drop_last();
        assert(sessions_sound(pre, last_idx)) by {
            assert forall|i: int| 0 <= i < pre.len() implies session_wf(
                #[trigger] pre[i],
                last_idx,
            ) by {
                assert(pre[i] == ss[i]);
            }
        }
        lemma_keep_fresh(pre, now, ttl, last_idx);
        let kp = keep_fresh(pre, now, ttl);
        assert forall|k: Seq<char>| #[trigger] has_session(pre, k) implies has_session(ss, k) by {
            let i = choose|i: int| 0 <= i < pre.len() && #[trigger] pre[i].session_id == k;
            assert(ss[i].session_id == k);
        }
        if !is_stale(ss.last(), now, ttl) {
            let out = kp.push(ss.last());
            assert(!has_session(kp, ss.last().session_id)) by {
                if has_session(kp, ss.last().session_id) {
                    assert(has_session(pre, ss.last().session_id));
                    let i = choose|i: int|
                        0 <= i < pre.len() && #[trigger] pre[i].session_id == ss.last().session_id;
                    assert(ss[i].session_id == ss[ss.len() - 1].session_id);
                }
            }
            assert forall|i: int, j: int|
                0 <= i < out.len() && 0 <= j < out.len() && #[trigger] out[i].session_id
                    == #[trigger] out[j].session_id implies i == j by {
                if i < kp.len() && j == kp.len() {
                    assert(kp[i].session_id == ss.last().session_id);
                } else if j < kp.len() && i == kp.len() {
                    assert(kp[j].session_id == ss.last().session_id);
                } else if i < kp.len() && j < kp.len() {
                    assert(kp[i] == out[i] && kp[j] == out[j]);
                }
            }
            assert forall|i: int| 0 <= i < out.len() implies session_wf(
                #[trigger] out[i],
                last_idx,
            ) by {
                if i < kp.len() {
                    assert(kp[i] == out[i]);
                }
            }
            assert forall|k: Seq<char>| #[trigger] has_session(out, k) implies has_session(ss, k) by {
                let i = choose|i: int| 0 <= i < out.len() && #[trigger] out[i].session_id == k;
                if i < kp.len() {
                    assert(kp[i] == out[i]);
                    assert(has_session(kp, k));
                } else {
                    assert(ss[ss.len() - 1].session_id == k);
                }
            }
        }
    }
}

proof fn lemma_session_wf_later(s: CallSessionView, a: u64, b: u64)
    requires
        session_wf(s, a),
        a <= b,
    ensures
        session_wf(s, b),
{
}

proof fn lemma_touch_wf(s: CallSessionView, r: LogRecordView, now: i64, last_idx: u64)
    requires
        session_wf(s, last_idx),
        r.idx > last_idx,
    ensures
        session_wf(touch(s, r, now), r.idx),
{
    let t = touch(s, r, now);
    let logs = s.logs.push(r);
    assert forall|i: int, j: int| 0 <= i < j < logs.len() implies #[trigger] logs[i].idx
        < #[trigger] logs[j].idx by {
        if j == logs.len() - 1 {
            assert(logs[i] == s.logs[i]);
        } else {
            assert(logs[i] == s.logs[i] && logs[j] == s.logs[j]);
        }
    }
    assert forall|i: int| 0 <= i < logs.len() implies #[trigger] logs[i].idx <= r.idx by {
        if i < s.logs.len() {
            assert(logs[i] == s.logs[i]);
        }
    }
    if logs.len() > MAX_SESSION_LOGS {
        let d = logs.drop_first();
        assert forall|i: int, j: int| 0 <= i < j < d.len() implies #[trigger] d[i].idx
            < #[trigger] d[j].idx by {
            assert(d[i] == logs[i + 1] && d[j] == logs[j + 1]);
        }
        assert forall|i: int| 0 <= i < d.len() implies #[trigger] d[i].idx <= r.idx by {
            assert(d[i] == logs[i + 1]);
        }
    }
}

/// Forwarding keeps a record well formed.
pub proof fn lemma_forwarded_well_formed(r: LogRecordView, idx: u64)
    requires
        well_formed(r),
    ensures
        well_formed(forwarded(r, idx)),
{
}

/// Once a session has failed, accepting any further record leaves it failed.
pub proof fn lemma_failure_sticks(s: CallSessionView, r: LogRecordView, now: i64)
    requires
        s.status == SessionStatus::Failed,
    ensures
        touch(s, r, now).status == SessionStatus::Failed,
        touch(s, r, now).anomalies.len() >= s.anomalies.len(),
{
}

proof fn lemma_keep_fresh_members(ss: Seq<CallSessionView>, now: i64, ttl: int)
    ensures
        forall|i: int|
            0 <= i < keep_fresh(ss, now, ttl).len() ==> exists|j: int|
                0 <= j < ss.len() && #[trigger] keep_fresh(ss, now, ttl)[i] == ss[j],
    decreases ss.len(),
{
    if ss.len() > 0 {
        let pre = ss.drop_last();
        lemma_keep_fresh_members(pre, now, ttl);
        let kp = keep_fresh(pre, now, ttl);
        let out = keep_fresh(ss, now, ttl);
        assert forall|i: int| 0 <= i < out.len() implies exists|j: int|
            0 <= j < ss.len() && #[trigger] out[i] == ss[j] by {
            if i < kp.len() {
                let j = choose|j: int| 0 <= j < pre.len() && #[trigger] kp[i] == pre[j];
                assert(out[i] == kp[i] && pre[j] == ss[j]);
            } else {
                assert(out[i] == ss[ss.len() - 1]);
            }
        }
    }
}

proof fn lemma_session_exists_first(ss: Seq<CallSessionView>, k: Seq<char>, i: int)
    requires
        0 <= i < ss.len(),
        ss[i].session_id == k,
    ensures
        has_session(ss, k),
        is_first_session(ss, k, session_index(ss, k)),
    decreases i,
{
    if exists|j: int| 0 <= j < i && #[trigger] ss[j].session_id == k {
        let j = choose|j: int| 0 <= j < i && #[trigger] ss[j].session_id == k;
        lemma_session_exists_first(ss, k, j);
    } else {
        assert(is_first_session(ss, k, i));
    }
}

/// Every session keyed `id` has failed.
pub open spec fn all_failed(ss: Seq<CallSessionView>, id: Seq<char>) -> bool {
    forall|i: int|
        0 <= i < ss.len() && #[trigger] ss[i].session_id == id ==> ss[i].status
            == SessionStatus::Failed
}

proof fn lemma_keep_fresh_failed(ss: Seq<CallSessionView>, now: i64, ttl: int, id: Seq<char>)
    requires
        all_failed(ss, id),
    ensures
        all_failed(keep_fresh(ss, now, ttl), id),
        has_session(keep_fresh(ss, now, ttl), id) ==> has_session(ss, id),
{
    lemma_keep_fresh_members(ss, now, ttl);
    let out = keep_fresh(ss, now, ttl);
    assert forall|i: int| 0 <= i < out.len() && #[trigger] out[i].session_id == id implies out[
        i].status == SessionStatus::Failed by {
        let j = choose|j: int| 0 <= j < ss.len() && #[trigger] out[i] == ss[j];
        assert(ss[j].session_id == id);
    }
    if has_session(out, id) {
        let i = choose|i: int| 0 <= i < out.len() && #[trigger] out[i].session_id == id;
        let j = choose|j: int| 0 <= j < ss.len() && #[trigger] out[i] == ss[j];
        assert(ss[j].session_id == id);
    }
}

/// A failed session stays failed when a record is admitted.
pub proof fn lemma_admission_keeps_failure(
    ss: Seq<CallSessionView>,
    max: usize,
    ttl: i64,
    r: LogRecordView,
    now: i64,
    id: Seq<char>,
)
    requires
        keyed(r),
        has_session(ss, id),
        all_failed(ss, id),
    ensures
        all_failed(admitted(ss, max, ttl, r, now), id),
{
    let k = r.trace_id->0;
    let out = admitted(ss, max, ttl, r, now);
    if has_session(ss, k) {
        let i0 = choose|i: int| 0 <= i < ss.len() && #[trigger] ss[i].session_id == k;
        lemma_session_exists_first(ss, k, i0);
        let x = session_index(ss, k);
        assert forall|i: int| 0 <= i < out.len() && #[trigger] out[i].session_id == id implies out[
            i].status == SessionStatus::Failed by {
            if i == x {
                assert(out[i] == touch(ss[x], r, now));
                assert(ss[x].session_id == id);
            } else {
                assert(out[i] == ss[i]);
            }
        }
    } else {
        assert(id != k);
        let base = if ss.len() < max {
            ss
        } else {
            keep_fresh(ss, now, half_ttl(ttl))
        };
        if ss.len() >= max {
            lemma_keep_fresh_failed(ss, now, half_ttl(ttl), id);
        }
        assert forall|i: int| 0 <= i < out.len() && #[trigger] out[i].session_id == id implies out[
            i].status == SessionStatus::Failed by {
            if i < base.len() {
                assert(out[i] == base[i]);
            }
        }
    }
}

/// A failed session stays failed through a sweep.
pub proof fn lemma_sweep_keeps_failure(
    ss: Seq<CallSessionView>,
    max: usize,
    ttl: i64,
    now: i64,
    id: Seq<char>,
)
    requires
        all_failed(ss, id),
    ensures
        all_failed(swept(ss, max, ttl, now), id),
{
    lemma_keep_fresh_failed(ss, now, ttl as int, id);
    lemma_keep_fresh_failed(keep_fresh(ss, now, ttl as int), now, half_ttl(ttl), id);
}

/// An error-level record fails its session and is recorded as an anomaly.
pub proof fn lemma_error_fails_session(s: CallSessionView, r: LogRecordView, now: i64)
    requires
        is_error_level(r.severity),
    ensures
        touch(s, r, now).status == SessionStatus::Failed,
        touch(s, r, now).anomalies == s.anomalies.push(anomaly_text(r)),
{
}

impl Aggregator {
    pub closed spec fn sessions(&self) -> Seq<CallSessionView> {
        sessions_view(self.sessions@)
    }

    pub closed spec fn max_sessions(&self) -> usize {
        self.max_sessions
    }

    pub closed spec fn ttl(&self) -> i64 {
        self.ttl_seconds
    }

    /// The latest ordering stamp handed out.
    pub closed spec fn last_idx(&self) -> u64 {
        self.last_idx
    }

    pub open spec fn wf(&self) -> bool {
        sessions_wf(self.sessions(), self.max_sessions(), self.last_idx())
    }

    /// An empty aggregator holding at most `max_sessions` sessions, each for
    /// `ttl_seconds` after its last update.
    pub fn new(max_sessions: usize, ttl_seconds: i64) -> (r: Aggregator)
        ensures
            r.wf(),
            r.sessions() == Seq::<CallSessionView>::empty(),
            r.max_sessions() == max_sessions,
            r.ttl() == ttl_seconds,
            r.last_idx() == 0,
    {
        let r = Aggregator { sessions: Vec::new(), max_sessions, ttl_seconds, last_idx: 0 };
        assert(r.sessions() =~= Seq::<CallSessionView>::empty());
        r
    }
}

impl Aggregator {
    /// Admits record `log` at time `now` (seconds) with clock reading
    /// `now_micros`, and returns the record to forward downstream.
    pub fn process_at(&mut self, log: LogRecord, now: i64, now_micros: u64) -> (r: LogRecord)
        requires
            old(self).wf(),
        ensures
            final(self).wf(),
            final(self).max_sessions() == old(self).max_sessions(),
            final(self).ttl() == old(self).ttl(),
            old(self).last_idx() == u64::MAX ==> final(self).last_idx() == u64::MAX && r@
                == forwarded(log@, u64::MAX) && final(self).sessions() == old(self).sessions(),
            old(self).last_idx() < u64::MAX ==> final(self).last_idx() == next_idx(
                old(self).last_idx(),
                now_micros,
            ) && r@ == forwarded(log@, final(self).last_idx()),
            final(self).sessions() == if old(self).last_idx() < u64::MAX && keyed(r@) {
                admitted(old(self).sessions(), old(self).max_sessions(), old(self).ttl(), r@, now)
            } else {
                old(self).sessions()
            },
            old(self).last_idx() < u64::MAX && fails_session(r@) && has_session(
                final(self).sessions(),
                r@.trace_id->0,
            ) ==> final(self).sessions()[session_index(
                final(self).sessions(),
                r@.trace_id->0,
            )].status == SessionStatus::Failed,
    {
        let mut rec = log;
        if rec.trace_id.is_none() {
            match get_str_attr(&rec.attributes, "sip.call_id") {
                Some(c) => {
                    if !c.as_str().is_empty() {
                        rec.trace_id = Some(c);
                    }
                },
                None => {},
            }
        }
        if self.last_idx == u64::MAX {
            rec.idx = u64::MAX;
            return rec;
        }
        let idx = if now_micros > self.last_idx {
            now_micros
        } else {
            self.last_idx + 1
        };
        let ghost old_idx = self.last_idx;
        self.last_idx = idx;
        rec.idx = idx;
        proof {
            let ss = self.sessions();
            assert forall|i: int| 0 <= i < ss.len() implies session_wf(#[trigger] ss[i], idx) by {
                lemma_session_wf_later(ss[i], old_idx, idx);
            }
        }
        let key = match &rec.trace_id {
            Some(k) => {
                if k.as_str().is_empty() {
                    return rec;
                }
                k.clone()
            },
            None => {
                return rec;
            },
        };
        let ghost ss0 = self.sessions();
        match find_session(&self.sessions, key.as_str()) {
            Some(i) => {
                proof {
                    lemma_touch_wf(ss0[i as int], rec@, now, old_idx);
                }
                touch_session(&mut self.sessions[i], &rec, now);
                assert(sessions_view(self.sessions@) =~= ss0.update(
                    i as int,
                    touch(ss0[i as int], rec@, now),
                ));
                proof {
                    let ss = self.sessions();
                    assert forall|a: int, b: int|
                        0 <= a < ss.len() && 0 <= b < ss.len() && #[trigger] ss[a].session_id
                            == #[trigger] ss[b].session_id implies a == b by {
                        assert(ss[a].session_id == ss0[a].session_id);
                        assert(ss[b].session_id == ss0[b].session_id);
                    }
                    lemma_unique_index(ss, key@, i as int);
                }
            },
            None => {
                if self.sessions.len() >= self.max_sessions {
                    let half = if self.ttl_seconds >= 0 {
                        self.ttl_seconds / 2
                    } else {
                        self.ttl_seconds
                    };
                    proof {
                        lemma_keep_fresh(ss0, now, half_ttl(self.ttl_seconds), idx);
                    }
                    retain_fresh(&mut self.sessions, now, half);
                    if self.sessions.len() >= self.max_sessions {
                        assert(!has_session(ss0, key@));
                        assert(!has_session(self.sessions(), key@));
                        return rec;
                    }
                }
                let ghost ss1 = self.sessions();
                assert(!has_session(ss1, key@));
                let mut s = CallSession {
                    session_id: key,
                    start_time: rec.ts.clone(),
                    last_update_ts: now,
                    logs_count: 0,
                    logs: Vec::new(),
                    status: SessionStatus::Active,
                    anomalies: Vec::new(),
                };
                assert(s@.logs =~= Seq::<LogRecordView>::empty());
                assert(s@.anomalies =~= Seq::<Seq<char>>::empty());
                assert(s@ == opened(rec@, now));
                proof {
                    lemma_touch_wf(s@, rec@, now, old_idx);
                }
                touch_session(&mut s, &rec, now);
                let ghost sv = s@;
                self.sessions.push(s);
                assert(self.sessions() =~= ss1.push(sv));
                proof {
                    let ss = self.sessions();
                    assert forall|a: int, b: int|
                        0 <= a < ss.len() && 0 <= b < ss.len() && #[trigger] ss[a].session_id
                            == #[trigger] ss[b].session_id implies a == b by {
                        if a < ss1.len() && b == ss1.len() {
                            assert(ss1[a].session_id == key@);
                        } else if b < ss1.len() && a == ss1.len() {
                            assert(ss1[b].session_id == key@);
                        } else if a < ss1.len() && b < ss1.len() {
                            assert(ss1[a] == ss[a] && ss1[b] == ss[b]);
                        }
                    }
                    lemma_unique_index(ss, key@, ss1.len() as int);
                    assert forall|a: int|
                        0 <= a < ss.len() implies session_wf(#[trigger] ss[a], idx) by {
                        if a < ss1.len() {
                            assert(ss1[a] == ss[a]);
                        }
                    }
                }
            },
        }
        rec
    }

    /// The sweep at time `now`: drops every session idle for the TTL or
    /// longer, then, while over capacity, those idle for half of it. Returns
    /// how many were dropped.
    pub fn cleanup_at(&mut self, now: i64) -> (removed: usize)
        requires
            old(self).wf(),
        ensures
            final(self).wf(),
            final(self).max_sessions() == old(self).max_sessions(),
            final(self).ttl() == old(self).ttl(),
            final(self).last_idx() == old(self).last_idx(),
            final(self).sessions() == swept(
                old(self).sessions(),
                old(self).max_sessions(),
                old(self).ttl(),
                now,
            ),
            removed == old(self).sessions().len() - final(self).sessions().len(),
    {
        let before = self.sessions.len();
        proof {
            lemma_keep_fresh(self.sessions(), now, self.ttl_seconds as int, self.last_idx);
        }
        retain_fresh(&mut self.sessions, now, self.ttl_seconds);
        if self.sessions.len() > self.max_sessions {
            let half = if self.ttl_seconds >= 0 {
                self.ttl_seconds / 2
            } else {
                self.ttl_seconds
            };
            proof {
                lemma_keep_fresh(self.sessions(), now, half_ttl(self.ttl_seconds), self.last_idx);
            }
            retain_fresh(&mut self.sessions, now, half);
        }
        before - self.sessions.len()
    }

    /// Admits `log` at the current time and returns the record to forward.
    pub fn process(&mut self, log: LogRecord) -> (r: LogRecord)
        requires
            old(self).wf(),
        ensures
            final(self).wf(),
            final(self).max_sessions() == old(self).max_sessions(),
            final(self).ttl() == old(self).ttl(),
            old(self).last_idx() < u64::MAX ==> r@.idx > old(self).last_idx()
                && final(self).last_idx() == r@.idx,
            r@ == forwarded(log@, r@.idx),
            old(self).last_idx() < u64::MAX && keyed(r@) ==> exists|now: i64|
                final(self).sessions() == #[trigger] admitted(
                    old(self).sessions(),
                    old(self).max_sessions(),
                    old(self).ttl(),
                    r@,
                    now,
                ),
            !(old(self).last_idx() < u64::MAX && keyed(r@)) ==> final(self).sessions() == old(
                self,
            ).sessions(),
            old(self).last_idx() < u64::MAX ==> final(self).last_idx() as int <= if old(
                self,
            ).last_idx() < i64::MAX {
                i64::MAX as int
            } else {
                old(self).last_idx() + 1
            },
            old(self).last_idx() < u64::MAX && fails_session(r@) && has_session(
                final(self).sessions(),
                r@.trace_id->0,
            ) ==> final(self).sessions()[session_index(
                final(self).sessions(),
                r@.trace_id->0,
            )].status == SessionStatus::Failed,
    {
        let now = now_epoch_secs();
        let micros = now_epoch_micros();
        let m: u64 = if micros < 0 {
            0
        } else {
            micros as u64
        };
        let r = self.process_at(log, now, m);
        r
    }

    /// The sweep at the current time; returns how many sessions were dropped.
    pub fn cleanup(&mut self) -> (removed: usize)
        requires
            old(self).wf(),
        ensures
            final(self).wf(),
            final(self).max_sessions() == old(self).max_sessions(),
            final(self).ttl() == old(self).ttl(),
            final(self).last_idx() == old(self).last_idx(),
            final(self).sessions().len() <= old(self).sessions().len(),
            removed == old(self).sessions().len() - final(self).sessions().len(),
            exists|now: i64|
                final(self).sessions() == #[trigger] swept(
                    old(self).sessions(),
                    old(self).max_sessions(),
                    old(self).ttl(),
                    now,
                ),
    {
        let now = now_epoch_secs();
        self.cleanup_at(now)
    }

    /// Number of open sessions.
    pub fn session_count(&self) -> (n: usize)
        ensures
            n == self.sessions().len(),
    {
        self.sessions.len()
    }

    /// The session keyed `id`, if open.
    pub fn session(&self, id: &str) -> (r: Option<&CallSession>)
        ensures
            r is None <==> !has_session(self.sessions(), id@),
            r matches Some(s) ==> s@ == self.sessions()[session_index(self.sessions(), id@)],
    {
        match find_session(&self.sessions, id) {
            Some(i) => Some(&self.sessions[i]),
            None => None,
        }
    }
}

} // verus!
