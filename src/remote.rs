//! Records that arrive from remote peers over RPC.

use vstd::prelude::*;
use crate::clock::{now_rfc3339, parses_as_rfc3339, rfc3339_ok};
use crate::enrich::{
    enrich, lemma_enrich_well_formed, lemma_put_keeps_unique, lemma_put_self, well_formed,
};
use crate::record::{
    add_tag, attrs_view, keys_unique, put, put_attr, str_attr, with_tag,
    AttrValue, AttrView, AttrsView, LogRecord, LogRecordView, ResourceContext, ResourceView,
};

verus! {

/// The record came in over the RPC ingress.
pub open spec fn is_remote(r: LogRecordView) -> bool {
    str_attr(r.attributes, "source"@) == Some("grpc"@)
}

/// `a` with each key kept once, at its first place, holding its last value.
pub open spec fn dedupe(a: AttrsView) -> AttrsView
    decreases a.len(),
{
    if a.len() == 0 {
        a
    } else {
        put(dedupe(a.drop_last()), a.last().0, a.last().1)
    }
}

/// The record synthesized for an envelope that did not parse.
pub open spec fn parse_error_record(msg: Seq<char>, now: Seq<char>) -> LogRecordView {
    LogRecordView {
        schema_v: "1.0.0"@,
        ts: now,
        severity: "WARN"@,
        tenant_id: "default"@,
        resource: ResourceView {
            service_name: "unknown_grpc"@,
            service_version: "unknown"@,
            service_env: "production"@,
            host_name: None,
        },
        trace_id: None,
        span_id: None,
        event: "GRPC_PARSE_ERROR"@,
        message: msg,
        attributes: Seq::empty(),
        smart_tags: Seq::empty(),
        idx: 0,
        flattened: false,
    }
}

/// A parsed envelope made fit for the pipeline: a timestamp that parses,
/// a named service, no empty trace id, distinct attribute keys.
pub open spec fn repaired(r: LogRecordView, now: Seq<char>) -> LogRecordView {
    LogRecordView {
        ts: if rfc3339_ok(r.ts) {
            r.ts
        } else {
            now
        },
        resource: ResourceView {
            service_name: if r.resource.service_name.len() == 0 {
                "unknown_grpc"@
            } else {
                r.resource.service_name
            },
            ..r.resource
        },
        trace_id: match r.trace_id {
            Some(t) => if t.len() == 0 {
                None
            } else {
                Some(t)
            },
            None => None,
        },
        attributes: dedupe(r.attributes),
        ..r
    }
}

/// The model of what the envelope parser returned.
pub open spec fn parsed_view(p: Result<LogRecord, String>) -> Result<LogRecordView, Seq<char>> {
    match p {
        Ok(r) => Ok(r@),
        Err(m) => Err(m@),
    }
}

/// The record forwarded for an envelope: enriched, marked with
/// `source=grpc`, and tagged `GRPC` and `REMOTE`.
pub open spec fn remote_record(p: Result<LogRecordView, Seq<char>>, now: Seq<char>) -> LogRecordView {
    let base = match p {
        Ok(r) => repaired(r, now),
        Err(m) => parse_error_record(m, now),
    };
    let e = enrich(base);
    LogRecordView {
        attributes: put(e.attributes, "source"@, AttrView::Str("grpc"@)),
        smart_tags: with_tag(with_tag(e.smart_tags, "GRPC"@), "REMOTE"@),
        ..e
    }
}

proof fn lemma_dedupe_unique(a: AttrsView)
    ensures
        keys_unique(dedupe(a)),
    decreases a.len(),
{
    if a.len() > 0 {
        lemma_dedupe_unique(a.drop_last());
        lemma_put_keeps_unique(dedupe(a.drop_last()), a.last().0, a.last().1);
    }
}

fn dedupe_attrs(a: Vec<(String, AttrValue)>) -> (r: Vec<(String, AttrValue)>)
    ensures
        attrs_view(r@) == dedupe(attrs_view(a@)),
{
    let ghost av = attrs_view(a@);
    let mut out: Vec<(String, AttrValue)> = Vec::new();
    let mut i: usize = 0;
    assert(av.take(0) =~= Seq::<(Seq<char>, AttrView)>::empty());
    while i < a.len()
        invariant
            i <= a@.len(),
            av == attrs_view(a@),
            attrs_view(out@) == dedupe(av.take(i as int)),
        decreases a.len() - i,
    {
        assert(av.take(i + 1).drop_last() =~= av.take(i as int));
        put_attr(&mut out, a[i].0.clone(), a[i].1.duplicate());
        i += 1;
    }
    assert(av.take(a@.len() as int) =~= av);
    out
}

fn repair(r: LogRecord, now_ts: &str) -> (out: LogRecord)
    ensures
        out@ == repaired(r@, now_ts@),
{
    let mut r = r;
    if !parses_as_rfc3339(r.ts.as_str()) {
        r.ts = String::from_str(now_ts);
    }
    if r.resource.service_name.as_str().is_empty() {
        r.resource.service_name = String::from_str("unknown_grpc");
    }
    let empty_trace = match &r.trace_id {
        Some(t) => t.as_str().is_empty(),
        None => false,
    };
    if empty_trace {
        r.trace_id = None;
    }
    let mut attrs: Vec<(String, AttrValue)> = Vec::new();
    std::mem::swap(&mut attrs, &mut r.attributes);
    r.attributes = dedupe_attrs(attrs);
    r
}

fn parse_error_log(msg: String, now_ts: &str) -> (r: LogRecord)
    ensures
        r@ == parse_error_record(msg@, now_ts@),
{
    let r = LogRecord {
        schema_v: String::from_str("1.0.0"),
        ts: String::from_str(now_ts),
        severity: String::from_str("WARN"),
        tenant_id: String::from_str("default"),
        resource: ResourceContext {
            service_name: String::from_str("unknown_grpc"),
            service_version: String::from_str("unknown"),
            service_env: String::from_str("production"),
            host_name: None,
        },
        trace_id: None,
        span_id: None,
        event: String::from_str("GRPC_PARSE_ERROR"),
        message: msg,
        attributes: Vec::new(),
        smart_tags: Vec::new(),
        idx: 0,
        flattened: false,
    };
    assert(r@.attributes =~= Seq::empty());
    assert(r@.smart_tags =~= Seq::empty());
    r
}

/// The record to forward for an envelope the RPC ingress received: the
/// parsed record, or a `GRPC_PARSE_ERROR` warning carrying the parser's
/// message; `now_ts` stands in for a missing or invalid timestamp.
pub fn accept_remote(parsed: Result<LogRecord, String>, now_ts: &str) -> (r: LogRecord)
    ensures
        r@ == remote_record(parsed_view(parsed), now_ts@),
        is_remote(r@),
        rfc3339_ok(now_ts@) ==> well_formed(r@),
{
    let ghost pv = parsed_view(parsed);
    let mut rec = match parsed {
        Ok(x) => repair(x, now_ts),
        Err(m) => parse_error_log(m, now_ts),
    };
    proof {
        reveal_strlit("unknown_grpc");
        if pv is Ok {
            lemma_dedupe_unique(pv->Ok_0.attributes);
        }
        if rfc3339_ok(now_ts@) {
            lemma_enrich_well_formed(rec@);
        }
    }
    rec.sanitize_and_enrich();
    let ghost e = rec@;
    let source = AttrValue::Str(String::from_str("grpc"));
    put_attr(&mut rec.attributes, String::from_str("source"), source);
    add_tag(&mut rec.smart_tags, "GRPC");
    add_tag(&mut rec.smart_tags, "REMOTE");
    proof {
        lemma_put_self(e.attributes, "source"@, AttrView::Str("grpc"@));
        if rfc3339_ok(now_ts@) {
            lemma_put_keeps_unique(e.attributes, "source"@, AttrView::Str("grpc"@));
        }
    }
    rec
}

/// The record to forward for an envelope received now.
pub fn ingest_remote(parsed: Result<LogRecord, String>) -> (r: LogRecord)
    ensures
        is_remote(r@),
        well_formed(r@),
        exists|now: Seq<char>| #[trigger] remote_record(parsed_view(parsed), now) == r@,
{
    let now = now_rfc3339();
    accept_remote(parsed, now.as_str())
}

} // verus!
