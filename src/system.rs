//! Records about the collector itself.

use vstd::prelude::*;
use crate::clock::now_rfc3339;
use crate::enrich::well_formed;
use crate::record::{
    canonical_level, canonical_severity, opt_view, AttrValue, AttrView,
    LogRecord, LogRecordView, ResourceContext, ResourceView,
};

verus! {

/// Relies on `hostname::get`: the machine's host name, when the OS reports one.
#[verifier::external_body]
fn host_name() -> (r: Option<String>) {
    hostname::get().ok().map(|h| h.to_string_lossy().to_string())
}

/// A record about the collector itself, at time `now` on host `host`.
pub open spec fn system_record(
    level: Seq<char>,
    event: Seq<char>,
    msg: Seq<char>,
    env: Seq<char>,
    now: Seq<char>,
    host: Option<Seq<char>>,
) -> LogRecordView {
    LogRecordView {
        schema_v: "1.0.0"@,
        ts: now,
        severity: canonical_severity(level, "INFO"@),
        tenant_id: "system"@,
        resource: ResourceView {
            service_name: "sentiric-observer"@,
            service_version: "4.0.0"@,
            service_env: env,
            host_name: host,
        },
        trace_id: None,
        span_id: None,
        event,
        message: msg,
        attributes: seq![("source"@, AttrView::Str("internal"@))],
        smart_tags: Seq::empty(),
        idx: 0,
        flattened: false,
    }
}

impl LogRecord {
    /// A record about the collector itself, stamped now; `service_env` is
    /// the deployment environment.
    pub fn system_log(level: &str, event: &str, msg: &str, service_env: &str) -> (r: LogRecord)
        ensures
            well_formed(r@),
            exists|now: Seq<char>, host: Option<Seq<char>>|
                #[trigger] system_record(level@, event@, msg@, service_env@, now, host) == r@,
    {
        let mut attributes: Vec<(String, AttrValue)> = Vec::new();
        attributes.push((String::from_str("source"), AttrValue::Str(String::from_str("internal"))));
        let host = host_name();
        let r = LogRecord {
            schema_v: String::from_str("1.0.0"),
            ts: now_rfc3339(),
            severity: canonical_level(level, "INFO"),
            tenant_id: String::from_str("system"),
            resource: ResourceContext {
                service_name: String::from_str("sentiric-observer"),
                service_version: String::from_str("4.0.0"),
                service_env: String::from_str(service_env),
                host_name: host,
            },
            trace_id: None,
            span_id: None,
            event: String::from_str(event),
            message: String::from_str(msg),
            attributes,
            smart_tags: Vec::new(),
            idx: 0,
            flattened: false,
        };
        proof {
            reveal_strlit("sentiric-observer");
            reveal_strlit("4.0.0");
        }
        assert(r@.attributes =~= seq![("source"@, AttrView::Str("internal"@))]);
        assert(r@.smart_tags =~= Seq::empty());
        assert(r@ == system_record(level@, event@, msg@, service_env@, r@.ts, opt_view(host)));
        r
    }
}

} // verus!
