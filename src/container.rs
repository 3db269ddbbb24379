//! Container log ingestion: line cleaning, line-to-record mapping and the
//! discovery decisions of the follower loop.

use vstd::prelude::*;
use crate::clock::{now_rfc3339, parses_as_rfc3339, rfc3339_ok};
use crate::enrich::{enrich, lemma_enrich_idempotent, lemma_enrich_well_formed, lemma_put_keeps_unique, well_formed};
use crate::json::{json_object_of, parse_object};
use crate::record::{
    attrs_view, canonical_level, canonical_severity, default_schema, get_str_attr, keys_unique,
    lookup, put, put_attr, str_attr, AttrValue, AttrView, AttrsView, LogRecord, LogRecordView,
    ResourceContext, ResourceView, find_key,
};
use crate::text::{
    chars_of, contains, has_text, same_text, drop_slashes, strip_slashes, texts_view, trim, trimmed,
};

verus! {

/// Length of the run of digits and `;` at the start of `s`.
pub open spec fn param_run(s: Seq<char>) -> nat
    decreases s.len(),
{
    if s.len() > 0 && (('0' <= s[0] && s[0] <= '9') || s[0] == ';') {
        1 + param_run(s.drop_first())
    } else {
        0
    }
}

/// Length of the colour/erase escape (`ESC [ params m|K`) at the start of
/// `s`, or 0 when `s` does not start with one.
pub open spec fn escape_len(s: Seq<char>) -> nat {
    if s.len() >= 2 && s[0] == '\u{1b}' && s[1] == '[' {
        let j = 2 + param_run(s.skip(2));
        if j < s.len() && (s[j as int] == 'm' || s[j as int] == 'K') {
            (j + 1) as nat
        } else {
            0
        }
    } else {
        0
    }
}

/// `s` with every colour/erase escape sequence removed, left to right.
pub open spec fn strip_escapes(s: Seq<char>) -> Seq<char>
    decreases s.len(),
{
    if s.len() == 0 {
        s
    } else if escape_len(s) > 0 {
        strip_escapes(s.skip(escape_len(s) as int))
    } else {
        seq![s[0]] + strip_escapes(s.drop_first())
    }
}

/// Relies on `regex::Regex::replace_all` with the pattern `\x1b\[[0-9;]*[mK]`
/// and an empty replacement: every non-overlapping match, leftmost first, is
/// removed.
#[verifier::external_body]
fn remove_escapes(text: &str) -> (r: String)
    ensures
        r@ == strip_escapes(text@),
{
    regex::Regex::new(r"\x1b\[[0-9;]*[mK]").unwrap().replace_all(text, "").into_owned()
}

/// Removes terminal colour codes and surrounding white space.
pub fn clean_ansi(text: &str) -> (r: String)
    ensures
        r@ == trimmed(strip_escapes(text@)),
{
    let s = remove_escapes(text);
    trim(s.as_str())
}

/// The service name a container's name gives: without leading `/`, and
/// `unknown` when nothing is left.
pub open spec fn service_of(container: Seq<char>) -> Seq<char> {
    if drop_slashes(container).len() == 0 {
        "unknown"@
    } else {
        drop_slashes(container)
    }
}

fn service_name_of(container: &str) -> (r: String)
    ensures
        r@ == service_of(container@),
{
    let s = strip_slashes(container);
    if s.as_str().is_empty() {
        String::from_str("unknown")
    } else {
        s
    }
}

pub open spec fn or_default(o: Option<Seq<char>>, d: Seq<char>) -> Seq<char> {
    match o {
        Some(s) => s,
        None => d,
    }
}

/// `o` when it holds a non-empty text, else `d`.
pub open spec fn non_empty_or(o: Option<Seq<char>>, d: Seq<char>) -> Seq<char> {
    match o {
        Some(s) => if s.len() > 0 {
            s
        } else {
            d
        },
        None => d,
    }
}

/// The first of two string fields that is present.
pub open spec fn first_str(a: AttrsView, k1: Seq<char>, k2: Seq<char>) -> Option<Seq<char>> {
    if str_attr(a, k1) is Some {
        str_attr(a, k1)
    } else {
        str_attr(a, k2)
    }
}

/// The timestamp field of a structured line: `ts`, `time` or `timestamp`.
pub open spec fn ts_field(a: AttrsView) -> Option<Seq<char>> {
    if str_attr(a, "ts"@) is Some {
        str_attr(a, "ts"@)
    } else {
        first_str(a, "time"@, "timestamp"@)
    }
}

/// Keys of a structured line that map to record fields.
pub open spec fn is_known_key(k: Seq<char>) -> bool {
    ||| k == "severity"@
    ||| k == "level"@
    ||| k == "message"@
    ||| k == "msg"@
    ||| k == "ts"@
    ||| k == "time"@
    ||| k == "timestamp"@
    ||| k == "trace_id"@
    ||| k == "event"@
    ||| k == "resource"@
}

/// The fields of a structured line that are not record fields.
pub open spec fn other_fields(es: AttrsView) -> AttrsView
    decreases es.len(),
{
    if es.len() == 0 {
        es
    } else if is_known_key(es.last().0) {
        other_fields(es.drop_last())
    } else {
        put(other_fields(es.drop_last()), es.last().0, es.last().1)
    }
}

/// Field `k` holds a JSON object: its fields.
pub open spec fn nested_object(a: AttrsView, k: Seq<char>) -> Option<AttrsView> {
    match lookup(a, k) {
        Some(AttrView::Json(t)) => if json_object_of(t) is Some && keys_unique(
            json_object_of(t)->0,
        ) {
            json_object_of(t)
        } else {
            None
        },
        _ => None,
    }
}

/// Attributes of a structured line: its `attributes` object, or else every
/// field that is not a record field.
pub open spec fn line_attributes(es: AttrsView) -> AttrsView {
    match nested_object(es, "attributes"@) {
        Some(x) => x,
        None => other_fields(es),
    }
}

/// Resource of a structured line: its `resource` object where there is one.
pub open spec fn line_resource(es: AttrsView, svc: Seq<char>, node: Seq<char>) -> ResourceView {
    match nested_object(es, "resource"@) {
        Some(r) => ResourceView {
            service_name: non_empty_or(str_attr(r, "service.name"@), svc),
            service_version: or_default(str_attr(r, "service.version"@), "unknown"@),
            service_env: or_default(str_attr(r, "service.env"@), "production"@),
            host_name: Some(node),
        },
        None => ResourceView {
            service_name: svc,
            service_version: "unknown"@,
            service_env: "production"@,
            host_name: Some(node),
        },
    }
}

/// Default severity of a line by the stream it came on.
pub open spec fn stream_default(stderr: bool) -> Seq<char> {
    if stderr {
        "ERROR"@
    } else {
        "INFO"@
    }
}

/// Record of a structured (JSON object) line, before enrichment.
pub open spec fn json_line_record(
    es: AttrsView,
    cleaned: Seq<char>,
    svc: Seq<char>,
    node: Seq<char>,
    stderr: bool,
    now: Seq<char>,
) -> LogRecordView {
    LogRecordView {
        schema_v: or_default(str_attr(es, "schema_v"@), "1.0.0"@),
        ts: match ts_field(es) {
            Some(t) => if rfc3339_ok(t) {
                t
            } else {
                now
            },
            None => now,
        },
        severity: match first_str(es, "severity"@, "level"@) {
            Some(s) => canonical_severity(s, stream_default(stderr)),
            None => stream_default(stderr),
        },
        tenant_id: "default"@,
        resource: line_resource(es, svc, node),
        trace_id: match str_attr(es, "trace_id"@) {
            Some(t) => if t.len() > 0 {
                Some(t)
            } else {
                None
            },
            None => None,
        },
        span_id: None,
        event: or_default(str_attr(es, "event"@), "LOG_EVENT"@),
        message: or_default(first_str(es, "message"@, "msg"@), cleaned),
        attributes: line_attributes(es),
        smart_tags: Seq::empty(),
        idx: 0,
        flattened: false,
    }
}

/// Record of a plain-text line, before enrichment.
pub open spec fn raw_line_record(
    cleaned: Seq<char>,
    svc: Seq<char>,
    node: Seq<char>,
    stderr: bool,
    now: Seq<char>,
) -> LogRecordView {
    LogRecordView {
        schema_v: "1.0.0"@,
        ts: now,
        severity: stream_default(stderr),
        tenant_id: "default"@,
        resource: ResourceView {
            service_name: svc,
            service_version: "unknown"@,
            service_env: "production"@,
            host_name: Some(node),
        },
        trace_id: None,
        span_id: None,
        event: "RAW_LOG_OUTPUT"@,
        message: cleaned,
        attributes: Seq::empty(),
        smart_tags: seq!["RAW"@],
        idx: 0,
        flattened: false,
    }
}

/// The cleaned text is a JSON object (with distinct keys).
pub open spec fn is_structured(cleaned: Seq<char>) -> bool {
    json_object_of(cleaned) is Some && keys_unique(json_object_of(cleaned)->0)
}

/// The record a container line gives, or `None` for a blank line.
pub open spec fn line_record(
    line: Seq<char>,
    container: Seq<char>,
    stream: Seq<char>,
    node: Seq<char>,
    now: Seq<char>,
) -> Option<LogRecordView> {
    let stderr = stream == "stderr"@;
    let cleaned = trimmed(strip_escapes(line));
    let svc = service_of(container);
    if cleaned.len() == 0 {
        None
    } else if is_structured(cleaned) {
        Some(enrich(json_line_record(json_object_of(cleaned)->0, cleaned, svc, node, stderr, now)))
    } else {
        Some(enrich(raw_line_record(cleaned, svc, node, stderr, now)))
    }
}

proof fn lemma_other_fields_unique(es: AttrsView)
    ensures
        keys_unique(other_fields(es)),
    decreases es.len(),
{
    if es.len() > 0 {
        lemma_other_fields_unique(es.drop_last());
        if !is_known_key(es.last().0) {
            lemma_put_keeps_unique(other_fields(es.drop_last()), es.last().0, es.last().1);
        }
    }
}

fn first_str_field(a: &Vec<(String, AttrValue)>, k1: &str, k2: &str) -> (r: Option<String>)
    ensures
        match r {
            Some(s) => first_str(attrs_view(a@), k1@, k2@) == Some(s@),
            None => first_str(attrs_view(a@), k1@, k2@) is None,
        },
{
    match get_str_attr(a, k1) {
        Some(s) => Some(s),
        None => get_str_attr(a, k2),
    }
}

fn text_or(o: Option<String>, d: &str) -> (r: String)
    ensures
        r@ == or_default(opt_seq(o), d@),
{
    match o {
        Some(s) => s,
        None => String::from_str(d),
    }
}

pub open spec fn opt_seq(o: Option<String>) -> Option<Seq<char>> {
    match o {
        Some(s) => Some(s@),
        None => None,
    }
}

fn is_known_field(k: &str) -> (r: bool)
    ensures
        r == is_known_key(k@),
{
    same_text(k, "severity") || same_text(k, "level") || same_text(
        k,
        "message",
    ) || same_text(k, "msg") || same_text(k, "ts") || same_text(k, "time") || same_text(
        k,
        "timestamp",
    ) || same_text(k, "trace_id") || same_text(k, "event") || same_text(k, "resource")
}

fn collect_other_fields(es: &Vec<(String, AttrValue)>) -> (r: Vec<(String, AttrValue)>)
    ensures
        attrs_view(r@) == other_fields(attrs_view(es@)),
{
    let ghost ev = attrs_view(es@);
    let mut out: Vec<(String, AttrValue)> = Vec::new();
    let mut i: usize = 0;
    assert(ev.take(0) =~= Seq::<(Seq<char>, AttrView)>::empty());
    while i < es.len()
        invariant
            i <= es@.len(),
            ev == attrs_view(es@),
            attrs_view(out@) == other_fields(ev.take(i as int)),
        decreases es.len() - i,
    {
        assert(ev.take(i + 1).drop_last() =~= ev.take(i as int));
        if !is_known_field(es[i].0.as_str()) {
            put_attr(&mut out, es[i].0.clone(), es[i].1.duplicate());
        }
        i += 1;
    }
    assert(ev.take(es@.len() as int) =~= ev);
    out
}

fn nested_fields(a: &Vec<(String, AttrValue)>, k: &str) -> (r: Option<Vec<(String, AttrValue)>>)
    ensures
        match r {
            Some(x) => nested_object(attrs_view(a@), k@) == Some(attrs_view(x@)),
            None => nested_object(attrs_view(a@), k@) is None,
        },
{
    match find_key(a, k) {
        Some(i) => match &a[i].1 {
            AttrValue::Json(t) => parse_object(t.as_str()),
            AttrValue::Str(_) => None,
        },
        None => None,
    }
}

fn line_resource_of(es: &Vec<(String, AttrValue)>, svc: &String, node: &str) -> (r:
    ResourceContext)
    ensures
        r@ == line_resource(attrs_view(es@), svc@, node@),
{
    match nested_fields(es, "resource") {
        Some(rf) => {
            let name = match get_str_attr(&rf, "service.name") {
                Some(n) => if n.as_str().is_empty() {
                    svc.clone()
                } else {
                    n
                },
                None => svc.clone(),
            };
            ResourceContext {
                service_name: name,
                service_version: text_or(get_str_attr(&rf, "service.version"), "unknown"),
                service_env: text_or(get_str_attr(&rf, "service.env"), "production"),
                host_name: Some(String::from_str(node)),
            }
        },
        None => ResourceContext {
            service_name: svc.clone(),
            service_version: String::from_str("unknown"),
            service_env: String::from_str("production"),
            host_name: Some(String::from_str(node)),
        },
    }
}

fn default_level(stderr: bool) -> (r: &'static str)
    ensures
        r@ == stream_default(stderr),
{
    if stderr {
        "ERROR"
    } else {
        "INFO"
    }
}

fn structured_record(
    es: &Vec<(String, AttrValue)>,
    cleaned: String,
    svc: &String,
    node: &str,
    stderr: bool,
    now_ts: &str,
) -> (r: LogRecord)
    ensures
        r@ == json_line_record(attrs_view(es@), cleaned@, svc@, node@, stderr, now_ts@),
{
    let ts_found = match get_str_attr(es, "ts") {
        Some(t) => Some(t),
        None => first_str_field(es, "time", "timestamp"),
    };
    let ts = match ts_found {
        Some(t) => if parses_as_rfc3339(t.as_str()) {
            t
        } else {
            String::from_str(now_ts)
        },
        None => String::from_str(now_ts),
    };
    let dflt = default_level(stderr);
    let severity = match first_str_field(es, "severity", "level") {
        Some(s) => canonical_level(s.as_str(), dflt),
        None => String::from_str(dflt),
    };
    let trace_id = match get_str_attr(es, "trace_id") {
        Some(t) => if t.as_str().is_empty() {
            None
        } else {
            Some(t)
        },
        None => None,
    };
    let message = match first_str_field(es, "message", "msg") {
        Some(m) => m,
        None => cleaned,
    };
    let attributes = match nested_fields(es, "attributes") {
        Some(x) => x,
        None => collect_other_fields(es),
    };
    let r = LogRecord {
        schema_v: text_or(get_str_attr(es, "schema_v"), "1.0.0"),
        ts,
        severity,
        tenant_id: String::from_str("default"),
        resource: line_resource_of(es, svc, node),
        trace_id,
        span_id: None,
        event: text_or(get_str_attr(es, "event"), "LOG_EVENT"),
        message,
        attributes,
        smart_tags: Vec::new(),
        idx: 0,
        flattened: false,
    };
    assert(attrs_view(Seq::<(String, AttrValue)>::empty()) =~= Seq::empty());
    assert(r@.smart_tags =~= Seq::empty());
    r
}

fn raw_record(cleaned: String, svc: &String, node: &str, stderr: bool, now_ts: &str) -> (r:
    LogRecord)
    ensures
        r@ == raw_line_record(cleaned@, svc@, node@, stderr, now_ts@),
{
    let mut tags: Vec<String> = Vec::new();
    tags.push(String::from_str("RAW"));
    let r = LogRecord {
        schema_v: default_schema(),
        ts: String::from_str(now_ts),
        severity: String::from_str(default_level(stderr)),
        tenant_id: String::from_str("default"),
        resource: ResourceContext {
            service_name: svc.clone(),
            service_version: String::from_str("unknown"),
            service_env: String::from_str("production"),
            host_name: Some(String::from_str(node)),
        },
        trace_id: None,
        span_id: None,
        event: String::from_str("RAW_LOG_OUTPUT"),
        message: cleaned,
        attributes: Vec::new(),
        smart_tags: tags,
        idx: 0,
        flattened: false,
    };
    assert(r@.attributes =~= Seq::empty());
    assert(r@.smart_tags =~= seq!["RAW"@]);
    r
}

/// Maps one line of container output to a record, with `now_ts` as the time
/// of ingest; `None` for a line that is blank once cleaned.
pub fn parse_container_line(
    line: &str,
    container_name: &str,
    stream_type: &str,
    node_name: &str,
    now_ts: &str,
) -> (r: Option<LogRecord>)
    ensures
        match r {
            Some(x) => line_record(
                line@,
                container_name@,
                stream_type@,
                node_name@,
                now_ts@,
            ) == Some(x@),
            None => line_record(
                line@,
                container_name@,
                stream_type@,
                node_name@,
                now_ts@,
            ) is None,
        },
        r is Some && rfc3339_ok(now_ts@) ==> well_formed(r->0@),
        r is Some ==> enrich(r->0@) == r->0@,
{
    let stderr = same_text(stream_type, "stderr");
    let cleaned = clean_ansi(line);
    if cleaned.as_str().is_empty() {
        return None;
    }
    let svc = service_name_of(container_name);
    let mut rec = match parse_object(cleaned.as_str()) {
        Some(es) => {
            proof {
                lemma_other_fields_unique(attrs_view(es@));
            }
            structured_record(&es, cleaned, &svc, node_name, stderr, now_ts)
        },
        None => raw_record(cleaned, &svc, node_name, stderr, now_ts),
    };
    proof {
        reveal_strlit("unknown");
        if rfc3339_ok(now_ts@) {
            lemma_enrich_well_formed(rec@);
        }
    }
    let ghost before = rec@;
    rec.sanitize_and_enrich();
    proof {
        lemma_enrich_idempotent(before);
    }
    Some(rec)
}

/// Maps one line of container output to a record stamped with the current
/// time where the line carries no valid timestamp.
pub fn process_line(line: &str, container_name: &str, stream_type: &str, node_name: &str) -> (r:
    Option<LogRecord>)
    ensures
        r is None <==> trimmed(strip_escapes(line@)).len() == 0,
        r is Some ==> well_formed(r->0@),
        r is Some ==> enrich(r->0@) == r->0@,
        r is Some ==> exists|now: Seq<char>|
            #[trigger] line_record(line@, container_name@, stream_type@, node_name@, now) == Some(
                r->0@,
            ),
{
    let now = now_rfc3339();
    parse_container_line(line, container_name, stream_type, node_name, now.as_str())
}

/// One container as the runtime lists it.
#[derive(Debug, Clone)]
pub struct ContainerEntry {
    pub id: Option<String>,
    pub names: Vec<String>,
}

/// An instruction to start following a container's output from `since`
/// (seconds since the epoch).
#[derive(Debug, Clone)]
pub struct FollowOrder {
    pub id: String,
    pub name: String,
    pub since: i64,
}

/// The name a listing gives a container: its first name without leading `/`.
pub open spec fn display_name(names: Seq<Seq<char>>) -> Seq<char> {
    if names.len() > 0 {
        drop_slashes(names[0])
    } else {
        "unknown"@
    }
}

/// The (id, name) pair of a listing entry; a missing id reads as empty.
pub open spec fn entry_view(e: ContainerEntry) -> (Seq<char>, Seq<char>) {
    (or_default(opt_seq(e.id), Seq::empty()), display_name(texts_view(e.names@)))
}

/// A listed container is to be followed: it has an id, is not followed yet,
/// and is not this collector itself.
pub open spec fn admits(monitored: Seq<Seq<char>>, id: Seq<char>, name: Seq<char>) -> bool {
    id.len() > 0 && !monitored.contains(id) && !contains(name, "observer"@)
}

/// The followed ids and the new (id, name) orders after scanning `es`.
pub open spec fn scan_entries(monitored: Seq<Seq<char>>, es: Seq<ContainerEntry>) -> (
    Seq<Seq<char>>,
    Seq<(Seq<char>, Seq<char>)>,
)
    decreases es.len(),
{
    if es.len() == 0 {
        (monitored, Seq::empty())
    } else {
        let prev = scan_entries(monitored, es.drop_last());
        let e = entry_view(es.last());
        if admits(prev.0, e.0, e.1) {
            (prev.0.push(e.0), prev.1.push(e))
        } else {
            prev
        }
    }
}

/// `s` without any copy of `x`.
pub open spec fn without(s: Seq<Seq<char>>, x: Seq<char>) -> Seq<Seq<char>>
    decreases s.len(),
{
    if s.len() == 0 {
        s
    } else if s.last() == x {
        without(s.drop_last(), x)
    } else {
        without(s.drop_last(), x).push(s.last())
    }
}

/// The ids currently followed and the time of the previous scan.
pub struct ContainerTracker {
    monitored: Vec<String>,
    last_scan_ts: i64,
}

fn display_name_of(names: &Vec<String>) -> (r: String)
    ensures
        r@ == display_name(texts_view(names@)),
{
    if names.len() > 0 {
        strip_slashes(names[0].as_str())
    } else {
        String::from_str("unknown")
    }
}

fn is_followed(monitored: &Vec<String>, id: &str) -> (r: bool)
    ensures
        r == texts_view(monitored@).contains(id@),
{
    let ghost v = texts_view(monitored@);
    let mut i: usize = 0;
    while i < monitored.len()
        invariant
            v == texts_view(monitored@),
            i <= monitored@.len(),
            forall|j: int| 0 <= j < i ==> #[trigger] v[j] != id@,
        decreases monitored.len() - i,
    {
        if same_text(monitored[i].as_str(), id) {
            assert(v[i as int] == id@);
            return true;
        }
        i += 1;
    }
    false
}

impl ContainerTracker {
    pub closed spec fn monitored_view(&self) -> Seq<Seq<char>> {
        texts_view(self.monitored@)
    }

    pub closed spec fn last_scan(&self) -> i64 {
        self.last_scan_ts
    }

    /// A tracker that follows nothing yet; the first scan reads from `now`.
    pub fn new(now: i64) -> (r: ContainerTracker)
        ensures
            r.monitored_view() == Seq::<Seq<char>>::empty(),
            r.last_scan() == now,
    {
        let r = ContainerTracker { monitored: Vec::new(), last_scan_ts: now };
        assert(r.monitored_view() =~= Seq::<Seq<char>>::empty());
        r
    }

    /// One discovery tick at time `now`: registers and returns every listed
    /// container to follow, each from the time of the previous tick.
    pub fn scan(&mut self, listing: &Vec<ContainerEntry>, now: i64) -> (r: Vec<FollowOrder>)
        ensures
            final(self).monitored_view() == scan_entries(old(self).monitored_view(), listing@).0,
            r@.len() == scan_entries(old(self).monitored_view(), listing@).1.len(),
            forall|i: int|
                0 <= i < r@.len() ==> (#[trigger] r@[i]).id@ == scan_entries(
                    old(self).monitored_view(),
                    listing@,
                ).1[i].0 && r@[i].name@ == scan_entries(old(self).monitored_view(), listing@).1[i].1
                    && r@[i].since == old(self).last_scan(),
            forall|i: int| 0 <= i < r@.len() ==> !contains((#[trigger] r@[i]).name@, "observer"@),
            final(self).last_scan() == now,
    {
        let ghost m0 = self.monitored_view();
        let since = self.last_scan_ts;
        let mut orders: Vec<FollowOrder> = Vec::new();
        let mut i: usize = 0;
        while i < listing.len()
            invariant
                i <= listing@.len(),
                since == old(self).last_scan(),
                m0 == old(self).monitored_view(),
                self.monitored_view() == scan_entries(m0, listing@.take(i as int)).0,
                orders@.len() == scan_entries(m0, listing@.take(i as int)).1.len(),
                forall|j: int|
                    0 <= j < orders@.len() ==> (#[trigger] orders@[j]).id@ == scan_entries(
                        m0,
                        listing@.take(i as int),
                    ).1[j].0 && orders@[j].name@ == scan_entries(m0, listing@.take(i as int)).1[j].1
                        && orders@[j].since == since,
                forall|j: int|
                    0 <= j < orders@.len() ==> !contains((#[trigger] orders@[j]).name@, "observer"@),
            decreases listing.len() - i,
        {
            assert(listing@.take(i + 1).drop_last() =~= listing@.take(i as int));
            let entry = &listing[i];
            let id = match &entry.id {
                Some(x) => x.clone(),
                None => String::new(),
            };
            let name = display_name_of(&entry.names);
            let name_chars = chars_of(name.as_str());
            if !id.as_str().is_empty() && !is_followed(&self.monitored, id.as_str()) && !has_text(
                &name_chars,
                "observer",
            ) {
                let ghost before = self.monitored_view();
                self.monitored.push(id.clone());
                assert(self.monitored_view() =~= before.push(id@));
                orders.push(FollowOrder { id, name, since });
            }
            i += 1;
        }
        assert(listing@.take(listing@.len() as int) =~= listing@);
        self.last_scan_ts = now;
        orders
    }

    /// The follower of `id` has stopped: the next scan may pick it up again.
    pub fn on_stream_closed(&mut self, id: &str)
        ensures
            final(self).monitored_view() == without(old(self).monitored_view(), id@),
            final(self).last_scan() == old(self).last_scan(),
    {
        let ghost m0 = self.monitored_view();
        let mut kept: Vec<String> = Vec::new();
        let mut i: usize = 0;
        while i < self.monitored.len()
            invariant
                i <= self.monitored@.len(),
                m0 == self.monitored_view(),
                texts_view(kept@) == without(m0.take(i as int), id@),
            decreases self.monitored.len() - i,
        {
            assert(m0.take(i + 1).drop_last() =~= m0.take(i as int));
            if !same_text(self.monitored[i].as_str(), id) {
                let ghost before = texts_view(kept@);
                kept.push(self.monitored[i].clone());
                assert(texts_view(kept@) =~= before.push(m0[i as int]));
            }
            i += 1;
        }
        assert(m0.take(m0.len() as int) =~= m0);
        self.monitored = kept;
    }
}

} // verus!
