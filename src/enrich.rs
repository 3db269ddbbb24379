//! Sanitization and enrichment: the rules that turn what a producer emitted
//! into a uniform record.

use vstd::prelude::*;
use crate::clock::rfc3339_ok;
use crate::json::{json_object_of, parse_object};
use crate::record::{
    add_tag, attrs_view, canonical_level, canonical_severity, find_key, get_str_attr, has_key,
    is_severity, put, put_attr, str_attr, validate_severity, with_tag, AttrValue, AttrView,
    AttrsView, LogRecord, LogRecordView, key_index, keys_unique, is_first_key,
    lemma_first_key_unique,
};
use crate::text::{chars_of, contains_ci, has_ci, same_text, trim_chars, trimmed};

verus! {

/// Keys of an embedded object that carry the message text.
pub open spec fn is_msg_key(k: Seq<char>) -> bool {
    k == "msg"@ || k == "message"@
}

/// Keys of an embedded object that are ignored.
pub open spec fn is_level_key(k: Seq<char>) -> bool {
    k == "level"@ || k == "severity"@ || k == "ts"@
}

/// One field of an embedded object applied to a (message, attributes) pair.
pub open spec fn apply_field(acc: (Seq<char>, AttrsView), e: (Seq<char>, AttrView)) -> (
    Seq<char>,
    AttrsView,
) {
    if is_msg_key(e.0) {
        match e.1 {
            AttrView::Str(m) => (m, acc.1),
            AttrView::Json(_) => acc,
        }
    } else if is_level_key(e.0) {
        acc
    } else {
        (acc.0, put(acc.1, e.0, e.1))
    }
}

/// The fields of an embedded object applied in order.
pub open spec fn apply_fields(acc: (Seq<char>, AttrsView), es: AttrsView) -> (
    Seq<char>,
    AttrsView,
)
    decreases es.len(),
{
    if es.len() == 0 {
        acc
    } else {
        apply_field(apply_fields(acc, es.drop_last()), es.last())
    }
}

/// The message, once trimmed, opens with `{` and reads as a JSON object
/// (whose keys are distinct).
pub open spec fn embeds_object(m: Seq<char>) -> bool {
    &&& trimmed(m).len() > 0
    &&& trimmed(m)[0] == '{'
    &&& json_object_of(m) is Some
    &&& keys_unique(json_object_of(m)->0)
}

/// Embedded-JSON flattening, done at most once per record.
pub open spec fn flatten(r: LogRecordView) -> LogRecordView {
    if !r.flattened && embeds_object(r.message) {
        let out = apply_fields((r.message, r.attributes), json_object_of(r.message)->0);
        LogRecordView { message: out.0, attributes: out.1, flattened: true, ..r }
    } else {
        r
    }
}

/// Attribute `k` holds a non-empty string other than `null`.
pub open spec fn usable_id(a: AttrsView, k: Seq<char>) -> bool {
    match str_attr(a, k) {
        Some(v) => v.len() > 0 && v != "null"@,
        None => false,
    }
}

/// The first usable correlation handle among the call-id attributes.
pub open spec fn promoted_id(a: AttrsView) -> Option<Seq<char>> {
    if usable_id(a, "sip.call_id"@) {
        str_attr(a, "sip.call_id"@)
    } else if usable_id(a, "call_id"@) {
        str_attr(a, "call_id"@)
    } else if usable_id(a, "Call-ID"@) {
        str_attr(a, "Call-ID"@)
    } else if usable_id(a, "callid"@) {
        str_attr(a, "callid"@)
    } else {
        None
    }
}

/// Trace-id promotion.
pub open spec fn promote(r: LogRecordView) -> LogRecordView {
    if r.trace_id is None {
        LogRecordView { trace_id: promoted_id(r.attributes), ..r }
    } else {
        r
    }
}

/// Severity canonicalization; an unknown level becomes `INFO`.
pub open spec fn normalize(r: LogRecordView) -> LogRecordView {
    if is_severity(r.severity) {
        r
    } else {
        LogRecordView { severity: canonical_severity(r.severity, "INFO"@), ..r }
    }
}

pub open spec fn db_service(svc: Seq<char>) -> bool {
    contains_ci(svc, "postgres"@) || contains_ci(svc, "db"@) || contains_ci(svc, "mongo"@)
        || contains_ci(svc, "redis"@)
}

pub open spec fn sip_related(r: LogRecordView) -> bool {
    contains_ci(r.resource.service_name, "sbc"@) || contains_ci(r.resource.service_name, "kamailio"@)
        || has_key(r.attributes, "sip.method"@)
}

pub open spec fn rtp_related(r: LogRecordView) -> bool {
    contains_ci(r.resource.service_name, "media"@) || contains_ci(r.resource.service_name, "rtp"@)
        || has_key(r.attributes, "rtp.payload_type"@)
}

pub open spec fn net_related(msg: Seq<char>) -> bool {
    contains_ci(msg, "timeout"@) || contains_ci(msg, "refused"@) || contains_ci(msg, "reset"@)
}

/// A database checkpoint notice.
pub open spec fn is_checkpoint(r: LogRecordView) -> bool {
    db_service(r.resource.service_name) && contains_ci(r.message, "checkpoint"@)
}

/// Smart tagging.
pub open spec fn tag(r: LogRecordView) -> LogRecordView {
    let t1 = if db_service(r.resource.service_name) {
        with_tag(r.smart_tags, "DB"@)
    } else {
        r.smart_tags
    };
    let t2 = if sip_related(r) {
        with_tag(t1, "SIP"@)
    } else {
        t1
    };
    let t3 = if rtp_related(r) {
        with_tag(t2, "RTP"@)
    } else {
        t2
    };
    let t4 = if net_related(r.message) {
        with_tag(t3, "NET"@)
    } else {
        t3
    };
    LogRecordView {
        smart_tags: t4,
        severity: if is_checkpoint(r) {
            "INFO"@
        } else {
            r.severity
        },
        event: if is_checkpoint(r) {
            "DB_CHECKPOINT"@
        } else {
            r.event
        },
        ..r
    }
}

/// The whole of `sanitize_and_enrich`.
pub open spec fn enrich(r: LogRecordView) -> LogRecordView {
    tag(normalize(promote(flatten(r))))
}

fn is_msg_field(k: &str) -> (r: bool)
    ensures
        r == is_msg_key(k@),
{
    same_text(k, "msg") || same_text(k, "message")
}

fn is_level_field(k: &str) -> (r: bool)
    ensures
        r == is_level_key(k@),
{
    same_text(k, "level") || same_text(k, "severity") || same_text(k, "ts")
}

/// The usable value of call-id attribute `key`, if any.
fn usable_attr(attrs: &Vec<(String, AttrValue)>, key: &str) -> (r: Option<String>)
    ensures
        r is Some <==> usable_id(attrs_view(attrs@), key@),
        r is Some ==> str_attr(attrs_view(attrs@), key@) == Some(r->0@),
{
    match get_str_attr(attrs, key) {
        Some(s) => {
            if s.as_str().is_empty() || same_text(s.as_str(), "null") {
                None
            } else {
                Some(s)
            }
        },
        None => None,
    }
}

impl LogRecord {
    fn flatten_embedded(&mut self)
        ensures
            final(self)@ == flatten(old(self)@),
    {
        if self.flattened {
            return;
        }
        let v = chars_of(self.message.as_str());
        let t = trim_chars(&v);
        if t.len() == 0 || t[0] != '{' {
            return;
        }
        let parsed = parse_object(self.message.as_str());
        let es = match parsed {
            Some(es) => es,
            None => {
                return;
            },
        };
        let ghost r0 = self@;
        let ghost ev = attrs_view(es@);
        let mut i: usize = 0;
        while i < es.len()
            invariant
                i <= es@.len(),
                ev == attrs_view(es@),
                ev == json_object_of(r0.message)->0,
                (self@.message, self@.attributes) == apply_fields(
                    (r0.message, r0.attributes),
                    ev.take(i as int),
                ),
                self@ == (LogRecordView {
                    message: self@.message,
                    attributes: self@.attributes,
                    ..r0
                }),
            decreases es.len() - i,
        {
            assert(ev.take(i + 1).drop_last() =~= ev.take(i as int));
            let k = &es[i].0;
            let val = &es[i].1;
            if is_msg_field(k.as_str()) {
                match val {
                    AttrValue::Str(m) => {
                        self.message = m.clone();
                    },
                    AttrValue::Json(_) => {},
                }
            } else if is_level_field(k.as_str()) {
            } else {
                put_attr(&mut self.attributes, k.clone(), val.duplicate());
            }
            i += 1;
        }
        assert(ev.take(es@.len() as int) =~= ev);
        self.flattened = true;
    }

    fn promote_trace(&mut self)
        ensures
            final(self)@ == promote(old(self)@),
    {
        if self.trace_id.is_some() {
            return;
        }
        let found = match usable_attr(&self.attributes, "sip.call_id") {
            Some(s) => Some(s),
            None => match usable_attr(&self.attributes, "call_id") {
                Some(s) => Some(s),
                None => match usable_attr(&self.attributes, "Call-ID") {
                    Some(s) => Some(s),
                    None => usable_attr(&self.attributes, "callid"),
                },
            },
        };
        self.trace_id = found;
    }

    fn normalize_severity(&mut self)
        ensures
            final(self)@ == normalize(old(self)@),
    {
        if !validate_severity(self.severity.as_str()) {
            self.severity = canonical_level(self.severity.as_str(), "INFO");
        }
    }

    fn smart_tag(&mut self)
        ensures
            final(self)@ == tag(old(self)@),
    {
        let svc = chars_of(self.resource.service_name.as_str());
        let msg = chars_of(self.message.as_str());
        let db = has_ci(&svc, "postgres") || has_ci(&svc, "db") || has_ci(&svc, "mongo") || has_ci(
            &svc,
            "redis",
        );
        let sip = has_ci(&svc, "sbc") || has_ci(&svc, "kamailio") || find_key(
            &self.attributes,
            "sip.method",
        ).is_some();
        let rtp = has_ci(&svc, "media") || has_ci(&svc, "rtp") || find_key(
            &self.attributes,
            "rtp.payload_type",
        ).is_some();
        let net = has_ci(&msg, "timeout") || has_ci(&msg, "refused") || has_ci(&msg, "reset");
        let checkpoint = db && has_ci(&msg, "checkpoint");
        if db {
            add_tag(&mut self.smart_tags, "DB");
        }
        if sip {
            add_tag(&mut self.smart_tags, "SIP");
        }
        if rtp {
            add_tag(&mut self.smart_tags, "RTP");
        }
        if net {
            add_tag(&mut self.smart_tags, "NET");
        }
        if checkpoint {
            self.severity = String::from_str("INFO");
            self.event = String::from_str("DB_CHECKPOINT");
        }
    }

    /// Cleans and enriches the record in place: embedded-JSON flattening,
    /// trace-id promotion, severity canonicalization and smart tagging.
    pub fn sanitize_and_enrich(&mut self)
        ensures
            final(self)@ == enrich(old(self)@),
    {
        self.flatten_embedded();
        self.promote_trace();
        self.normalize_severity();
        self.smart_tag();
    }
}

pub proof fn lemma_put_self(a: AttrsView, k: Seq<char>, v: AttrView)
    ensures
        has_key(put(a, k, v), k),
        put(a, k, v)[key_index(put(a, k, v), k)] == (k, v),
        forall|k2: Seq<char>|
            k2 != k ==> (has_key(put(a, k, v), k2) == has_key(a, k2) && (has_key(a, k2) ==> (
            key_index(put(a, k, v), k2) == key_index(a, k2) && put(a, k, v)[key_index(
                put(a, k, v),
                k2,
            )] == a[key_index(a, k2)]))),
{
    let p = put(a, k, v);
    if has_key(a, k) {
        let i0 = choose|i: int| 0 <= i < a.len() && #[trigger] a[i].0 == k;
        lemma_exists_first(a, k, i0);
        let i = key_index(a, k);
        assert(is_first_key(p, k, i));
        lemma_first_key_unique(p, k, i);
    } else {
        assert(is_first_key(p, k, a.len() as int));
        lemma_first_key_unique(p, k, a.len() as int);
    }
    assert forall|k2: Seq<char>| k2 != k implies (has_key(p, k2) == has_key(a, k2) && (has_key(
        a,
        k2,
    ) ==> (key_index(p, k2) == key_index(a, k2) && p[key_index(p, k2)] == a[key_index(
        a,
        k2,
    )]))) by {
        if has_key(a, k2) {
            let j0 = choose|j: int| 0 <= j < a.len() && #[trigger] a[j].0 == k2;
            lemma_exists_first(a, k2, j0);
            let j = key_index(a, k2);
            assert(p[j].0 == k2);
            assert(is_first_key(p, k2, j));
            lemma_first_key_unique(p, k2, j);
        }
        if has_key(p, k2) {
            let j0 = choose|j: int| 0 <= j < p.len() && #[trigger] p[j].0 == k2;
            assert(a[j0].0 == k2);
        }
    }
}

pub proof fn lemma_exists_first(a: AttrsView, k: Seq<char>, i: int)
    requires
        0 <= i < a.len(),
        a[i].0 == k,
    ensures
        has_key(a, k),
        is_first_key(a, k, key_index(a, k)),
    decreases i,
{
    if exists|j: int| 0 <= j < i && #[trigger] a[j].0 == k {
        let j = choose|j: int| 0 <= j < i && #[trigger] a[j].0 == k;
        lemma_exists_first(a, k, j);
    } else {
        assert(is_first_key(a, k, i));
    }
}

proof fn lemma_with_tag(s: Seq<Seq<char>>, t: Seq<char>)
    ensures
        with_tag(s, t).contains(t),
        forall|x: Seq<char>| s.contains(x) ==> #[trigger] with_tag(s, t).contains(x),
{
    if !s.contains(t) {
        assert(s.push(t)[s.len() as int] == t);
        assert forall|x: Seq<char>| s.contains(x) implies #[trigger] with_tag(s, t).contains(x) by {
            let i = choose|i: int| 0 <= i < s.len() && s[i] == x;
            assert(s.push(t)[i] == x);
        }
    }
}

/// Enrichment is idempotent: a second pass changes nothing.
pub proof fn lemma_enrich_idempotent(r: LogRecordView)
    ensures
        enrich(enrich(r)) == enrich(r),
{
    let f = flatten(r);
    let p = promote(f);
    let n = normalize(p);
    let t = tag(n);
    assert(flatten(t) == t);
    assert(promote(t) == t);
    assert(is_severity(n.severity));
    assert(normalize(t) == t);
    let svc = n.resource.service_name;
    let t1 = if db_service(svc) {
        with_tag(n.smart_tags, "DB"@)
    } else {
        n.smart_tags
    };
    let t2 = if sip_related(n) {
        with_tag(t1, "SIP"@)
    } else {
        t1
    };
    let t3 = if rtp_related(n) {
        with_tag(t2, "RTP"@)
    } else {
        t2
    };
    lemma_with_tag(n.smart_tags, "DB"@);
    lemma_with_tag(t1, "SIP"@);
    lemma_with_tag(t2, "RTP"@);
    lemma_with_tag(t3, "NET"@);
    assert(tag(t) == t);
}

/// The invariants of an emitted record: a canonical severity, an RFC 3339
/// timestamp, a named service, a non-empty trace id when there is one, and
/// distinct attribute keys.
pub open spec fn well_formed(r: LogRecordView) -> bool {
    &&& is_severity(r.severity)
    &&& rfc3339_ok(r.ts)
    &&& r.resource.service_name.len() > 0
    &&& (r.trace_id matches Some(t) ==> t.len() > 0)
    &&& keys_unique(r.attributes)
}

pub proof fn lemma_put_keeps_unique(a: AttrsView, k: Seq<char>, v: AttrView)
    requires
        keys_unique(a),
    ensures
        keys_unique(put(a, k, v)),
{
    if has_key(a, k) {
        let i0 = choose|i: int| 0 <= i < a.len() && #[trigger] a[i].0 == k;
        lemma_exists_first(a, k, i0);
        let p = put(a, k, v);
        assert forall|i: int, j: int|
            0 <= i < p.len() && 0 <= j < p.len() && #[trigger] p[i].0 == #[trigger] p[j].0 implies i
            == j by {
            assert(p[i].0 == a[i].0);
            assert(p[j].0 == a[j].0);
        }
    } else {
        let p = put(a, k, v);
        assert forall|i: int, j: int|
            0 <= i < p.len() && 0 <= j < p.len() && #[trigger] p[i].0 == #[trigger] p[j].0 implies i
            == j by {
            if i < a.len() && j < a.len() {
                assert(p[i].0 == a[i].0);
                assert(p[j].0 == a[j].0);
            } else if i < a.len() {
                assert(a[i].0 == k);
            } else if j < a.len() {
                assert(a[j].0 == k);
            }
        }
    }
}

proof fn lemma_fields_keep_unique(acc: (Seq<char>, AttrsView), es: AttrsView)
    requires
        keys_unique(acc.1),
    ensures
        keys_unique(apply_fields(acc, es).1),
    decreases es.len(),
{
    if es.len() > 0 {
        lemma_fields_keep_unique(acc, es.drop_last());
        let mid = apply_fields(acc, es.drop_last());
        lemma_put_keeps_unique(mid.1, es.last().0, es.last().1);
    }
}

/// Enrichment yields a well-formed record from any record with a valid
/// timestamp, a named service, no empty trace id and distinct attribute keys.
pub proof fn lemma_enrich_well_formed(r: LogRecordView)
    requires
        rfc3339_ok(r.ts),
        r.resource.service_name.len() > 0,
        r.trace_id matches Some(t) ==> t.len() > 0,
        keys_unique(r.attributes),
    ensures
        well_formed(enrich(r)),
{
    if embeds_object(r.message) {
        lemma_fields_keep_unique((r.message, r.attributes), json_object_of(r.message)->0);
    }
}

} // verus!
