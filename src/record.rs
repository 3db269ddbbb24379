//! The normalized event schema shared by every ingestion path.

use vstd::prelude::*;
use crate::text::{begins_ci, chars_of, same_text, starts_with_ci, texts_view};

verus! {

/// An attribute value: a JSON string is kept as its text, any other JSON
/// value as its JSON encoding.
#[derive(Debug, Clone, PartialEq, Eq)]
pub enum AttrValue {
    Str(String),
    Json(String),
}

/// Mathematical model of an [`AttrValue`].
pub enum AttrView {
    Str(Seq<char>),
    Json(Seq<char>),
}

impl View for AttrValue {
    type V = AttrView;

    open spec fn view(&self) -> AttrView {
        match self {
            AttrValue::Str(s) => AttrView::Str(s@),
            AttrValue::Json(s) => AttrView::Json(s@),
        }
    }
}

impl AttrValue {
    /// A copy with the same contents.
    pub fn duplicate(&self) -> (r: AttrValue)
        ensures
            r@ == self@,
    {
        match self {
            AttrValue::Str(s) => AttrValue::Str(s.clone()),
            AttrValue::Json(s) => AttrValue::Json(s.clone()),
        }
    }
}

/// Attributes as a sequence of key/value pairs.
pub type AttrsView = Seq<(Seq<char>, AttrView)>;

/// The model of a vector of attribute pairs.
pub open spec fn attrs_view(v: Seq<(String, AttrValue)>) -> AttrsView {
    v.map_values(|p: (String, AttrValue)| (p.0@, p.1@))
}

/// `k` is the key of some attribute.
pub open spec fn has_key(a: AttrsView, k: Seq<char>) -> bool {
    exists|i: int| 0 <= i < a.len() && #[trigger] a[i].0 == k
}

/// `i` is the first position holding key `k`.
pub open spec fn is_first_key(a: AttrsView, k: Seq<char>, i: int) -> bool {
    &&& 0 <= i < a.len()
    &&& a[i].0 == k
    &&& forall|j: int| 0 <= j < i ==> #[trigger] a[j].0 != k
}

/// Position of the first attribute with key `k` (meaningful when `has_key`).
pub open spec fn key_index(a: AttrsView, k: Seq<char>) -> int {
    choose|i: int| is_first_key(a, k, i)
}

/// The value of the first attribute with key `k`.
pub open spec fn lookup(a: AttrsView, k: Seq<char>) -> Option<AttrView> {
    if has_key(a, k) {
        Some(a[key_index(a, k)].1)
    } else {
        None
    }
}

/// Sets `k` to `v`: in place where `k` is present, else at the end.
pub open spec fn put(a: AttrsView, k: Seq<char>, v: AttrView) -> AttrsView {
    if has_key(a, k) {
        a.update(key_index(a, k), (k, v))
    } else {
        a.push((k, v))
    }
}

/// No two attributes share a key.
pub open spec fn keys_unique(a: AttrsView) -> bool {
    forall|i: int, j: int|
        0 <= i < a.len() && 0 <= j < a.len() && #[trigger] a[i].0 == #[trigger] a[j].0 ==> i == j
}

/// The value of `k` when it is a JSON string.
pub open spec fn str_attr(a: AttrsView, k: Seq<char>) -> Option<Seq<char>> {
    match lookup(a, k) {
        Some(AttrView::Str(s)) => Some(s),
        _ => None,
    }
}

pub proof fn lemma_first_key_unique(a: AttrsView, k: Seq<char>, i: int)
    requires
        is_first_key(a, k, i),
    ensures
        has_key(a, k),
        key_index(a, k) == i,
{
    assert(a[i].0 == k);
    let c = key_index(a, k);
    assert(is_first_key(a, k, c));
    if c < i {
        assert(a[c].0 != k);
    } else if c > i {
        assert(a[i].0 != k);
    }
}

/// Position of the first attribute whose key is `key`.
pub fn find_key(attrs: &Vec<(String, AttrValue)>, key: &str) -> (r: Option<usize>)
    ensures
        r is None <==> !has_key(attrs_view(attrs@), key@),
        r is Some ==> key_index(attrs_view(attrs@), key@) == r->0 && r->0 < attrs@.len(),
{
    let ghost a = attrs_view(attrs@);
    let mut i: usize = 0;
    while i < attrs.len()
        invariant
            a == attrs_view(attrs@),
            i <= attrs@.len(),
            forall|j: int| 0 <= j < i ==> #[trigger] a[j].0 != key@,
        decreases attrs.len() - i,
    {
        if same_text(attrs[i].0.as_str(), key) {
            proof {
                lemma_first_key_unique(a, key@, i as int);
            }
            return Some(i);
        }
        i += 1;
    }
    assert forall|j: int| 0 <= j < a.len() implies a[j].0 != key@ by {}
    None
}

/// Sets attribute `key` to `value`.
pub fn put_attr(attrs: &mut Vec<(String, AttrValue)>, key: String, value: AttrValue)
    ensures
        attrs_view(final(attrs)@) == put(attrs_view(old(attrs)@), key@, value@),
{
    let ghost a = attrs_view(attrs@);
    let ghost kv = (key@, value@);
    match find_key(attrs, key.as_str()) {
        Some(i) => {
            attrs.set(i, (key, value));
            assert(attrs_view(attrs@) =~= a.update(i as int, kv));
        },
        None => {
            attrs.push((key, value));
            assert(attrs_view(attrs@) =~= a.push(kv));
        },
    }
}

/// The text of attribute `key` when it is a JSON string.
pub fn get_str_attr(attrs: &Vec<(String, AttrValue)>, key: &str) -> (r: Option<String>)
    ensures
        match r {
            Some(s) => str_attr(attrs_view(attrs@), key@) == Some(s@),
            None => str_attr(attrs_view(attrs@), key@) is None,
        },
{
    match find_key(attrs, key) {
        Some(i) => match &attrs[i].1 {
            AttrValue::Str(s) => Some(s.clone()),
            AttrValue::Json(_) => None,
        },
        None => None,
    }
}

/// Identity of the service that produced a record.
#[derive(Debug, Clone)]
pub struct ResourceContext {
    pub service_name: String,
    pub service_version: String,
    pub service_env: String,
    pub host_name: Option<String>,
}

/// Model of a [`ResourceContext`].
pub struct ResourceView {
    pub service_name: Seq<char>,
    pub service_version: Seq<char>,
    pub service_env: Seq<char>,
    pub host_name: Option<Seq<char>>,
}

/// The model of an optional string.
pub open spec fn opt_view(o: Option<String>) -> Option<Seq<char>> {
    match o {
        Some(s) => Some(s@),
        None => None,
    }
}

impl View for ResourceContext {
    type V = ResourceView;

    open spec fn view(&self) -> ResourceView {
        ResourceView {
            service_name: self.service_name@,
            service_version: self.service_version@,
            service_env: self.service_env@,
            host_name: opt_view(self.host_name),
        }
    }
}

/// Identity of a log source in the OpenTelemetry data model.
#[derive(Debug, Clone)]
pub struct OtelResource {
    pub service_name: String,
    pub host_name: String,
    pub namespace: String,
}

/// The single normalized event.
#[derive(Debug, Clone)]
pub struct LogRecord {
    pub schema_v: String,
    /// RFC 3339 timestamp.
    pub ts: String,
    pub severity: String,
    pub tenant_id: String,
    pub resource: ResourceContext,
    pub trace_id: Option<String>,
    pub span_id: Option<String>,
    /// Short machine token such as `SIP_PACKET`.
    pub event: String,
    pub message: String,
    pub attributes: Vec<(String, AttrValue)>,
    pub smart_tags: Vec<String>,
    /// Ordering stamp given by the aggregator, in microseconds since the
    /// epoch (the dashboard shows it divided by 1000).
    pub idx: u64,
    /// The message was already taken out of an embedded JSON object; it is
    /// not unpacked again.
    pub flattened: bool,
}

/// Model of a [`LogRecord`].
pub struct LogRecordView {
    pub schema_v: Seq<char>,
    pub ts: Seq<char>,
    pub severity: Seq<char>,
    pub tenant_id: Seq<char>,
    pub resource: ResourceView,
    pub trace_id: Option<Seq<char>>,
    pub span_id: Option<Seq<char>>,
    pub event: Seq<char>,
    pub message: Seq<char>,
    pub attributes: AttrsView,
    pub smart_tags: Seq<Seq<char>>,
    pub idx: u64,
    pub flattened: bool,
}

impl View for LogRecord {
    type V = LogRecordView;

    open spec fn view(&self) -> LogRecordView {
        LogRecordView {
            schema_v: self.schema_v@,
            ts: self.ts@,
            severity: self.severity@,
            tenant_id: self.tenant_id@,
            resource: self.resource@,
            trace_id: opt_view(self.trace_id),
            span_id: opt_view(self.span_id),
            event: self.event@,
            message: self.message@,
            attributes: attrs_view(self.attributes@),
            smart_tags: texts_view(self.smart_tags@),
            idx: self.idx,
            flattened: self.flattened,
        }
    }
}

/// One of the five canonical severity levels.
pub open spec fn is_severity(s: Seq<char>) -> bool {
    s == "DEBUG"@ || s == "INFO"@ || s == "WARN"@ || s == "ERROR"@ || s == "FATAL"@
}

/// `s` equals `lower`, up to ASCII case.
pub open spec fn eq_ci(s: Seq<char>, lower: Seq<char>) -> bool {
    s.len() == lower.len() && starts_with_ci(s, lower)
}

/// The canonical level that `raw` names, up to ASCII case, else `dflt`.
pub open spec fn canonical_severity(raw: Seq<char>, dflt: Seq<char>) -> Seq<char> {
    if eq_ci(raw, "debug"@) {
        "DEBUG"@
    } else if eq_ci(raw, "info"@) {
        "INFO"@
    } else if eq_ci(raw, "warn"@) {
        "WARN"@
    } else if eq_ci(raw, "error"@) {
        "ERROR"@
    } else if eq_ci(raw, "fatal"@) {
        "FATAL"@
    } else {
        dflt
    }
}

/// Whether `s` is one of the five canonical levels.
pub fn validate_severity(s: &str) -> (r: bool)
    ensures
        r == is_severity(s@),
{
    same_text(s, "DEBUG") || same_text(s, "INFO") || same_text(s, "WARN") || same_text(s, "ERROR")
        || same_text(s, "FATAL")
}

fn equals_ci(v: &Vec<char>, lower: &str) -> (r: bool)
    ensures
        r == eq_ci(v@, lower@),
{
    let n = chars_of(lower);
    n.len() == v.len() && begins_ci(v, lower)
}

/// Maps a producer's level to a canonical one; an unknown level becomes `dflt`.
pub fn canonical_level(raw: &str, dflt: &str) -> (r: String)
    ensures
        r@ == canonical_severity(raw@, dflt@),
{
    let v = chars_of(raw);
    if equals_ci(&v, "debug") {
        String::from_str("DEBUG")
    } else if equals_ci(&v, "info") {
        String::from_str("INFO")
    } else if equals_ci(&v, "warn") {
        String::from_str("WARN")
    } else if equals_ci(&v, "error") {
        String::from_str("ERROR")
    } else if equals_ci(&v, "fatal") {
        String::from_str("FATAL")
    } else {
        String::from_str(dflt)
    }
}

/// The schema version stamped on records that do not carry one.
pub fn default_schema() -> (r: String)
    ensures
        r@ == "1.0.0"@,
{
    String::from_str("1.0.0")
}

/// Whether `tags` holds `t`.
pub fn has_tag(tags: &Vec<String>, t: &str) -> (r: bool)
    ensures
        r == texts_view(tags@).contains(t@),
{
    let ghost v = texts_view(tags@);
    let mut i: usize = 0;
    while i < tags.len()
        invariant
            v == texts_view(tags@),
            i <= tags@.len(),
            forall|j: int| 0 <= j < i ==> #[trigger] v[j] != t@,
        decreases tags.len() - i,
    {
        if same_text(tags[i].as_str(), t) {
            assert(v[i as int] == t@);
            return true;
        }
        i += 1;
    }
    false
}

/// `tags` with `t` appended unless already present.
pub open spec fn with_tag(tags: Seq<Seq<char>>, t: Seq<char>) -> Seq<Seq<char>> {
    if tags.contains(t) {
        tags
    } else {
        tags.push(t)
    }
}

/// Appends `t` to `tags`.
pub fn push_tag(tags: &mut Vec<String>, t: &str)
    ensures
        texts_view(final(tags)@) == texts_view(old(tags)@).push(t@),
{
    let ghost before = texts_view(tags@);
    tags.push(String::from_str(t));
    assert(texts_view(tags@) =~= before.push(t@));
}

/// Appends `t` to `tags` unless already present.
pub fn add_tag(tags: &mut Vec<String>, t: &str)
    ensures
        texts_view(final(tags)@) == with_tag(texts_view(old(tags)@), t@),
{
    if !has_tag(tags, t) {
        let ghost before = texts_view(tags@);
        tags.push(String::from_str(t));
        assert(texts_view(tags@) =~= before.push(t@));
    }
}

fn copy_opt(o: &Option<String>) -> (r: Option<String>)
    ensures
        opt_view(r) == opt_view(*o),
{
    match o {
        Some(s) => Some(s.clone()),
        None => None,
    }
}

fn copy_attrs(v: &Vec<(String, AttrValue)>) -> (r: Vec<(String, AttrValue)>)
    ensures
        attrs_view(r@) == attrs_view(v@),
{
    let mut out: Vec<(String, AttrValue)> = Vec::new();
    let mut i: usize = 0;
    while i < v.len()
        invariant
            i <= v@.len(),
            attrs_view(out@) == attrs_view(v@).take(i as int),
        decreases v.len() - i,
    {
        let k = v[i].0.clone();
        let a = v[i].1.duplicate();
        let ghost prev = out@;
        let ghost pair = (k, a);
        assert(pair.0@ == v@[i as int].0@ && pair.1@ == v@[i as int].1@);
        out.push((k, a));
        assert(out@ == prev.push(pair));
        assert(attrs_view(out@) =~= attrs_view(prev).push((pair.0@, pair.1@)));
        assert(attrs_view(out@) =~= attrs_view(v@).take(i + 1));
        i += 1;
    }
    assert(attrs_view(v@).take(v@.len() as int) =~= attrs_view(v@));
    out
}

fn copy_tags(v: &Vec<String>) -> (r: Vec<String>)
    ensures
        texts_view(r@) == texts_view(v@),
{
    let mut out: Vec<String> = Vec::new();
    let mut i: usize = 0;
    while i < v.len()
        invariant
            i <= v@.len(),
            texts_view(out@) == texts_view(v@).take(i as int),
        decreases v.len() - i,
    {
        let t = v[i].clone();
        let ghost prev = out@;
        let ghost tg = t;
        assert(tg@ == v@[i as int]@);
        out.push(t);
        assert(out@ == prev.push(tg));
        assert(texts_view(out@) =~= texts_view(prev).push(tg@));
        assert(texts_view(out@) =~= texts_view(v@).take(i + 1));
        i += 1;
    }
    assert(texts_view(v@).take(v@.len() as int) =~= texts_view(v@));
    out
}

impl LogRecord {
    /// A copy with the same contents.
    pub fn duplicate(&self) -> (r: LogRecord)
        ensures
            r@ == self@,
    {
        LogRecord {
            schema_v: self.schema_v.clone(),
            ts: self.ts.clone(),
            severity: self.severity.clone(),
            tenant_id: self.tenant_id.clone(),
            resource: ResourceContext {
                service_name: self.resource.service_name.clone(),
                service_version: self.resource.service_version.clone(),
                service_env: self.resource.service_env.clone(),
                host_name: copy_opt(&self.resource.host_name),
            },
            trace_id: copy_opt(&self.trace_id),
            span_id: copy_opt(&self.span_id),
            event: self.event.clone(),
            message: self.message.clone(),
            attributes: copy_attrs(&self.attributes),
            smart_tags: copy_tags(&self.smart_tags),
            idx: self.idx,
            flattened: self.flattened,
        }
    }
}

} // verus!
