//! Packet classification: link/IPv4/UDP header walking, SIP and RTP
//! heuristics, and the records they produce.

use vstd::prelude::*;
use vstd::utf8::{decode_utf8, valid_utf8};
use crate::clock::{now_rfc3339, rfc3339_ok};
use crate::enrich::{enrich, lemma_enrich_well_formed, well_formed};
use crate::record::{
    attrs_view, push_tag, AttrValue, AttrView, AttrsView, LogRecord, LogRecordView,
    ResourceContext, ResourceView,
};
use crate::text::{
    space,
    chars_of, ci_match_at, contains, trim, decimal, decimal_string, has_text, is_space, same_text, starts_with_ci,
    begins_ci, slice_chars, string_of, string_of_range, trim_chars, trimmed, trim_front,
};

verus! {

/// Link-layer framing of captured packets.
#[derive(Debug, Clone, Copy, PartialEq, Eq, Structural)]
pub enum LinkType {
    Ethernet,
    LinuxSll,
    Null,
    Loop,
    Other,
}

/// Start of the IPv4 header for `link`, or `None` for a truncated frame.
pub open spec fn link_offset(link: LinkType, data: Seq<u8>) -> Option<int> {
    match link {
        LinkType::Ethernet => if data.len() < 14 {
            None
        } else if data[12] == 0x81u8 && data[13] == 0x00u8 {
            Some(18)
        } else {
            Some(14)
        },
        LinkType::LinuxSll => Some(16),
        LinkType::Null => Some(4),
        LinkType::Loop => Some(4),
        LinkType::Other => Some(14),
    }
}

/// The UDP payload of an IPv4 packet whose header starts at `off`.
pub open spec fn ipv4_udp_payload(data: Seq<u8>, off: int) -> Option<Seq<u8>> {
    if data.len() <= off {
        None
    } else if data[off] >> 4u8 != 4u8 {
        None
    } else if data.len() <= off + 9 {
        None
    } else if data[off + 9] != 17u8 {
        None
    } else {
        let start = off + (data[off] & 0x0Fu8) * 4 + 8;
        if data.len() <= start {
            None
        } else {
            Some(data.subrange(start, data.len() as int))
        }
    }
}

/// The UDP payload of a captured frame.
pub open spec fn udp_payload(link: LinkType, data: Seq<u8>) -> Option<Seq<u8>> {
    match link_offset(link, data) {
        Some(off) => ipv4_udp_payload(data, off),
        None => None,
    }
}

/// Strips the link, IPv4 and UDP headers of a captured frame, keeping the
/// UDP payload; `None` for anything but IPv4/UDP.
pub fn parse_headers(data: &[u8], link: LinkType) -> (r: Option<Vec<u8>>)
    ensures
        match r {
            Some(p) => udp_payload(link, data@) == Some(p@),
            None => udp_payload(link, data@) is None,
        },
{
    let off: usize = match link {
        LinkType::Ethernet => {
            if data.len() < 14 {
                return None;
            }
            if data[12] == 0x81u8 && data[13] == 0x00u8 {
                18
            } else {
                14
            }
        },
        LinkType::LinuxSll => 16,
        LinkType::Null => 4,
        LinkType::Loop => 4,
        LinkType::Other => 14,
    };
    if data.len() <= off {
        return None;
    }
    let vihl = data[off];
    if vihl >> 4u8 != 4u8 {
        return None;
    }
    if data.len() <= off + 9 {
        return None;
    }
    if data[off + 9] != 17u8 {
        return None;
    }
    let start = off + ((vihl & 0x0Fu8) as usize) * 4 + 8;
    if data.len() <= start {
        return None;
    }
    let mut out: Vec<u8> = Vec::new();
    let mut i = start;
    while i < data.len()
        invariant
            start <= i <= data@.len(),
            out@ == data@.subrange(start as int, i as int),
        decreases data.len() - i,
    {
        out.push(data[i]);
        assert(out@ =~= data@.subrange(start as int, i + 1));
        i += 1;
    }
    Some(out)
}

/// Frames on Ethernet are read from offset 18 when VLAN-tagged (EtherType
/// 0x8100) and from offset 14 otherwise.
pub proof fn lemma_ethernet_offsets(data: Seq<u8>)
    requires
        data.len() >= 14,
    ensures
        data[12] == 0x81u8 && data[13] == 0x00u8 ==> udp_payload(LinkType::Ethernet, data)
            == ipv4_udp_payload(data, 18),
        !(data[12] == 0x81u8 && data[13] == 0x00u8) ==> udp_payload(LinkType::Ethernet, data)
            == ipv4_udp_payload(data, 14),
{
}

/// Relies on `std::str::from_utf8`: succeeds exactly on valid UTF-8, giving
/// the decoded text.
#[verifier::external_body]
fn utf8_text(b: &[u8]) -> (r: Option<String>)
    ensures
        r is Some <==> valid_utf8(b@),
        r is Some ==> r->0@ == decode_utf8(b@),
{
    std::str::from_utf8(b).ok().map(|s| s.to_string())
}

/// Length of the run of non-white-space characters at the start of `s`.
pub open spec fn word_len(s: Seq<char>) -> nat
    decreases s.len(),
{
    if s.len() > 0 && !is_space(s[0]) {
        1 + word_len(s.drop_first())
    } else {
        0
    }
}

/// The first white-space-delimited word of `s` (empty if none).
pub open spec fn first_word(s: Seq<char>) -> Seq<char> {
    trim_front(s).take(word_len(trim_front(s)) as int)
}

/// What follows the first word of `s`.
pub open spec fn after_first_word(s: Seq<char>) -> Seq<char> {
    trim_front(s).skip(word_len(trim_front(s)) as int)
}

/// The SIP method of a message: its first word, or `RESPONSE/<code>` for a
/// status line.
pub open spec fn sip_method(text: Seq<char>) -> Seq<char> {
    let w = first_word(text);
    if w == "SIP/2.0"@ {
        let code = first_word(after_first_word(text));
        "RESPONSE/"@ + if code.len() == 0 {
            "000"@
        } else {
            code
        }
    } else if w.len() == 0 {
        "UNKNOWN"@
    } else {
        w
    }
}

/// Length of the first line of `s`, without its `\n`.
pub open spec fn line_len(s: Seq<char>) -> nat
    decreases s.len(),
{
    if s.len() > 0 && s[0] != '\n' {
        1 + line_len(s.drop_first())
    } else {
        0
    }
}

/// A line without its trailing `\r`.
pub open spec fn strip_cr(l: Seq<char>) -> Seq<char> {
    if l.len() > 0 && l.last() == '\r' {
        l.drop_last()
    } else {
        l
    }
}

/// A `Call-ID` header line, in full or compact form, any case.
pub open spec fn is_call_id_line(l: Seq<char>) -> bool {
    starts_with_ci(l, "call-id"@) || starts_with_ci(l, "i:"@)
}

/// Position of the first `:` of `l`, or `l.len()`.
pub open spec fn colon_at(l: Seq<char>) -> nat
    decreases l.len(),
{
    if l.len() > 0 && l[0] != ':' {
        1 + colon_at(l.drop_first())
    } else {
        0
    }
}

/// The value of a header line: what follows its first `:`, trimmed.
pub open spec fn header_value(l: Seq<char>) -> Seq<char> {
    if colon_at(l) < l.len() {
        trimmed(l.skip(colon_at(l) as int + 1))
    } else {
        Seq::empty()
    }
}

/// The value of the first `Call-ID` line of `s`.
pub open spec fn call_id_header(s: Seq<char>) -> Option<Seq<char>>
    decreases s.len(),
{
    let e = line_len(s);
    if is_call_id_line(strip_cr(s.take(e as int))) {
        Some(header_value(strip_cr(s.take(e as int))))
    } else if e < s.len() {
        call_id_header(s.skip(e as int + 1))
    } else {
        None
    }
}

/// The Call-ID a SIP message carries, or `unknown`.
pub open spec fn call_id_or_unknown(s: Seq<char>) -> Seq<char> {
    match call_id_header(s) {
        Some(v) => if v.len() > 0 {
            v
        } else {
            "unknown"@
        },
        None => "unknown"@,
    }
}

/// Length of the run of non-space characters of `v` from `lo`.
fn scan_word(v: &Vec<char>, lo: usize) -> (hi: usize)
    requires
        lo <= v@.len(),
    ensures
        lo <= hi <= v@.len(),
        hi - lo == word_len(v@.skip(lo as int)),
{
    let mut i = lo;
    while i < v.len() && !space(v[i])
        invariant
            lo <= i <= v@.len(),
            word_len(v@.skip(lo as int)) == (i - lo) + word_len(v@.skip(i as int)),
        decreases v.len() - i,
    {
        assert(v@.skip(i as int).drop_first() =~= v@.skip(i + 1));
        i += 1;
    }
    i
}

/// Index of the first non-space character of `v` from `lo`.
fn scan_space(v: &Vec<char>, lo: usize) -> (hi: usize)
    requires
        lo <= v@.len(),
    ensures
        lo <= hi <= v@.len(),
        trim_front(v@.skip(lo as int)) == v@.skip(hi as int),
{
    let mut i = lo;
    while i < v.len() && space(v[i])
        invariant
            lo <= i <= v@.len(),
            trim_front(v@.skip(lo as int)) == trim_front(v@.skip(i as int)),
        decreases v.len() - i,
    {
        assert(v@.skip(i as int).drop_first() =~= v@.skip(i + 1));
        i += 1;
    }
    i
}

/// The SIP method of a message.
fn method_of(text: &Vec<char>) -> (r: String)
    ensures
        r@ == sip_method(text@),
{
    let a = scan_space(text, 0);
    assert(text@.skip(0) =~= text@);
    let b = scan_word(text, a);
    assert(first_word(text@) =~= text@.subrange(a as int, b as int));
    let w = string_of_range(text, a, b);
    if same_text(w.as_str(), "SIP/2.0") {
        assert(after_first_word(text@) =~= text@.skip(b as int));
        let c = scan_space(text, b);
        let d = scan_word(text, c);
        assert(text@.skip(b as int).skip(c - b) =~= text@.skip(c as int));
        assert(first_word(after_first_word(text@)) =~= text@.subrange(c as int, d as int));
        let mut m = String::from_str("RESPONSE/");
        if c == d {
            m.append("000");
        } else {
            let code = string_of_range(text, c, d);
            m.append(code.as_str());
        }
        m
    } else if a == b {
        String::from_str("UNKNOWN")
    } else {
        w
    }
}

/// Index of the first `stop` in `v` at or after `lo`, or `v.len()`.
fn scan_until(v: &Vec<char>, lo: usize, stop: char) -> (hi: usize)
    requires
        lo <= v@.len(),
    ensures
        lo <= hi <= v@.len(),
        stop == '\n' ==> hi - lo == line_len(v@.skip(lo as int)),
        stop == ':' ==> hi - lo == colon_at(v@.skip(lo as int)),
{
    let mut i = lo;
    while i < v.len() && v[i] != stop
        invariant
            lo <= i <= v@.len(),
            stop == '\n' ==> line_len(v@.skip(lo as int)) == (i - lo) + line_len(
                v@.skip(i as int),
            ),
            stop == ':' ==> colon_at(v@.skip(lo as int)) == (i - lo) + colon_at(
                v@.skip(i as int),
            ),
        decreases v.len() - i,
    {
        assert(v@.skip(i as int).drop_first() =~= v@.skip(i + 1));
        i += 1;
    }
    i
}

/// The value of the first `Call-ID` line of `v`.
fn call_id_value(v: &Vec<char>) -> (r: Option<Vec<char>>)
    ensures
        match r {
            Some(x) => call_id_header(v@) == Some(x@),
            None => call_id_header(v@) is None,
        },
{
    let mut p: usize = 0;
    assert(v@.skip(0) =~= v@);
    loop
        invariant
            p <= v@.len(),
            call_id_header(v@) == call_id_header(v@.skip(p as int)),
        decreases v@.len() - p,
    {
        let ghost rest = v@.skip(p as int);
        let e = scan_until(v, p, '\n');
        let q = if e > p && v[e - 1] == '\r' {
            e - 1
        } else {
            e
        };
        assert(rest.take(e - p) =~= v@.subrange(p as int, e as int));
        assert(strip_cr(rest.take(e - p)) =~= v@.subrange(p as int, q as int));
        let line = slice_chars(v, p, q);
        if begins_ci(&line, "call-id") || begins_ci(&line, "i:") {
            let k = scan_until(&line, 0, ':');
            assert(line@.skip(0) =~= line@);
            if k < line.len() {
                let tail = slice_chars(&line, k + 1, line.len());
                assert(tail@ =~= line@.skip(k + 1));
                return Some(trim_chars(&tail));
            } else {
                return Some(Vec::new());
            }
        }
        if e < v.len() {
            assert(rest.skip(e - p + 1) =~= v@.skip(e + 1));
            p = e + 1;
        } else {
            return None;
        }
    }
}

/// Length of the run of white space at the start of `s`.
pub open spec fn space_len(s: Seq<char>) -> nat
    decreases s.len(),
{
    if s.len() > 0 && is_space(s[0]) {
        1 + space_len(s.drop_first())
    } else {
        0
    }
}

/// What the pattern `(?i)Call-ID:\s*([^\s\r\n]+)` captures when matched at
/// `i`: after `Call-ID:` (any ASCII case) and any white space, the run of
/// non-white-space characters, which must not be empty.
pub open spec fn call_id_capture_at(s: Seq<char>, i: int) -> Option<Seq<char>> {
    if ci_match_at(s, "call-id:"@, i) {
        let rest = s.skip(i + 8);
        let v = rest.skip(space_len(rest) as int);
        if word_len(v) > 0 {
            Some(v.take(word_len(v) as int))
        } else {
            None
        }
    } else {
        None
    }
}

/// The capture of the leftmost match at or after position `i`.
pub open spec fn call_id_capture_from(s: Seq<char>, i: int) -> Option<Seq<char>>
    decreases s.len() - i,
{
    if i < 0 || i >= s.len() {
        None
    } else if call_id_capture_at(s, i) is Some {
        call_id_capture_at(s, i)
    } else {
        call_id_capture_from(s, i + 1)
    }
}

/// What the pattern `(?i)Call-ID:\s*([^\s\r\n]+)` captures in `s`, leftmost
/// match first.
pub open spec fn call_id_capture(s: Seq<char>) -> Option<Seq<char>> {
    call_id_capture_from(s, 0)
}

/// Relies on `regex::Regex::captures` with the pattern
/// `(?i)Call-ID:\s*([^\s\r\n]+)`: the first group of the leftmost match.
/// `\s` is Unicode white space; the letters of `Call-ID` fold to their
/// ASCII cases only.
#[verifier::external_body]
fn capture_call_id(text: &str) -> (r: Option<String>)
    ensures
        match r {
            Some(s) => call_id_capture(text@) == Some(s@),
            None => call_id_capture(text@) is None,
        },
{
    regex::Regex::new(r"(?i)Call-ID:\s*([^\s\r\n]+)").unwrap().captures(text).map(|c| c[1].to_string())
}

/// The Call-ID that a text carries: the word that follows the first
/// `Call-ID:` (any case) that is followed by one.
pub fn extract_call_id(text: &str) -> (r: Option<String>)
    ensures
        match r {
            Some(s) => call_id_capture(text@) == Some(s@),
            None => call_id_capture(text@) is None,
        },
{
    capture_call_id(text)
}

/// The first line of a captured SIP payload, or `SIP PACKET` when empty.
pub fn extract_sip_method(payload: &str) -> (r: String)
    ensures
        r@ == if payload@.len() == 0 {
            "SIP PACKET"@
        } else {
            strip_cr(payload@.take(line_len(payload@) as int))
        },
{
    let v = chars_of(payload);
    if v.len() == 0 {
        return String::from_str("SIP PACKET");
    }
    let e = scan_until(&v, 0, '\n');
    assert(v@.skip(0) =~= v@);
    let q = if e > 0 && v[e - 1] == '\r' {
        e - 1
    } else {
        e
    };
    assert(strip_cr(v@.take(e as int)) =~= v@.subrange(0, q as int));
    string_of_range(&v, 0, q)
}

/// A record of the packet sniffer, before enrichment.
pub open spec fn packet_record(
    event: Seq<char>,
    msg: Seq<char>,
    attrs: AttrsView,
    node: Seq<char>,
    now: Seq<char>,
) -> LogRecordView {
    LogRecordView {
        schema_v: "1.0.0"@,
        ts: now,
        severity: "INFO"@,
        tenant_id: "default"@,
        resource: ResourceView {
            service_name: "network-sniffer"@,
            service_version: "4.1.0"@,
            service_env: "production"@,
            host_name: Some(node),
        },
        trace_id: None,
        span_id: None,
        event,
        message: msg,
        attributes: attrs,
        smart_tags: Seq::empty(),
        idx: 0,
        flattened: false,
    }
}

/// The record of a SIP message of `len` bytes seen on `iface`.
pub open spec fn sip_record(
    text: Seq<char>,
    len: u32,
    iface: Seq<char>,
    node: Seq<char>,
    now: Seq<char>,
) -> LogRecordView {
    let method = sip_method(text);
    let cid = call_id_or_unknown(text);
    let base = packet_record(
        "SIP_PACKET"@,
        "SIP "@ + method + " captured"@,
        seq![
            ("net.packet_len"@, AttrView::Json(decimal(len as nat))),
            ("net.interface"@, AttrView::Str(iface)),
            ("sip.method"@, AttrView::Str(method)),
            ("sip.call_id"@, AttrView::Str(cid)),
        ],
        node,
        now,
    );
    enrich(LogRecordView { trace_id: Some(cid), smart_tags: seq!["SIP"@, "NET"@], ..base })
}

/// The record of an RTP packet of payload type `pt`.
pub open spec fn rtp_record(
    pt: u8,
    len: u32,
    iface: Seq<char>,
    node: Seq<char>,
    now: Seq<char>,
) -> LogRecordView {
    let dtmf = pt == 101;
    let base = packet_record(
        "RTP_PACKET"@,
        (if dtmf {
            "RTP EVENT (DTMF)"@
        } else {
            "RTP MEDIA"@
        }) + " (PT: "@ + decimal(pt as nat) + ")"@,
        seq![
            ("net.packet_len"@, AttrView::Json(decimal(len as nat))),
            ("rtp.payload_type"@, AttrView::Json(decimal(pt as nat))),
            ("net.interface"@, AttrView::Str(iface)),
        ],
        node,
        now,
    );
    enrich(
        LogRecordView {
            severity: if dtmf {
                "WARN"@
            } else {
                "INFO"@
            },
            smart_tags: if dtmf {
                seq!["DTMF"@, "NET"@]
            } else {
                seq!["RTP"@, "NET"@]
            },
            ..base
        },
    )
}

/// Payload types worth reporting: PCMU, PCMA, G.729, the dynamic range
/// (which holds 101, telephone events).
pub open spec fn is_interesting_pt(pt: u8) -> bool {
    pt == 0 || pt == 8 || pt == 18 || pt == 101 || (96 <= pt && pt <= 127)
}

/// The payload is UTF-8 text mentioning `SIP/2.0`.
pub open spec fn is_sip(payload: Seq<u8>) -> bool {
    valid_utf8(payload) && contains(decode_utf8(payload), "SIP/2.0"@)
}

/// The payload has an RTP version-2 header and an interesting payload type.
pub open spec fn is_rtp(payload: Seq<u8>) -> bool {
    payload.len() > 12 && payload[0] & 0xC0u8 == 0x80u8 && is_interesting_pt(payload[1] & 0x7Fu8)
}

/// The record a UDP payload gives, if it is SIP or RTP.
pub open spec fn classify(
    payload: Seq<u8>,
    len: u32,
    iface: Seq<char>,
    node: Seq<char>,
    now: Seq<char>,
) -> Option<LogRecordView> {
    if is_sip(payload) {
        Some(sip_record(decode_utf8(payload), len, iface, node, now))
    } else if is_rtp(payload) {
        Some(rtp_record(payload[1] & 0x7Fu8, len, iface, node, now))
    } else {
        None
    }
}

/// The capture filter in effect for a configured one: `any` and blank mean
/// none.
pub open spec fn effective_filter(f: Seq<char>) -> Seq<char> {
    if trimmed(f) == "any"@ || trimmed(f).len() == 0 {
        Seq::empty()
    } else {
        f
    }
}

/// A configured filter of `any` and a blank one are the same: no filter,
/// so all traffic is accepted.
pub proof fn lemma_any_filter_is_none()
    ensures
        effective_filter("any"@) == effective_filter(""@),
        effective_filter("any"@).len() == 0,
{
    reveal_strlit("any");
    reveal_strlit("");
    assert(trim_front("any"@) == "any"@);
    assert(crate::text::trim_back("any"@) == "any"@);
    assert(trim_front(""@) == ""@);
    assert(crate::text::trim_back(""@) == ""@);
}

/// Classifies the packets captured on one interface.
pub struct NetworkSniffer {
    pub interface: String,
    pub filter: String,
    pub node_name: String,
}

fn attr(k: &str, v: AttrValue) -> (r: (String, AttrValue))
    ensures
        r.0@ == k@,
        r.1 == v,
{
    (String::from_str(k), v)
}

impl NetworkSniffer {
    /// A sniffer for `interface`; the filter `any` or a blank one becomes
    /// empty, meaning no filter.
    pub fn new(interface: &str, filter: &str, node_name: String) -> (r: NetworkSniffer)
        ensures
            r.interface@ == interface@,
            r.filter@ == effective_filter(filter@),
            r.node_name@ == node_name@,
    {
        let t = trim(filter);
        let f = if same_text(t.as_str(), "any") || t.as_str().is_empty() {
            String::new()
        } else {
            String::from_str(filter)
        };
        NetworkSniffer { interface: String::from_str(interface), filter: f, node_name }
    }

    /// The filter to install on the capture, if any.
    pub fn capture_filter(&self) -> (r: Option<String>)
        ensures
            r is None <==> self.filter@.len() == 0,
            r is Some ==> r->0@ == self.filter@,
    {
        if self.filter.as_str().is_empty() {
            None
        } else {
            Some(self.filter.clone())
        }
    }

    fn build_log(
        &self,
        event: &str,
        msg: String,
        attributes: Vec<(String, AttrValue)>,
        now_ts: &str,
    ) -> (r: LogRecord)
        ensures
            r@ == packet_record(event@, msg@, attrs_view(attributes@), self.node_name@, now_ts@),
    {
        let r = LogRecord {
            schema_v: String::from_str("1.0.0"),
            ts: String::from_str(now_ts),
            severity: String::from_str("INFO"),
            tenant_id: String::from_str("default"),
            resource: ResourceContext {
                service_name: String::from_str("network-sniffer"),
                service_version: String::from_str("4.1.0"),
                service_env: String::from_str("production"),
                host_name: Some(self.node_name.clone()),
            },
            trace_id: None,
            span_id: None,
            event: String::from_str(event),
            message: msg,
            attributes,
            smart_tags: Vec::new(),
            idx: 0,
            flattened: false,
        };
        assert(r@.smart_tags =~= Seq::empty());
        r
    }

    /// The record of a SIP message of `len` bytes.
    pub fn create_sip_log(&self, text: &str, len: u32, now_ts: &str) -> (r: LogRecord)
        ensures
            r@ == sip_record(text@, len, self.interface@, self.node_name@, now_ts@),
            rfc3339_ok(now_ts@) ==> well_formed(r@),
    {
        let v = chars_of(text);
        let method = method_of(&v);
        let cid = match call_id_value(&v) {
            Some(x) => if x.len() == 0 {
                String::from_str("unknown")
            } else {
                string_of(&x)
            },
            None => String::from_str("unknown"),
        };
        let mut msg = String::from_str("SIP ");
        msg.append(method.as_str());
        msg.append(" captured");
        let mut attributes: Vec<(String, AttrValue)> = Vec::new();
        attributes.push(attr("net.packet_len", AttrValue::Json(decimal_string(len as u64))));
        attributes.push(attr("net.interface", AttrValue::Str(self.interface.clone())));
        attributes.push(attr("sip.method", AttrValue::Str(method.clone())));
        attributes.push(attr("sip.call_id", AttrValue::Str(cid.clone())));
        let ghost av = attrs_view(attributes@);
        assert(av =~= seq![
            ("net.packet_len"@, AttrView::Json(decimal(len as nat))),
            ("net.interface"@, AttrView::Str(self.interface@)),
            ("sip.method"@, AttrView::Str(method@)),
            ("sip.call_id"@, AttrView::Str(cid@)),
        ]);
        let mut log = self.build_log("SIP_PACKET", msg, attributes, now_ts);
        log.trace_id = Some(cid);
        push_tag(&mut log.smart_tags, "SIP");
        push_tag(&mut log.smart_tags, "NET");
        assert(log@.smart_tags =~= seq!["SIP"@, "NET"@]);
        proof {
            reveal_strlit("net.packet_len");
            reveal_strlit("net.interface");
            reveal_strlit("sip.method");
            reveal_strlit("sip.call_id");
            reveal_strlit("rtp.payload_type");
            reveal_strlit("network-sniffer");
            reveal_strlit("unknown");
            let a = log@.attributes;
            assert forall|i: int, j: int|
                0 <= i < a.len() && 0 <= j < a.len() && #[trigger] a[i].0 == #[trigger] a[j].0
                    implies i == j by {
                if i != j {
                    assert(a[i].0.len() != a[j].0.len());
                }
            }
            if rfc3339_ok(now_ts@) {
                lemma_enrich_well_formed(log@);
            }
        }
        log.sanitize_and_enrich();
        log
    }

    /// The record of an RTP packet of payload type `pt`.
    pub fn create_rtp_log(&self, pt: u8, len: u32, now_ts: &str) -> (r: LogRecord)
        ensures
            r@ == rtp_record(pt, len, self.interface@, self.node_name@, now_ts@),
            rfc3339_ok(now_ts@) ==> well_formed(r@),
    {
        let dtmf = pt == 101;
        let mut msg = if dtmf {
            String::from_str("RTP EVENT (DTMF)")
        } else {
            String::from_str("RTP MEDIA")
        };
        msg.append(" (PT: ");
        let code = decimal_string(pt as u64);
        msg.append(code.as_str());
        msg.append(")");
        let mut attributes: Vec<(String, AttrValue)> = Vec::new();
        attributes.push(attr("net.packet_len", AttrValue::Json(decimal_string(len as u64))));
        attributes.push(attr("rtp.payload_type", AttrValue::Json(decimal_string(pt as u64))));
        attributes.push(attr("net.interface", AttrValue::Str(self.interface.clone())));
        let ghost av = attrs_view(attributes@);
        assert(av =~= seq![
            ("net.packet_len"@, AttrView::Json(decimal(len as nat))),
            ("rtp.payload_type"@, AttrView::Json(decimal(pt as nat))),
            ("net.interface"@, AttrView::Str(self.interface@)),
        ]);
        let mut log = self.build_log("RTP_PACKET", msg, attributes, now_ts);
        if dtmf {
            push_tag(&mut log.smart_tags, "DTMF");
            log.severity = String::from_str("WARN");
        } else {
            push_tag(&mut log.smart_tags, "RTP");
        }
        push_tag(&mut log.smart_tags, "NET");
        assert(log@.smart_tags =~= if dtmf {
            seq!["DTMF"@, "NET"@]
        } else {
            seq!["RTP"@, "NET"@]
        });
        proof {
            reveal_strlit("net.packet_len");
            reveal_strlit("net.interface");
            reveal_strlit("sip.method");
            reveal_strlit("sip.call_id");
            reveal_strlit("rtp.payload_type");
            reveal_strlit("network-sniffer");
            let a = log@.attributes;
            assert forall|i: int, j: int|
                0 <= i < a.len() && 0 <= j < a.len() && #[trigger] a[i].0 == #[trigger] a[j].0
                    implies i == j by {
                if i != j {
                    assert(a[i].0.len() != a[j].0.len());
                }
            }
            if rfc3339_ok(now_ts@) {
                lemma_enrich_well_formed(log@);
            }
        }
        log.sanitize_and_enrich();
        log
    }

    /// Classifies a UDP payload, with `now_ts` as the time of capture.
    pub fn classify_payload(&self, payload: &[u8], packet_len: u32, now_ts: &str) -> (r: Option<
        LogRecord,
    >)
        ensures
            match r {
                Some(x) => classify(payload@, packet_len, self.interface@, self.node_name@, now_ts@)
                    == Some(x@),
                None => classify(payload@, packet_len, self.interface@, self.node_name@, now_ts@)
                    is None,
            },
            r is Some && rfc3339_ok(now_ts@) ==> well_formed(r->0@),
    {
        match utf8_text(payload) {
            Some(text) => {
                let v = chars_of(text.as_str());
                if has_text(&v, "SIP/2.0") {
                    return Some(self.create_sip_log(text.as_str(), packet_len, now_ts));
                }
            },
            None => {},
        }
        if payload.len() > 12 && payload[0] & 0xC0u8 == 0x80u8 {
            let pt = payload[1] & 0x7Fu8;
            if pt == 0 || pt == 8 || pt == 18 || pt == 101 || (96 <= pt && pt <= 127) {
                return Some(self.create_rtp_log(pt, packet_len, now_ts));
            }
        }
        None
    }

    /// Classifies a UDP payload captured now.
    pub fn process_payload(&self, payload: &[u8], packet_len: u32) -> (r: Option<LogRecord>)
        ensures
            (r is Some) == (is_sip(payload@) || is_rtp(payload@)),
            r is Some ==> well_formed(r->0@),
            r is Some ==> exists|now: Seq<char>|
                #[trigger] classify(payload@, packet_len, self.interface@, self.node_name@, now)
                    == Some(r->0@),
    {
        let now = now_rfc3339();
        self.classify_payload(payload, packet_len, now.as_str())
    }
}

/// Packets dropped because the ingress queue was full, since the last
/// successful send.
pub struct DropCounter {
    dropped: u64,
}

impl DropCounter {
    pub closed spec fn count(&self) -> u64 {
        self.dropped
    }

    pub fn new() -> (r: DropCounter)
        ensures
            r.count() == 0,
    {
        DropCounter { dropped: 0 }
    }

    /// A record was dropped on a full queue.
    pub fn on_full(&mut self)
        ensures
            final(self).count() == if old(self).count() < u64::MAX {
                (old(self).count() + 1) as u64
            } else {
                old(self).count()
            },
    {
        if self.dropped < u64::MAX {
            self.dropped = self.dropped + 1;
        }
    }

    /// A record went through: the number dropped before it, if any, to be
    /// reported once.
    pub fn on_sent(&mut self) -> (r: Option<u64>)
        ensures
            final(self).count() == 0,
            old(self).count() == 0 ==> r is None,
            old(self).count() > 0 ==> r == Some(old(self).count()),
    {
        if self.dropped == 0 {
            None
        } else {
            let n = self.dropped;
            self.dropped = 0;
            Some(n)
        }
    }
}

/// The record that reports recovery after `n` drops.
pub open spec fn recovery_record(n: u64, node: Seq<char>, now: Seq<char>) -> LogRecordView {
    enrich(
        LogRecordView {
            severity: "WARN"@,
            ..packet_record(
                "SNIFFER_RECOVERED"@,
                "Recovered ("@ + decimal(n as nat) + " dropped)"@,
                Seq::empty(),
                node,
                now,
            )
        },
    )
}

impl NetworkSniffer {
    /// The record that reports recovery after `n` packets were dropped.
    pub fn recovery_log(&self, n: u64, now_ts: &str) -> (r: LogRecord)
        ensures
            r@ == recovery_record(n, self.node_name@, now_ts@),
            rfc3339_ok(now_ts@) ==> well_formed(r@),
    {
        let mut msg = String::from_str("Recovered (");
        let d = decimal_string(n);
        msg.append(d.as_str());
        msg.append(" dropped)");
        let mut log = self.build_log("SNIFFER_RECOVERED", msg, Vec::new(), now_ts);
        log.severity = String::from_str("WARN");
        proof {
            reveal_strlit("network-sniffer");
            assert(log@.attributes =~= Seq::empty());
            if rfc3339_ok(now_ts@) {
                lemma_enrich_well_formed(log@);
            }
        }
        assert(attrs_view(Seq::<(String, AttrValue)>::empty()) =~= Seq::empty());
        log.sanitize_and_enrich();
        log
    }
}

} // verus!
