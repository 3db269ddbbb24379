use sentiric_observer::aggregator::{Aggregator, SessionStatus};
use sentiric_observer::container::{parse_container_line, process_line, clean_ansi, ContainerEntry, ContainerTracker};
use sentiric_observer::control::{disable_sniffer, enable_sniffer, SnifferReply};
use sentiric_observer::exporter::{should_export, ExportManager};
use sentiric_observer::record::{
    canonical_level, default_schema, validate_severity, AttrValue, LogRecord, ResourceContext,
};
use sentiric_observer::remote::accept_remote;
use sentiric_observer::sniffer::{
    extract_call_id, extract_sip_method, parse_headers, DropCounter, LinkType, NetworkSniffer,
};
use sentiric_observer::text::decimal_string;

const NOW: &str = "2024-05-01T12:00:00+00:00";

fn attr<'a>(r: &'a LogRecord, k: &str) -> Option<&'a AttrValue> {
    r.attributes.iter().find(|(key, _)| key == k).map(|(_, v)| v)
}

fn has_tag(r: &LogRecord, t: &str) -> bool {
    r.smart_tags.iter().any(|x| x == t)
}

fn record(trace: Option<&str>, severity: &str, message: &str) -> LogRecord {
    LogRecord {
        schema_v: "1.0.0".to_string(),
        ts: NOW.to_string(),
        severity: severity.to_string(),
        tenant_id: "default".to_string(),
        resource: ResourceContext {
            service_name: "api".to_string(),
            service_version: "1".to_string(),
            service_env: "production".to_string(),
            host_name: None,
        },
        trace_id: trace.map(|t| t.to_string()),
        span_id: None,
        event: "LOG_EVENT".to_string(),
        message: message.to_string(),
        attributes: Vec::new(),
        smart_tags: Vec::new(),
        idx: 0,
        flattened: false,
    }
}

fn is_rfc3339(s: &str) -> bool {
    chrono::DateTime::parse_from_rfc3339(s).is_ok()
}

fn ipv4_udp(payload: &[u8]) -> Vec<u8> {
    let mut v = vec![0x45u8, 0, 0, 0, 0, 0, 0, 0, 64, 17, 0, 0, 10, 0, 0, 1, 10, 0, 0, 2];
    v.extend_from_slice(&[0x13, 0xc4, 0x13, 0xc4, 0, 0, 0, 0]);
    v.extend_from_slice(payload);
    v
}

fn ethernet(vlan: bool, payload: &[u8]) -> Vec<u8> {
    let mut v = vec![0u8; 12];
    if vlan {
        v.extend_from_slice(&[0x81, 0x00, 0x00, 0x05]);
    }
    v.extend_from_slice(&[0x08, 0x00]);
    v.extend_from_slice(&ipv4_udp(payload));
    v
}

const INVITE: &str = "INVITE sip:b@x SIP/2.0\r\nVia: SIP/2.0/UDP 10.0.0.1\r\nCall-ID: abc@host\r\nCSeq: 1 INVITE\r\n\r\n";

#[test]
fn plain_text_stderr_line() {
    let r = parse_container_line("panic: nil deref", "/sbc-service", "stderr", "node-1", NOW).unwrap();
    assert_eq!(r.event, "RAW_LOG_OUTPUT");
    assert_eq!(r.severity, "ERROR");
    assert_eq!(r.resource.service_name, "sbc-service");
    assert!(has_tag(&r, "RAW"));
    assert!(has_tag(&r, "SIP"));
    assert_eq!(r.message, "panic: nil deref");
    assert_eq!(r.resource.host_name.as_deref(), Some("node-1"));
}

#[test]
fn plain_text_stdout_line_is_info() {
    let r = parse_container_line("hello", "web", "stdout", "n", NOW).unwrap();
    assert_eq!(r.severity, "INFO");
    assert_eq!(r.smart_tags, vec!["RAW".to_string()]);
}

#[test]
fn structured_json_line() {
    let line = r#"{"level":"info","msg":"db checkpoint complete","service":"postgres"}"#;
    let r = parse_container_line(line, "/postgres", "stdout", "node-1", NOW).unwrap();
    assert_eq!(r.severity, "INFO");
    assert_eq!(r.event, "DB_CHECKPOINT");
    assert_eq!(r.message, "db checkpoint complete");
    assert!(has_tag(&r, "DB"));
    assert_eq!(attr(&r, "service"), Some(&AttrValue::Str("postgres".to_string())));
    let v = parse_container_line(r#"{"schema_v":"2.0.0","msg":"x"}"#, "c", "stdout", "n", NOW).unwrap();
    assert_eq!(v.schema_v, "2.0.0");
    assert_eq!(attr(&v, "schema_v"), Some(&AttrValue::Str("2.0.0".to_string())));
    assert!(attr(&r, "level").is_none());
}

#[test]
fn structured_line_reads_resource_and_attributes() {
    let line = r#"{"severity":"warn","message":"m","ts":"2023-01-02T03:04:05Z","trace_id":"t9","event":"E","resource":{"service.name":"media-svc","service.version":"2.1"},"attributes":{"k":1}}"#;
    let r = parse_container_line(line, "c", "stdout", "n", NOW).unwrap();
    assert_eq!(r.severity, "WARN");
    assert_eq!(r.ts, "2023-01-02T03:04:05Z");
    assert_eq!(r.trace_id.as_deref(), Some("t9"));
    assert_eq!(r.event, "E");
    assert_eq!(r.resource.service_name, "media-svc");
    assert_eq!(r.resource.service_version, "2.1");
    assert_eq!(r.resource.service_env, "production");
    assert_eq!(r.attributes, vec![("k".to_string(), AttrValue::Json("1".to_string()))]);
    assert!(has_tag(&r, "RTP"));
}

#[test]
fn invalid_payload_timestamp_is_replaced() {
    let r = parse_container_line(r#"{"msg":"x","ts":"yesterday"}"#, "c", "stdout", "n", NOW).unwrap();
    assert_eq!(r.ts, NOW);
}

#[test]
fn unknown_level_takes_stream_default() {
    let r = parse_container_line(r#"{"level":"trace","msg":"x"}"#, "c", "stderr", "n", NOW).unwrap();
    assert_eq!(r.severity, "ERROR");
    let w = parse_container_line(r#"{"level":"WARNING","msg":"x"}"#, "c", "stdout", "n", NOW).unwrap();
    assert_eq!(w.severity, "INFO");
}

#[test]
fn blank_line_gives_no_record() {
    assert!(parse_container_line("  \x1b[31m\x1b[0m ", "c", "stdout", "n", NOW).is_none());
}

#[test]
fn clean_ansi_strips_colours() {
    assert_eq!(clean_ansi("  \x1b[1;31mred\x1b[0m text\x1b[K "), "red text");
    assert_eq!(clean_ansi("\x1b[2Jkeep"), "\x1b[2Jkeep");
}

#[test]
fn process_line_stamps_current_time() {
    let r = process_line("plain", "c", "stdout", "n").unwrap();
    assert!(is_rfc3339(&r.ts));
}

#[test]
fn sip_invite_packet() {
    let s = NetworkSniffer::new("eth0", "port 5060", "node-1".to_string());
    let frame = ethernet(false, INVITE.as_bytes());
    let payload = parse_headers(&frame, LinkType::Ethernet).unwrap();
    assert_eq!(payload, INVITE.as_bytes());
    let r = s.classify_payload(&payload, frame.len() as u32, NOW).unwrap();
    assert_eq!(r.event, "SIP_PACKET");
    assert_eq!(attr(&r, "sip.method"), Some(&AttrValue::Str("INVITE".to_string())));
    assert_eq!(attr(&r, "sip.call_id"), Some(&AttrValue::Str("abc@host".to_string())));
    assert_eq!(attr(&r, "net.interface"), Some(&AttrValue::Str("eth0".to_string())));
    assert_eq!(r.trace_id.as_deref(), Some("abc@host"));
    assert!(has_tag(&r, "SIP") && has_tag(&r, "NET"));
    assert_eq!(r.message, "SIP INVITE captured");
}

#[test]
fn sip_response_method() {
    let s = NetworkSniffer::new("lo", "", "n".to_string());
    let r = s.create_sip_log("SIP/2.0 200 OK\r\ni: short@id\r\n", 10, NOW);
    assert_eq!(attr(&r, "sip.method"), Some(&AttrValue::Str("RESPONSE/200".to_string())));
    assert_eq!(r.trace_id.as_deref(), Some("short@id"));
}

#[test]
fn sip_without_call_id_is_unknown() {
    let s = NetworkSniffer::new("lo", "", "n".to_string());
    let r = s.create_sip_log("OPTIONS sip:a SIP/2.0\r\n", 10, NOW);
    assert_eq!(attr(&r, "sip.call_id"), Some(&AttrValue::Str("unknown".to_string())));
}

#[test]
fn dtmf_rtp_packet() {
    let s = NetworkSniffer::new("eth0", "", "n".to_string());
    let mut p = vec![0x80u8, 0x65];
    p.extend_from_slice(&[0u8; 14]);
    let r = s.classify_payload(&p, 58, NOW).unwrap();
    assert_eq!(r.event, "RTP_PACKET");
    assert_eq!(r.severity, "WARN");
    assert_eq!(attr(&r, "rtp.payload_type"), Some(&AttrValue::Json("101".to_string())));
    assert!(has_tag(&r, "DTMF") && has_tag(&r, "NET"));
    assert_eq!(r.message, "RTP EVENT (DTMF) (PT: 101)");
}

#[test]
fn plain_rtp_and_uninteresting_payloads() {
    let s = NetworkSniffer::new("eth0", "", "n".to_string());
    let mut p = vec![0x80u8, 0x00];
    p.extend_from_slice(&[0u8; 14]);
    let r = s.classify_payload(&p, 58, NOW).unwrap();
    assert_eq!(r.severity, "INFO");
    assert!(has_tag(&r, "RTP"));
    assert_eq!(r.message, "RTP MEDIA (PT: 0)");
    let mut q = vec![0x80u8, 0x20];
    q.extend_from_slice(&[0u8; 14]);
    assert!(s.classify_payload(&q, 58, NOW).is_none());
    assert!(s.classify_payload(&[0x80u8, 0x00, 1, 2], 4, NOW).is_none());
    assert!(s.process_payload(&[0xffu8, 0xfe], 2).is_none());
}

#[test]
fn vlan_and_plain_ethernet_offsets() {
    let plain = ethernet(false, b"xyz");
    let tagged = ethernet(true, b"xyz");
    assert_eq!(parse_headers(&plain, LinkType::Ethernet), Some(b"xyz".to_vec()));
    assert_eq!(parse_headers(&tagged, LinkType::Ethernet), Some(b"xyz".to_vec()));
    assert_eq!(parse_headers(&plain[..10], LinkType::Ethernet), None);
    let mut sll = vec![0u8; 16];
    sll.extend_from_slice(&ipv4_udp(b"q"));
    assert_eq!(parse_headers(&sll, LinkType::LinuxSll), Some(b"q".to_vec()));
    let mut tcp = ethernet(false, b"xyz");
    tcp[14 + 9] = 6;
    assert_eq!(parse_headers(&tcp, LinkType::Ethernet), None);
}

#[test]
fn any_filter_equals_empty_filter() {
    let a = NetworkSniffer::new("any", "any", "n".to_string());
    let b = NetworkSniffer::new("any", "", "n".to_string());
    let c = NetworkSniffer::new("any", "  any ", "n".to_string());
    assert_eq!(a.filter, "");
    assert_eq!(b.filter, "");
    assert_eq!(c.filter, "");
    assert!(a.capture_filter().is_none());
    let d = NetworkSniffer::new("any", "port 5060", "n".to_string());
    assert_eq!(d.capture_filter().as_deref(), Some("port 5060"));
}

#[test]
fn session_correlation() {
    let mut agg = Aggregator::new(10, 300);
    agg.process_at(record(Some("c1"), "INFO", "ringing"), 1000, 1_000_000);
    agg.process_at(record(Some("c1"), "ERROR", "media timeout"), 1001, 1_000_500);
    let s = agg.session("c1").unwrap();
    assert_eq!(s.logs_count, 2);
    assert_eq!(s.status, SessionStatus::Failed);
    assert_eq!(s.anomalies, vec!["[ERROR] media timeout".to_string()]);
}

#[test]
fn failed_session_stays_failed() {
    let mut agg = Aggregator::new(10, 300);
    agg.process_at(record(Some("c2"), "FATAL", "x"), 1, 1);
    let mut bye = record(Some("c2"), "INFO", "bye");
    bye.event = "BYE".to_string();
    agg.process_at(bye, 2, 2);
    assert_eq!(agg.session("c2").unwrap().status, SessionStatus::Failed);
    let mut end = record(Some("c3"), "INFO", "end");
    end.event = "CALL_TERMINATED".to_string();
    agg.process_at(end, 3, 3);
    assert_eq!(agg.session("c3").unwrap().status, SessionStatus::Completed);
}

#[test]
fn session_stamps_strictly_increase() {
    let mut agg = Aggregator::new(10, 300);
    let a = agg.process_at(record(Some("s"), "INFO", "a"), 1, 500);
    let b = agg.process_at(record(Some("s"), "INFO", "b"), 1, 400);
    let c = agg.process_at(record(None, "INFO", "c"), 1, 400);
    let d = agg.process_at(record(Some("s"), "INFO", "d"), 1, 900);
    assert_eq!((a.idx, b.idx, c.idx, d.idx), (500, 501, 502, 900));
    let idx: Vec<u64> = agg.session("s").unwrap().logs.iter().map(|r| r.idx).collect();
    assert_eq!(idx, vec![500, 501, 900]);
}

#[test]
fn session_keeps_bounded_tail() {
    let mut agg = Aggregator::new(10, 300);
    for i in 0..60u64 {
        agg.process_at(record(Some("busy"), "INFO", "m"), 1, i + 1);
    }
    let s = agg.session("busy").unwrap();
    assert_eq!(s.logs_count, 60);
    assert_eq!(s.logs.len(), 50);
    assert_eq!(s.logs[0].idx, 11);
}

#[test]
fn session_capacity_is_bounded() {
    let mut agg = Aggregator::new(2, 300);
    agg.process_at(record(Some("a"), "INFO", "m"), 100, 1);
    agg.process_at(record(Some("b"), "INFO", "m"), 100, 2);
    let r = agg.process_at(record(Some("c"), "INFO", "m"), 100, 3);
    assert_eq!(agg.session_count(), 2);
    assert!(agg.session("c").is_none());
    assert_eq!(r.trace_id.as_deref(), Some("c"));
    agg.process_at(record(Some("d"), "INFO", "m"), 300, 4);
    assert_eq!(agg.session_count(), 1);
    assert!(agg.session("d").is_some());
}

#[test]
fn ttl_sweep_drops_idle_sessions() {
    let mut agg = Aggregator::new(10, 300);
    agg.process_at(record(Some("old"), "INFO", "m"), 0, 1);
    agg.process_at(record(Some("new"), "INFO", "m"), 200, 2);
    assert_eq!(agg.cleanup_at(299), 0);
    assert_eq!(agg.cleanup_at(300), 1);
    assert!(agg.session("old").is_none());
    assert!(agg.session("new").is_some());
}

#[test]
fn call_id_becomes_trace_id_at_aggregator() {
    let mut agg = Aggregator::new(10, 300);
    let mut r = record(None, "INFO", "m");
    r.attributes.push(("sip.call_id".to_string(), AttrValue::Str("x@y".to_string())));
    let out = agg.process_at(r, 5, 5);
    assert_eq!(out.trace_id.as_deref(), Some("x@y"));
    assert!(agg.session("x@y").is_some());
}

#[test]
fn orphan_record_opens_no_session() {
    let mut agg = Aggregator::new(10, 300);
    agg.process_at(record(None, "INFO", "m"), 5, 5);
    assert_eq!(agg.session_count(), 0);
}

#[test]
fn process_uses_clock() {
    let mut agg = Aggregator::new(10, 300);
    let r = agg.process(record(Some("k"), "INFO", "m"));
    assert!(r.idx > 1_600_000_000_000_000);
    assert_eq!(agg.cleanup(), 0);
}

#[test]
fn upstream_loop_prevention() {
    let mut envelope = record(Some("r1"), "INFO", "remote");
    envelope.attributes.push(("k".to_string(), AttrValue::Str("v".to_string())));
    let remote = accept_remote(Ok(envelope), NOW);
    assert_eq!(attr(&remote, "source"), Some(&AttrValue::Str("grpc".to_string())));
    assert!(has_tag(&remote, "GRPC") && has_tag(&remote, "REMOTE"));
    let mut agg = Aggregator::new(10, 300);
    let fwd = agg.process_at(remote, 1, 1);
    assert!(!should_export(&fwd));
    let mut ex = ExportManager::new(1, 2);
    assert!(ex.offer(fwd).is_none());
    assert!(ex.on_tick().is_none());
}

#[test]
fn remote_parse_error_record() {
    let r = accept_remote(Err("expected value at line 1".to_string()), NOW);
    assert_eq!(r.event, "GRPC_PARSE_ERROR");
    assert_eq!(r.severity, "WARN");
    assert_eq!(r.message, "expected value at line 1");
    assert_eq!(attr(&r, "source"), Some(&AttrValue::Str("grpc".to_string())));
}

#[test]
fn remote_record_is_repaired() {
    let mut e = record(Some(""), "debug", "m");
    e.ts = "bad".to_string();
    e.resource.service_name = String::new();
    e.attributes.push(("source".to_string(), AttrValue::Str("x".to_string())));
    e.attributes.push(("source".to_string(), AttrValue::Str("y".to_string())));
    let r = accept_remote(Ok(e), NOW);
    assert_eq!(r.ts, NOW);
    assert_eq!(r.severity, "DEBUG");
    assert_eq!(r.resource.service_name, "unknown_grpc");
    assert!(r.trace_id.is_none());
    assert_eq!(r.attributes, vec![("source".to_string(), AttrValue::Str("grpc".to_string()))]);
}

#[test]
fn export_batches_and_timer_flush() {
    let mut ex = ExportManager::new(2, 2);
    assert_eq!(ex.flush_interval_secs(), 2);
    assert!(ex.offer(record(None, "INFO", "a")).is_none());
    let batch = ex.offer(record(None, "INFO", "b")).unwrap();
    assert_eq!(batch.len(), 2);
    assert_eq!(batch[1].message, "b");
    assert!(ex.on_tick().is_none());
    assert!(ex.offer(record(None, "INFO", "c")).is_none());
    assert_eq!(ex.on_tick().unwrap().len(), 1);
}

#[test]
fn enrichment_is_idempotent() {
    let mut r = record(None, "error", r#"{"msg":"conn refused","call_id":"abc","level":"x","n":[1,2]}"#);
    r.resource.service_name = "kamailio-redis".to_string();
    r.sanitize_and_enrich();
    let once = format!("{:?}", r);
    r.sanitize_and_enrich();
    assert_eq!(format!("{:?}", r), once);
    assert_eq!(r.message, "conn refused");
    assert_eq!(r.trace_id.as_deref(), Some("abc"));
    assert_eq!(r.severity, "ERROR");
    assert_eq!(r.smart_tags, vec!["DB".to_string(), "SIP".to_string(), "NET".to_string()]);
    assert_eq!(attr(&r, "n"), Some(&AttrValue::Json("[1,2]".to_string())));
}

#[test]
fn malformed_embedded_json_is_kept() {
    let mut r = record(None, "INFO", "{not json");
    r.sanitize_and_enrich();
    assert_eq!(r.message, "{not json");
    assert!(r.attributes.is_empty());
}

#[test]
fn trace_promotion_order_and_null() {
    let mut r = record(None, "INFO", "m");
    r.attributes.push(("callid".to_string(), AttrValue::Str("late".to_string())));
    r.attributes.push(("call_id".to_string(), AttrValue::Str("null".to_string())));
    r.attributes.push(("Call-ID".to_string(), AttrValue::Str("mid".to_string())));
    r.sanitize_and_enrich();
    assert_eq!(r.trace_id.as_deref(), Some("mid"));
}

#[test]
fn emitted_records_have_canonical_severity_and_timestamp() {
    let lines = ["x", r#"{"level":"Fatal"}"#, r#"{"severity":"nonsense"}"#];
    for l in lines {
        let r = process_line(l, "c", "stdout", "n").unwrap();
        assert!(validate_severity(&r.severity));
        assert!(is_rfc3339(&r.ts));
    }
    let s = NetworkSniffer::new("eth0", "", "n".to_string());
    let r = s.process_payload(INVITE.as_bytes(), 1).unwrap();
    assert!(validate_severity(&r.severity) && is_rfc3339(&r.ts));
    let sys = LogRecord::system_log("warn", "BOOT", "started", "test");
    assert_eq!(sys.severity, "WARN");
    assert_eq!(sys.resource.service_name, "sentiric-observer");
    assert!(is_rfc3339(&sys.ts));
}

#[test]
fn observer_container_is_never_followed() {
    let mut t = ContainerTracker::new(100);
    let listing = vec![
        ContainerEntry { id: Some("a1".to_string()), names: vec!["/sentiric-observer".to_string()] },
        ContainerEntry { id: Some("b2".to_string()), names: vec!["/sbc-service".to_string()] },
        ContainerEntry { id: None, names: vec!["/nameless".to_string()] },
        ContainerEntry { id: Some("b2".to_string()), names: vec!["/sbc-service".to_string()] },
    ];
    let orders = t.scan(&listing, 105);
    assert_eq!(orders.len(), 1);
    assert_eq!(orders[0].id, "b2");
    assert_eq!(orders[0].name, "sbc-service");
    assert_eq!(orders[0].since, 100);
    assert!(t.scan(&listing, 110).is_empty());
    t.on_stream_closed("b2");
    let again = t.scan(&listing, 115);
    assert_eq!(again.len(), 1);
    assert_eq!(again[0].since, 110);
}

#[test]
fn call_id_extraction() {
    assert_eq!(extract_call_id(INVITE).as_deref(), Some("abc@host"));
    assert_eq!(extract_call_id("x\ncall-id:   spaced  \n").as_deref(), Some("spaced"));
    assert_eq!(extract_call_id("Call-ID:\r\n"), None);
    assert_eq!(extract_call_id("i:x"), None);
    assert_eq!(extract_call_id("X-Call-ID: a").as_deref(), Some("a"));
    assert_eq!(extract_call_id("Call-ID: a b").as_deref(), Some("a"));
    assert_eq!(extract_call_id("call-id: \n  next@line").as_deref(), Some("next@line"));
    assert_eq!(extract_call_id("no header"), None);
    assert_eq!(extract_sip_method("INVITE sip:a SIP/2.0\r\nrest"), "INVITE sip:a SIP/2.0");
    assert_eq!(extract_sip_method(""), "SIP PACKET");
}

#[test]
fn severity_helpers() {
    assert_eq!(canonical_level("Warn", "INFO"), "WARN");
    assert_eq!(canonical_level("warning", "INFO"), "INFO");
    assert!(validate_severity("FATAL"));
    assert!(!validate_severity("fatal"));
    assert_eq!(default_schema(), "1.0.0");
    assert_eq!(decimal_string(0), "0");
    assert_eq!(decimal_string(65535), "65535");
}

#[test]
fn drop_counter_reports_once() {
    let mut d = DropCounter::new();
    assert_eq!(d.on_sent(), None);
    d.on_full();
    d.on_full();
    assert_eq!(d.on_sent(), Some(2));
    assert_eq!(d.on_sent(), None);
    let s = NetworkSniffer::new("eth0", "", "n".to_string());
    let r = s.recovery_log(2, NOW);
    assert_eq!(r.message, "Recovered (2 dropped)");
    assert_eq!(r.severity, "WARN");
}

#[test]
fn sniffer_switch() {
    assert_eq!(enable_sniffer(false), (true, SnifferReply::Activated));
    assert_eq!(enable_sniffer(true), (true, SnifferReply::AlreadyActive));
    assert_eq!(disable_sniffer(true), (false, SnifferReply::Deactivated));
    assert_eq!(disable_sniffer(false), (false, SnifferReply::Deactivated));
}

#[test]
fn promoted_message_is_not_unpacked_again() {
    let mut r = record(None, "INFO", r#"{"msg":"{\"a\":1}"}"#);
    r.sanitize_and_enrich();
    assert_eq!(r.message, r#"{"a":1}"#);
    assert!(r.attributes.is_empty());
    let once = format!("{:?}", r);
    r.sanitize_and_enrich();
    assert_eq!(format!("{:?}", r), once);
    assert!(r.attributes.is_empty());
}
