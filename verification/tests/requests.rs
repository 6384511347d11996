use rootly_lib::model::log::Log;
use rootly_lib::model::trace::Trace;
use rootly_lib::model::ReadableModel;
use rootly_lib::parsers::otlp::{
    AnyValue, Value, LogRecord, LogsRequest, ResourceLogs, ResourceSpans, ScopeLogs, ScopeSpans, Span,
    SpanEvent, TracesRequest,
};
use rootly_lib::parsers::{logs_parser, trace_parser};

fn av(v: Value) -> AnyValue {
    AnyValue { value: Some(v) }
}

fn record(n: u64, body: &str, trace_id: Vec<u8>, span_id: Vec<u8>) -> LogRecord {
    LogRecord {
        time_unix_nano: n * 1000 + 999,
        observed_time_unix_nano: n * 2000,
        severity_number: n as i32,
        event_name: format!("ev{}", n),
        body: Some(av(Value::StringValue(body.to_string()))),
        trace_id,
        span_id,
    }
}

#[test]
fn logs_come_out_in_order_with_ids_in_hex() {
    let trace_id: Vec<u8> = (1..=16).collect();
    let span_id: Vec<u8> = vec![0, 0, 0, 0, 0, 0, 0xab, 0xcd];
    let req = LogsRequest {
        resource_logs: vec![
            ResourceLogs {
                scope_logs: vec![
                    ScopeLogs { log_records: vec![record(1, "one", trace_id.clone(), span_id.clone())] },
                    ScopeLogs { log_records: vec![] },
                    ScopeLogs { log_records: vec![record(2, "two", vec![1, 2], vec![])] },
                ],
            },
            ResourceLogs { scope_logs: vec![] },
            ResourceLogs { scope_logs: vec![ScopeLogs { log_records: vec![record(3, "three", vec![], vec![0xff; 8])] }] },
        ],
    };
    let logs = logs_parser(req);
    assert_eq!(logs.len(), 3);
    let expected = vec![
        Log::new(1, 2, 1, "ev1".to_string(), &av(Value::StringValue("one".to_string())),
            "102030405060708090a0b0c0d0e0f10".to_string(), "000000000000abcd".to_string()),
        Log::new(2, 4, 2, "ev2".to_string(), &av(Value::StringValue("two".to_string())),
            "0000000000000000".to_string(), "0000000000000000".to_string()),
        Log::new(3, 6, 3, "ev3".to_string(), &av(Value::StringValue("three".to_string())),
            "0000000000000000".to_string(), "ffffffffffffffff".to_string()),
    ];
    for (got, want) in logs.iter().zip(expected.iter()) {
        assert_eq!(got.to_bytes(), want.to_bytes());
    }
}

#[test]
fn short_trace_ids_keep_sixteen_digits() {
    let mut id = vec![0u8; 16];
    id[15] = 0x2a;
    let req = LogsRequest {
        resource_logs: vec![ResourceLogs { scope_logs: vec![ScopeLogs { log_records: vec![record(0, "b", id, vec![0; 8])] }] }],
    };
    let logs = logs_parser(req);
    let want = Log::new(0, 0, 0, "ev0".to_string(), &av(Value::StringValue("b".to_string())),
        "000000000000002a".to_string(), "0000000000000000".to_string());
    assert_eq!(logs[0].to_bytes(), want.to_bytes());
}

#[test]
fn empty_request_gives_no_logs() {
    assert!(logs_parser(LogsRequest { resource_logs: vec![] }).is_empty());
    assert!(trace_parser(TracesRequest { resource_spans: vec![] }).is_empty());
}

fn span(name: &str, events: &[&str]) -> Span {
    Span {
        trace_id: vec![0xaa; 16],
        span_id: vec![0, 1, 2, 3, 4, 5, 6, 7],
        parent_span_id: vec![],
        name: name.to_string(),
        start_time_unix_nano: 5_000_999,
        end_time_unix_nano: 7_000,
        events: events.iter().map(|e| SpanEvent { name: e.to_string() }).collect(),
    }
}

#[test]
fn spans_become_traces_with_their_events() {
    let req = TracesRequest {
        resource_spans: vec![
            ResourceSpans { scope_spans: vec![ScopeSpans { spans: vec![span("a", &["e1", "e2"]), span("b", &[])] }] },
            ResourceSpans { scope_spans: vec![] },
            ResourceSpans { scope_spans: vec![ScopeSpans { spans: vec![span("c", &["x"])] }] },
        ],
    };
    let traces = trace_parser(req);
    assert_eq!(traces.len(), 3);
    let mut want = Trace::new("a".repeat(32), "0001020304050607".to_string(), "0000000000000000".to_string(),
        "a".to_string(), 5000, 7);
    want.add_event("e1".to_string());
    want.add_event("e2".to_string());
    assert_eq!(format!("{:?}", traces[0]), format!("{:?}", want));
    let want_b = Trace::new("a".repeat(32), "0001020304050607".to_string(), "0000000000000000".to_string(),
        "b".to_string(), 5000, 7);
    assert_eq!(format!("{:?}", traces[1]), format!("{:?}", want_b));
    assert!(format!("{:?}", traces[2]).contains("events: [\"x\"]"));
}

#[test]
fn add_event_appends() {
    let mut t = Trace::new("t".to_string(), "s".to_string(), "p".to_string(), "n".to_string(), 1, 2);
    t.add_event("first".to_string());
    t.add_event("second".to_string());
    assert_eq!(
        format!("{:?}", t),
        "Trace { trace_id: \"t\", span_id: \"s\", parent_span_id: \"p\", name: \"n\", start_time: 1, end_time: 2, events: [\"first\", \"second\"] }"
    );
}

#[test]
fn ids_match_std_hex_formatting() {
    let samples: Vec<Vec<u8>> = vec![
        vec![0; 16],
        vec![0xff; 16],
        (0..16).map(|i| (i * 37 + 5) as u8).collect(),
        vec![0, 0, 0, 0, 0, 0, 0, 0, 0, 0, 0, 0, 0, 0, 0, 1],
    ];
    for id in samples {
        let want = format!("{:016x}", u128::from_be_bytes(id.as_slice().try_into().unwrap()));
        let span = vec![id[0], id[1], id[2], id[3], id[4], id[5], id[6], id[7]];
        let want_span = format!("{:016x}", u64::from_be_bytes(span.as_slice().try_into().unwrap()));
        let req = TracesRequest {
            resource_spans: vec![ResourceSpans {
                scope_spans: vec![ScopeSpans {
                    spans: vec![Span {
                        trace_id: id.clone(),
                        span_id: span.clone(),
                        parent_span_id: span.clone(),
                        name: String::new(),
                        start_time_unix_nano: 0,
                        end_time_unix_nano: 0,
                        events: vec![],
                    }],
                }],
            }],
        };
        let traces = trace_parser(req);
        let want_trace = Trace::new(want, want_span.clone(), want_span, String::new(), 0, 0);
        assert_eq!(format!("{:?}", traces[0]), format!("{:?}", want_trace));
    }
}
