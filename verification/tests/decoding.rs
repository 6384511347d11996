use opentelemetry_proto::tonic::collector::logs::v1::ExportLogsServiceRequest;
use opentelemetry_proto::tonic::collector::trace::v1::ExportTraceServiceRequest;
use opentelemetry_proto::tonic::common::v1::{any_value, AnyValue, ArrayValue, KeyValue, KeyValueList};
use opentelemetry_proto::tonic::logs::v1::{LogRecord, ResourceLogs, ScopeLogs};
use opentelemetry_proto::tonic::trace::v1::{span, ResourceSpans, ScopeSpans, Span};
use prost::Message;
use rootly_lib::model::log::Log;
use rootly_lib::model::trace::Trace;
use rootly_lib::model::ReadableModel;
use rootly_lib::parsers::otlp::{AnyValue as Body, Value};
use rootly_lib::parsers::{add_logs, receive_logs, receive_traces, LogsError};

fn value(v: any_value::Value) -> AnyValue {
    AnyValue { value: Some(v) }
}

fn logs_body(bodies: Vec<Option<AnyValue>>) -> Vec<u8> {
    let records = bodies
        .into_iter()
        .enumerate()
        .map(|(i, body)| LogRecord {
            time_unix_nano: 5_000 * (i as u64 + 1),
            observed_time_unix_nano: 7_000,
            severity_number: 9,
            event_name: format!("e{}", i),
            body,
            trace_id: vec![0x11; 16],
            span_id: vec![0x22; 8],
            ..Default::default()
        })
        .collect();
    ExportLogsServiceRequest {
        resource_logs: vec![ResourceLogs {
            scope_logs: vec![ScopeLogs { log_records: records, ..Default::default() }],
            ..Default::default()
        }],
    }
    .encode_to_vec()
}

fn expected_log(i: u64, body: &str) -> Log {
    Log::new(
        5 * (i + 1),
        7,
        9,
        format!("e{}", i),
        &Body { value: Some(Value::StringValue(body.to_string())) },
        "11".repeat(16),
        "22".repeat(8),
    )
}

#[test]
fn protobuf_logs_are_decoded_and_extracted() {
    let body = logs_body(vec![
        Some(value(any_value::Value::StringValue("hello".to_string()))),
        Some(value(any_value::Value::DoubleValue(2.5))),
        Some(value(any_value::Value::ArrayValue(ArrayValue {
            values: vec![value(any_value::Value::IntValue(3)), value(any_value::Value::BoolValue(false))],
        }))),
        Some(value(any_value::Value::KvlistValue(KeyValueList {
            values: vec![KeyValue { key: "k".to_string(), value: Some(value(any_value::Value::BytesValue(b"v".to_vec()))), ..Default::default() }],
        }))),
    ]);
    let logs = add_logs("application/x-protobuf", &body).unwrap();
    assert_eq!(logs.len(), 4);
    let texts = ["hello", "2.5", "[3, false]", r#"{"k":"v"}"#];
    for (i, (got, text)) in logs.iter().zip(texts.iter()).enumerate() {
        assert_eq!(got.to_bytes(), expected_log(i as u64, text).to_bytes());
    }
    assert_eq!(receive_logs(&body).unwrap().len(), 4);
}

#[test]
fn content_types_that_are_refused() {
    let body = logs_body(vec![]);
    assert_eq!(add_logs("application/json", &body).unwrap_err(), LogsError::JsonNotSupported);
    assert_eq!(add_logs("text/plain", &body).unwrap_err(), LogsError::UnsupportedContentType);
    assert!(add_logs("application/x-protobuf", &body).unwrap().is_empty());
}

#[test]
fn bodies_that_do_not_decode() {
    assert_eq!(add_logs("application/x-protobuf", &[0xff]).unwrap_err(), LogsError::Decode);
    assert_eq!(receive_logs(&[0x0a, 0x05, 0x01]).unwrap_err(), LogsError::Decode);
    assert!(receive_traces(&[0xff]).is_none());
}

#[test]
fn records_without_complete_bodies() {
    let no_body = logs_body(vec![None]);
    assert_eq!(add_logs("application/x-protobuf", &no_body).unwrap_err(), LogsError::MissingBody);
    let empty_value = logs_body(vec![Some(AnyValue { value: None })]);
    assert_eq!(receive_logs(&empty_value).unwrap_err(), LogsError::MissingBody);
    let absent_in_list = logs_body(vec![Some(value(any_value::Value::KvlistValue(KeyValueList {
        values: vec![KeyValue { key: "k".to_string(), value: None, ..Default::default() }],
    })))]);
    assert_eq!(receive_logs(&absent_in_list).unwrap_err(), LogsError::MissingBody);
    let table_ref = logs_body(vec![Some(value(any_value::Value::StringValueStrindex(1)))]);
    assert_eq!(receive_logs(&table_ref).unwrap_err(), LogsError::MissingBody);
}

#[test]
fn protobuf_traces_are_decoded_and_extracted() {
    let body = ExportTraceServiceRequest {
        resource_spans: vec![ResourceSpans {
            scope_spans: vec![ScopeSpans {
                spans: vec![Span {
                    trace_id: vec![0; 16],
                    span_id: vec![0, 0, 0, 0, 0, 0, 0, 9],
                    parent_span_id: vec![],
                    name: "work".to_string(),
                    start_time_unix_nano: 3_000,
                    end_time_unix_nano: 8_999,
                    events: vec![span::Event { name: "ev".to_string(), ..Default::default() }],
                    ..Default::default()
                }],
                ..Default::default()
            }],
            ..Default::default()
        }],
    }
    .encode_to_vec();
    let traces = receive_traces(&body).unwrap();
    assert_eq!(traces.len(), 1);
    let mut want = Trace::new("0".repeat(16), "0000000000000009".to_string(), "0".repeat(16), "work".to_string(), 3, 8);
    want.add_event("ev".to_string());
    assert_eq!(format!("{:?}", traces[0]), format!("{:?}", want));
}
