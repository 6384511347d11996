//! The parts of OTLP export requests that rootly reads, as plain values.
//! The protobuf messages are decoded by prost and copied into these types
//! field by field.
use vstd::prelude::*;
use opentelemetry_proto::tonic::collector::logs::v1::ExportLogsServiceRequest;
use opentelemetry_proto::tonic::collector::trace::v1::ExportTraceServiceRequest;
use opentelemetry_proto::tonic::common::v1::any_value::Value as ProtoValue;
use opentelemetry_proto::tonic::common::v1::AnyValue as ProtoAnyValue;
use opentelemetry_proto::tonic::logs::v1::LogRecord as ProtoLogRecord;
use opentelemetry_proto::tonic::trace::v1::Span as ProtoSpan;
use prost::Message;

verus! {

/// A value of an attribute or of a log body; `value` is absent where the
/// message carried none.
pub struct AnyValue {
    pub value: Option<Value>,
}

/// The kinds of value.
pub enum Value {
    StringValue(String),
    BoolValue(bool),
    IntValue(i64),
    /// A double, held as the text that `f64::to_string` writes for it.
    DoubleValue(String),
    ArrayValue(Vec<AnyValue>),
    KvlistValue(Vec<KeyValue>),
    BytesValue(Vec<u8>),
    /// A reference into a string table that the request does not carry.
    StringValueStrindex(i32),
}

/// A key and its value, absent where the message carried none.
pub struct KeyValue {
    pub key: String,
    pub value: Option<AnyValue>,
}

/// One log record.
pub struct LogRecord {
    pub time_unix_nano: u64,
    pub observed_time_unix_nano: u64,
    pub severity_number: i32,
    pub event_name: String,
    pub body: Option<AnyValue>,
    pub trace_id: Vec<u8>,
    pub span_id: Vec<u8>,
}

/// The log records of one instrumentation scope.
pub struct ScopeLogs {
    pub log_records: Vec<LogRecord>,
}

/// The scopes of one resource.
pub struct ResourceLogs {
    pub scope_logs: Vec<ScopeLogs>,
}

/// An OTLP logs export request.
pub struct LogsRequest {
    pub resource_logs: Vec<ResourceLogs>,
}

/// An event within a span.
pub struct SpanEvent {
    pub name: String,
}

/// One span.
pub struct Span {
    pub trace_id: Vec<u8>,
    pub span_id: Vec<u8>,
    pub parent_span_id: Vec<u8>,
    pub name: String,
    pub start_time_unix_nano: u64,
    pub end_time_unix_nano: u64,
    pub events: Vec<SpanEvent>,
}

/// The spans of one instrumentation scope.
pub struct ScopeSpans {
    pub spans: Vec<Span>,
}

/// The scopes of one resource.
pub struct ResourceSpans {
    pub scope_spans: Vec<ScopeSpans>,
}

/// An OTLP traces export request.
pub struct TracesRequest {
    pub resource_spans: Vec<ResourceSpans>,
}

#[verifier::external_type_specification]
#[verifier::external_body]
pub struct ExProtoAnyValue(ProtoAnyValue);

#[verifier::external_type_specification]
#[verifier::external_body]
pub struct ExProtoLogRecord(ProtoLogRecord);

#[verifier::external_type_specification]
#[verifier::external_body]
pub struct ExProtoSpan(ProtoSpan);

/// A decoded `AnyValue` moved field by field into the library's types (a
/// double as the text that `to_string` writes for it).  Part of the
/// decoding wrappers below.
#[verifier::external_body]
fn any_value_from_proto(v: ProtoAnyValue) -> AnyValue {
    AnyValue { value: v.value.map(|x| match x {
        ProtoValue::StringValue(s) => Value::StringValue(s),
        ProtoValue::BoolValue(b) => Value::BoolValue(b),
        ProtoValue::IntValue(i) => Value::IntValue(i),
        ProtoValue::DoubleValue(d) => Value::DoubleValue(d.to_string()),
        ProtoValue::ArrayValue(a) => Value::ArrayValue(a.values.into_iter().map(any_value_from_proto).collect()),
        ProtoValue::KvlistValue(l) => Value::KvlistValue(l.values.into_iter().map(|kv|
            KeyValue { key: kv.key, value: kv.value.map(any_value_from_proto) }).collect()),
        ProtoValue::BytesValue(b) => Value::BytesValue(b),
        ProtoValue::StringValueStrindex(i) => Value::StringValueStrindex(i),
    }) }
}

/// A decoded log record moved field by field into the library's types.
/// Part of the decoding wrappers below.
#[verifier::external_body]
fn log_record_from_proto(r: ProtoLogRecord) -> LogRecord {
    LogRecord {
        time_unix_nano: r.time_unix_nano,
        observed_time_unix_nano: r.observed_time_unix_nano,
        severity_number: r.severity_number,
        event_name: r.event_name,
        body: r.body.map(any_value_from_proto),
        trace_id: r.trace_id,
        span_id: r.span_id,
    }
}

/// A decoded span moved field by field into the library's types.  Part of
/// the decoding wrappers below.
#[verifier::external_body]
fn span_from_proto(s: ProtoSpan) -> Span {
    Span {
        trace_id: s.trace_id,
        span_id: s.span_id,
        parent_span_id: s.parent_span_id,
        name: s.name,
        start_time_unix_nano: s.start_time_unix_nano,
        end_time_unix_nano: s.end_time_unix_nano,
        events: s.events.into_iter().map(|e| SpanEvent { name: e.name }).collect(),
    }
}

/// What prost decodes `bytes` into as an OTLP logs export request, in the
/// library's types; `None` where the bytes do not decode.
pub uninterp spec fn otlp_logs_request(bytes: Seq<u8>) -> Option<LogsRequest>;

/// `ExportLogsServiceRequest::decode` (prost), copied into the library's
/// types.  The result is named: protobuf decoding is not restated.
#[verifier::external_body]
pub fn decode_logs_request(bytes: &[u8]) -> (r: Option<LogsRequest>)
    ensures
        r == otlp_logs_request(bytes@),
{
    let req = ExportLogsServiceRequest::decode(bytes).ok()?;
    Some(LogsRequest { resource_logs: req.resource_logs.into_iter().map(|rl| ResourceLogs {
        scope_logs: rl.scope_logs.into_iter().map(|sl| ScopeLogs {
            log_records: sl.log_records.into_iter().map(log_record_from_proto).collect(),
        }).collect(),
    }).collect() })
}

/// What prost decodes `bytes` into as an OTLP traces export request, in the
/// library's types; `None` where the bytes do not decode.
pub uninterp spec fn otlp_traces_request(bytes: Seq<u8>) -> Option<TracesRequest>;

/// `ExportTraceServiceRequest::decode` (prost), copied into the library's
/// types.  The result is named: protobuf decoding is not restated.
#[verifier::external_body]
pub fn decode_traces_request(bytes: &[u8]) -> (r: Option<TracesRequest>)
    ensures
        r == otlp_traces_request(bytes@),
{
    let req = ExportTraceServiceRequest::decode(bytes).ok()?;
    Some(TracesRequest { resource_spans: req.resource_spans.into_iter().map(|rs| ResourceSpans {
        scope_spans: rs.scope_spans.into_iter().map(|ss| ScopeSpans {
            spans: ss.spans.into_iter().map(span_from_proto).collect(),
        }).collect(),
    }).collect() })
}

} // verus!
