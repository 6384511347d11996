//! Extraction of rootly's records from OTLP export requests.
use vstd::prelude::*;
use crate::text::{hex_padded, push_hex_padded, is_digit_of, numeral_value, lemma_hex_padded_value};
use crate::model::log::{Log, LogView, any_value_text, value_complete};
use crate::model::trace::{Trace, TraceView};
use crate::api::{PayloadKind, payload_kind, payload_kind_of};
use crate::parsers::otlp::{
    otlp_logs_request, otlp_traces_request, decode_logs_request, decode_traces_request,
    LogRecord, ScopeLogs, ResourceLogs, LogsRequest, Span, SpanEvent, ScopeSpans, ResourceSpans,
    TracesRequest,
};

pub mod otlp;

verus! {

/// The unsigned integer whose big-endian bytes are `bytes`.
pub open spec fn be_nat(bytes: Seq<u8>) -> nat
    decreases bytes.len(),
{
    if bytes.len() == 0 {
        0
    } else {
        be_nat(bytes.drop_last()) * 256 + bytes.last() as nat
    }
}

/// 256 to the power `n`.
pub open spec fn pow256(n: nat) -> nat
    decreases n,
{
    if n == 0 {
        1
    } else {
        pow256((n - 1) as nat) * 256
    }
}

proof fn lemma_be_nat_bound(bytes: Seq<u8>)
    ensures
        be_nat(bytes) < pow256(bytes.len()),
    decreases bytes.len(),
{
    if bytes.len() > 0 {
        lemma_be_nat_bound(bytes.drop_last());
    }
}

proof fn lemma_pow256_mono(i: nat, j: nat)
    requires
        i <= j,
    ensures
        pow256(i) <= pow256(j),
    decreases j,
{
    if i < j {
        lemma_pow256_mono(i, (j - 1) as nat);
    }
}

/// How an id is written: the big-endian number held by exactly `width`
/// bytes (zero when the id has another length), in lowercase hexadecimal
/// with at least sixteen digits.
pub open spec fn id_text(bytes: Seq<u8>, width: nat) -> Seq<char> {
    hex_padded(if bytes.len() == width { be_nat(bytes) } else { 0 }, 16)
}

/// The number held by bytes `a` then `b` is that of `a` shifted by the
/// bytes of `b`, plus that of `b`; a single byte holds itself.
pub proof fn lemma_be_nat_concat(a: Seq<u8>, b: Seq<u8>)
    ensures
        be_nat(a + b) == be_nat(a) * pow256(b.len()) + be_nat(b),
        b.len() == 1 ==> be_nat(b) == b[0] as nat,
    decreases b.len(),
{
    if b.len() == 0 {
        assert(a + b =~= a);
        assert(pow256(0) == 1);
        assert(be_nat(b) == 0);
    } else {
        lemma_be_nat_concat(a, b.drop_last());
        assert((a + b).drop_last() =~= a + b.drop_last());
        assert((a + b).last() == b.last());
        let x = be_nat(a);
        let p = pow256((b.len() - 1) as nat);
        let y = be_nat(b.drop_last());
        assert(be_nat(a + b) == be_nat(a + b.drop_last()) * 256 + b.last() as nat);
        assert(be_nat(a + b.drop_last()) == x * p + y);
        assert(pow256(b.len()) == p * 256);
        assert(be_nat(b) == y * 256 + b.last() as nat);
        assert((x * p + y) * 256 + b.last() as nat == x * (p * 256) + (y * 256 + b.last() as nat))
            by (nonlinear_arith);
        if b.len() == 1 {
            assert(b.drop_last() =~= Seq::<u8>::empty());
        }
    }
}

/// An id is written as lowercase hexadecimal digits, at least sixteen of
/// them and no leading zero beyond those, that write the big-endian number
/// its bytes hold when it has the expected width, and zero otherwise.
pub proof fn lemma_id_text(bytes: Seq<u8>, width: nat)
    ensures
        id_text(bytes, width).len() >= 16,
        forall|i: int| 0 <= i < id_text(bytes, width).len() ==> is_digit_of(#[trigger] id_text(bytes, width)[i], 16),
        numeral_value(id_text(bytes, width), 16) == (if bytes.len() == width { be_nat(bytes) } else { 0 }),
        id_text(bytes, width).len() > 16 ==> id_text(bytes, width)[0] != '0',
{
    lemma_hex_padded_value(if bytes.len() == width { be_nat(bytes) } else { 0 }, 16);
}

/// Writes an id of `width` bytes, as `id_text` says.
fn id_hex(bytes: &Vec<u8>, width: usize) -> (r: String)
    requires
        width <= 16,
    ensures
        r@ == id_text(bytes@, width as nat),
{
    let mut value: u128 = 0;
    if bytes.len() == width {
        let mut i: usize = 0;
        proof {
            reveal_with_fuel(pow256, 17);
            lemma_pow256_mono(width as nat, 16);
        }
        while i < width
            invariant
                i <= width,
                width == bytes@.len(),
                width <= 16,
                pow256(width as nat) <= 0x1_0000_0000_0000_0000_0000_0000_0000_0000,
                value == be_nat(bytes@.take(i as int)),
            decreases width - i,
        {
            proof {
                assert(bytes@.take(i + 1).drop_last() =~= bytes@.take(i as int));
                lemma_be_nat_bound(bytes@.take(i + 1));
                lemma_pow256_mono((i + 1) as nat, width as nat);
            }
            value = value * 256 + bytes[i] as u128;
            i = i + 1;
        }
        assert(bytes@.take(width as int) =~= bytes@);
    }
    let mut s = String::new();
    push_hex_padded(&mut s, value, 16);
    s
}

/// The log kept of a record.
pub open spec fn record_log(r: LogRecord) -> LogView {
    LogView {
        timestamp: r.time_unix_nano / 1000,
        observed_timestamp: r.observed_time_unix_nano / 1000,
        log_level: r.severity_number,
        event_name: r.event_name@,
        body: any_value_text(r.body->Some_0),
        trace_id: id_text(r.trace_id@, 16),
        span_id: id_text(r.span_id@, 8),
    }
}

/// The log records of the scopes, scope after scope.
pub open spec fn scope_log_records(scopes: Seq<ScopeLogs>) -> Seq<LogRecord>
    decreases scopes.len(),
{
    if scopes.len() == 0 {
        Seq::empty()
    } else {
        scope_log_records(scopes.drop_last()) + scopes.last().log_records@
    }
}

/// The log records of a request, resource after resource.
pub open spec fn request_log_records(resources: Seq<ResourceLogs>) -> Seq<LogRecord>
    decreases resources.len(),
{
    if resources.len() == 0 {
        Seq::empty()
    } else {
        request_log_records(resources.drop_last()) + scope_log_records(resources.last().scope_logs@)
    }
}

/// Every record has a body, and the body is complete.
pub open spec fn records_have_bodies(records: Seq<LogRecord>) -> bool {
    forall|i: int| 0 <= i < records.len() ==> record_has_body(#[trigger] records[i])
}

/// The record has a body, and the body is complete.
pub open spec fn record_has_body(r: LogRecord) -> bool {
    r.body matches Some(b) && value_complete(b)
}

proof fn lemma_scope_records_prefix(scopes: Seq<ScopeLogs>, j: int)
    requires
        0 <= j < scopes.len(),
    ensures
        scope_log_records(scopes.take(j + 1)) == scope_log_records(scopes.take(j)) + scopes[j].log_records@,
{
    assert(scopes.take(j + 1).drop_last() =~= scopes.take(j));
}

proof fn lemma_request_records_prefix(resources: Seq<ResourceLogs>, i: int)
    requires
        0 <= i < resources.len(),
    ensures
        request_log_records(resources.take(i + 1))
            == request_log_records(resources.take(i)) + scope_log_records(resources[i].scope_logs@),
{
    assert(resources.take(i + 1).drop_last() =~= resources.take(i));
}

proof fn lemma_scope_records_sub(scopes: Seq<ScopeLogs>, j: int)
    requires
        0 <= j <= scopes.len(),
    ensures
        scope_log_records(scopes) == scope_log_records(scopes.take(j)) + scope_log_records(scopes.skip(j)),
    decreases scopes.len(),
{
    if j == scopes.len() {
        assert(scopes.take(j) =~= scopes);
        assert(scopes.skip(j) =~= Seq::<ScopeLogs>::empty());
        assert(scope_log_records(scopes) =~= scope_log_records(scopes.take(j)) + Seq::<LogRecord>::empty());
    } else {
        lemma_scope_records_sub(scopes.drop_last(), j);
        assert(scopes.drop_last().take(j) =~= scopes.take(j));
        assert(scopes.skip(j).drop_last() =~= scopes.drop_last().skip(j));
        assert(scopes.skip(j).last() == scopes.last());
    }
}

proof fn lemma_request_records_sub(resources: Seq<ResourceLogs>, i: int)
    requires
        0 <= i <= resources.len(),
    ensures
        request_log_records(resources)
            == request_log_records(resources.take(i)) + request_log_records(resources.skip(i)),
    decreases resources.len(),
{
    if i == resources.len() {
        assert(resources.take(i) =~= resources);
        assert(resources.skip(i) =~= Seq::<ResourceLogs>::empty());
        assert(request_log_records(resources) =~= request_log_records(resources.take(i)) + Seq::<LogRecord>::empty());
    } else {
        lemma_request_records_sub(resources.drop_last(), i);
        assert(resources.drop_last().take(i) =~= resources.take(i));
        assert(resources.skip(i).drop_last() =~= resources.drop_last().skip(i));
        assert(resources.skip(i).last() == resources.last());
    }
}

/// The log of each record of the request, in order.
pub fn logs_parser(logs_request: LogsRequest) -> (logs: Vec<Log>)
    requires
        records_have_bodies(request_log_records(logs_request.resource_logs@)),
    ensures
        logs@.map_values(|l: Log| l@)
            == request_log_records(logs_request.resource_logs@).map_values(|r: LogRecord| record_log(r)),
{
    let ghost all = request_log_records(logs_request.resource_logs@);
    let mut logs: Vec<Log> = Vec::new();
    let resources = &logs_request.resource_logs;
    let n = resources.len();
    let mut i: usize = 0;
    while i < n
        invariant
            i <= n,
            n == resources@.len(),
            *resources == logs_request.resource_logs,
            all == request_log_records(resources@),
            records_have_bodies(all),
            logs@.map_values(|l: Log| l@)
                == request_log_records(resources@.take(i as int)).map_values(|r: LogRecord| record_log(r)),
        decreases n - i,
    {
        let resource_log = &resources[i];
        let ghost before = request_log_records(resources@.take(i as int));
        let ghost mine = scope_log_records(resource_log.scope_logs@);
        proof {
            lemma_request_records_prefix(resources@, i as int);
            lemma_request_records_sub(resources@, i + 1);
            let after = request_log_records(resources@.skip(i + 1));
            assert(all =~= before + mine + after);
            assert forall|k: int| 0 <= k < mine.len() implies record_has_body(#[trigger] mine[k]) by {
                assert(mine[k] == all[before.len() + k]);
            }
        }
        let scopes = &resource_log.scope_logs;
        let m = scopes.len();
        let mut j: usize = 0;
        while j < m
            invariant
                j <= m,
                m == scopes@.len(),
                mine == scope_log_records(scopes@),
                forall|k: int| 0 <= k < mine.len() ==> record_has_body(#[trigger] mine[k]),
                logs@.map_values(|l: Log| l@)
                    == (before + scope_log_records(scopes@.take(j as int))).map_values(|r: LogRecord| record_log(r)),
            decreases m - j,
        {
            let scope_log = &scopes[j];
            proof {
                lemma_scope_records_prefix(scopes@, j as int);
                lemma_scope_records_sub(scopes@, j + 1);
                let head = scope_log_records(scopes@.take(j as int));
                let after = scope_log_records(scopes@.skip(j + 1));
                let recs = scopes@[j as int].log_records@;
                assert(mine =~= head + recs + after);
                assert forall|x: int| 0 <= x < recs.len() implies record_has_body(#[trigger] recs[x]) by {
                    assert(recs[x] == mine[head.len() + x]);
                }
            }
            let ghost done = before + scope_log_records(scopes@.take(j as int));
            let records = &scope_log.log_records;
            let p = records.len();
            let mut k: usize = 0;
            while k < p
                invariant
                    k <= p,
                    p == records@.len(),
                    forall|x: int| 0 <= x < p ==> record_has_body(#[trigger] records@[x]),
                    logs@.map_values(|l: Log| l@)
                        == (done + records@.take(k as int)).map_values(|r: LogRecord| record_log(r)),
                decreases p - k,
            {
                let log_record = &records[k];
                assert(record_has_body(records@[k as int]));
                let trace_id = id_hex(&log_record.trace_id, 16);
                let span_id = id_hex(&log_record.span_id, 8);
                if let Some(body) = &log_record.body {
                    let observed_timestamp = log_record.observed_time_unix_nano / 1000;
                    let timestamp = log_record.time_unix_nano / 1000;
                    let log_level = log_record.severity_number;
                    let event_name = log_record.event_name.clone();
                    let ghost before_logs = logs@;
                    logs.push(Log::new(timestamp, observed_timestamp, log_level, event_name, body, trace_id, span_id));
                    proof {
                        assert(done + records@.take(k + 1) =~= (done + records@.take(k as int)).push(records@[k as int]));
                        assert(logs@.map_values(|l: Log| l@) =~= before_logs.map_values(|l: Log| l@).push(record_log(records@[k as int])));
                    }
                }
                k = k + 1;
            }
            proof {
                assert(records@.take(p as int) =~= records@);
                lemma_scope_records_prefix(scopes@, j as int);
                assert(records@ == scopes@[j as int].log_records@);
                assert(before + scope_log_records(scopes@.take(j + 1)) =~= done + records@);
            }
            j = j + 1;
        }
        proof {
            assert(scopes@.take(m as int) =~= scopes@);
        }
        i = i + 1;
    }
    proof {
        assert(resources@.take(n as int) =~= resources@);
    }
    logs
}

/// The span kept of an OTLP span.
pub open spec fn span_trace(s: Span) -> TraceView {
    TraceView {
        trace_id: id_text(s.trace_id@, 16),
        span_id: id_text(s.span_id@, 8),
        parent_span_id: id_text(s.parent_span_id@, 8),
        name: s.name@,
        start_time: s.start_time_unix_nano / 1000,
        end_time: s.end_time_unix_nano / 1000,
        events: s.events@.map_values(|e: SpanEvent| e.name@),
    }
}

/// The spans of the scopes, scope after scope.
pub open spec fn scope_spans_list(scopes: Seq<ScopeSpans>) -> Seq<Span>
    decreases scopes.len(),
{
    if scopes.len() == 0 {
        Seq::empty()
    } else {
        scope_spans_list(scopes.drop_last()) + scopes.last().spans@
    }
}

/// The spans of a request, resource after resource.
pub open spec fn request_spans(resources: Seq<ResourceSpans>) -> Seq<Span>
    decreases resources.len(),
{
    if resources.len() == 0 {
        Seq::empty()
    } else {
        request_spans(resources.drop_last()) + scope_spans_list(resources.last().scope_spans@)
    }
}

/// A trace keeps its span's ids in hex, its name, its times in whole
/// microseconds (the nanoseconds divided by a thousand, rounded down), and
/// the names of its events in order.
pub proof fn lemma_span_trace(s: Span)
    ensures
        span_trace(s).trace_id == id_text(s.trace_id@, 16),
        span_trace(s).span_id == id_text(s.span_id@, 8),
        span_trace(s).parent_span_id == id_text(s.parent_span_id@, 8),
        span_trace(s).name == s.name@,
        span_trace(s).start_time * 1000 <= s.start_time_unix_nano < (span_trace(s).start_time + 1) * 1000,
        span_trace(s).end_time * 1000 <= s.end_time_unix_nano < (span_trace(s).end_time + 1) * 1000,
        span_trace(s).events.len() == s.events@.len(),
        forall|i: int| 0 <= i < s.events@.len() ==> #[trigger] span_trace(s).events[i] == s.events@[i].name@,
{
}

/// A log keeps its record's times in whole microseconds (the nanoseconds
/// divided by a thousand, rounded down), its severity, event name, the text
/// of its body and its ids in hex.
pub proof fn lemma_record_log(r: LogRecord)
    ensures
        record_log(r).timestamp * 1000 <= r.time_unix_nano < (record_log(r).timestamp + 1) * 1000,
        record_log(r).observed_timestamp * 1000 <= r.observed_time_unix_nano
            < (record_log(r).observed_timestamp + 1) * 1000,
        record_log(r).log_level == r.severity_number,
        record_log(r).event_name == r.event_name@,
        r.body matches Some(b) ==> record_log(r).body == any_value_text(b),
        record_log(r).trace_id == id_text(r.trace_id@, 16),
        record_log(r).span_id == id_text(r.span_id@, 8),
{
}

/// The spans of scopes `a` then `b` are those of every scope of `a`
/// followed by those of every scope of `b`; a single scope gives its own
/// spans.  So the traces of a resource are those of its first scope's
/// spans, then its second's, and so on, as many as all its scopes' spans.
pub proof fn lemma_scope_spans_list_concat(a: Seq<ScopeSpans>, b: Seq<ScopeSpans>)
    ensures
        scope_spans_list(a + b) == scope_spans_list(a) + scope_spans_list(b),
        b.len() == 1 ==> scope_spans_list(b) == b[0].spans@,
    decreases b.len(),
{
    if b.len() == 0 {
        assert(a + b =~= a);
        assert(scope_spans_list(a) + scope_spans_list(b) =~= scope_spans_list(a));
    } else {
        lemma_scope_spans_list_concat(a, b.drop_last());
        assert((a + b).drop_last() =~= a + b.drop_last());
        assert((a + b).last() == b.last());
        assert(scope_spans_list(a + b) =~= scope_spans_list(a) + scope_spans_list(b));
        if b.len() == 1 {
            assert(b.drop_last() =~= Seq::<ScopeSpans>::empty());
            assert(scope_spans_list(b) =~= b[0].spans@);
        }
    }
}

/// The spans of resources `a` then `b` are those of `a` followed by those
/// of `b`; a single resource gives the spans of its scopes.
pub proof fn lemma_request_spans_concat(a: Seq<ResourceSpans>, b: Seq<ResourceSpans>)
    ensures
        request_spans(a + b) == request_spans(a) + request_spans(b),
        b.len() == 1 ==> request_spans(b) == scope_spans_list(b[0].scope_spans@),
    decreases b.len(),
{
    if b.len() == 0 {
        assert(a + b =~= a);
        assert(request_spans(a) + request_spans(b) =~= request_spans(a));
    } else {
        lemma_request_spans_concat(a, b.drop_last());
        assert((a + b).drop_last() =~= a + b.drop_last());
        assert((a + b).last() == b.last());
        assert(request_spans(a + b) =~= request_spans(a) + request_spans(b));
        if b.len() == 1 {
            assert(b.drop_last() =~= Seq::<ResourceSpans>::empty());
            assert(request_spans(b) =~= scope_spans_list(b[0].scope_spans@));
        }
    }
}

/// The log records of scopes `a` then `b` are those of `a` followed by
/// those of `b`; a single scope gives its own records.
pub proof fn lemma_scope_log_records_concat(a: Seq<ScopeLogs>, b: Seq<ScopeLogs>)
    ensures
        scope_log_records(a + b) == scope_log_records(a) + scope_log_records(b),
        b.len() == 1 ==> scope_log_records(b) == b[0].log_records@,
    decreases b.len(),
{
    if b.len() == 0 {
        assert(a + b =~= a);
        assert(scope_log_records(a) + scope_log_records(b) =~= scope_log_records(a));
    } else {
        lemma_scope_log_records_concat(a, b.drop_last());
        assert((a + b).drop_last() =~= a + b.drop_last());
        assert((a + b).last() == b.last());
        assert(scope_log_records(a + b) =~= scope_log_records(a) + scope_log_records(b));
        if b.len() == 1 {
            assert(b.drop_last() =~= Seq::<ScopeLogs>::empty());
            assert(scope_log_records(b) =~= b[0].log_records@);
        }
    }
}

/// The log records of resources `a` then `b` are those of `a` followed by
/// those of `b`; a single resource gives the records of its scopes.
pub proof fn lemma_request_log_records_concat(a: Seq<ResourceLogs>, b: Seq<ResourceLogs>)
    ensures
        request_log_records(a + b) == request_log_records(a) + request_log_records(b),
        b.len() == 1 ==> request_log_records(b) == scope_log_records(b[0].scope_logs@),
    decreases b.len(),
{
    if b.len() == 0 {
        assert(a + b =~= a);
        assert(request_log_records(a) + request_log_records(b) =~= request_log_records(a));
    } else {
        lemma_request_log_records_concat(a, b.drop_last());
        assert((a + b).drop_last() =~= a + b.drop_last());
        assert((a + b).last() == b.last());
        assert(request_log_records(a + b) =~= request_log_records(a) + request_log_records(b));
        if b.len() == 1 {
            assert(b.drop_last() =~= Seq::<ResourceLogs>::empty());
            assert(request_log_records(b) =~= scope_log_records(b[0].scope_logs@));
        }
    }
}

/// The trace kept of each span of the request, in order.
pub fn trace_parser(trace_request: TracesRequest) -> (traces: Vec<Trace>)
    ensures
        traces@.map_values(|t: Trace| t@)
            == request_spans(trace_request.resource_spans@).map_values(|s: Span| span_trace(s)),
{
    let mut traces: Vec<Trace> = Vec::new();
    let resources = &trace_request.resource_spans;
    let n = resources.len();
    let mut i: usize = 0;
    while i < n
        invariant
            i <= n,
            n == resources@.len(),
            *resources == trace_request.resource_spans,
            traces@.map_values(|t: Trace| t@)
                == request_spans(resources@.take(i as int)).map_values(|s: Span| span_trace(s)),
        decreases n - i,
    {
        let resource_span = &resources[i];
        let ghost before = request_spans(resources@.take(i as int));
        let scopes = &resource_span.scope_spans;
        let m = scopes.len();
        let mut j: usize = 0;
        while j < m
            invariant
                j <= m,
                m == scopes@.len(),
                traces@.map_values(|t: Trace| t@)
                    == (before + scope_spans_list(scopes@.take(j as int))).map_values(|s: Span| span_trace(s)),
            decreases m - j,
        {
            let scope_span = &scopes[j];
            let ghost done = before + scope_spans_list(scopes@.take(j as int));
            let spans = &scope_span.spans;
            let p = spans.len();
            let mut k: usize = 0;
            while k < p
                invariant
                    k <= p,
                    p == spans@.len(),
                    traces@.map_values(|t: Trace| t@)
                        == (done + spans@.take(k as int)).map_values(|s: Span| span_trace(s)),
                decreases p - k,
            {
                let span = &spans[k];
                let trace_id = id_hex(&span.trace_id, 16);
                let span_id = id_hex(&span.span_id, 8);
                let parent_span_id = id_hex(&span.parent_span_id, 8);
                let name = span.name.clone();
                let start_time = span.start_time_unix_nano / 1000;
                let end_time = span.end_time_unix_nano / 1000;
                let mut trace = Trace::new(trace_id, span_id, parent_span_id, name, start_time, end_time);
                let events = &span.events;
                let q = events.len();
                let mut e: usize = 0;
                assert(events@.take(0).map_values(|ev: SpanEvent| ev.name@) =~= Seq::<Seq<char>>::empty());
                while e < q
                    invariant
                        e <= q,
                        q == events@.len(),
                        trace@ == (TraceView {
                            events: events@.take(e as int).map_values(|ev: SpanEvent| ev.name@),
                            ..span_trace(*span)
                        }),
                    decreases q - e,
                {
                    let event_name = events[e].name.clone();
                    trace.add_event(event_name);
                    assert(events@.take(e + 1).map_values(|ev: SpanEvent| ev.name@)
                        =~= events@.take(e as int).map_values(|ev: SpanEvent| ev.name@).push(events@[e as int].name@));
                    e = e + 1;
                }
                assert(events@.take(q as int) =~= events@);
                let ghost before_traces = traces@;
                traces.push(trace);
                proof {
                    assert(done + spans@.take(k + 1) =~= (done + spans@.take(k as int)).push(spans@[k as int]));
                    assert(traces@.map_values(|t: Trace| t@)
                        =~= before_traces.map_values(|t: Trace| t@).push(span_trace(spans@[k as int])));
                }
                k = k + 1;
            }
            proof {
                assert(spans@.take(p as int) =~= spans@);
                assert(scopes@.take(j + 1).drop_last() =~= scopes@.take(j as int));
                assert(before + scope_spans_list(scopes@.take(j + 1)) =~= done + spans@);
            }
            j = j + 1;
        }
        proof {
            assert(scopes@.take(m as int) =~= scopes@);
            assert(resources@.take(i + 1).drop_last() =~= resources@.take(i as int));
        }
        i = i + 1;
    }
    proof {
        assert(resources@.take(n as int) =~= resources@);
    }
    traces
}

/// Why logs were not received.
#[derive(Debug, PartialEq, Eq, Structural)]
pub enum LogsError {
    /// The body is JSON, which is not read yet.
    JsonNotSupported,
    /// The content type is neither protobuf nor JSON.
    UnsupportedContentType,
    /// The body does not decode as an OTLP logs export request.
    Decode,
    /// A record has no body, or a value within a body is absent or refers
    /// to a string table.
    MissingBody,
}

/// What receiving a protobuf logs body gives: the log of each record of the
/// decoded request, or the error that stops it.
pub open spec fn logs_received(body: Seq<u8>, r: Result<Vec<Log>, LogsError>) -> bool {
    match otlp_logs_request(body) {
        None => r == Err::<Vec<Log>, LogsError>(LogsError::Decode),
        Some(req) => if records_have_bodies(request_log_records(req.resource_logs@)) {
            r matches Ok(logs) && logs@.map_values(|l: Log| l@)
                == request_log_records(req.resource_logs@).map_values(|rec: LogRecord| record_log(rec))
        } else {
            r == Err::<Vec<Log>, LogsError>(LogsError::MissingBody)
        },
    }
}

proof fn lemma_bodies_concat(a: Seq<LogRecord>, b: Seq<LogRecord>)
    ensures
        records_have_bodies(a + b) == (records_have_bodies(a) && records_have_bodies(b)),
{
    if records_have_bodies(a + b) {
        assert forall|i: int| 0 <= i < a.len() implies record_has_body(#[trigger] a[i]) by {
            assert(a[i] == (a + b)[i]);
        }
        assert forall|i: int| 0 <= i < b.len() implies record_has_body(#[trigger] b[i]) by {
            assert(b[i] == (a + b)[a.len() + i]);
        }
    }
    if records_have_bodies(a) && records_have_bodies(b) {
        assert forall|i: int| 0 <= i < (a + b).len() implies record_has_body(#[trigger] (a + b)[i]) by {
            if i < a.len() {
                assert((a + b)[i] == a[i]);
            } else {
                assert((a + b)[i] == b[i - a.len()]);
            }
        }
    }
}

fn records_bodies_complete(records: &Vec<LogRecord>) -> (r: bool)
    ensures
        r == records_have_bodies(records@),
{
    let n = records.len();
    let mut i: usize = 0;
    while i < n
        invariant
            i <= n,
            n == records@.len(),
            forall|k: int| 0 <= k < i ==> record_has_body(#[trigger] records@[k]),
        decreases n - i,
    {
        let ok = match &records[i].body {
            Some(b) => Log::is_complete(b),
            None => false,
        };
        if !ok {
            return false;
        }
        i = i + 1;
    }
    true
}

fn scopes_bodies_complete(scopes: &Vec<ScopeLogs>) -> (r: bool)
    ensures
        r == records_have_bodies(scope_log_records(scopes@)),
{
    let n = scopes.len();
    let mut i: usize = 0;
    let mut ok = true;
    assert(scopes@.take(0) =~= Seq::<ScopeLogs>::empty());
    while i < n
        invariant
            i <= n,
            n == scopes@.len(),
            ok == records_have_bodies(scope_log_records(scopes@.take(i as int))),
        decreases n - i,
    {
        let here = records_bodies_complete(&scopes[i].log_records);
        proof {
            lemma_scope_records_prefix(scopes@, i as int);
            lemma_bodies_concat(scope_log_records(scopes@.take(i as int)), scopes@[i as int].log_records@);
        }
        ok = ok && here;
        i = i + 1;
    }
    assert(scopes@.take(n as int) =~= scopes@);
    ok
}

fn request_bodies_complete(resources: &Vec<ResourceLogs>) -> (r: bool)
    ensures
        r == records_have_bodies(request_log_records(resources@)),
{
    let n = resources.len();
    let mut i: usize = 0;
    let mut ok = true;
    assert(resources@.take(0) =~= Seq::<ResourceLogs>::empty());
    while i < n
        invariant
            i <= n,
            n == resources@.len(),
            ok == records_have_bodies(request_log_records(resources@.take(i as int))),
        decreases n - i,
    {
        let here = scopes_bodies_complete(&resources[i].scope_logs);
        proof {
            lemma_request_records_prefix(resources@, i as int);
            lemma_bodies_concat(request_log_records(resources@.take(i as int)),
                scope_log_records(resources@[i as int].scope_logs@));
        }
        ok = ok && here;
        i = i + 1;
    }
    assert(resources@.take(n as int) =~= resources@);
    ok
}

/// The logs of a protobuf body: `Decode` where it does not decode,
/// `MissingBody` where a record lacks a complete body, else the log of each
/// record in order.
pub fn receive_logs(body: &[u8]) -> (r: Result<Vec<Log>, LogsError>)
    ensures
        logs_received(body@, r),
{
    match decode_logs_request(body) {
        None => Err(LogsError::Decode),
        Some(req) => {
            if request_bodies_complete(&req.resource_logs) {
                Ok(logs_parser(req))
            } else {
                Err(LogsError::MissingBody)
            }
        },
    }
}

/// The logs of a request body of the given content type: JSON and other
/// content types are refused; a protobuf body is received as
/// `receive_logs` says.
pub fn add_logs(content_type: &str, body: &[u8]) -> (r: Result<Vec<Log>, LogsError>)
    ensures
        match payload_kind_of(content_type@) {
            PayloadKind::Json => r == Err::<Vec<Log>, LogsError>(LogsError::JsonNotSupported),
            PayloadKind::Unsupported => r == Err::<Vec<Log>, LogsError>(LogsError::UnsupportedContentType),
            PayloadKind::Protobuf => logs_received(body@, r),
        },
{
    match payload_kind(content_type) {
        PayloadKind::Protobuf => receive_logs(body),
        PayloadKind::Json => Err(LogsError::JsonNotSupported),
        PayloadKind::Unsupported => Err(LogsError::UnsupportedContentType),
    }
}

/// The traces of a protobuf body: `None` where it does not decode, else the
/// trace of each span in order.
pub fn receive_traces(body: &[u8]) -> (r: Option<Vec<Trace>>)
    ensures
        match otlp_traces_request(body@) {
            None => r is None,
            Some(req) => r matches Some(ts) && ts@.map_values(|t: Trace| t@)
                == request_spans(req.resource_spans@).map_values(|s: Span| span_trace(s)),
        },
{
    match decode_traces_request(body) {
        None => None,
        Some(req) => Some(trace_parser(req)),
    }
}

} // verus!
