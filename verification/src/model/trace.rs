//! Spans of a trace.
use vstd::prelude::*;

verus! {

/// One span: its ids, name, start and end times and the names of its events.
#[derive(Debug)]
pub struct Trace {
    trace_id: String,
    span_id: String,
    parent_span_id: String,
    name: String,
    start_time: u64,
    end_time: u64,
    events: Vec<String>,
}

/// The values a `Trace` holds.
pub struct TraceView {
    pub trace_id: Seq<char>,
    pub span_id: Seq<char>,
    pub parent_span_id: Seq<char>,
    pub name: Seq<char>,
    pub start_time: u64,
    pub end_time: u64,
    pub events: Seq<Seq<char>>,
}

impl View for Trace {
    type V = TraceView;

    closed spec fn view(&self) -> TraceView {
        TraceView {
            trace_id: self.trace_id@,
            span_id: self.span_id@,
            parent_span_id: self.parent_span_id@,
            name: self.name@,
            start_time: self.start_time,
            end_time: self.end_time,
            events: self.events@.map_values(|e: String| e@),
        }
    }
}

impl Trace {
    /// A span without events.
    pub fn new(trace_id: String, span_id: String, parent_span_id: String, name: String, start_time: u64, end_time: u64) -> (r: Self)
        ensures
            r@ == (TraceView {
                trace_id: trace_id@,
                span_id: span_id@,
                parent_span_id: parent_span_id@,
                name: name@,
                start_time,
                end_time,
                events: Seq::empty(),
            }),
    {
        let r = Trace { trace_id, span_id, parent_span_id, name, start_time, end_time, events: Vec::new() };
        assert(r@.events =~= Seq::<Seq<char>>::empty());
        r
    }

    /// Appends an event name; the rest of the span is unchanged.
    pub fn add_event(&mut self, event: String)
        ensures
            final(self)@ == (TraceView { events: old(self)@.events.push(event@), ..old(self)@ }),
    {
        self.events.push(event);
        assert(final(self)@.events =~= old(self)@.events.push(event@));
    }
}

} // verus!
