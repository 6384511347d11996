//! Log records, the entries that hold them, and the file of entries.
use vstd::prelude::*;
use vstd::utf8::{encode_utf8, decode_utf8, valid_utf8, encode_utf8_decode_utf8, encode_utf8_valid_utf8, decode_utf8_encode_utf8};
use vstd::slice::slice_to_vec;
use crate::codec::{
    u64_be, u64_from_be, u32_be, u32_from_be, i32_be, i32_from_be, lemma_u64_be_roundtrip,
    lemma_u32_be_roundtrip, lemma_i32_be_roundtrip, lemma_u64_from_be_roundtrip,
    lemma_u32_from_be_roundtrip, lemma_i32_from_be_roundtrip, u64_to_be_bytes, u32_to_be_bytes,
    i32_to_be_bytes, u64_from_be_bytes, u32_from_be_bytes, i32_from_be_bytes,
};
use crate::text::{
    string_from_utf8, push_char, push_str, push_signed_decimal, signed_decimal_text, utf8_lossy,
    utf8_lossy_text, json_object_string, json_object_text, entry_texts,
};
use crate::parsers::otlp::{AnyValue, KeyValue, Value};
use crate::model::{ReadableModel, HEADER_SEGMENT_LENGTH};
use crate::model::header::{Header, HeaderView, unix_time_now};
use crate::model::mutable_headers::{
    MutableHeader, MutableHeaderView, mutable_header_bytes, mutable_header_len, mutable_header_from,
    lemma_mutable_header_roundtrip, lemma_mutable_header_bytes_of_read,
};

verus! {

/// One log record.
#[derive(Debug)]
pub struct Log {
    timestamp: u64,
    observed_timestamp: u64,
    log_level: i32,
    event_name: String,
    body: String,
    trace_id: String,
    span_id: String,
}

/// The values a `Log` holds.
pub struct LogView {
    pub timestamp: u64,
    pub observed_timestamp: u64,
    pub log_level: i32,
    pub event_name: Seq<char>,
    pub body: Seq<char>,
    pub trace_id: Seq<char>,
    pub span_id: Seq<char>,
}

impl View for Log {
    type V = LogView;

    closed spec fn view(&self) -> LogView {
        LogView {
            timestamp: self.timestamp,
            observed_timestamp: self.observed_timestamp,
            log_level: self.log_level,
            event_name: self.event_name@,
            body: self.body@,
            trace_id: self.trace_id@,
            span_id: self.span_id@,
        }
    }
}

/// A value that a log can keep: present, not a string-table reference, and
/// so are all the values within it.
pub open spec fn value_complete(v: AnyValue) -> bool
    decreases v,
{
    match v.value {
        Some(Value::ArrayValue(items)) => items_complete(items@),
        Some(Value::KvlistValue(kvs)) => kvs_complete(kvs@),
        Some(Value::StringValueStrindex(_)) => false,
        Some(_) => true,
        None => false,
    }
}

/// Every item is complete.
pub open spec fn items_complete(items: Seq<AnyValue>) -> bool
    decreases items,
{
    if items.len() == 0 {
        true
    } else {
        items_complete(items.drop_last()) && value_complete(items.last())
    }
}

/// Every key has a value, and it is complete.
pub open spec fn kvs_complete(kvs: Seq<KeyValue>) -> bool
    decreases kvs,
{
    if kvs.len() == 0 {
        true
    } else {
        kvs_complete(kvs.drop_last()) && match kvs.last().value {
            Some(v) => value_complete(v),
            None => false,
        }
    }
}

/// The text that a log keeps of a complete value: strings as they are,
/// booleans and integers as `to_string` writes them, doubles as the text
/// they carry, arrays as `[a, b, ...]`, key-value lists as a JSON object of
/// strings, and bytes decoded as UTF-8 with invalid sequences replaced.
pub open spec fn any_value_text(v: AnyValue) -> Seq<char>
    decreases v,
{
    match v.value {
        Some(Value::StringValue(s)) => s@,
        Some(Value::BoolValue(b)) => if b { seq!['t', 'r', 'u', 'e'] } else { seq!['f', 'a', 'l', 's', 'e'] },
        Some(Value::IntValue(i)) => signed_decimal_text(i as int),
        Some(Value::DoubleValue(t)) => t@,
        Some(Value::ArrayValue(items)) => seq!['['] + items_text(items@) + seq![']'],
        Some(Value::KvlistValue(kvs)) => json_object_text(kv_texts(kvs@)),
        Some(Value::BytesValue(b)) => utf8_lossy_text(b@),
        Some(Value::StringValueStrindex(_)) => Seq::empty(),
        None => Seq::empty(),
    }
}

/// The texts of `items`, separated by `", "`.
pub open spec fn items_text(items: Seq<AnyValue>) -> Seq<char>
    decreases items,
{
    if items.len() == 0 {
        Seq::empty()
    } else if items.len() == 1 {
        any_value_text(items[0])
    } else {
        items_text(items.drop_last()) + seq![',', ' '] + any_value_text(items.last())
    }
}

/// Each key with the text of its value.
pub open spec fn kv_texts(kvs: Seq<KeyValue>) -> Seq<(Seq<char>, Seq<char>)>
    decreases kvs,
{
    if kvs.len() == 0 {
        Seq::empty()
    } else {
        let text = match kvs.last().value {
            Some(v) => any_value_text(v),
            None => Seq::empty(),
        };
        kv_texts(kvs.drop_last()).push((kvs.last().key@, text))
    }
}

/// The key-value texts hold one pair per key-value, in order: its key, and
/// the text of its value (empty where it has none).
pub proof fn lemma_kv_texts_keys(kvs: Seq<KeyValue>)
    ensures
        kv_texts(kvs).len() == kvs.len(),
        forall|i: int| 0 <= i < kvs.len() ==> #[trigger] kv_texts(kvs)[i].0 == kvs[i].key@,
        forall|i: int| 0 <= i < kvs.len() ==> (#[trigger] kvs[i].value matches Some(v)
            ==> kv_texts(kvs)[i].1 == any_value_text(v)),
    decreases kvs.len(),
{
    if kvs.len() > 0 {
        lemma_kv_texts_keys(kvs.drop_last());
        assert forall|i: int| 0 <= i < kvs.len() - 1 implies #[trigger] kvs[i] == kvs.drop_last()[i] by {}
    }
}

/// The text of a list holds the text of every item, in order, separated
/// by `", "`: the text of `xs` followed by `ys` is the text of `xs`, then
/// `", "`, then the text of `ys`; a single item's text is its own text; and
/// an array value is written as its items' text within brackets.
pub proof fn lemma_items_text_join(xs: Seq<AnyValue>, ys: Seq<AnyValue>)
    ensures
        xs.len() > 0 && ys.len() > 0 ==> items_text(xs + ys) == items_text(xs) + seq![',', ' '] + items_text(ys),
        xs.len() == 0 ==> items_text(xs + ys) == items_text(ys),
        ys.len() == 1 ==> items_text(ys) == any_value_text(ys[0]),
        forall|v: AnyValue| (#[trigger] v.value matches Some(Value::ArrayValue(items))
            ==> any_value_text(v) == seq!['['] + items_text(items@) + seq![']']),
    decreases ys.len(),
{
    if xs.len() == 0 {
        assert(xs + ys =~= ys);
    } else if ys.len() == 1 {
        assert((xs + ys).drop_last() =~= xs);
        assert((xs + ys).last() == ys[0]);
    } else if ys.len() > 1 {
        lemma_items_text_join(xs, ys.drop_last());
        assert((xs + ys).drop_last() =~= xs + ys.drop_last());
        assert((xs + ys).last() == ys.last());
        assert(items_text(xs + ys) =~= items_text(xs) + seq![',', ' '] + items_text(ys));
    }
}

/// The items of a complete list are complete.
pub proof fn lemma_items_complete(items: Seq<AnyValue>, i: int)
    requires
        items_complete(items),
        0 <= i < items.len(),
    ensures
        value_complete(items[i]),
    decreases items.len(),
{
    if i < items.len() - 1 {
        lemma_items_complete(items.drop_last(), i);
    }
}

/// The values of a complete key-value list are present and complete.
pub proof fn lemma_kvs_complete(kvs: Seq<KeyValue>, i: int)
    requires
        kvs_complete(kvs),
        0 <= i < kvs.len(),
    ensures
        kvs[i].value matches Some(v) && value_complete(v),
    decreases kvs.len(),
{
    if i < kvs.len() - 1 {
        lemma_kvs_complete(kvs.drop_last(), i);
    }
}

/// A text field as stored: its UTF-8 byte length as four big-endian bytes
/// (the length cut to 32 bits), then its UTF-8 bytes.
pub open spec fn text_field_bytes(s: Seq<char>) -> Seq<u8> {
    u32_be(encode_utf8(s).len() as u32) + encode_utf8(s)
}

/// The length that the text field at `off` declares.
pub open spec fn text_field_len(data: Seq<u8>, off: int) -> int {
    u32_from_be(data.subrange(off, off + 4)) as int
}

/// Where the text field at `off` ends.
pub open spec fn text_field_end(data: Seq<u8>, off: int) -> int {
    off + 4 + text_field_len(data, off)
}

/// The text field at `off` lies within `data` and holds valid UTF-8.
pub open spec fn text_field_readable(data: Seq<u8>, off: int) -> bool {
    &&& 0 <= off
    &&& off + 4 <= data.len()
    &&& text_field_end(data, off) <= data.len()
    &&& valid_utf8(data.subrange(off + 4, text_field_end(data, off)))
}

/// The text held by the field at `off`.
pub open spec fn text_field_text(data: Seq<u8>, off: int) -> Seq<char> {
    decode_utf8(data.subrange(off + 4, text_field_end(data, off)))
}

/// Length of the fixed part of an encoded log: two timestamps and the level.
pub open spec fn log_fixed_len() -> int {
    20
}

/// The encoding of a log: timestamp, observed timestamp (eight big-endian
/// bytes each), level (four), then the event name, body, trace id and span
/// id as text fields.
pub open spec fn log_bytes(l: LogView) -> Seq<u8> {
    u64_be(l.timestamp) + u64_be(l.observed_timestamp) + i32_be(l.log_level)
        + text_field_bytes(l.event_name) + text_field_bytes(l.body)
        + text_field_bytes(l.trace_id) + text_field_bytes(l.span_id)
}

/// Where each of the four text fields of the log read from `data` starts.
pub open spec fn log_field_offsets(data: Seq<u8>) -> (int, int, int, int) {
    let o1 = log_fixed_len();
    let o2 = text_field_end(data, o1);
    let o3 = text_field_end(data, o2);
    let o4 = text_field_end(data, o3);
    (o1, o2, o3, o4)
}

/// The byte strings from the front of which a log can be read.
pub open spec fn log_readable(data: Seq<u8>) -> bool {
    let (o1, o2, o3, o4) = log_field_offsets(data);
    &&& data.len() >= log_fixed_len()
    &&& text_field_readable(data, o1)
    &&& text_field_readable(data, o2)
    &&& text_field_readable(data, o3)
    &&& text_field_readable(data, o4)
}

/// Where the log read from `data` ends.
pub open spec fn log_end(data: Seq<u8>) -> int {
    text_field_end(data, log_field_offsets(data).3)
}

/// The log read from the front of `data`.
pub open spec fn log_from(data: Seq<u8>) -> LogView {
    let (o1, o2, o3, o4) = log_field_offsets(data);
    LogView {
        timestamp: u64_from_be(data.subrange(0, 8)),
        observed_timestamp: u64_from_be(data.subrange(8, 16)),
        log_level: i32_from_be(data.subrange(16, 20)),
        event_name: text_field_text(data, o1),
        body: text_field_text(data, o2),
        trace_id: text_field_text(data, o3),
        span_id: text_field_text(data, o4),
    }
}

/// Whether each text of the log has a UTF-8 length that its four-byte
/// length prefix can hold.
pub open spec fn log_fields_fit(l: LogView) -> bool {
    &&& encode_utf8(l.event_name).len() <= u32::MAX
    &&& encode_utf8(l.body).len() <= u32::MAX
    &&& encode_utf8(l.trace_id).len() <= u32::MAX
    &&& encode_utf8(l.span_id).len() <= u32::MAX
}

/// The size a log reports for itself: the encoded length.
pub open spec fn log_size(l: LogView) -> nat {
    36nat + encode_utf8(l.event_name).len() + encode_utf8(l.body).len()
        + encode_utf8(l.trace_id).len() + encode_utf8(l.span_id).len()
}

proof fn lemma_text_field_at(prefix: Seq<u8>, s: Seq<char>, rest: Seq<u8>)
    requires
        encode_utf8(s).len() <= u32::MAX,
    ensures
        ({
            let data = prefix + text_field_bytes(s) + rest;
            let off = prefix.len() as int;
            &&& text_field_readable(data, off)
            &&& text_field_text(data, off) == s
            &&& text_field_end(data, off) == off + text_field_bytes(s).len()
        }),
{
    let data = prefix + text_field_bytes(s) + rest;
    let off = prefix.len() as int;
    let e = encode_utf8(s);
    lemma_u32_be_roundtrip(e.len() as u32);
    assert(data.subrange(off, off + 4) =~= u32_be(e.len() as u32));
    assert(data.subrange(off + 4, off + 4 + e.len()) =~= e);
    encode_utf8_valid_utf8(s);
    encode_utf8_decode_utf8(s);
}

/// The encoded length of a log is the size it reports.
pub proof fn lemma_log_bytes_len(l: LogView)
    ensures
        log_bytes(l).len() == log_size(l),
{
    lemma_u64_be_roundtrip(l.timestamp);
    lemma_i32_be_roundtrip(l.log_level);
    lemma_u32_be_roundtrip(encode_utf8(l.event_name).len() as u32);
    lemma_u32_be_roundtrip(encode_utf8(l.body).len() as u32);
    lemma_u32_be_roundtrip(encode_utf8(l.trace_id).len() as u32);
    lemma_u32_be_roundtrip(encode_utf8(l.span_id).len() as u32);
}

/// Encoding a log and reading it back gives the same log, and the reading
/// ends where the encoding ends, provided each text's length fits its
/// four-byte prefix.
#[verifier::rlimit(40)]
pub proof fn lemma_log_roundtrip(l: LogView, rest: Seq<u8>)
    requires
        log_fields_fit(l),
    ensures
        log_readable(log_bytes(l) + rest),
        log_from(log_bytes(l) + rest) == l,
        log_end(log_bytes(l) + rest) == log_bytes(l).len(),
{
    let data = log_bytes(l) + rest;
    let a = u64_be(l.timestamp) + u64_be(l.observed_timestamp) + i32_be(l.log_level);
    let f1 = text_field_bytes(l.event_name);
    let f2 = text_field_bytes(l.body);
    let f3 = text_field_bytes(l.trace_id);
    let f4 = text_field_bytes(l.span_id);
    lemma_u64_be_roundtrip(l.timestamp);
    lemma_u64_be_roundtrip(l.observed_timestamp);
    lemma_i32_be_roundtrip(l.log_level);
    assert(a.len() == 20);
    assert(data =~= a + f1 + (f2 + f3 + f4 + rest));
    lemma_text_field_at(a, l.event_name, f2 + f3 + f4 + rest);
    assert(data =~= (a + f1) + f2 + (f3 + f4 + rest));
    lemma_text_field_at(a + f1, l.body, f3 + f4 + rest);
    assert(data =~= (a + f1 + f2) + f3 + (f4 + rest));
    lemma_text_field_at(a + f1 + f2, l.trace_id, f4 + rest);
    assert(data =~= (a + f1 + f2 + f3) + f4 + rest);
    lemma_text_field_at(a + f1 + f2 + f3, l.span_id, rest);
    assert(data.subrange(0, 8) =~= u64_be(l.timestamp));
    assert(data.subrange(8, 16) =~= u64_be(l.observed_timestamp));
    assert(data.subrange(16, 20) =~= i32_be(l.log_level));
}

proof fn lemma_text_field_of_read(data: Seq<u8>, off: int)
    requires
        text_field_readable(data, off),
    ensures
        text_field_bytes(text_field_text(data, off)) == data.subrange(off, text_field_end(data, off)),
{
    let b = data.subrange(off + 4, text_field_end(data, off));
    decode_utf8_encode_utf8(b);
    lemma_u32_from_be_roundtrip(data.subrange(off, off + 4));
    assert(data.subrange(off, text_field_end(data, off)) =~= data.subrange(off, off + 4) + b);
}

/// Reading a log and encoding it again gives the bytes it was read from.
#[verifier::rlimit(40)]
pub proof fn lemma_log_bytes_of_read(data: Seq<u8>)
    requires
        log_readable(data),
    ensures
        log_bytes(log_from(data)) == data.subrange(0, log_end(data)),
{
    let (o1, o2, o3, o4) = log_field_offsets(data);
    lemma_u64_from_be_roundtrip(data.subrange(0, 8));
    lemma_u64_from_be_roundtrip(data.subrange(8, 16));
    lemma_i32_from_be_roundtrip(data.subrange(16, 20));
    lemma_text_field_of_read(data, o1);
    lemma_text_field_of_read(data, o2);
    lemma_text_field_of_read(data, o3);
    lemma_text_field_of_read(data, o4);
    assert(data.subrange(0, log_end(data)) =~= data.subrange(0, 8) + data.subrange(8, 16)
        + data.subrange(16, 20) + data.subrange(o1, o2) + data.subrange(o2, o3)
        + data.subrange(o3, o4) + data.subrange(o4, log_end(data)));
}

/// Appends a text field: the byte length cut to 32 bits, then the bytes.
fn push_text_field(bytes: &mut Vec<u8>, s: &String)
    ensures
        final(bytes)@ == old(bytes)@ + text_field_bytes(s@),
{
    let b = s.as_str().as_bytes();
    let len = b.len() as u32;
    bytes.extend_from_slice(u32_to_be_bytes(len).as_slice());
    bytes.extend_from_slice(b);
    assert(final(bytes)@ =~= old(bytes)@ + text_field_bytes(s@));
}

/// Reads the text field at `offset`; returns the text and where it ends.
fn read_text_field(data: &[u8], offset: usize) -> (r: (String, usize))
    requires
        text_field_readable(data@, offset as int),
    ensures
        r.0@ == text_field_text(data@, offset as int),
        r.1 == text_field_end(data@, offset as int),
{
    let n = data.len();
    // The field ends within the slice, so its offsets fit in a `usize`.
    assert(text_field_end(data@, offset as int) <= n);
    let len = u32_from_be_bytes(&data[offset..offset + 4]) as usize;
    let start = offset + 4;
    let text = string_from_utf8(slice_to_vec(&data[start..start + len]));
    match text {
        Some(s) => (s, start + len),
        None => {
            assert(false);
            (String::new(), 0)
        },
    }
}

impl Log {
    /// The text that a log keeps of `any_value`.
    pub fn get_value(any_value: &AnyValue) -> (r: String)
        requires
            value_complete(*any_value),
        ensures
            r@ == any_value_text(*any_value),
            any_value.value matches Some(Value::KvlistValue(kvs)) ==> forall|i: int, j: int|
                0 <= i < j < kvs@.len() && #[trigger] kvs@[i].key@ == #[trigger] kvs@[j].key@
                ==> r@ == json_object_text(kv_texts(kvs@).update(i, kv_texts(kvs@)[j])),
        decreases any_value,
    {
        match &any_value.value {
            Some(Value::StringValue(string)) => string.clone(),
            Some(Value::BoolValue(boolean)) => {
                let mut val = String::new();
                if *boolean {
                    push_char(&mut val, 't');
                    push_char(&mut val, 'r');
                    push_char(&mut val, 'u');
                    push_char(&mut val, 'e');
                } else {
                    push_char(&mut val, 'f');
                    push_char(&mut val, 'a');
                    push_char(&mut val, 'l');
                    push_char(&mut val, 's');
                    push_char(&mut val, 'e');
                }
                assert(val@ =~= any_value_text(*any_value));
                val
            },
            Some(Value::IntValue(int_val)) => {
                let mut val = String::new();
                push_signed_decimal(&mut val, *int_val);
                assert(val@ =~= any_value_text(*any_value));
                val
            },
            Some(Value::DoubleValue(float_text)) => float_text.clone(),
            Some(Value::ArrayValue(array_val)) => {
                let mut val = String::new();
                push_char(&mut val, '[');
                let n = array_val.len();
                let mut i: usize = 0;
                while i < n
                    invariant
                        i <= n,
                        n == array_val@.len(),
                        any_value.value == Some(Value::ArrayValue(*array_val)),
                        items_complete(array_val@),
                        val@ == seq!['['] + items_text(array_val@.take(i as int)),
                    decreases n - i,
                {
                    proof {
                        assert(decreases_to!(*any_value => any_value.value));
                        assert(decreases_to!(any_value.value => any_value.value->Some_0));
                        assert(decreases_to!(any_value.value->Some_0 => (any_value.value->Some_0)->ArrayValue_0));
                        assert(decreases_to!(*array_val => array_val[i as int]));
                        lemma_items_complete(array_val@, i as int);
                    }
                    let item = Log::get_value(&array_val[i]);
                    let ghost prefix = array_val@.take(i + 1);
                    proof {
                        assert(prefix.drop_last() =~= array_val@.take(i as int));
                        assert(prefix.last() == array_val@[i as int]);
                    }
                    if i > 0 {
                        push_char(&mut val, ',');
                        push_char(&mut val, ' ');
                    } else {
                        assert(array_val@.take(0) =~= Seq::<AnyValue>::empty());
                    }
                    push_str(&mut val, item.as_str());
                    assert(val@ =~= seq!['['] + items_text(prefix));
                    i = i + 1;
                }
                push_char(&mut val, ']');
                assert(array_val@.take(n as int) =~= array_val@);
                assert(val@ =~= any_value_text(*any_value));
                val
            },
            Some(Value::KvlistValue(kvlist_val)) => {
                let mut entries: Vec<(String, String)> = Vec::new();
                let n = kvlist_val.len();
                let mut i: usize = 0;
                while i < n
                    invariant
                        i <= n,
                        n == kvlist_val@.len(),
                        any_value.value == Some(Value::KvlistValue(*kvlist_val)),
                        kvs_complete(kvlist_val@),
                        entries@.map_values(|e: (String, String)| (e.0@, e.1@)) == kv_texts(kvlist_val@.take(i as int)),
                    decreases n - i,
                {
                    let kv = &kvlist_val[i];
                    proof {
                        lemma_kvs_complete(kvlist_val@, i as int);
                    }
                    let value_str = match &kv.value {
                        Some(v) => {
                            proof {
                                assert(decreases_to!(*any_value => any_value.value));
                                assert(decreases_to!(any_value.value => any_value.value->Some_0));
                                assert(decreases_to!(any_value.value->Some_0 => (any_value.value->Some_0)->KvlistValue_0));
                                assert(decreases_to!(*kvlist_val => kvlist_val[i as int]));
                                assert(decreases_to!(kvlist_val[i as int] => kvlist_val[i as int].value));
                                assert(decreases_to!(kvlist_val[i as int].value => kvlist_val[i as int].value->Some_0));
                            }
                            Log::get_value(v)
                        },
                        None => {
                            assert(false);
                            String::new()
                        },
                    };
                    let ghost before = entries@;
                    entries.push((kv.key.clone(), value_str));
                    proof {
                        let prefix = kvlist_val@.take(i + 1);
                        assert(prefix.drop_last() =~= kvlist_val@.take(i as int));
                        assert(entries@.map_values(|e: (String, String)| (e.0@, e.1@)) =~=
                            before.map_values(|e: (String, String)| (e.0@, e.1@)).push(
                                (kv.key@, any_value_text(kv.value->Some_0))));
                    }
                    i = i + 1;
                }
                assert(kvlist_val@.take(n as int) =~= kvlist_val@);
                let ghost kept = entries@;
                let r = json_object_string(entries);
                proof {
                    lemma_kv_texts_keys(kvlist_val@);
                    assert forall|i: int, j: int|
                        0 <= i < j < kvlist_val@.len() && #[trigger] kvlist_val@[i].key@ == #[trigger] kvlist_val@[j].key@
                        implies r@ == json_object_text(kv_texts(kvlist_val@).update(i, kv_texts(kvlist_val@)[j])) by {
                        assert(entry_texts(kept)[i].0 == kept[i].0@);
                        assert(entry_texts(kept)[j].0 == kept[j].0@);
                    }
                }
                r
            },
            Some(Value::BytesValue(bytes_val)) => utf8_lossy(bytes_val.as_slice()),
            Some(Value::StringValueStrindex(_)) => {
                assert(false);
                String::new()
            },
            None => {
                assert(false);
                String::new()
            },
        }
    }

    /// Whether `any_value` is complete: present, no string-table reference,
    /// and so are the values within it.
    pub fn is_complete(any_value: &AnyValue) -> (r: bool)
        ensures
            r == value_complete(*any_value),
        decreases any_value,
    {
        match &any_value.value {
            Some(Value::ArrayValue(array_val)) => {
                let n = array_val.len();
                let mut i: usize = 0;
                while i < n
                    invariant
                        i <= n,
                        n == array_val@.len(),
                        any_value.value == Some(Value::ArrayValue(*array_val)),
                        items_complete(array_val@.take(i as int)),
                    decreases n - i,
                {
                    proof {
                        assert(decreases_to!(*any_value => any_value.value));
                        assert(decreases_to!(any_value.value => any_value.value->Some_0));
                        assert(decreases_to!(any_value.value->Some_0 => (any_value.value->Some_0)->ArrayValue_0));
                        assert(decreases_to!(*array_val => array_val[i as int]));
                        assert(array_val@.take(i + 1).drop_last() =~= array_val@.take(i as int));
                    }
                    if !Log::is_complete(&array_val[i]) {
                        proof {
                            if items_complete(array_val@) {
                                lemma_items_complete(array_val@, i as int);
                            }
                        }
                        return false;
                    }
                    i = i + 1;
                }
                assert(array_val@.take(n as int) =~= array_val@);
                true
            },
            Some(Value::KvlistValue(kvlist_val)) => {
                let n = kvlist_val.len();
                let mut i: usize = 0;
                while i < n
                    invariant
                        i <= n,
                        n == kvlist_val@.len(),
                        any_value.value == Some(Value::KvlistValue(*kvlist_val)),
                        kvs_complete(kvlist_val@.take(i as int)),
                    decreases n - i,
                {
                    proof {
                        assert(kvlist_val@.take(i + 1).drop_last() =~= kvlist_val@.take(i as int));
                    }
                    let ok = match &kvlist_val[i].value {
                        Some(v) => {
                            proof {
                                assert(decreases_to!(*any_value => any_value.value));
                                assert(decreases_to!(any_value.value => any_value.value->Some_0));
                                assert(decreases_to!(any_value.value->Some_0 => (any_value.value->Some_0)->KvlistValue_0));
                                assert(decreases_to!(*kvlist_val => kvlist_val[i as int]));
                                assert(decreases_to!(kvlist_val[i as int] => kvlist_val[i as int].value));
                                assert(decreases_to!(kvlist_val[i as int].value => kvlist_val[i as int].value->Some_0));
                            }
                            Log::is_complete(v)
                        },
                        None => false,
                    };
                    if !ok {
                        proof {
                            if kvs_complete(kvlist_val@) {
                                lemma_kvs_complete(kvlist_val@, i as int);
                            }
                        }
                        return false;
                    }
                    i = i + 1;
                }
                assert(kvlist_val@.take(n as int) =~= kvlist_val@);
                true
            },
            Some(Value::StringValueStrindex(_)) => false,
            Some(_) => true,
            None => false,
        }
    }

    /// A log whose body is the text of `body`.
    pub fn new(timestamp: u64, observed_timestamp: u64, log_level: i32, event_name: String, body: &AnyValue,
        trace_id: String, span_id: String) -> (r: Log)
        requires
            value_complete(*body),
        ensures
            r@ == (LogView {
                timestamp,
                observed_timestamp,
                log_level,
                event_name: event_name@,
                body: any_value_text(*body),
                trace_id: trace_id@,
                span_id: span_id@,
            }),
    {
        Log {
            timestamp,
            observed_timestamp,
            log_level,
            event_name,
            body: Log::get_value(body),
            trace_id,
            span_id,
        }
    }
}

impl ReadableModel for Log {
    open spec fn readable(data: Seq<u8>) -> bool {
        log_readable(data)
    }

    open spec fn sizeable(&self) -> bool {
        log_size(self@) <= usize::MAX
    }

    fn from_bytes(data: &[u8]) -> (r: Self)
        ensures
            r@ == log_from(data@),
    {
        let timestamp = u64_from_be_bytes(&data[0..8]);
        let observed_timestamp = u64_from_be_bytes(&data[8..16]);
        let log_level = i32_from_be_bytes(&data[16..20]);
        let (event_name, offset) = read_text_field(data, 20);
        let (body, offset) = read_text_field(data, offset);
        let (trace_id, offset) = read_text_field(data, offset);
        let (span_id, _offset) = read_text_field(data, offset);
        Log { timestamp, observed_timestamp, log_level, event_name, body, trace_id, span_id }
    }

    fn to_bytes(&self) -> (r: Vec<u8>)
        ensures
            r@ == log_bytes(self@),
            r@.len() == log_size(self@),
    {
        proof {
            lemma_log_bytes_len(self@);
        }
        let mut bytes: Vec<u8> = Vec::new();
        bytes.extend_from_slice(u64_to_be_bytes(self.timestamp).as_slice());
        bytes.extend_from_slice(u64_to_be_bytes(self.observed_timestamp).as_slice());
        bytes.extend_from_slice(i32_to_be_bytes(self.log_level).as_slice());
        push_text_field(&mut bytes, &self.event_name);
        push_text_field(&mut bytes, &self.body);
        push_text_field(&mut bytes, &self.trace_id);
        push_text_field(&mut bytes, &self.span_id);
        assert(bytes@ =~= log_bytes(self@));
        bytes
    }

    fn size_in_bytes(&self) -> (r: usize)
        ensures
            r == log_size(self@),
    {
        8 * 2 + 4 + self.event_name.as_str().len() + self.body.as_str().len()
            + self.trace_id.as_str().len() + self.span_id.as_str().len() + 4 * 4
    }
}

/// A log with the length of its stored form.
pub struct LogEntry {
    length: usize,
    log: Log,
}

/// The values a `LogEntry` holds.
pub struct LogEntryView {
    pub length: nat,
    pub log: LogView,
}

impl View for LogEntry {
    type V = LogEntryView;

    closed spec fn view(&self) -> LogEntryView {
        LogEntryView { length: self.length as nat, log: self.log@ }
    }
}

/// An entry whose recorded length is the length of its encoding.
pub open spec fn entry_wf(e: LogEntryView) -> bool {
    e.length == log_size(e.log) + 8
}

/// The encoding of an entry: its length as eight big-endian bytes, then the log.
pub open spec fn entry_bytes(e: LogEntryView) -> Seq<u8> {
    u64_be(e.length as u64) + log_bytes(e.log)
}

/// The length that the entry at the front of `data` declares.
pub open spec fn entry_declared_len(data: Seq<u8>) -> int {
    u64_from_be(data.subrange(0, 8)) as int
}

/// The byte strings from the front of which an entry can be read.
pub open spec fn entry_readable(data: Seq<u8>) -> bool {
    &&& data.len() >= 8
    &&& 8 <= entry_declared_len(data) <= data.len()
    &&& log_readable(data.subrange(8, entry_declared_len(data)))
}

/// The entry read from the front of `data`.
pub open spec fn entry_from(data: Seq<u8>) -> LogEntryView {
    LogEntryView {
        length: entry_declared_len(data) as nat,
        log: log_from(data.subrange(8, entry_declared_len(data))),
    }
}

/// An entry made by `LogEntry::default` is encoded in exactly the length it
/// records, and reading the encoding back gives the same entry, provided the
/// texts' lengths fit their prefixes.
pub proof fn lemma_entry_roundtrip(e: LogEntryView)
    requires
        entry_wf(e),
        e.length <= u64::MAX,
        log_fields_fit(e.log),
    ensures
        entry_bytes(e).len() == e.length,
        entry_readable(entry_bytes(e)),
        entry_from(entry_bytes(e)) == e,
{
    let b = entry_bytes(e);
    lemma_u64_be_roundtrip(e.length as u64);
    lemma_log_bytes_len(e.log);
    assert(b.subrange(0, 8) =~= u64_be(e.length as u64));
    assert(b.subrange(8, e.length as int) =~= log_bytes(e.log) + Seq::<u8>::empty());
    lemma_log_roundtrip(e.log, Seq::<u8>::empty());
}

impl LogEntry {
    /// Wraps `log`, recording the log's size plus eight bytes for the length.
    pub fn default(log: Log) -> (r: Self)
        requires
            log_size(log@) + 8 <= usize::MAX,
        ensures
            r@ == (LogEntryView { length: log_size(log@) + 8, log: log@ }),
            entry_wf(r@),
    {
        let size = log.size_in_bytes();
        LogEntry { length: size + 8, log }
    }

    pub fn get_length(&self) -> (r: usize)
        ensures
            r == self@.length,
    {
        self.length
    }
}

impl ReadableModel for LogEntry {
    open spec fn readable(data: Seq<u8>) -> bool {
        entry_readable(data)
    }

    open spec fn sizeable(&self) -> bool {
        log_size(self@.log) + 4 <= usize::MAX
    }

    fn from_bytes(data: &[u8]) -> (r: Self)
        ensures
            r@ == entry_from(data@),
    {
        let n = data.len();
        // The declared length lies within the slice, so it fits in a `usize`.
        assert(entry_declared_len(data@) <= n);
        let declared = u64_from_be_bytes(&data[0..8]);
        let length = declared as usize;
        let log = Log::from_bytes(&data[8..length]);
        LogEntry { length, log }
    }

    fn to_bytes(&self) -> (r: Vec<u8>)
        ensures
            r@ == entry_bytes(self@),
            entry_wf(self@) ==> r@.len() == self@.length,
    {
        proof {
            lemma_u64_be_roundtrip(self.length as u64);
            lemma_log_bytes_len(self@.log);
        }
        let mut bytes = u64_to_be_bytes(self.length as u64);
        bytes.extend_from_slice(self.log.to_bytes().as_slice());
        assert(bytes@ =~= entry_bytes(self@));
        bytes
    }

    /// Four bytes plus the log's size (this is not the length of the encoding,
    /// which spends eight bytes on the length).
    fn size_in_bytes(&self) -> (r: usize)
        ensures
            r == log_size(self@.log) + 4,
    {
        4 + self.log.size_in_bytes()
    }
}

/// A mutable header and the entries that follow it.
pub struct LogFile {
    header: MutableHeader,
    logs: Vec<LogEntry>,
}

/// The values a `LogFile` holds.
pub struct LogFileView {
    pub header: MutableHeaderView,
    pub logs: Seq<LogEntryView>,
}

impl View for LogFile {
    type V = LogFileView;

    closed spec fn view(&self) -> LogFileView {
        LogFileView { header: self.header@, logs: self.logs@.map_values(|e: LogEntry| e@) }
    }
}

/// The sum of the lengths that the entries record.
pub open spec fn entries_length_sum(entries: Seq<LogEntryView>) -> nat
    decreases entries.len(),
{
    if entries.len() == 0 {
        0
    } else {
        entries_length_sum(entries.drop_last()) + entries.last().length
    }
}

/// The sum of the sizes that the entries report.
pub open spec fn entries_size(entries: Seq<LogEntryView>) -> nat
    decreases entries.len(),
{
    if entries.len() == 0 {
        0
    } else {
        entries_size(entries.drop_last()) + log_size(entries.last().log) + 4
    }
}

/// The entries' encodings, one after the other.
pub open spec fn entries_bytes(entries: Seq<LogEntryView>) -> Seq<u8>
    decreases entries.len(),
{
    if entries.len() == 0 {
        Seq::empty()
    } else {
        entries_bytes(entries.drop_last()) + entry_bytes(entries.last())
    }
}

/// The encoding of a log file: the mutable header, then the entries.
pub open spec fn log_file_bytes(f: LogFileView) -> Seq<u8> {
    mutable_header_bytes(f.header) + entries_bytes(f.logs)
}

/// The encodings of entries `a` then `b` are those of `a` followed by those
/// of `b`; a single entry encodes as itself.
#[verifier::spinoff_prover]
pub proof fn lemma_entries_bytes_concat(a: Seq<LogEntryView>, b: Seq<LogEntryView>)
    ensures
        entries_bytes(a + b) == entries_bytes(a) + entries_bytes(b),
        b.len() == 1 ==> entries_bytes(b) == entry_bytes(b[0]),
    decreases b.len(),
{
    if b.len() == 0 {
        assert(a + b =~= a);
        assert(entries_bytes(b) == Seq::<u8>::empty());
        assert(entries_bytes(a) + entries_bytes(b) =~= entries_bytes(a));
    } else {
        let init = b.drop_last();
        let e = b.last();
        lemma_entries_bytes_concat(a, init);
        let ab = a + b;
        assert(ab.drop_last() =~= a + init);
        assert(ab.last() == e);
        let x = entries_bytes(a);
        let y = entries_bytes(init);
        let z = entry_bytes(e);
        assert(entries_bytes(ab) == entries_bytes(a + init) + z);
        assert(entries_bytes(b) == y + z);
        assert((x + y) + z =~= x + (y + z));
        if b.len() == 1 {
            assert(init =~= Seq::<LogEntryView>::empty());
            assert(y == Seq::<u8>::empty());
            assert(y + z =~= z);
        }
    }
}

/// The file's header records the total length of its entries.
pub open spec fn log_file_consistent(f: LogFileView) -> bool {
    f.header.total_length == entries_length_sum(f.logs)
}

/// The byte strings that `LogFile::from_bytes` reads.  It hands the first
/// eleven bytes to `MutableHeader::from_bytes`, which reads nineteen.
pub open spec fn log_file_readable(data: Seq<u8>) -> bool {
    &&& data.len() >= HEADER_SEGMENT_LENGTH
    &&& MutableHeader::readable(data.subrange(0, HEADER_SEGMENT_LENGTH as int))
}

/// The encoding of a log file starts with the encoding of its own mutable
/// header, so that reading a mutable header from it gives the file's header
/// (with the total length it records); the entries' encodings follow, one
/// after the other.
pub proof fn lemma_log_file_bytes_layout(f: LogFileView)
    ensures
        log_file_bytes(f).len() >= mutable_header_len(),
        log_file_bytes(f).subrange(0, 19) == mutable_header_bytes(f.header),
        mutable_header_from(log_file_bytes(f)) == f.header,
        log_file_bytes(f).subrange(19, log_file_bytes(f).len() as int) == entries_bytes(f.logs),
{
    let b = log_file_bytes(f);
    lemma_mutable_header_roundtrip(f.header);
    assert(b.subrange(0, 19) =~= mutable_header_bytes(f.header));
    assert(b.subrange(19, b.len() as int) =~= entries_bytes(f.logs));
    lemma_mutable_header_bytes_of_read(b);
}

/// No byte string can be read as a log file: the header slice handed on is
/// always too short for the mutable header read from it.
pub proof fn lemma_log_file_unreadable(data: Seq<u8>)
    ensures
        !log_file_readable(data),
{
}

/// For entries whose recorded lengths are their encodings' lengths, the sum
/// of the lengths is the length of the encoded entries.
pub proof fn lemma_entries_length_sum(entries: Seq<LogEntryView>)
    requires
        forall|i: int| 0 <= i < entries.len() ==> #[trigger] entry_wf(entries[i]) && entries[i].length <= u64::MAX,
    ensures
        entries_bytes(entries).len() == entries_length_sum(entries),
    decreases entries.len(),
{
    if entries.len() > 0 {
        let init = entries.drop_last();
        assert forall|i: int| 0 <= i < init.len() implies #[trigger] entry_wf(init[i]) && init[i].length <= u64::MAX by {
            assert(init[i] == entries[i]);
        }
        lemma_entries_length_sum(init);
        let e = entries.last();
        assert(entry_wf(entries[entries.len() - 1]));
        lemma_u64_be_roundtrip(e.length as u64);
        lemma_log_bytes_len(e.log);
    }
}

/// A file built by `new` and `add_log` records in its header the length of
/// the entries that its encoding holds after the nineteen header bytes.
pub proof fn lemma_log_file_bytes_len(f: LogFileView)
    requires
        log_file_consistent(f),
        forall|i: int| 0 <= i < f.logs.len() ==> #[trigger] entry_wf(f.logs[i]) && f.logs[i].length <= u64::MAX,
    ensures
        log_file_bytes(f).len() == mutable_header_len() + f.header.total_length,
{
    lemma_entries_length_sum(f.logs);
    crate::model::mutable_headers::lemma_mutable_header_roundtrip(f.header);
}

/// The file that `LogFile::add_log` of `log` makes of `f`: one more entry,
/// whose length the header adds to its total.
pub open spec fn add_log_view(f: LogFileView, log: LogView) -> LogFileView {
    LogFileView {
        header: MutableHeaderView {
            total_length: (f.header.total_length + log_size(log) + 8) as u64,
            ..f.header
        },
        logs: f.logs.push(LogEntryView { length: log_size(log) + 8, log }),
    }
}

/// The file that `LogFile::new_at(timestamp)` followed by `add_log` of each
/// of `logs`, in order, makes.
pub open spec fn log_file_of(timestamp: u64, logs: Seq<LogView>) -> LogFileView
    decreases logs.len(),
{
    if logs.len() == 0 {
        LogFileView {
            header: MutableHeaderView {
                header: HeaderView { version_major: 1, version_minor: 0, build_number: 0, timestamp },
                total_length: 0,
            },
            logs: Seq::empty(),
        }
    } else {
        add_log_view(log_file_of(timestamp, logs.drop_last()), logs.last())
    }
}

/// The lengths of the entries made of `logs`: each log's size and eight.
pub open spec fn logs_total(logs: Seq<LogView>) -> nat
    decreases logs.len(),
{
    if logs.len() == 0 {
        0
    } else {
        logs_total(logs.drop_last()) + log_size(logs.last()) + 8
    }
}

/// A file built by `LogFile::new_at` and `add_log` calls, whose lengths fit
/// in the header's `u64` total as `add_log` requires, holds one entry per
/// log in order, each as long as its log's size and eight; its header
/// records the sum of those lengths; and it encodes to the nineteen header
/// bytes followed by that many bytes.
pub proof fn lemma_built_log_file(timestamp: u64, logs: Seq<LogView>)
    requires
        logs_total(logs) <= u64::MAX,
    ensures
        log_file_of(timestamp, logs).header.total_length == logs_total(logs),
        log_file_consistent(log_file_of(timestamp, logs)),
        log_file_of(timestamp, logs).logs.len() == logs.len(),
        forall|i: int| 0 <= i < logs.len() ==> #[trigger] log_file_of(timestamp, logs).logs[i]
            == (LogEntryView { length: log_size(logs[i]) + 8, log: logs[i] }),
        log_file_bytes(log_file_of(timestamp, logs)).len() == mutable_header_len() + logs_total(logs),
    decreases logs.len(),
{
    let f = log_file_of(timestamp, logs);
    if logs.len() > 0 {
        let init = logs.drop_last();
        lemma_built_log_file(timestamp, init);
        let g = log_file_of(timestamp, init);
        assert(f.logs.drop_last() =~= g.logs);
        assert forall|i: int| 0 <= i < logs.len() implies #[trigger] f.logs[i]
            == (LogEntryView { length: log_size(logs[i]) + 8, log: logs[i] }) by {
            if i < init.len() {
                assert(f.logs[i] == g.logs[i]);
                assert(logs[i] == init[i]);
            }
        }
    }
    assert forall|i: int| 0 <= i < f.logs.len() implies #[trigger] entry_wf(f.logs[i]) && f.logs[i].length <= u64::MAX by {
        lemma_logs_total_bounds(logs, i);
    }
    lemma_log_file_bytes_len(f);
}

/// Each log's entry length is part of the total.
proof fn lemma_logs_total_bounds(logs: Seq<LogView>, i: int)
    requires
        0 <= i < logs.len(),
    ensures
        log_size(logs[i]) + 8 <= logs_total(logs),
    decreases logs.len(),
{
    if i < logs.len() - 1 {
        lemma_logs_total_bounds(logs.drop_last(), i);
        assert(logs.drop_last()[i] == logs[i]);
    }
}

proof fn lemma_entries_size_prefix(entries: Seq<LogEntryView>, i: int)
    requires
        0 <= i <= entries.len(),
    ensures
        entries_size(entries.take(i)) <= entries_size(entries),
    decreases entries.len(),
{
    if i < entries.len() {
        lemma_entries_size_prefix(entries.drop_last(), i);
        assert(entries.drop_last().take(i) =~= entries.take(i));
    } else {
        assert(entries.take(i) =~= entries);
    }
}

impl LogFile {
    /// An empty file whose header (version 1.0.0, stamped with `timestamp`)
    /// records a total length of zero.
    pub fn new_at(timestamp: u64) -> (r: Self)
        ensures
            r@ == log_file_of(timestamp, Seq::empty()),
            r@.header.header == (HeaderView { version_major: 1, version_minor: 0, build_number: 0, timestamp }),
            r@.header.total_length == 0,
            r@.logs == Seq::<LogEntryView>::empty(),
            log_file_consistent(r@),
    {
        let header = MutableHeader::new(Header::default_at(timestamp), 0);
        let r = LogFile { header, logs: Vec::new() };
        assert(r@.logs =~= Seq::<LogEntryView>::empty());
        r
    }

    /// `LogFile::new_at` the current time in seconds (zero where the clock
    /// reads before the epoch).
    pub fn new() -> (r: Self)
        ensures
            r@.header.header.version_major == 1,
            r@.header.header.version_minor == 0,
            r@.header.header.build_number == 0,
            r@.header.total_length == 0,
            r@.logs == Seq::<LogEntryView>::empty(),
            log_file_consistent(r@),
    {
        let (now, _millis) = unix_time_now();
        LogFile::new_at(now)
    }

    /// Appends `log` as a new entry and adds the entry's length to the total
    /// that the header records.
    pub fn add_log(&mut self, log: Log)
        requires
            log_size(log@) + 8 <= usize::MAX,
            old(self)@.header.total_length + log_size(log@) + 8 <= u64::MAX,
        ensures
            final(self)@ == add_log_view(old(self)@, log@),
            log_file_consistent(old(self)@) ==> log_file_consistent(final(self)@),
    {
        let log_entry = LogEntry::default(log);
        let total = self.header.get_total_length() + log_entry.get_length() as u64;
        self.header.set_total_length(total);
        self.logs.push(log_entry);
        assert(final(self)@.logs =~= old(self)@.logs.push(LogEntryView { length: log_size(log@) + 8, log: log@ }));
        assert(final(self)@.logs.drop_last() =~= old(self)@.logs);
    }

    pub fn get_header(&self) -> (r: &MutableHeader)
        ensures
            r@ == self@.header,
    {
        &self.header
    }

    pub fn get_logs(&self) -> (r: &Vec<LogEntry>)
        ensures
            r@.map_values(|e: LogEntry| e@) == self@.logs,
    {
        &self.logs
    }
}

impl ReadableModel for LogFile {
    open spec fn readable(data: Seq<u8>) -> bool {
        log_file_readable(data)
    }

    open spec fn sizeable(&self) -> bool {
        mutable_header_len() + entries_size(self@.logs) <= usize::MAX
    }

    /// Reads the mutable header from the first eleven bytes, then entries
    /// until the data ends.  No input is readable (`lemma_log_file_unreadable`).
    fn from_bytes(data: &[u8]) -> (r: Self) {
        let header = MutableHeader::from_bytes(&data[0..HEADER_SEGMENT_LENGTH]);
        let mut offset = header.size_in_bytes();
        let mut logs: Vec<LogEntry> = Vec::new();
        while offset < data.len()
            invariant
                log_file_readable(data@),
            decreases data.len() - offset,
        {
            let length = u32_from_be_bytes(&data[offset..offset + 4]) as usize;
            let log_entry = LogEntry::from_bytes(&data[offset..offset + length]);
            logs.push(log_entry);
            offset = offset + length;
        }
        LogFile { header, logs }
    }

    fn to_bytes(&self) -> (r: Vec<u8>)
        ensures
            r@ == log_file_bytes(self@),
    {
        let mut bytes = self.header.to_bytes();
        let n = self.logs.len();
        let mut i: usize = 0;
        while i < n
            invariant
                i <= n,
                n == self.logs@.len(),
                bytes@ == mutable_header_bytes(self@.header) + entries_bytes(self@.logs.take(i as int)),
            decreases n - i,
        {
            bytes.extend_from_slice(self.logs[i].to_bytes().as_slice());
            assert(self@.logs.take(i + 1).drop_last() =~= self@.logs.take(i as int));
            assert(bytes@ =~= mutable_header_bytes(self@.header) + entries_bytes(self@.logs.take(i + 1)));
            i = i + 1;
        }
        assert(self@.logs.take(n as int) =~= self@.logs);
        bytes
    }

    /// The header's size plus each entry's reported size.
    fn size_in_bytes(&self) -> (r: usize)
        ensures
            r == mutable_header_len() + entries_size(self@.logs),
    {
        let mut size = self.header.size_in_bytes();
        let n = self.logs.len();
        let mut i: usize = 0;
        while i < n
            invariant
                i <= n,
                n == self.logs@.len(),
                mutable_header_len() + entries_size(self@.logs) <= usize::MAX,
                size == mutable_header_len() + entries_size(self@.logs.take(i as int)),
            decreases n - i,
        {
            proof {
                lemma_entries_size_prefix(self@.logs, i + 1);
                assert(self@.logs.take(i + 1).drop_last() =~= self@.logs.take(i as int));
            }
            size = size + self.logs[i].size_in_bytes();
            i = i + 1;
        }
        assert(self@.logs.take(n as int) =~= self@.logs);
        size
    }
}

} // verus!
