//! The file that records which mutable files are current.
use vstd::prelude::*;
use vstd::utf8::{encode_utf8, decode_utf8, valid_utf8, encode_utf8_decode_utf8, encode_utf8_valid_utf8, decode_utf8_encode_utf8};
use vstd::slice::slice_to_vec;
use crate::codec::{u64_be, u64_from_be, lemma_u64_be_roundtrip, lemma_u64_from_be_roundtrip, u64_to_be_bytes, u64_from_be_bytes};
use crate::text::{string_from_utf8, push_str, push_decimal, decimal_text};
use crate::model::{ReadableModel, HEADER_SEGMENT_LENGTH, USIZE_SEGMENT_LENGTH};
use crate::model::header::{
    Header, HeaderView, header_bytes, header_from, lemma_header_roundtrip, lemma_header_bytes_of_read, unix_time_now,
};
use crate::storage_api::Storage;

verus! {

/// A header and the names of the mutable logs and traces files.
#[derive(Debug)]
pub struct IniFile {
    header: Header,
    mutable_logs_file: String,
    mutable_trace_file: String,
}

/// The values an `IniFile` holds.
pub struct IniFileView {
    pub header: HeaderView,
    pub mutable_logs_file: Seq<char>,
    pub mutable_trace_file: Seq<char>,
}

impl View for IniFile {
    type V = IniFileView;

    closed spec fn view(&self) -> IniFileView {
        IniFileView {
            header: self.header@,
            mutable_logs_file: self.mutable_logs_file@,
            mutable_trace_file: self.mutable_trace_file@,
        }
    }
}

/// The name of the mutable logs file created at `millis` milliseconds
/// after the epoch.
pub open spec fn logs_file_name(millis: nat) -> Seq<char> {
    "logs_mutable_"@ + decimal_text(millis) + ".dat"@
}

/// The name of the mutable traces file created at `millis` milliseconds
/// after the epoch.
pub open spec fn traces_file_name(millis: nat) -> Seq<char> {
    "traces_mutable_"@ + decimal_text(millis) + ".dat"@
}

/// A name as stored: its UTF-8 byte length as eight big-endian bytes, then
/// its UTF-8 bytes.
pub open spec fn name_field_bytes(s: Seq<char>) -> Seq<u8> {
    u64_be(encode_utf8(s).len() as u64) + encode_utf8(s)
}

/// The length that the name field at `off` declares.
pub open spec fn name_field_len(data: Seq<u8>, off: int) -> int {
    u64_from_be(data.subrange(off, off + 8)) as int
}

/// Where the name field at `off` ends.
pub open spec fn name_field_end(data: Seq<u8>, off: int) -> int {
    off + 8 + name_field_len(data, off)
}

/// The name field at `off` lies within `data` and holds valid UTF-8.
pub open spec fn name_field_readable(data: Seq<u8>, off: int) -> bool {
    &&& 0 <= off
    &&& off + 8 <= data.len()
    &&& name_field_end(data, off) <= data.len()
    &&& valid_utf8(data.subrange(off + 8, name_field_end(data, off)))
}

/// The name held by the field at `off`.
pub open spec fn name_field_text(data: Seq<u8>, off: int) -> Seq<char> {
    decode_utf8(data.subrange(off + 8, name_field_end(data, off)))
}

/// The encoding of an ini file: the header, then the two names as name fields.
pub open spec fn ini_bytes(f: IniFileView) -> Seq<u8> {
    header_bytes(f.header) + name_field_bytes(f.mutable_logs_file) + name_field_bytes(f.mutable_trace_file)
}

/// The byte strings from the front of which an ini file can be read.
pub open spec fn ini_readable(data: Seq<u8>) -> bool {
    &&& data.len() >= HEADER_SEGMENT_LENGTH
    &&& name_field_readable(data, 11)
    &&& name_field_readable(data, name_field_end(data, 11))
}

/// The ini file read from the front of `data`.
pub open spec fn ini_from(data: Seq<u8>) -> IniFileView {
    IniFileView {
        header: header_from(data.subrange(0, 11)),
        mutable_logs_file: name_field_text(data, 11),
        mutable_trace_file: name_field_text(data, name_field_end(data, 11)),
    }
}

/// The size an ini file reports for itself (it counts two bytes for each
/// length, where the encoding spends eight).
pub open spec fn ini_size(f: IniFileView) -> nat {
    HEADER_SEGMENT_LENGTH as nat + 2 + encode_utf8(f.mutable_logs_file).len() + 2
        + encode_utf8(f.mutable_trace_file).len()
}

proof fn lemma_name_field_at(prefix: Seq<u8>, s: Seq<char>, rest: Seq<u8>)
    requires
        encode_utf8(s).len() <= u64::MAX,
    ensures
        ({
            let data = prefix + name_field_bytes(s) + rest;
            let off = prefix.len() as int;
            &&& name_field_readable(data, off)
            &&& name_field_text(data, off) == s
            &&& name_field_end(data, off) == off + name_field_bytes(s).len()
        }),
{
    let data = prefix + name_field_bytes(s) + rest;
    let off = prefix.len() as int;
    let e = encode_utf8(s);
    lemma_u64_be_roundtrip(e.len() as u64);
    assert(data.subrange(off, off + 8) =~= u64_be(e.len() as u64));
    assert(data.subrange(off + 8, off + 8 + e.len()) =~= e);
    encode_utf8_valid_utf8(s);
    encode_utf8_decode_utf8(s);
}

/// Encoding an ini file and reading it back gives the same file.
pub proof fn lemma_ini_roundtrip(f: IniFileView, rest: Seq<u8>)
    requires
        encode_utf8(f.mutable_logs_file).len() <= u64::MAX,
        encode_utf8(f.mutable_trace_file).len() <= u64::MAX,
    ensures
        ini_readable(ini_bytes(f) + rest),
        ini_from(ini_bytes(f) + rest) == f,
{
    let data = ini_bytes(f) + rest;
    let h = header_bytes(f.header);
    let n1 = name_field_bytes(f.mutable_logs_file);
    let n2 = name_field_bytes(f.mutable_trace_file);
    lemma_header_roundtrip(f.header);
    assert(data =~= h + n1 + (n2 + rest));
    lemma_name_field_at(h, f.mutable_logs_file, n2 + rest);
    assert(data =~= (h + n1) + n2 + rest);
    lemma_name_field_at(h + n1, f.mutable_trace_file, rest);
    assert(data.subrange(0, 11) =~= h);
}

proof fn lemma_name_field_of_read(data: Seq<u8>, off: int)
    requires
        name_field_readable(data, off),
    ensures
        name_field_bytes(name_field_text(data, off)) == data.subrange(off, name_field_end(data, off)),
{
    let b = data.subrange(off + 8, name_field_end(data, off));
    decode_utf8_encode_utf8(b);
    lemma_u64_from_be_roundtrip(data.subrange(off, off + 8));
    assert(data.subrange(off, name_field_end(data, off)) =~= data.subrange(off, off + 8) + b);
}

/// Reading an ini file and encoding it again gives the bytes it was read from.
pub proof fn lemma_ini_bytes_of_read(data: Seq<u8>)
    requires
        ini_readable(data),
    ensures
        ini_bytes(ini_from(data)) == data.subrange(0, name_field_end(data, name_field_end(data, 11))),
{
    let o2 = name_field_end(data, 11);
    let end = name_field_end(data, o2);
    lemma_header_bytes_of_read(data.subrange(0, 11));
    assert(data.subrange(0, 11).subrange(0, 11) =~= data.subrange(0, 11));
    lemma_name_field_of_read(data, 11);
    lemma_name_field_of_read(data, o2);
    assert(data.subrange(0, end) =~= data.subrange(0, 11) + data.subrange(11, o2) + data.subrange(o2, end));
}

/// Appends a name field: the byte length as eight big-endian bytes, then the bytes.
fn push_name_field(bytes: &mut Vec<u8>, s: &String)
    ensures
        final(bytes)@ == old(bytes)@ + name_field_bytes(s@),
{
    let b = s.as_str().as_bytes();
    let len = b.len();
    bytes.extend_from_slice(u64_to_be_bytes(len as u64).as_slice());
    bytes.extend_from_slice(b);
    assert(final(bytes)@ =~= old(bytes)@ + name_field_bytes(s@));
}

/// Reads the name field at `offset`; returns the name and where it ends.
fn read_name_field(data: &[u8], offset: usize) -> (r: (String, usize))
    requires
        name_field_readable(data@, offset as int),
    ensures
        r.0@ == name_field_text(data@, offset as int),
        r.1 == name_field_end(data@, offset as int),
{
    let n = data.len();
    // The field ends within the slice, so its offsets fit in a `usize`.
    assert(name_field_end(data@, offset as int) <= n);
    let declared = u64_from_be_bytes(&data[offset..offset + USIZE_SEGMENT_LENGTH]);
    let len = declared as usize;
    let start = offset + USIZE_SEGMENT_LENGTH;
    let text = string_from_utf8(slice_to_vec(&data[start..start + len]));
    match text {
        Some(s) => (s, start + len),
        None => {
            assert(false);
            (String::new(), 0)
        },
    }
}

/// Where the name field at `offset` ends, if it lies within `data` and
/// holds valid UTF-8.
fn checked_name_field_end(data: &[u8], offset: usize) -> (r: Option<usize>)
    requires
        offset <= data@.len(),
    ensures
        r is Some <==> name_field_readable(data@, offset as int),
        r matches Some(e) ==> e == name_field_end(data@, offset as int),
{
    let n = data.len();
    if n - offset < USIZE_SEGMENT_LENGTH {
        return None;
    }
    let declared = u64_from_be_bytes(&data[offset..offset + USIZE_SEGMENT_LENGTH]);
    let start = offset + USIZE_SEGMENT_LENGTH;
    if declared > (n - start) as u64 {
        return None;
    }
    let len = declared as usize;
    if string_from_utf8(slice_to_vec(&data[start..start + len])).is_some() {
        Some(start + len)
    } else {
        None
    }
}

/// Whether `data` holds an ini file (`from_bytes` reads it without panicking).
pub(crate) fn check_ini_readable(data: &[u8]) -> (r: bool)
    ensures
        r == ini_readable(data@),
{
    if data.len() < HEADER_SEGMENT_LENGTH {
        return false;
    }
    match checked_name_field_end(data, HEADER_SEGMENT_LENGTH) {
        Some(end) => checked_name_field_end(data, end).is_some(),
        None => false,
    }
}

impl IniFile {
    /// An ini file with `header` whose mutable files are named after
    /// `millis`, the milliseconds since the epoch.
    pub fn build_at(header: Header, millis: u128) -> (r: Self)
        ensures
            r@ == (IniFileView {
                header: header@,
                mutable_logs_file: logs_file_name(millis as nat),
                mutable_trace_file: traces_file_name(millis as nat),
            }),
    {
        let mut logs = String::new();
        push_str(&mut logs, "logs_mutable_");
        push_decimal(&mut logs, millis);
        push_str(&mut logs, ".dat");
        let mut traces = String::new();
        push_str(&mut traces, "traces_mutable_");
        push_decimal(&mut traces, millis);
        push_str(&mut traces, ".dat");
        let r = IniFile { header, mutable_logs_file: logs, mutable_trace_file: traces };
        assert(r@.mutable_logs_file =~= logs_file_name(millis as nat));
        assert(r@.mutable_trace_file =~= traces_file_name(millis as nat));
        r
    }

    /// An ini file with the default header whose mutable files are named
    /// after the current time in milliseconds.
    pub fn build_default() -> (r: Self)
        ensures
            r@.header.version_major == 1,
            r@.header.version_minor == 0,
            r@.header.build_number == 0,
            exists|millis: nat|
                r@.mutable_logs_file == logs_file_name(millis)
                && r@.mutable_trace_file == traces_file_name(millis),
    {
        let header = Header::default();
        let (_secs, millis) = unix_time_now();
        IniFile::build_at(header, millis)
    }

    pub fn get_logs_file_name(&self) -> (r: &String)
        ensures
            r@ == self@.mutable_logs_file,
    {
        &self.mutable_logs_file
    }

    pub fn get_trace_file_name(&self) -> (r: &String)
        ensures
            r@ == self@.mutable_trace_file,
    {
        &self.mutable_trace_file
    }

    /// What `save` hands to `Storage::write`: the file name `rootly`, the
    /// encoded file, and no offset (the write starts at the beginning).
    pub fn save_request(&self) -> (r: (&'static str, Vec<u8>, Option<usize>))
        ensures
            r.0@ == "rootly"@,
            r.1@ == ini_bytes(self@),
            r.2 is None,
    {
        ("rootly", self.to_bytes(), None)
    }

    /// Writes the encoded file to the file named `rootly` of `storage`, as
    /// `save_request` gives it.
    pub fn save<S: Storage + ?Sized>(&self, storage: &S) {
        let (file_name, data, offset) = self.save_request();
        storage.write(file_name, data, offset);
    }
}

impl ReadableModel for IniFile {
    open spec fn readable(data: Seq<u8>) -> bool {
        ini_readable(data)
    }

    open spec fn sizeable(&self) -> bool {
        ini_size(self@) <= usize::MAX
    }

    fn from_bytes(data: &[u8]) -> (r: Self)
        ensures
            r@ == ini_from(data@),
    {
        let header = Header::from_bytes(&data[0..HEADER_SEGMENT_LENGTH]);
        let offset = HEADER_SEGMENT_LENGTH;
        let (mutable_logs_file, offset) = read_name_field(data, offset);
        let (mutable_trace_file, _offset) = read_name_field(data, offset);
        IniFile { header, mutable_logs_file, mutable_trace_file }
    }

    fn to_bytes(&self) -> (r: Vec<u8>)
        ensures
            r@ == ini_bytes(self@),
    {
        let mut bytes = self.header.to_bytes();
        push_name_field(&mut bytes, &self.mutable_logs_file);
        push_name_field(&mut bytes, &self.mutable_trace_file);
        assert(bytes@ =~= ini_bytes(self@));
        bytes
    }

    fn size_in_bytes(&self) -> (r: usize)
        ensures
            r == ini_size(self@),
    {
        HEADER_SEGMENT_LENGTH + 2 + self.mutable_logs_file.as_str().len() + 2
            + self.mutable_trace_file.as_str().len()
    }
}

} // verus!
