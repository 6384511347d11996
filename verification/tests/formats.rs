use rootly_lib::model::header::Header;
use rootly_lib::model::ini::IniFile;
use rootly_lib::model::log::{Log, LogEntry, LogFile};
use rootly_lib::model::mutable_headers::MutableHeader;
use rootly_lib::model::ReadableModel;
use rootly_lib::parsers::otlp::{AnyValue, Value};

fn av(v: Value) -> AnyValue {
    AnyValue { value: Some(v) }
}

fn text(s: &str) -> AnyValue {
    av(Value::StringValue(s.to_string()))
}

fn sample_log() -> Log {
    Log::new(1, 2, -3, "ev".to_string(), &text("body"), "t".to_string(), "s".to_string())
}

#[test]
fn header_bytes_are_versions_then_big_endian_timestamp() {
    let h = Header::new(1, 2, 3, 0x0102_0304_0506_0708);
    assert_eq!(h.to_bytes(), vec![1, 2, 3, 1, 2, 3, 4, 5, 6, 7, 8]);
    assert_eq!(h.size_in_bytes(), 11);
}

#[test]
fn header_roundtrip() {
    let h = Header::new(9, 8, 7, u64::MAX - 5);
    let bytes = h.to_bytes();
    let back = Header::from_bytes(&bytes);
    assert_eq!(back.to_bytes(), bytes);
    assert_eq!(format!("{:?}", back), format!("{:?}", h));
}

#[test]
fn header_reads_only_first_eleven_bytes() {
    let data = vec![1, 0, 0, 0, 0, 0, 0, 0, 0, 0, 42, 99, 99];
    let h = Header::from_bytes(&data);
    assert_eq!(h.to_bytes(), data[0..11].to_vec());
}

#[test]
fn stamped_defaults() {
    let h = Header::default_at(0x0a0b);
    assert_eq!(h.to_bytes(), vec![1, 0, 0, 0, 0, 0, 0, 0, 0, 0x0a, 0x0b]);
    let file = LogFile::new_at(77);
    assert_eq!(file.get_header().get_total_length(), 0);
    assert!(file.get_logs().is_empty());
    assert_eq!(file.to_bytes(), vec![1, 0, 0, 0, 0, 0, 0, 0, 0, 0, 77, 0, 0, 0, 0, 0, 0, 0, 0]);
}

#[test]
fn header_default_is_version_one() {
    let h = Header::default();
    assert_eq!(h.to_bytes()[0..3].to_vec(), vec![1, 0, 0]);
}

#[test]
fn mutable_header_roundtrip_and_accessors() {
    let mut m = MutableHeader::new(Header::new(1, 0, 0, 5), 7);
    assert_eq!(m.get_total_length(), 7);
    m.set_total_length(300);
    assert_eq!(m.get_total_length(), 300);
    m.set_header(Header::new(2, 0, 0, 6));
    assert_eq!(m.get_header().to_bytes(), vec![2, 0, 0, 0, 0, 0, 0, 0, 0, 0, 6]);
    let bytes = m.to_bytes();
    assert_eq!(bytes, vec![2, 0, 0, 0, 0, 0, 0, 0, 0, 0, 6, 0, 0, 0, 0, 0, 0, 1, 44]);
    assert_eq!(m.size_in_bytes(), 19);
    let back = MutableHeader::from_bytes(&bytes);
    assert_eq!(back.get_total_length(), 300);
    assert_eq!(back.to_bytes(), bytes);
}

#[test]
fn log_bytes_layout() {
    let bytes = sample_log().to_bytes();
    let mut expected = vec![0, 0, 0, 0, 0, 0, 0, 1, 0, 0, 0, 0, 0, 0, 0, 2, 0xff, 0xff, 0xff, 0xfd];
    expected.extend_from_slice(&[0, 0, 0, 2, b'e', b'v']);
    expected.extend_from_slice(&[0, 0, 0, 4, b'b', b'o', b'd', b'y']);
    expected.extend_from_slice(&[0, 0, 0, 1, b't']);
    expected.extend_from_slice(&[0, 0, 0, 1, b's']);
    assert_eq!(bytes, expected);
    assert_eq!(sample_log().size_in_bytes(), bytes.len());
}

#[test]
fn log_roundtrip_with_multibyte_text() {
    let log = Log::new(u64::MAX, 0, i32::MIN, "événement".to_string(), &text("ünïcödé ✓"), "".to_string(), "x".to_string());
    let bytes = log.to_bytes();
    let back = Log::from_bytes(&bytes);
    assert_eq!(format!("{:?}", back), format!("{:?}", log));
    assert_eq!(back.to_bytes(), bytes);
}

#[test]
fn log_reads_from_the_front_and_ignores_the_rest() {
    let mut bytes = sample_log().to_bytes();
    let n = bytes.len();
    bytes.extend_from_slice(&[7, 7, 7]);
    let back = Log::from_bytes(&bytes);
    assert_eq!(back.to_bytes().len(), n);
}

#[test]
fn log_entry_length_and_roundtrip() {
    let size = sample_log().size_in_bytes();
    let entry = LogEntry::default(sample_log());
    assert_eq!(entry.get_length(), size + 8);
    let bytes = entry.to_bytes();
    assert_eq!(bytes.len(), entry.get_length());
    assert_eq!(bytes[0..8].to_vec(), ((size + 8) as u64).to_be_bytes().to_vec());
    assert_eq!(entry.size_in_bytes(), size + 4);
    let back = LogEntry::from_bytes(&bytes);
    assert_eq!(back.get_length(), entry.get_length());
    assert_eq!(back.to_bytes(), bytes);
}

#[test]
fn log_file_total_tracks_entries() {
    let mut file = LogFile::new();
    assert_eq!(file.get_header().get_total_length(), 0);
    assert!(file.get_logs().is_empty());
    file.add_log(sample_log());
    file.add_log(Log::new(5, 6, 7, "a".to_string(), &av(Value::BoolValue(true)), "b".to_string(), "c".to_string()));
    let total: usize = file.get_logs().iter().map(|e| e.get_length()).sum();
    assert_eq!(file.get_logs().len(), 2);
    assert_eq!(file.get_header().get_total_length(), total as u64);
    let bytes = file.to_bytes();
    assert_eq!(bytes.len(), 19 + total);
    let entries_size: usize = file.get_logs().iter().map(|e| e.size_in_bytes()).sum();
    assert_eq!(file.size_in_bytes(), 19 + entries_size);
    assert_eq!(bytes[19..].to_vec(), {
        let mut v = file.get_logs()[0].to_bytes();
        v.extend(file.get_logs()[1].to_bytes());
        v
    });
}

#[test]
fn ini_names_follow_the_millisecond_stamp() {
    let ini = IniFile::build_at(Header::new(1, 0, 0, 3), 1700000000123);
    assert_eq!(ini.get_logs_file_name(), "logs_mutable_1700000000123.dat");
    assert_eq!(ini.get_trace_file_name(), "traces_mutable_1700000000123.dat");
    let zero = IniFile::build_at(Header::new(1, 0, 0, 3), 0);
    assert_eq!(zero.get_logs_file_name(), "logs_mutable_0.dat");
}

#[test]
fn ini_default_names() {
    let ini = IniFile::build_default();
    let logs = ini.get_logs_file_name();
    let traces = ini.get_trace_file_name();
    assert!(logs.starts_with("logs_mutable_") && logs.ends_with(".dat"));
    assert!(traces.starts_with("traces_mutable_") && traces.ends_with(".dat"));
    assert_eq!(&logs["logs_mutable_".len()..], &traces["traces_mutable_".len()..]);
}

#[test]
fn ini_bytes_layout_and_roundtrip() {
    let ini = IniFile::build_at(Header::new(1, 0, 0, 2), 12);
    let bytes = ini.to_bytes();
    let mut expected = vec![1, 0, 0, 0, 0, 0, 0, 0, 0, 0, 2];
    expected.extend_from_slice(&19u64.to_be_bytes());
    expected.extend_from_slice(b"logs_mutable_12.dat");
    expected.extend_from_slice(&21u64.to_be_bytes());
    expected.extend_from_slice(b"traces_mutable_12.dat");
    assert_eq!(bytes, expected);
    let back = IniFile::from_bytes(&bytes);
    assert_eq!(format!("{:?}", back), format!("{:?}", ini));
    assert_eq!(back.to_bytes(), bytes);
}

#[test]
fn ini_size_counts_two_bytes_per_length() {
    let ini = IniFile::build_at(Header::new(1, 0, 0, 2), 12);
    assert_eq!(ini.size_in_bytes(), 11 + 2 + 19 + 2 + 21);
}

#[test]
fn default_header_is_stamped_with_the_clock() {
    let bytes = Header::default().to_bytes();
    let stamp = u64::from_be_bytes(bytes[3..11].try_into().unwrap());
    assert!(stamp > 1_600_000_000);
}

#[test]
fn ini_names_use_full_decimal_millis() {
    let m: u128 = u128::MAX;
    let ini = IniFile::build_at(Header::new(1, 0, 0, 3), m);
    assert_eq!(ini.get_logs_file_name(), &format!("logs_mutable_{}.dat", m));
}
