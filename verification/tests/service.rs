use std::cell::RefCell;
use std::collections::HashMap;

use rootly_lib::api::{payload_kind, PayloadKind};
use rootly_lib::cli::parse_args;
use rootly_lib::efs_storage::EfsStorage;
use rootly_lib::model::header::Header;
use rootly_lib::model::ini::IniFile;
use rootly_lib::model::ReadableModel;
use rootly_lib::response::RootlyResponseStatus;
use rootly_lib::rootly::{config_file_path, ini_file_name, ini_from_stored, open_ini, IniOpening, ROOTLY_CONFIG_FILE_NAME};
use rootly_lib::storage_api::Storage;

struct MemStorage {
    files: RefCell<HashMap<String, Vec<u8>>>,
}

impl MemStorage {
    fn new() -> Self {
        MemStorage { files: RefCell::new(HashMap::new()) }
    }
}

impl Storage for MemStorage {
    fn write(&self, file_name: &str, data: Vec<u8>, _offset: Option<usize>) {
        self.files.borrow_mut().insert(file_name.to_string(), data);
    }

    fn read(&self, file_name: &str, _offset: Option<usize>, _size: Option<usize>) -> Option<Vec<u8>> {
        self.files.borrow().get(file_name).cloned()
    }

    fn delete(&self, file_name: &str) {
        self.files.borrow_mut().remove(file_name);
    }

    fn is_file_exists(&self, file_name: &str) -> bool {
        self.files.borrow().contains_key(file_name)
    }
}

#[test]
fn status_codes() {
    assert_eq!(u16::from(RootlyResponseStatus::success()), 200);
    assert_eq!(u16::from(RootlyResponseStatus::bad_request()), 400);
    assert_eq!(u16::from(RootlyResponseStatus::conflict()), 409);
    assert_eq!(u16::from(RootlyResponseStatus::created()), 201);
    assert_eq!(u16::from(RootlyResponseStatus::error()), 500);
    for code in [200u16, 400, 409, 201, 418, 0, u16::MAX] {
        let code_back: u16 = RootlyResponseStatus::from(code).into();
        assert_eq!(code_back, code);
    }
}

#[test]
fn efs_paths() {
    let efs = EfsStorage::new();
    assert_eq!(efs.get_file_path("rootly.ctx"), "/mnt/rootly/rootly.ctx");
    assert_eq!(efs.get_file_path("/etc/other"), "/etc/other");
    assert_eq!(efs.get_file_path(""), "/mnt/rootly/");
}

#[test]
fn config_paths() {
    assert_eq!(config_file_path("data"), "data/rootly.toml");
    assert_eq!(config_file_path("data/"), "data/rootly.toml");
    assert_eq!(config_file_path(""), "rootly.toml");
    assert_eq!(config_file_path("/srv/rootly"), "/srv/rootly/rootly.toml");
}

#[test]
fn payload_kinds() {
    assert_eq!(payload_kind("application/x-protobuf"), PayloadKind::Protobuf);
    assert_eq!(payload_kind("application/json"), PayloadKind::Json);
    assert_eq!(payload_kind("text/plain"), PayloadKind::Unsupported);
    assert_eq!(payload_kind(""), PayloadKind::Unsupported);
    assert_eq!(payload_kind("application/json; charset=utf-8"), PayloadKind::Unsupported);
}

#[test]
fn command_line_entries() {
    let args: Vec<String> = ["--data_path=/tmp/x", "positional", "--flag", "--a=b=c", "-x=1", "--=v", "--k="]
        .iter()
        .map(|a| a.to_string())
        .collect();
    let entries = parse_args(&args);
    let want: Vec<(String, String)> = [
        ("--data_path", "/tmp/x"),
        ("", ""),
        ("--flag", ""),
        ("--a", "b"),
        ("", ""),
        ("--", "v"),
        ("--k", ""),
    ]
    .iter()
    .map(|(k, v)| (k.to_string(), v.to_string()))
    .collect();
    assert_eq!(entries, want);
}

/// Runs the opening of the ini file against `storage` as a caller of the
/// library does, and reports whether the file existed.
fn open_stored_ini(storage: &MemStorage) -> (bool, Option<IniFile>) {
    let exists = storage.is_file_exists(ini_file_name());
    match open_ini(exists) {
        IniOpening::Read { file_name, offset, size } => (exists, ini_from_stored(storage.read(file_name, offset, size))),
        IniOpening::Create { ini, file_name, data, offset } => {
            storage.write(file_name, data, offset);
            (exists, Some(ini))
        }
    }
}

#[test]
fn ini_file_is_rootly_ctx() {
    assert_eq!(ini_file_name(), "rootly.ctx");
    match open_ini(true) {
        IniOpening::Read { file_name, offset, size } => {
            assert_eq!(file_name, "rootly.ctx");
            assert!(offset.is_none() && size.is_none());
        }
        IniOpening::Create { .. } => panic!("an existing ini file is read"),
    }
    match open_ini(false) {
        IniOpening::Create { ini, file_name, data, offset } => {
            assert_eq!(file_name, "rootly.ctx");
            assert!(offset.is_none());
            assert_eq!(data, ini.to_bytes());
            assert!(ini.get_logs_file_name().starts_with("logs_mutable_"));
            assert!(ini.get_trace_file_name().starts_with("traces_mutable_"));
        }
        IniOpening::Read { .. } => panic!("a missing ini file is created"),
    }
}

#[test]
fn ini_is_created_once_then_read_back() {
    let storage = MemStorage::new();
    let (existed, first) = open_stored_ini(&storage);
    assert!(!existed);
    let first = first.unwrap();
    let stored = storage.read(ROOTLY_CONFIG_FILE_NAME, None, None).unwrap();
    assert_eq!(stored, first.to_bytes());
    let (existed, second) = open_stored_ini(&storage);
    assert!(existed);
    assert_eq!(format!("{:?}", second.unwrap()), format!("{:?}", first));
    assert_eq!(storage.read(ROOTLY_CONFIG_FILE_NAME, None, None).unwrap(), stored);
}

#[test]
fn stored_ini_that_cannot_be_read() {
    assert!(ini_from_stored(None).is_none());
    assert!(ini_from_stored(Some(vec![1, 2, 3])).is_none());
    let mut bytes = IniFile::build_at(Header::new(1, 0, 0, 0), 5).to_bytes();
    let n = bytes.len();
    bytes[n - 1] = 0xff;
    assert!(ini_from_stored(Some(bytes)).is_none());
    let good = IniFile::build_at(Header::new(1, 0, 0, 0), 5);
    let read = ini_from_stored(Some(good.to_bytes())).unwrap();
    assert_eq!(read.get_logs_file_name(), "logs_mutable_5.dat");
}

#[test]
fn save_writes_the_file_named_rootly() {
    let storage = MemStorage::new();
    let ini = IniFile::build_at(Header::new(1, 0, 0, 0), 9);
    ini.save(&storage);
    assert_eq!(storage.read("rootly", None, None).unwrap(), ini.to_bytes());
    assert!(!storage.is_file_exists(ROOTLY_CONFIG_FILE_NAME));
    let (file_name, data, offset) = ini.save_request();
    assert_eq!(file_name, "rootly");
    assert_eq!(data, ini.to_bytes());
    assert!(offset.is_none());
}

#[test]
fn unreadable_stored_ini_gives_none() {
    let storage = MemStorage::new();
    storage.write(ROOTLY_CONFIG_FILE_NAME, vec![1, 2, 3], None);
    let (existed, ini) = open_stored_ini(&storage);
    assert!(existed);
    assert!(ini.is_none());
    assert_eq!(storage.read(ROOTLY_CONFIG_FILE_NAME, None, None).unwrap(), vec![1, 2, 3]);
}
