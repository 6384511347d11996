//! Where rootly keeps its data, and the ini file that it opens on start.
use vstd::prelude::*;
use crate::model::ReadableModel;
use crate::model::ini::{
    IniFile, IniFileView, ini_readable, ini_from, ini_bytes, check_ini_readable, logs_file_name, traces_file_name,
};
use crate::path::{join_path, path_join};

verus! {

pub const DEFAULT_DATA_PATH: &'static str = "rootly_data";

/// The name under which the ini file is stored.
pub const ROOTLY_CONFIG_FILE_NAME: &'static str = "rootly.ctx";

pub const DEFAULT_LOG_PATH: &'static str = "log";

pub const DEFAULT_TRACE_PATH: &'static str = "trace";

pub const DEFAULT_MUTABLE_LOGS_PATH: &'static str = "logs_mutable";

pub const DEFAULT_MUTABLE_TRACE_PATH: &'static str = "traces_mutable";

/// The configuration file `rootly.toml` within the data directory.
pub fn config_file_path(data_path: &str) -> (r: String)
    ensures
        r@ == path_join(data_path@, "rootly.toml"@),
{
    join_path(data_path, "rootly.toml")
}

/// The ini file held by the bytes read from storage; `None` where nothing
/// was read or the bytes do not hold an ini file.
pub fn ini_from_stored(stored: Option<Vec<u8>>) -> (r: Option<IniFile>)
    ensures
        match stored {
            Some(data) => if ini_readable(data@) {
                r matches Some(f) && f@ == ini_from(data@)
            } else {
                r is None
            },
            None => r is None,
        },
{
    match stored {
        Some(data) => {
            if check_ini_readable(data.as_slice()) {
                Some(IniFile::from_bytes(data.as_slice()))
            } else {
                None
            }
        },
        None => None,
    }
}

/// An ini file as `IniFile::build_default` makes it: version 1.0.0, the
/// mutable files named after one millisecond stamp.
pub open spec fn is_fresh_ini(f: IniFileView) -> bool {
    &&& f.header.version_major == 1
    &&& f.header.version_minor == 0
    &&& f.header.build_number == 0
    &&& exists|millis: nat|
        f.mutable_logs_file == logs_file_name(millis) && f.mutable_trace_file == traces_file_name(millis)
}

/// The name of the file that holds the ini file.
pub fn ini_file_name() -> (r: &'static str)
    ensures
        r@ == "rootly.ctx"@,
{
    ROOTLY_CONFIG_FILE_NAME
}

/// What opening the ini file asks of storage once it is known whether the
/// file exists.
pub enum IniOpening {
    /// Read the stored file (from `offset`, `size` bytes; `None` for the
    /// start and the whole file); its bytes go to `ini_from_stored`.
    Read { file_name: &'static str, offset: Option<usize>, size: Option<usize> },
    /// Write `data` to the file (at `offset`, `None` for the start); the
    /// ini file is then `ini`.
    Create { ini: IniFile, file_name: &'static str, data: Vec<u8>, offset: Option<usize> },
}

/// Decides how to open the ini file, given whether storage holds the file
/// named by `ini_file_name`: an existing file is read whole; otherwise a
/// fresh ini file, named after the current time, is made and its encoding
/// is written from the start of `rootly.ctx`.
pub fn open_ini(exists: bool) -> (r: IniOpening)
    ensures
        exists ==> (r matches IniOpening::Read { file_name, offset, size }
            && file_name@ == "rootly.ctx"@ && offset is None && size is None),
        !exists ==> (r matches IniOpening::Create { ini, file_name, data, offset }
            && file_name@ == "rootly.ctx"@ && data@ == ini_bytes(ini@) && offset is None
            && is_fresh_ini(ini@)),
{
    if exists {
        IniOpening::Read { file_name: ROOTLY_CONFIG_FILE_NAME, offset: None, size: None }
    } else {
        let ini = IniFile::build_default();
        let data = ini.to_bytes();
        IniOpening::Create { ini, file_name: ROOTLY_CONFIG_FILE_NAME, data, offset: None }
    }
}

} // verus!
