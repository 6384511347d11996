//! The items that users of the library name.
pub use crate::model::header::Header;
pub use crate::model::mutable_headers::MutableHeader;
pub use crate::model::log::{Log, LogEntry, LogFile};
pub use crate::model::trace::Trace;
pub use crate::model::ini::IniFile;
pub use crate::model::ReadableModel;
pub use crate::parsers::{logs_parser, trace_parser};
pub use crate::storage_api::Storage;
pub use crate::rootly::{
    DEFAULT_DATA_PATH, DEFAULT_LOG_PATH, DEFAULT_MUTABLE_LOGS_PATH, DEFAULT_MUTABLE_TRACE_PATH,
    DEFAULT_TRACE_PATH, ROOTLY_CONFIG_FILE_NAME,
};
