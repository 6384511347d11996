//! Storage formats, OTLP record extraction and helpers of the rootly
//! telemetry store, with their contracts proved by Verus.

pub mod codec;
pub mod text;
pub mod model;
pub mod storage_api;
pub mod parsers;
pub mod path;
pub mod rootly;
pub mod response;
pub mod efs_storage;
pub mod api;
pub mod cli;
pub mod prelude;
