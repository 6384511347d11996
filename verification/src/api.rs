//! What the OTLP endpoints make of a request's content type.
use vstd::prelude::*;
use crate::text::str_eq;

verus! {

pub const PROTOBUF_CONTENT_TYPE: &'static str = "application/x-protobuf";

pub const JSON_CONTENT_TYPE: &'static str = "application/json";

/// How a request body is encoded.
#[derive(Debug, PartialEq, Eq, Structural)]
pub enum PayloadKind {
    Protobuf,
    Json,
    Unsupported,
}

/// The encoding named by a content type.
pub open spec fn payload_kind_of(content_type: Seq<char>) -> PayloadKind {
    if content_type == PROTOBUF_CONTENT_TYPE@ {
        PayloadKind::Protobuf
    } else if content_type == JSON_CONTENT_TYPE@ {
        PayloadKind::Json
    } else {
        PayloadKind::Unsupported
    }
}

/// The encoding named by `content_type`: protobuf and JSON are recognized,
/// anything else is unsupported.
pub fn payload_kind(content_type: &str) -> (r: PayloadKind)
    ensures
        r == payload_kind_of(content_type@),
{
    if str_eq(content_type, PROTOBUF_CONTENT_TYPE) {
        PayloadKind::Protobuf
    } else if str_eq(content_type, JSON_CONTENT_TYPE) {
        PayloadKind::Json
    } else {
        PayloadKind::Unsupported
    }
}

} // verus!
