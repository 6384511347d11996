//! HTTP statuses of rootly's responses.
use vstd::prelude::*;
use vstd::std_specs::convert::FromSpecImpl;
use vstd::std_specs::convert::FromSpec;

verus! {

/// An HTTP status code.
#[derive(Debug)]
pub enum RootlyResponseStatus {
    Status(u16),
}

/// The code that a status carries.
pub open spec fn status_code(s: RootlyResponseStatus) -> u16 {
    match s {
        RootlyResponseStatus::Status(code) => code,
    }
}

impl RootlyResponseStatus {
    pub fn success() -> (r: Self)
        ensures
            status_code(r) == 200,
    {
        RootlyResponseStatus::Status(200)
    }

    pub fn bad_request() -> (r: Self)
        ensures
            status_code(r) == 400,
    {
        RootlyResponseStatus::Status(400)
    }

    pub fn conflict() -> (r: Self)
        ensures
            status_code(r) == 409,
    {
        RootlyResponseStatus::Status(409)
    }

    pub fn created() -> (r: Self)
        ensures
            status_code(r) == 201,
    {
        RootlyResponseStatus::Status(201)
    }

    pub fn error() -> (r: Self)
        ensures
            status_code(r) == 500,
    {
        RootlyResponseStatus::Status(500)
    }
}

impl From<u16> for RootlyResponseStatus {
    /// The status with the given code.
    fn from(status: u16) -> (r: Self) {
        match status {
            200 => RootlyResponseStatus::Status(status),
            400 => RootlyResponseStatus::Status(status),
            409 => RootlyResponseStatus::Status(status),
            201 => RootlyResponseStatus::Status(status),
            _ => RootlyResponseStatus::Status(status),
        }
    }
}

impl FromSpecImpl<u16> for RootlyResponseStatus {
    open spec fn obeys_from_spec() -> bool {
        true
    }

    open spec fn from_spec(status: u16) -> Self {
        RootlyResponseStatus::Status(status)
    }
}

impl From<RootlyResponseStatus> for u16 {
    /// The code that the status carries.
    fn from(status: RootlyResponseStatus) -> (r: u16) {
        match status {
            RootlyResponseStatus::Status(code) => code,
        }
    }
}

impl FromSpecImpl<RootlyResponseStatus> for u16 {
    open spec fn obeys_from_spec() -> bool {
        true
    }

    open spec fn from_spec(status: RootlyResponseStatus) -> u16 {
        status_code(status)
    }
}

/// A status made from a code gives that code back.
pub proof fn lemma_status_code_roundtrip(code: u16)
    ensures
        status_code(<RootlyResponseStatus as FromSpec<u16>>::from_spec(code)) == code,
        <u16 as FromSpec<RootlyResponseStatus>>::from_spec(<RootlyResponseStatus as FromSpec<u16>>::from_spec(code)) == code,
{
}

} // verus!
