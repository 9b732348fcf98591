//! The exchange's v3 REST endpoints: typed parameters, wire queries,
//! the response envelope, and typed outputs.

use vstd::prelude::*;
use vstd::string::StringSliceAdditionalSpecFns;
use crate::json::{Json, JsonV, spec_lookup, obj_get, obj_view};
use crate::bytes::{str_bytes, copy_bytes};
use crate::decimal::{Decimal, spec_dec_of_str};

pub mod account_information;
pub mod enums;
pub mod order;

verus! {

/// The exchange's ceiling on the receive window, in milliseconds.
pub const RECV_WINDOW_MAX: u64 = 60000;

/// An error the exchange reported: its numeric code and message.
#[derive(Debug, PartialEq)]
pub struct ApiError {
    pub code: i64,
    pub msg: Vec<u8>,
}

/// Why an endpoint operation failed, as far as the library decides it:
/// the exchange rejected the request, or the response body did not
/// have the expected shape. (Transport failures never reach the
/// library: they stay with the caller that does the I/O.)
#[derive(Debug, PartialEq)]
pub enum ApiV3Error {
    Api(ApiError),
    Deserialization,
}

/// The response envelope: a successful payload, or the exchange's
/// error shape `{code, msg}`.
pub enum ApiResponse<T> {
    Success(T),
    Error(ApiError),
}

impl<T> ApiResponse<T> {
    /// The payload, or the API error as a typed failure.
    pub fn into_api_result(self) -> (r: Result<T, ApiV3Error>)
        ensures
            match self {
                ApiResponse::Success(v) => r matches Ok(rv) && rv == v,
                ApiResponse::Error(e) => r matches Err(ApiV3Error::Api(e2)) && e2 == e,
            },
    {
        match self {
            ApiResponse::Success(v) => Ok(v),
            ApiResponse::Error(e) => Err(ApiV3Error::Api(e)),
        }
    }
}

/// The error envelope a JSON value carries, if any: an object with an
/// integral `code` and a string `msg`.
pub open spec fn spec_envelope(j: JsonV) -> Option<(int, Seq<u8>)> {
    match j {
        JsonV::Obj(fields) => match (
            spec_lookup(fields, "code".spec_bytes()),
            spec_lookup(fields, "msg".spec_bytes()),
        ) {
            (Some(JsonV::Num(c)), Some(JsonV::Str(m))) => if c.scale == 0 && i64::MIN
                <= c.int_val() && c.int_val() <= i64::MAX {
                Some((c.int_val(), m))
            } else {
                None
            },
            _ => None,
        },
        _ => None,
    }
}

/// The decimal a JSON field carries: a bare number, or — as the
/// exchange writes monetary fields — the decimal's exact wire form as
/// a JSON string.
pub open spec fn spec_dec_value(v: JsonV) -> Option<Decimal> {
    match v {
        JsonV::Num(d) => Some(d),
        JsonV::Str(s) => spec_dec_of_str(s),
        _ => None,
    }
}

/// Reads a decimal field, numeric or string-typed.
pub fn dec_value(j: &Json) -> (r: Option<Decimal>)
    ensures
        r == spec_dec_value(j@),
{
    match j {
        Json::Num(d) => Some(*d),
        Json::Str(s) => Decimal::from_canonical_bytes(s),
        _ => None,
    }
}

/// Extracts the error envelope of a parsed response, if present.
pub fn envelope_error(j: &Json) -> (r: Option<ApiError>)
    ensures
        match r {
            Some(e) => spec_envelope(j@) == Some((e.code as int, e.msg@)),
            None => spec_envelope(j@) is None,
        },
{
    match j {
        Json::Obj(fields) => {
            proof {
                assert((j@)->Obj_0 =~= obj_view(fields));
            }
            let code_j = obj_get(fields, &str_bytes("code"));
            let msg_j = obj_get(fields, &str_bytes("msg"));
            match (code_j, msg_j) {
                (Some(cj), Some(mj)) => match (cj, mj) {
                    (Json::Num(c), Json::Str(m)) => match c.to_i64() {
                        Some(code) => Some(ApiError { code, msg: copy_bytes(m) }),
                        None => None,
                    },
                    _ => None,
                },
                _ => None,
            }
        },
        _ => None,
    }
}

} // verus!
