//! A typed client library for the MEXC exchange's REST API.
//!
//! The library's job is strictly translation: it builds authenticated
//! query strings from typed parameters, signs them with the account
//! secret, and parses JSON response bodies into typed outputs. All wire
//! data is handled as UTF-8 bytes, byte-for-byte: the signature is
//! computed over exactly the query string that is transmitted.

use vstd::prelude::*;

pub mod bytes;
pub mod json;
pub mod decimal;
pub mod query;
pub mod v3;
pub mod sign;

verus! {

/// API credentials: key and secret, held as the exact bytes used on the
/// wire (the key in a request header, the secret as HMAC key).
pub struct ApiCredentials {
    pub api_key: Vec<u8>,
    pub secret_key: Vec<u8>,
}

/// The base URL the client talks to, chosen at construction.
pub enum MexcApiEndpoint {
    Base,
    Test,
}

impl MexcApiEndpoint {
    pub fn as_ref(&self) -> (r: &'static str)
        ensures
            r@ == self.spec_url(),
    {
        match self {
            MexcApiEndpoint::Base => "https://api.mexc.com",
            MexcApiEndpoint::Test => "https://api.mexc.com/test",
        }
    }

    pub open spec fn spec_url(&self) -> Seq<char> {
        match self {
            MexcApiEndpoint::Base => "https://api.mexc.com"@,
            MexcApiEndpoint::Test => "https://api.mexc.com/test"@,
        }
    }
}

} // verus!
