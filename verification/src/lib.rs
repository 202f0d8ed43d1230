//! Idempotent dispatch for an HTTP proxy: single-flight request handling over an
//! abstract cache, a deterministic response codec, signed bearer tokens, and the
//! reconciliation of answers from several downstream proxies.

use vstd::prelude::*;

pub mod agent;
pub mod api;
pub mod auth;
pub mod cache;
pub mod cbor;
pub mod cycles;
pub mod dispatch;
pub mod handler;
pub mod init;
pub mod memory;
pub mod store;
pub mod tasks;
pub mod text;

verus! {

/// The name of the header that carries the caller's token.
pub const HEADER_PROXY_AUTHORIZATION: &'static str = "proxy-authorization";

/// The name of the header that names the client a request was forwarded for.
pub const HEADER_X_FORWARDED_FOR: &'static str = "x-forwarded-for";

/// The name of the header that names the host of the upstream.
pub const HEADER_X_FORWARDED_HOST: &'static str = "x-forwarded-host";

/// The name of the header that names the protocol a request was forwarded with.
pub const HEADER_X_FORWARDED_PROTO: &'static str = "x-forwarded-proto";

/// The name of the header that carries the idempotency key.
pub const HEADER_IDEMPOTENCY_KEY: &'static str = "idempotency-key";

/// The name of the header that carries the mask for the body of the response.
pub const HEADER_X_JSON_MASK: &'static str = "x-json-mask";

/// The name of the header that carries the allow-list for the headers of the response.
pub const HEADER_RESPONSE_HEADERS: &'static str = "response-headers";

/// The text with which an error displays itself.
pub fn err_string<T: core::fmt::Display>(err: T) -> (s: String)
    ensures
        vstd::string::to_string_from_display_ensures::<T>(&err, s),
{
    err.to_string()
}

/// `std::time::SystemTime::now` and `duration_since` the epoch: the milliseconds
/// on this machine's clock, zero where the clock is set before the year 1970.
/// Nothing is promised of the value.
#[verifier::external_body]
pub fn unix_ms() -> u64 {
    match std::time::SystemTime::now().duration_since(std::time::UNIX_EPOCH) {
        Ok(ts) => ts.as_millis() as u64,
        Err(_) => 0,
    }
}

} // verus!
