//! The error type threaded through the session-lifecycle engine.

use vstd::prelude::*;
use crate::response::XenonResponse;

verus! {

pub type XenonResult<T> = Result<T, XenonError>;

#[derive(Debug)]
pub enum XenonError {
    /// The listen port given at startup is invalid.
    InvalidPort,
    /// The HTTP server failed.
    ServerError(String),
    /// A request to a backend WebDriver failed in transport.
    RequestError(String),
    /// The config file does not exist (the payload is its path).
    ConfigNotFound(String),
    /// The config file could not be read or parsed (path, then cause).
    ConfigLoadError(String, String),
    /// A configured browser has no default driver (name, then advice).
    ConfigUnexpectedBrowser(String, String),
    /// A structured error to return to the client.
    RespondWith(XenonResponse),
    /// An opaque backend response forwarded to the client verbatim:
    /// its HTTP status and its body bytes.
    ResponsePassThrough(u16, Vec<u8>),
    /// An operating-system error, e.g. from spawning a driver process.
    IOError(String),
    /// A service group has reached its session limit.
    NoSessionsAvailable,
}

} // verus!
