//! Client-facing error responses, shaped after the W3C WebDriver error
//! envelope: an HTTP status, a W3C error code, and a human-readable message.

use vstd::prelude::*;

verus! {

/// Every error Xenon itself synthesizes for a client.
#[derive(Debug)]
pub enum XenonResponse {
    EndpointNotFound(String),
    MethodNotFound(String),
    SessionNotFound(String),
    ErrorCreatingSession(String),
    NoMatchingBrowser,
    NoSessionsAvailable,
    InternalServerError(String),
    ErrorCreatingNode(String),
    ErrorUpdatingNode(String),
    ErrorDeregisteringNode(String),
    NodeNotFound(String),
}

pub open spec fn spec_status(r: &XenonResponse) -> u16 {
    match r {
        XenonResponse::EndpointNotFound(_) => 400,
        XenonResponse::MethodNotFound(_) => 400,
        XenonResponse::NoMatchingBrowser => 404,
        XenonResponse::NoSessionsAvailable => 404,
        _ => 500,
    }
}

pub open spec fn spec_error_code(r: &XenonResponse) -> Seq<char> {
    match r {
        XenonResponse::EndpointNotFound(_) => "unknown method"@,
        XenonResponse::MethodNotFound(_) => "unknown method"@,
        XenonResponse::SessionNotFound(_) => "invalid session id"@,
        XenonResponse::ErrorCreatingSession(_) => "session not created"@,
        XenonResponse::NoMatchingBrowser => "session not created"@,
        XenonResponse::NoSessionsAvailable => "session not created"@,
        XenonResponse::InternalServerError(_) => "unknown error"@,
        XenonResponse::ErrorCreatingNode(_) => "error creating node"@,
        XenonResponse::ErrorUpdatingNode(_) => "error updating node"@,
        XenonResponse::ErrorDeregisteringNode(_) => "error deregistering node"@,
        XenonResponse::NodeNotFound(_) => "node not found"@,
    }
}

pub open spec fn spec_message(r: &XenonResponse) -> Seq<char> {
    match r {
        XenonResponse::EndpointNotFound(x) => x@,
        XenonResponse::MethodNotFound(x) => x@,
        XenonResponse::SessionNotFound(x) => x@,
        XenonResponse::ErrorCreatingSession(x) => x@,
        XenonResponse::NoMatchingBrowser => "No browser was found to match the desired capabilities"@,
        XenonResponse::NoSessionsAvailable => "Session limit reached. No available sessions"@,
        XenonResponse::InternalServerError(x) => x@,
        XenonResponse::ErrorCreatingNode(x) => x@,
        XenonResponse::ErrorUpdatingNode(x) => x@,
        XenonResponse::ErrorDeregisteringNode(x) => x@,
        XenonResponse::NodeNotFound(x) => x@,
    }
}

impl XenonResponse {
    /// The HTTP status code of the error envelope.
    pub fn status(&self) -> (r: u16)
        ensures
            r == spec_status(self),
    {
        match self {
            XenonResponse::EndpointNotFound(_) => 400,
            XenonResponse::MethodNotFound(_) => 400,
            XenonResponse::NoMatchingBrowser => 404,
            XenonResponse::NoSessionsAvailable => 404,
            _ => 500,
        }
    }

    /// The W3C error code placed in `state` and `value.error`.
    pub fn error_code(&self) -> (r: &'static str)
        ensures
            r@ == spec_error_code(self),
    {
        match self {
            XenonResponse::EndpointNotFound(_) => "unknown method",
            XenonResponse::MethodNotFound(_) => "unknown method",
            XenonResponse::SessionNotFound(_) => "invalid session id",
            XenonResponse::ErrorCreatingSession(_) => "session not created",
            XenonResponse::NoMatchingBrowser => "session not created",
            XenonResponse::NoSessionsAvailable => "session not created",
            XenonResponse::InternalServerError(_) => "unknown error",
            XenonResponse::ErrorCreatingNode(_) => "error creating node",
            XenonResponse::ErrorUpdatingNode(_) => "error updating node",
            XenonResponse::ErrorDeregisteringNode(_) => "error deregistering node",
            XenonResponse::NodeNotFound(_) => "node not found",
        }
    }

    /// The human-readable message placed in `value.message`.
    pub fn message(&self) -> (r: String)
        ensures
            r@ == spec_message(self),
    {
        match self {
            XenonResponse::EndpointNotFound(x) => x.clone(),
            XenonResponse::MethodNotFound(x) => x.clone(),
            XenonResponse::SessionNotFound(x) => x.clone(),
            XenonResponse::ErrorCreatingSession(x) => x.clone(),
            XenonResponse::NoMatchingBrowser => "No browser was found to match the desired capabilities".to_owned(),
            XenonResponse::NoSessionsAvailable => "Session limit reached. No available sessions".to_owned(),
            XenonResponse::InternalServerError(x) => x.clone(),
            XenonResponse::ErrorCreatingNode(x) => x.clone(),
            XenonResponse::ErrorUpdatingNode(x) => x.clone(),
            XenonResponse::ErrorDeregisteringNode(x) => x.clone(),
            XenonResponse::NodeNotFound(x) => x.clone(),
        }
    }
}

} // verus!
