//! Sessions: the externally visible session id, the per-session record, and
//! the computational steps of session creation and request forwarding. The
//! HTTP traffic itself happens outside the library; these functions decide
//! what each exchange means.

use vstd::prelude::*;
use crate::error::XenonError;
use crate::portmanager::ServicePort;
use crate::response::XenonResponse;
use crate::strutil::{all_digits, dec_value, parse_dec_u16, rfind_char};

verus! {

broadcast use vstd::seq_lib::group_seq_properties;

/// Relies on uuid::Uuid::new_v4 and its Display form: a fresh random
/// version-4 UUID rendered in the hyphenated format of 36 characters.
#[verifier::external_body]
pub(crate) fn new_v4_string() -> (r: String)
    ensures
        r@.len() == 36,
{
    uuid::Uuid::new_v4().to_string()
}

/// The externally facing session identifier, minted by Xenon. It is never
/// the backend driver's own session id.
#[derive(Debug)]
pub struct XenonSessionId(pub String);

impl View for XenonSessionId {
    type V = Seq<char>;

    open spec fn view(&self) -> Seq<char> {
        self.0@
    }
}

impl DeepView for XenonSessionId {
    type V = Seq<char>;

    open spec fn deep_view(&self) -> Seq<char> {
        self.0@
    }
}

impl Clone for XenonSessionId {
    fn clone(&self) -> (r: Self)
        ensures
            r@ == self@,
    {
        XenonSessionId(self.0.clone())
    }
}

impl PartialEq for XenonSessionId {
    fn eq(&self, other: &Self) -> (r: bool) {
        self.0 == other.0
    }
}

impl vstd::std_specs::cmp::PartialEqSpecImpl for XenonSessionId {
    open spec fn obeys_eq_spec() -> bool {
        true
    }

    open spec fn eq_spec(&self, other: &Self) -> bool {
        self.0@ == other.0@
    }
}

impl XenonSessionId {
    /// Mint a fresh session id.
    pub fn new() -> (r: Self)
        ensures
            r@.len() == 36,
    {
        XenonSessionId(new_v4_string())
    }

    /// Wrap an existing identifier string, e.g. one taken from a request
    /// path.
    pub fn from_string(s: String) -> (r: Self)
        ensures
            r@ == s@,
    {
        XenonSessionId(s)
    }

    /// The identifier as a string.
    pub fn to_string(&self) -> (r: String)
        ensures
            r@ == self@,
    {
        self.0.clone()
    }
}

/// The session-id fields of a backend's new-session response body: the
/// top-level `sessionId` and `value.sessionId`, either of which may be empty.
#[derive(Debug)]
pub struct ConnectionResp {
    pub session_id: String,
    pub value_session_id: String,
}

/// The backend session id a new-session response designates:
/// `value.sessionId` when non-empty, else the top-level `sessionId`.
pub open spec fn spec_backend_session_id(resp: &ConnectionResp) -> Seq<char> {
    if resp.value_session_id@.len() > 0 {
        resp.value_session_id@
    } else {
        resp.session_id@
    }
}

/// A Session represents one logical WebDriver session: where its backend
/// lives, the backend's own session id, and when it was last used.
/// `service_group` is `None` for a remote (federated) session.
#[derive(Debug)]
pub struct Session {
    pub session_id: String,
    pub service_group: Option<String>,
    pub scheme: String,
    pub authority: String,
    pub port: ServicePort,
    pub last_timestamp: u64,
}

impl Clone for Session {
    fn clone(&self) -> (r: Self)
        ensures
            r.session_id@ == self.session_id@,
            r.service_group.deep_view() == self.service_group.deep_view(),
            r.scheme@ == self.scheme@,
            r.authority@ == self.authority@,
            r.port == self.port,
            r.last_timestamp == self.last_timestamp,
    {
        let r = Session {
            session_id: self.session_id.clone(),
            service_group: self.service_group.clone(),
            scheme: self.scheme.clone(),
            authority: self.authority.clone(),
            port: self.port,
            last_timestamp: self.last_timestamp,
        };
        proof {
            assert(r.service_group.deep_view() =~~= self.service_group.deep_view());
        }
        r
    }
}

/// The port of an authority string `host:port`, when its suffix after the
/// last `:` is a plain decimal port number.
pub open spec fn last_colon(s: Seq<char>) -> int
    decreases s.len(),
{
    if s.len() == 0 {
        -1
    } else if s.last() == ':' {
        s.len() - 1
    } else {
        last_colon(s.drop_last())
    }
}

pub proof fn lemma_last_colon(s: Seq<char>)
    ensures
        -1 <= last_colon(s) < s.len(),
        last_colon(s) >= 0 ==> s[last_colon(s)] == ':',
        forall|k: int| last_colon(s) < k < s.len() ==> s[k] != ':',
    decreases s.len(),
{
    if s.len() == 0 {
    } else if s.last() == ':' {
    } else {
        lemma_last_colon(s.drop_last());
        let c = last_colon(s);
        assert(c == last_colon(s.drop_last()));
        if c >= 0 {
            assert(s.drop_last()[c] == ':');
            assert(s[c] == ':');
        }
        assert forall|k: int| c < k < s.len() implies s[k] != ':' by {
            if k < s.len() - 1 {
                assert(s.drop_last()[k] == s[k]);
            }
        }
    }
}

pub open spec fn spec_authority_port(s: Seq<char>) -> Option<u16> {
    let c = last_colon(s);
    if c < 0 {
        None
    } else {
        let suffix = s.skip(c + 1);
        if suffix.len() > 0 && all_digits(suffix) && dec_value(suffix) <= u16::MAX {
            Some(dec_value(suffix) as u16)
        } else {
            None
        }
    }
}

/// The port of an authority string, as in `localhost:4444`.
pub fn authority_port(authority: &str) -> (r: Option<u16>)
    ensures
        match r {
            Some(p) => spec_authority_port(authority@) == Some(p),
            None => spec_authority_port(authority@) is None,
        },
{
    proof {
        lemma_last_colon(authority@);
    }
    let n = authority.unicode_len();
    match rfind_char(authority, ':') {
        Some(c) => {
            proof {
                let lc = last_colon(authority@);
                assert(lc == c) by {
                    if lc > c {
                        assert(authority@[lc] == ':');
                    }
                    if lc < c {
                        assert(authority@[c as int] == ':');
                    }
                }
            }
            let suffix = authority.substring_char(c + 1, n);
            proof {
                assert(suffix@ =~= authority@.skip(c + 1));
            }
            parse_dec_u16(suffix)
        },
        None => {
            proof {
                if last_colon(authority@) >= 0 {
                    assert(authority@[last_colon(authority@)] == ':');
                }
            }
            None
        },
    }
}

/// The number of probe attempts allowed before session creation gives up
/// waiting for the driver to come up.
pub const MAX_PROBE_ATTEMPTS: u32 = 30;

/// What the readiness-probe loop does after one probe.
#[derive(Clone, Copy, PartialEq, Eq, Structural, Debug)]
pub enum ProbeStep {
    /// The driver answered with a success status: proceed to the handshake.
    Ready,
    /// Not ready yet: sleep one second and probe again.
    Retry,
    /// The attempt limit is spent: fail session creation.
    TimedOut,
}

/// Decide what the readiness probe does after an attempt: `success` is
/// whether `GET /status` returned a 2xx, `failed_attempts` counts the failed
/// attempts so far, this one excluded.
pub fn probe_step(failed_attempts: u32, success: bool) -> (r: ProbeStep)
    ensures
        r == (if success {
            ProbeStep::Ready
        } else if failed_attempts + 1 > MAX_PROBE_ATTEMPTS {
            ProbeStep::TimedOut
        } else {
            ProbeStep::Retry
        }),
{
    if success {
        ProbeStep::Ready
    } else if failed_attempts >= MAX_PROBE_ATTEMPTS {
        ProbeStep::TimedOut
    } else {
        ProbeStep::Retry
    }
}

/// The error reported when the readiness probe gives up.
pub fn probe_timeout_error() -> (e: XenonError)
    ensures
        e matches XenonError::RespondWith(XenonResponse::ErrorCreatingSession(m))
            && m@ == "Timed out waiting for WebDriver"@,
{
    XenonError::RespondWith(XenonResponse::ErrorCreatingSession(
        "Timed out waiting for WebDriver".to_owned(),
    ))
}

/// Whether an HTTP status code counts as success.
pub fn is_success_status(status: u16) -> (r: bool)
    ensures
        r == (200 <= status < 300),
{
    200 <= status && status < 300
}

/// What to do with the backend's answer to the new-session handshake.
#[derive(Debug)]
pub enum HandshakeStep {
    /// A non-2xx answer: pass status and body through to the client verbatim.
    PassThrough(u16, Vec<u8>),
    /// A 2xx answer: parse these body bytes and build the session.
    Parse(Vec<u8>),
}

/// Classify the backend's handshake response. A failed handshake is passed
/// through to the client exactly as the backend sent it.
pub fn handshake_step(status: u16, body: Vec<u8>) -> (r: HandshakeStep)
    ensures
        200 <= status < 300 ==> (r matches HandshakeStep::Parse(b) && b@ == body@),
        !(200 <= status < 300) ==> (r matches HandshakeStep::PassThrough(s, b)
            && s == status && b@ == body@),
{
    if is_success_status(status) {
        HandshakeStep::Parse(body)
    } else {
        HandshakeStep::PassThrough(status, body)
    }
}

impl Session {
    /// Build the session record from a successful handshake response, and
    /// the session-id fields of the body to answer the client with: both are
    /// rewritten to the Xenon-minted id, never the backend's.
    pub fn create(
        scheme: String,
        authority: String,
        service_group: Option<String>,
        resp: &ConnectionResp,
        xsession_id: &XenonSessionId,
        now: u64,
    ) -> (r: Result<(Session, ConnectionResp), XenonError>)
        ensures
            match r {
                Ok((s, out)) => {
                    &&& spec_authority_port(authority@) == Some(s.port)
                    &&& s.session_id@ == spec_backend_session_id(resp)
                    &&& s.service_group == service_group
                    &&& s.scheme == scheme
                    &&& s.authority == authority
                    &&& s.last_timestamp == now
                    &&& out.session_id@ == xsession_id@
                    &&& out.value_session_id@ == xsession_id@
                },
                Err(e) => {
                    &&& spec_authority_port(authority@) is None
                    &&& e matches XenonError::RespondWith(XenonResponse::ErrorCreatingSession(m))
                        && m@ == "Port not recognised"@
                },
            },
    {
        let port = match authority_port(authority.as_str()) {
            Some(p) => p,
            None => {
                return Err(XenonError::RespondWith(XenonResponse::ErrorCreatingSession(
                    "Port not recognised".to_owned(),
                )));
            },
        };
        let session_id = if !string_is_empty(&resp.value_session_id) {
            resp.value_session_id.clone()
        } else {
            resp.session_id.clone()
        };
        let out = ConnectionResp {
            session_id: xsession_id.to_string(),
            value_session_id: xsession_id.to_string(),
        };
        let session = Session {
            session_id,
            service_group,
            scheme,
            authority,
            port,
            last_timestamp: now,
        };
        Ok((session, out))
    }

    pub fn port(&self) -> (r: ServicePort)
        ensures
            r == self.port,
    {
        self.port
    }

    pub fn service_group(&self) -> (r: &Option<String>)
        ensures
            r == &self.service_group,
    {
        &self.service_group
    }

    /// How long ago the session was last used, given the current time in
    /// seconds. A clock that moved backwards reads as zero.
    pub fn seconds_since_last_request(&self, now: u64) -> (r: u64)
        ensures
            r == (if now >= self.last_timestamp { (now - self.last_timestamp) as u64 } else { 0u64 }),
    {
        if now >= self.last_timestamp {
            now - self.last_timestamp
        } else {
            0
        }
    }

    /// Record that a request is being forwarded on this session now.
    pub fn touch(&mut self, now: u64)
        ensures
            *final(self) == (Session { last_timestamp: now, ..*old(self) }),
    {
        self.last_timestamp = now;
    }

    /// The path-and-query of a forwarded request: the backend's session id
    /// replaces the Xenon-minted one, the trailing path and original query
    /// string are kept.
    pub fn forward_path(&self, endpoint: &str, query: Option<&str>) -> (r: String)
        ensures
            r@ == spec_forward_path(self.session_id@, endpoint@, match query {
                Some(q) => Some(q@),
                None => None,
            }),
    {
        let mut path = "/session/".to_owned();
        path.append(self.session_id.as_str());
        if !endpoint.is_empty() {
            path.append("/");
            path.append(endpoint);
        }
        match query {
            Some(q) => {
                path.append("?");
                path.append(q);
            },
            None => {},
        }
        proof {
            assert(path@ =~= spec_forward_path(self.session_id@, endpoint@, match query {
                Some(q) => Some(q@),
                None => None,
            }));
        }
        path
    }
}

/// The target path of a forwarded request.
pub open spec fn spec_forward_path(session_id: Seq<char>, endpoint: Seq<char>, query: Option<Seq<char>>) -> Seq<char> {
    "/session/"@ + session_id
        + (if endpoint.len() == 0 { Seq::<char>::empty() } else { "/"@ + endpoint })
        + (match query {
            Some(q) => "?"@ + q,
            None => Seq::<char>::empty(),
        })
}

/// Whether a string is empty.
fn string_is_empty(s: &String) -> (r: bool)
    ensures
        r == (s@.len() == 0),
{
    s.as_str().is_empty()
}

} // verus!
