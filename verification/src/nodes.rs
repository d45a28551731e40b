//! Remote nodes: peer Xenon instances that can take a session when the local
//! pool cannot. A node's record carries a monotonic `comms_id` generation
//! counter so that out-of-order update messages are discarded.

use vstd::prelude::*;
use crate::browser::BrowserConfig;
use crate::error::XenonError;
use crate::response::XenonResponse;
use crate::session::new_v4_string;

verus! {

/// A remote node's identifier (a UUID string).
#[derive(Debug)]
pub struct NodeId(pub String);

impl View for NodeId {
    type V = Seq<char>;

    open spec fn view(&self) -> Seq<char> {
        self.0@
    }
}

impl DeepView for NodeId {
    type V = Seq<char>;

    open spec fn deep_view(&self) -> Seq<char> {
        self.0@
    }
}

impl Clone for NodeId {
    fn clone(&self) -> (r: Self)
        ensures
            r@ == self@,
    {
        NodeId(self.0.clone())
    }
}

impl PartialEq for NodeId {
    fn eq(&self, other: &Self) -> (r: bool) {
        self.0 == other.0
    }
}

impl vstd::std_specs::cmp::PartialEqSpecImpl for NodeId {
    open spec fn obeys_eq_spec() -> bool {
        true
    }

    open spec fn eq_spec(&self, other: &Self) -> bool {
        self.0@ == other.0@
    }
}

impl NodeId {
    /// Mint a fresh node id.
    pub fn new() -> (r: Self)
        ensures
            r@.len() == 36,
    {
        NodeId(new_v4_string())
    }

    /// The identifier as a string.
    pub fn to_string(&self) -> (r: String)
        ensures
            r@ == self@,
    {
        self.0.clone()
    }
}

/// One browser pool a remote node offers, with how many sessions it said it
/// still has room for.
#[derive(Debug)]
pub struct RemoteServiceGroup {
    pub browser: BrowserConfig,
    pub remaining_sessions: u32,
}

impl Clone for RemoteServiceGroup {
    fn clone(&self) -> (r: Self)
        ensures
            r.browser.deep_view() == self.browser.deep_view(),
            r.remaining_sessions == self.remaining_sessions,
    {
        RemoteServiceGroup {
            browser: self.browser.clone(),
            remaining_sessions: self.remaining_sessions,
        }
    }
}

/// The body of a node-registration request.
#[derive(Debug)]
pub struct RemoteNodeCreate {
    pub name: String,
    pub url: String,
    pub service_groups: Vec<RemoteServiceGroup>,
}

/// What parsing a node URL yields: whether it parses at all, and its scheme
/// and authority components where the URL names them.
pub struct UriPartsView {
    pub valid: bool,
    pub scheme: Option<Seq<char>>,
    pub authority: Option<Seq<char>>,
}

/// The outcome of URI parsing, as `http::Uri`'s parser (re-exported by
/// hyper) computes it from the characters alone.
pub uninterp spec fn uri_parts_of(url: Seq<char>) -> UriPartsView;

/// The scheme and authority of a parsed node URL.
pub struct ParsedUri {
    pub scheme: Option<String>,
    pub authority: Option<String>,
}

/// Relies on hyper::Uri (http::Uri) parsing via FromStr, and on its
/// `scheme_str` and `authority` accessors, to split a URL into scheme and
/// authority.
#[verifier::external_body]
fn parse_uri_parts(url: &str) -> (r: Option<ParsedUri>)
    ensures
        r is Some <==> uri_parts_of(url@).valid,
        r matches Some(p) ==> p.scheme.deep_view() == uri_parts_of(url@).scheme
            && p.authority.deep_view() == uri_parts_of(url@).authority,
{
    match url.parse::<hyper::Uri>() {
        Ok(uri) => Some(ParsedUri {
            scheme: uri.scheme_str().map(|s| s.to_string()),
            authority: uri.authority().map(|a| a.as_str().to_string()),
        }),
        Err(_) => None,
    }
}

/// The scheme and authority a node URL denotes, with the defaults of a
/// missing component filled in: scheme `http`, authority `localhost:8888`.
pub open spec fn spec_parse_url(url: Seq<char>) -> Option<(Seq<char>, Seq<char>)> {
    let p = uri_parts_of(url);
    if p.valid {
        Some((
            match p.scheme {
                Some(s) => s,
                None => "http"@,
            },
            match p.authority {
                Some(a) => a,
                None => "localhost:8888"@,
            },
        ))
    } else {
        None
    }
}

/// Split a node URL into scheme and authority, defaulting the missing parts.
pub fn parse_url(url: &str) -> (r: Option<(String, String)>)
    ensures
        match r {
            Some(t) => spec_parse_url(url@) == Some((t.0@, t.1@)),
            None => spec_parse_url(url@) is None,
        },
{
    match parse_uri_parts(url) {
        Some(p) => {
            let scheme = match p.scheme {
                Some(s) => s,
                None => "http".to_owned(),
            };
            let authority = match p.authority {
                Some(a) => a,
                None => "localhost:8888".to_owned(),
            };
            Some((scheme, authority))
        },
        None => None,
    }
}

/// A registered peer Xenon instance and its cached capability inventory.
#[derive(Debug)]
pub struct RemoteNode {
    pub id: NodeId,
    pub name: String,
    pub url: String,
    pub comms_id: u128,
    pub service_groups: Vec<RemoteServiceGroup>,
    pub scheme: String,
    pub authority: String,
}

/// The display name of a node: its name, or its id when the name is empty;
/// with a name, the id follows in parentheses.
pub open spec fn spec_display_name(n: &RemoteNode) -> Seq<char> {
    if n.name@.len() == 0 {
        n.id@
    } else {
        n.name@ + " ("@ + n.id@ + ")"@
    }
}

impl RemoteNode {
    /// Register a node: parse its URL, mint a fresh id, and start its
    /// generation counter at zero.
    pub fn new(node_info: RemoteNodeCreate) -> (r: Result<Self, XenonError>)
        ensures
            match r {
                Ok(n) => {
                    &&& spec_parse_url(node_info.url@) == Some((n.scheme@, n.authority@))
                    &&& n.id@.len() == 36
                    &&& n.name == node_info.name
                    &&& n.url == node_info.url
                    &&& n.comms_id == 0
                    &&& n.service_groups == node_info.service_groups
                },
                Err(e) => {
                    &&& spec_parse_url(node_info.url@) is None
                    &&& e matches XenonError::RespondWith(XenonResponse::ErrorCreatingNode(_))
                },
            },
    {
        match parse_url(node_info.url.as_str()) {
            Some((scheme, authority)) => Ok(RemoteNode {
                id: NodeId::new(),
                name: node_info.name,
                url: node_info.url,
                comms_id: 0,
                service_groups: node_info.service_groups,
                scheme,
                authority,
            }),
            None => Err(XenonError::RespondWith(XenonResponse::ErrorCreatingNode(
                "Error parsing url for remote node: ".to_owned().concat(node_info.url.as_str()),
            ))),
        }
    }

    pub fn id(&self) -> (r: NodeId)
        ensures
            r@ == self.id@,
    {
        self.id.clone()
    }

    pub fn display_name(&self) -> (r: String)
        ensures
            r@ == spec_display_name(self),
    {
        if self.name.as_str().is_empty() {
            self.id.to_string()
        } else {
            let mut out = self.name.clone();
            out.append(" (");
            out.append(self.id.0.as_str());
            out.append(")");
            proof {
                assert(out@ =~= spec_display_name(self));
            }
            out
        }
    }
}

} // verus!
