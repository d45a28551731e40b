//! The process-wide state: service groups, port manager, session table and
//! remote nodes, with the invariants that tie them together: session counts
//! stay within the configured limits, a port is taken exactly while a service
//! owns it, and every local session is attached to its service group.

use vstd::prelude::*;
use crate::browser::Capabilities;
use crate::config::XenonConfig;
use crate::error::{XenonError, XenonResult};
use crate::nodes::{NodeId, RemoteNode, RemoteNodeCreate, RemoteServiceGroup};
use crate::portmanager::{PortManager, ServicePort};
use crate::response::XenonResponse;
use crate::seqtools::{lemma_remove_contains, lemma_remove_no_duplicates, lemma_push_no_duplicates};
use crate::service::ServiceGroup;
use crate::session::{Session, XenonSessionId};

verus! {

broadcast use vstd::seq_lib::group_seq_properties;

/// Sessions idle for longer than this many seconds are reaped.
pub const SESSION_TIMEOUT_SECS: u64 = 1800;

pub struct XenonState {
    pub service_groups: Vec<ServiceGroup>,
    pub port_manager: PortManager,
    pub sessions: Vec<(XenonSessionId, Session)>,
    pub remote_nodes: Vec<RemoteNode>,
}

/// The ids of the session table, in order.
pub open spec fn spec_session_ids(s: Seq<(XenonSessionId, Session)>) -> Seq<Seq<char>> {
    Seq::new(s.len(), |i: int| s[i].0@)
}

impl XenonState {
    pub open spec fn spec_has_group(&self, name: Seq<char>) -> bool {
        exists|k: int| 0 <= k < self.service_groups@.len()
            && (#[trigger] self.service_groups@[k]).browser.name@ == name
    }

    /// Some service group owns the service at this port.
    pub open spec fn spec_some_group_has_port(&self, p: ServicePort) -> bool {
        exists|k: int| 0 <= k < self.service_groups@.len()
            && (#[trigger] self.service_groups@[k]).has_port(p)
    }

    pub open spec fn spec_has_session(&self, id: Seq<char>) -> bool {
        spec_session_ids(self.sessions@).contains(id)
    }

    /// The session record under an id of the table.
    pub open spec fn spec_session(&self, id: Seq<char>) -> Session {
        self.sessions@[spec_first_id_index(self.sessions@, id)].1
    }

    /// A local session entry is backed by its service group: the group
    /// exists and its service at the session's port holds the session id.
    pub open spec fn spec_entry_backed(&self, k: int) -> bool {
        match self.sessions@[k].1.service_group {
            Some(g) => exists|j: int| 0 <= j < self.service_groups@.len()
                && (#[trigger] self.service_groups@[j]).browser.name@ == g@
                && self.service_groups@[j].has_session_at(self.sessions@[k].1.port, self.sessions@[k].0@),
            None => true,
        }
    }

    pub open spec fn wf(&self) -> bool {
        // every group within its limits
        &&& forall|k: int| 0 <= k < self.service_groups@.len()
                ==> (#[trigger] self.service_groups@[k]).wf()
        // group names distinct
        &&& forall|i: int, j: int| 0 <= i < j < self.service_groups@.len()
                ==> (#[trigger] self.service_groups@[i]).browser.name@
                    != (#[trigger] self.service_groups@[j]).browser.name@
        // no two groups own the same port
        &&& forall|i: int, j: int, p: ServicePort| 0 <= i < self.service_groups@.len()
                && 0 <= j < self.service_groups@.len() && i != j
                ==> !(#[trigger] self.service_groups@[i].has_port(p)
                    && #[trigger] self.service_groups@[j].has_port(p))
        &&& self.port_manager.wf()
        // a port is taken exactly while some service owns it
        &&& forall|p: ServicePort| self.port_manager.is_taken(p) == self.spec_some_group_has_port(p)
        // session ids distinct
        &&& spec_session_ids(self.sessions@).no_duplicates()
        // every local session is attached to its service group
        &&& forall|k: int| 0 <= k < self.sessions@.len() ==> self.spec_entry_backed(k)
    }

    /// Build the state from a loaded configuration: one service group per
    /// configured browser (a repeated name replaces the earlier entry), the
    /// port pool from the configured ranges, and one remote node per
    /// configured node entry. Fails when a browser has no driver and no
    /// default, or a node URL does not parse.
    #[verifier::rlimit(100)]
    pub fn new(config: XenonConfig) -> (r: XenonResult<Self>)
        ensures
            match r {
                Ok(s) => {
                    &&& s.wf()
                    &&& s.sessions@.len() == 0
                    &&& forall|p: ServicePort| s.port_manager.is_available(p)
                        == crate::config::spec_port_list(config.ports.deep_view()).contains(p)
                    &&& forall|p: ServicePort| !s.port_manager.is_taken(p)
                    &&& forall|k: int| 0 <= k < s.service_groups@.len()
                        ==> (#[trigger] s.service_groups@[k]).services@.len() == 0
                    &&& forall|k: int| 0 <= k < s.service_groups@.len()
                        ==> exists|i: int| 0 <= i < config.browsers@.len()
                            && (#[trigger] s.service_groups@[k]).browser.name@
                                == (#[trigger] config.browsers@[i]).name@
                            && s.service_groups@[k].browser.version.deep_view()
                                == config.browsers@[i].version.deep_view()
                            && s.service_groups@[k].browser.os.deep_view()
                                == config.browsers@[i].os.deep_view()
                            && s.service_groups@[k].browser.sessions_per_driver
                                == config.browsers@[i].sessions_per_driver
                            && s.service_groups@[k].browser.max_sessions
                                == config.browsers@[i].max_sessions
                    &&& forall|i: int| 0 <= i < config.browsers@.len()
                        ==> s.spec_has_group((#[trigger] config.browsers@[i]).name@)
                    &&& s.remote_nodes@.len() == config.nodes@.len()
                    &&& forall|k: int| 0 <= k < config.nodes@.len()
                        ==> (#[trigger] s.remote_nodes@[k]).comms_id == 0
                            && s.remote_nodes@[k].name@ == config.nodes@[k].name@
                            && s.remote_nodes@[k].url@ == config.nodes@[k].url@
                },
                Err(_) => {
                    // only a bad input fails: a browser with neither a
                    // configured driver nor a default, or a node URL that
                    // does not parse
                    ||| exists|i: int| 0 <= i < config.browsers@.len()
                        && (#[trigger] config.browsers@[i]).driver_path is None
                        && crate::browser::spec_default_webdriver(config.browsers@[i].name@) is None
                    ||| exists|k: int| 0 <= k < config.nodes@.len()
                        && crate::nodes::spec_parse_url((#[trigger] config.nodes@[k]).url@) is None
                },
            },
    {
        let port_list = config.get_port_list();
        let port_manager = PortManager::from_port_list(&port_list);
        let (browsers, node_data_list) = config.browsers_and_nodes();

        let mut service_groups: Vec<ServiceGroup> = Vec::new();
        let ghost browsers_view = browsers@;
        let n = browsers.len();
        let mut i: usize = 0;
        while i < n
            invariant
                n == browsers@.len(),
                browsers_view == browsers@,
                browsers@ == config.browsers@,
                i <= n,
                forall|k: int| 0 <= k < service_groups@.len()
                    ==> (#[trigger] service_groups@[k]).wf(),
                forall|k: int| 0 <= k < service_groups@.len()
                    ==> (#[trigger] service_groups@[k]).services@.len() == 0,
                forall|a: int, b: int| 0 <= a < b < service_groups@.len()
                    ==> (#[trigger] service_groups@[a]).browser.name@
                        != (#[trigger] service_groups@[b]).browser.name@,
                forall|k: int| 0 <= k < service_groups@.len()
                    ==> exists|j: int| 0 <= j < i
                        && (#[trigger] service_groups@[k]).browser.name@
                            == (#[trigger] browsers@[j]).name@
                        && service_groups@[k].browser.version.deep_view()
                            == browsers@[j].version.deep_view()
                        && service_groups@[k].browser.os.deep_view()
                            == browsers@[j].os.deep_view()
                        && service_groups@[k].browser.sessions_per_driver
                            == browsers@[j].sessions_per_driver
                        && service_groups@[k].browser.max_sessions
                            == browsers@[j].max_sessions,
                forall|j: int| 0 <= j < i
                    ==> exists|k: int| 0 <= k < service_groups@.len()
                        && (#[trigger] service_groups@[k]).browser.name@
                            == (#[trigger] browsers@[j]).name@,
            decreases n - i,
        {
            let mut browser = browsers[i].clone();
            proof {
                assert(browser.deep_view() == browsers@[i as int].deep_view());
            }
            match browser.sanitize() {
                Ok(()) => {},
                Err(e) => {
                    proof {
                        assert(browsers@[i as int].driver_path is None
                            && crate::browser::spec_default_webdriver(browsers@[i as int].name@) is None) by {
                            assert(browser.driver_path.deep_view()
                                == browsers@[i as int].driver_path.deep_view());
                            assert(browser.name@ == browsers@[i as int].name@);
                        }
                    }
                    return Err(e);
                },
            }
            let group = ServiceGroup::new(browser);
            let ghost pre = service_groups@;
            match find_group_index(&service_groups, group.name()) {
                Some(g) => {
                    let ghost gname = group.browser.name@;
                    service_groups.remove(g);
                    service_groups.insert(g, group);
                    proof {
                        assert(service_groups@ =~= pre.update(g as int, service_groups@[g as int]));
                        let post = service_groups@;
                        assert(post[g as int].browser.name@ == gname);
                        assert(pre[g as int].browser.name@ == gname);
                        assert forall|k: int| 0 <= k < post.len() implies exists|j: int| 0 <= j < i + 1
                            && (#[trigger] post[k]).browser.name@ == (#[trigger] browsers@[j]).name@
                            && post[k].browser.version.deep_view() == browsers@[j].version.deep_view()
                            && post[k].browser.os.deep_view() == browsers@[j].os.deep_view()
                            && post[k].browser.sessions_per_driver == browsers@[j].sessions_per_driver
                            && post[k].browser.max_sessions == browsers@[j].max_sessions by {
                            if k != g {
                                let j = choose|j: int| 0 <= j < i
                                    && (#[trigger] pre[k]).browser.name@ == (#[trigger] browsers@[j]).name@
                                    && pre[k].browser.version.deep_view() == browsers@[j].version.deep_view()
                                    && pre[k].browser.os.deep_view() == browsers@[j].os.deep_view()
                                    && pre[k].browser.sessions_per_driver == browsers@[j].sessions_per_driver
                                    && pre[k].browser.max_sessions == browsers@[j].max_sessions;
                                assert(post[k] == pre[k]);
                                assert(0 <= j < i + 1 && post[k].browser.name@ == browsers@[j].name@
                                    && post[k].browser.version.deep_view() == browsers@[j].version.deep_view()
                                    && post[k].browser.os.deep_view() == browsers@[j].os.deep_view()
                                    && post[k].browser.sessions_per_driver == browsers@[j].sessions_per_driver
                                    && post[k].browser.max_sessions == browsers@[j].max_sessions);
                            } else {
                                assert(0 <= i < i + 1 && post[k].browser.name@ == browsers@[i as int].name@
                                    && post[k].browser.version.deep_view() == browsers@[i as int].version.deep_view()
                                    && post[k].browser.os.deep_view() == browsers@[i as int].os.deep_view()
                                    && post[k].browser.sessions_per_driver == browsers@[i as int].sessions_per_driver
                                    && post[k].browser.max_sessions == browsers@[i as int].max_sessions);
                            }
                        }
                        assert forall|j: int| 0 <= j < i + 1 implies exists|k: int| 0 <= k < post.len()
                            && (#[trigger] post[k]).browser.name@ == (#[trigger] browsers@[j]).name@ by {
                            if j < i {
                                let k = choose|k: int| 0 <= k < pre.len()
                                    && (#[trigger] pre[k]).browser.name@ == browsers@[j].name@;
                                if k == g && pre[k].browser.name@ != gname {
                                    assert(false);
                                }
                                assert(post[k].browser.name@ == browsers@[j].name@);
                            } else {
                                assert(post[g as int].browser.name@ == browsers@[i as int].name@);
                            }
                        }
                    }
                },
                None => {
                    service_groups.push(group);
                    proof {
                        let post = service_groups@;
                        assert forall|k: int| 0 <= k < post.len() implies exists|j: int| 0 <= j < i + 1
                            && (#[trigger] post[k]).browser.name@ == (#[trigger] browsers@[j]).name@
                            && post[k].browser.version.deep_view() == browsers@[j].version.deep_view()
                            && post[k].browser.os.deep_view() == browsers@[j].os.deep_view()
                            && post[k].browser.sessions_per_driver == browsers@[j].sessions_per_driver
                            && post[k].browser.max_sessions == browsers@[j].max_sessions by {
                            if k < pre.len() {
                                let j = choose|j: int| 0 <= j < i
                                    && (#[trigger] pre[k]).browser.name@ == (#[trigger] browsers@[j]).name@
                                    && pre[k].browser.version.deep_view() == browsers@[j].version.deep_view()
                                    && pre[k].browser.os.deep_view() == browsers@[j].os.deep_view()
                                    && pre[k].browser.sessions_per_driver == browsers@[j].sessions_per_driver
                                    && pre[k].browser.max_sessions == browsers@[j].max_sessions;
                                assert(post[k] == pre[k]);
                                assert(0 <= j < i + 1 && post[k].browser.name@ == browsers@[j].name@
                                    && post[k].browser.version.deep_view() == browsers@[j].version.deep_view()
                                    && post[k].browser.os.deep_view() == browsers@[j].os.deep_view()
                                    && post[k].browser.sessions_per_driver == browsers@[j].sessions_per_driver
                                    && post[k].browser.max_sessions == browsers@[j].max_sessions);
                            } else {
                                assert(0 <= i < i + 1 && post[k].browser.name@ == browsers@[i as int].name@
                                    && post[k].browser.version.deep_view() == browsers@[i as int].version.deep_view()
                                    && post[k].browser.os.deep_view() == browsers@[i as int].os.deep_view()
                                    && post[k].browser.sessions_per_driver == browsers@[i as int].sessions_per_driver
                                    && post[k].browser.max_sessions == browsers@[i as int].max_sessions);
                            }
                        }
                        assert forall|j: int| 0 <= j < i + 1 implies exists|k: int| 0 <= k < post.len()
                            && (#[trigger] post[k]).browser.name@ == (#[trigger] browsers@[j]).name@ by {
                            if j < i {
                                let k = choose|k: int| 0 <= k < pre.len()
                                    && (#[trigger] pre[k]).browser.name@ == browsers@[j].name@;
                                assert(post[k].browser.name@ == browsers@[j].name@);
                            } else {
                                assert(post[post.len() - 1].browser.name@ == browsers@[i as int].name@);
                            }
                        }
                        assert forall|a: int, b: int| 0 <= a < b < post.len()
                            implies (#[trigger] post[a]).browser.name@ != (#[trigger] post[b]).browser.name@ by {
                            if b == post.len() - 1 {
                                assert(pre[a].browser.name@ != post[b].browser.name@);
                            }
                        }
                    }
                },
            }
            i += 1;
        }

        let mut node_data_list = node_data_list;
        let ghost all_nodes = node_data_list@;
        let mut nodes: Vec<RemoteNode> = Vec::new();
        while node_data_list.len() > 0
            invariant
                all_nodes == config.nodes@,
                nodes@.len() + node_data_list@.len() == all_nodes.len(),
                node_data_list@ == all_nodes.skip(nodes@.len() as int),
                forall|k: int| 0 <= k < nodes@.len()
                    ==> (#[trigger] nodes@[k]).comms_id == 0
                        && nodes@[k].name@ == all_nodes[k].name@
                        && nodes@[k].url@ == all_nodes[k].url@,
            decreases node_data_list@.len(),
        {
            let ghost done = nodes@.len() as int;
            let ghost rest = node_data_list@;
            let node_data = node_data_list.remove(0);
            proof {
                assert(node_data == all_nodes[done]);
                assert(node_data_list@ =~= all_nodes.skip(done + 1));
            }
            let node = match RemoteNode::new(node_data) {
                Ok(n) => n,
                Err(e) => {
                    proof {
                        assert(crate::nodes::spec_parse_url(all_nodes[done].url@) is None);
                    }
                    return Err(e);
                },
            };
            nodes.push(node);
        }
        proof {
            assert(nodes@.len() == all_nodes.len());
        }

        Ok(XenonState {
            service_groups,
            port_manager,
            sessions: Vec::new(),
            remote_nodes: nodes,
        })
    }
}

/// The index of the group with a browser name, if any.
fn find_group_index(groups: &Vec<ServiceGroup>, name: &String) -> (r: Option<usize>)
    ensures
        match r {
            Some(i) => i < groups@.len() && groups@[i as int].browser.name@ == name@,
            None => forall|k: int| 0 <= k < groups@.len()
                ==> (#[trigger] groups@[k]).browser.name@ != name@,
        },
{
    let n = groups.len();
    let mut i: usize = 0;
    while i < n
        invariant
            n == groups@.len(),
            i <= n,
            forall|k: int| 0 <= k < i ==> (#[trigger] groups@[k]).browser.name@ != name@,
        decreases n - i,
    {
        if crate::strutil::str_eq(groups[i].name().as_str(), name.as_str()) {
            return Some(i);
        }
        i += 1;
    }
    None
}


/// The index of the first entry of the session table with the given id, or
/// the table's length when the id is absent.
pub open spec fn spec_first_id_index(s: Seq<(XenonSessionId, Session)>, id: Seq<char>) -> int
    decreases s.len(),
{
    if s.len() == 0 {
        0
    } else if s[0].0@ == id {
        0
    } else {
        1 + spec_first_id_index(s.skip(1), id)
    }
}

pub proof fn lemma_first_id_index(s: Seq<(XenonSessionId, Session)>, id: Seq<char>)
    ensures
        0 <= spec_first_id_index(s, id) <= s.len(),
        spec_first_id_index(s, id) < s.len() ==> s[spec_first_id_index(s, id)].0@ == id,
        forall|k: int| 0 <= k < spec_first_id_index(s, id) ==> (#[trigger] s[k]).0@ != id,
    decreases s.len(),
{
    if s.len() == 0 {
    } else if s[0].0@ == id {
    } else {
        lemma_first_id_index(s.skip(1), id);
        let d = spec_first_id_index(s, id);
        assert forall|k: int| 0 <= k < d implies (#[trigger] s[k]).0@ != id by {
            if k > 0 {
                assert(s.skip(1)[k - 1] == s[k]);
            }
        }
        if d < s.len() {
            assert(s.skip(1)[d - 1] == s[d]);
        }
    }
}

/// Whether a session entry has sat idle past the timeout.
pub open spec fn spec_timed_out(e: (XenonSessionId, Session), now: u64) -> bool {
    now > e.1.last_timestamp + SESSION_TIMEOUT_SECS
}

/// Whether `x` is the id of one of the first `n` entries of the table.
pub open spec fn spec_id_in_prefix(s: Seq<(XenonSessionId, Session)>, n: int, x: Seq<char>) -> bool {
    exists|k: int| 0 <= k < n && k < s.len() && (#[trigger] s[k]).0@ == x
}

/// Whether `x` is the id of a timed-out entry of the table.
pub open spec fn spec_timed_out_id(s: Seq<(XenonSessionId, Session)>, now: u64, x: Seq<char>) -> bool {
    exists|k: int| 0 <= k < s.len() && (#[trigger] s[k]).0@ == x && spec_timed_out(s[k], now)
}

impl XenonState {
    pub fn port_manager(&self) -> (r: &PortManager)
        ensures
            r == &self.port_manager,
    {
        &self.port_manager
    }

    pub fn service_groups(&self) -> (r: &Vec<ServiceGroup>)
        ensures
            r == &self.service_groups,
    {
        &self.service_groups
    }

    pub fn remote_nodes(&self) -> (r: &Vec<RemoteNode>)
        ensures
            r == &self.remote_nodes,
    {
        &self.remote_nodes
    }

    /// The index of a session id in the table.
    fn find_session_index(&self, session_id: &XenonSessionId) -> (r: Option<usize>)
        ensures
            match r {
                Some(k) => k < self.sessions@.len() && self.sessions@[k as int].0@ == session_id@,
                None => !self.spec_has_session(session_id@),
            },
    {
        let n = self.sessions.len();
        let mut i: usize = 0;
        while i < n
            invariant
                n == self.sessions@.len(),
                i <= n,
                forall|k: int| 0 <= k < i ==> (#[trigger] self.sessions@[k]).0@ != session_id@,
            decreases n - i,
        {
            if self.sessions[i].0.eq(session_id) {
                return Some(i);
            }
            i += 1;
        }
        proof {
            if self.spec_has_session(session_id@) {
                let k = choose|k: int| 0 <= k < spec_session_ids(self.sessions@).len()
                    && spec_session_ids(self.sessions@)[k] == session_id@;
                assert(self.sessions@[k].0@ == session_id@);
            }
        }
        None
    }

    /// Look a session up by its id.
    pub fn get_session(&self, session_id: &XenonSessionId) -> (r: Option<&Session>)
        requires
            self.wf(),
        ensures
            match r {
                Some(s) => self.spec_has_session(session_id@) && *s == self.spec_session(session_id@),
                None => !self.spec_has_session(session_id@),
            },
    {
        match self.find_session_index(session_id) {
            Some(k) => {
                proof {
                    lemma_session_lookup(*self, session_id@, k as int);
                }
                Some(&self.sessions[k].1)
            },
            None => None,
        }
    }

    /// Whether a session record is consistent with the current topology:
    /// a remote session always is; a local one must be attached to its
    /// service group at its port.
    pub open spec fn spec_session_backed(&self, id: Seq<char>, session: &Session) -> bool {
        match session.service_group {
            Some(ref g) => exists|j: int| 0 <= j < self.service_groups@.len()
                && (#[trigger] self.service_groups@[j]).browser.name@ == g@
                && self.service_groups@[j].has_session_at(session.port, id),
            None => true,
        }
    }

    /// Insert a session into the table, replacing any entry under the same
    /// id. A local session whose reservation is not present in its service
    /// group is refused, so that the table never points at a missing
    /// backend; the return value says whether the session was inserted.
    pub fn add_session(&mut self, session_id: XenonSessionId, session: Session) -> (r: bool)
        requires
            old(self).wf(),
        ensures
            final(self).wf(),
            r == old(self).spec_session_backed(session_id@, &session),
            final(self).service_groups@ == old(self).service_groups@,
            final(self).port_manager == old(self).port_manager,
            final(self).remote_nodes@ == old(self).remote_nodes@,
            !r ==> final(self).sessions@ == old(self).sessions@,
            r ==> final(self).spec_has_session(session_id@)
                && final(self).spec_session(session_id@) == session,
            r ==> forall|x: Seq<char>| x != session_id@
                ==> final(self).spec_has_session(x) == old(self).spec_has_session(x),
            r ==> forall|x: Seq<char>| x != session_id@ && old(self).spec_has_session(x)
                ==> final(self).spec_session(x) == old(self).spec_session(x),
    {
        let backed = match &session.service_group {
            None => true,
            Some(g) => {
                match find_group_index(&self.service_groups, g) {
                    Some(j) => {
                        let b = self.service_groups[j].has_session_on_port(session.port, &session_id);
                        proof {
                            if !b && old(self).spec_session_backed(session_id@, &session) {
                                let j2 = choose|j2: int| 0 <= j2 < self.service_groups@.len()
                                    && (#[trigger] self.service_groups@[j2]).browser.name@ == g@
                                    && self.service_groups@[j2].has_session_at(session.port, session_id@);
                                assert(j2 == j);
                            }
                        }
                        b
                    },
                    None => {
                        proof {
                            if old(self).spec_session_backed(session_id@, &session) {
                                let j2 = choose|j2: int| 0 <= j2 < self.service_groups@.len()
                                    && (#[trigger] self.service_groups@[j2]).browser.name@ == g@
                                    && self.service_groups@[j2].has_session_at(session.port, session_id@);
                            }
                        }
                        false
                    },
                }
            },
        };
        if !backed {
            return false;
        }
        let ghost pre = self.sessions@;
        match self.find_session_index(&session_id) {
            Some(k) => {
                self.sessions.remove(k);
                self.sessions.insert(k, (session_id, session));
                proof {
                    assert(self.sessions@ =~= pre.update(k as int, self.sessions@[k as int]));
                    lemma_session_ids_update(pre, self.sessions@, k as int);
                    assert(spec_session_ids(self.sessions@)[k as int] == session_id@);
                    assert(spec_session_ids(self.sessions@) =~= spec_session_ids(pre));
                    lemma_session_lookup(*self, session_id@, k as int);
                    assert forall|x: Seq<char>| x != session_id@
                        implies final(self).spec_has_session(x) == old(self).spec_has_session(x) by {
                        lemma_ids_update_contains(pre, self.sessions@, k as int, x);
                    }
                    assert forall|x: Seq<char>| x != session_id@ && old(self).spec_has_session(x)
                        implies final(self).spec_session(x) == old(self).spec_session(x) by {
                        let c = choose|c: int| 0 <= c < pre.len() && pre[c].0@ == x;
                        assert(spec_session_ids(pre)[c] == x);
                        assert(c != k);
                        assert(self.sessions@[c].0@ == x && self.sessions@[c].1 == pre[c].1);
                        lemma_session_lookup(*old(self), x, c);
                        lemma_session_lookup(*self, x, c);
                    }
                    assert forall|k2: int| 0 <= k2 < self.sessions@.len()
                        implies self.spec_entry_backed(k2) by {
                        if k2 != k {
                            assert(self.sessions@[k2] == pre[k2]);
                            lemma_entry_backed_carries(*old(self), *self, k2, k2);
                        } else {
                            assert(self.sessions@[k2].0@ == session_id@
                                && self.sessions@[k2].1 == session);
                            lemma_new_entry_backed(*old(self), *self, k2, session_id@, &session);
                        }
                    }
                    lemma_wf_sessions_only(*old(self), *self);
                }
                true
            },
            None => {
                self.sessions.push((session_id, session));
                proof {
                    let post = self.sessions@;
                    assert(spec_session_ids(post) =~= spec_session_ids(pre).push(session_id@));
                    lemma_push_no_duplicates(spec_session_ids(pre), session_id@);
                    assert(spec_session_ids(post)[post.len() - 1] == session_id@);
                    lemma_session_lookup(*self, session_id@, post.len() - 1);
                    assert forall|x: Seq<char>| x != session_id@
                        implies final(self).spec_has_session(x) == old(self).spec_has_session(x) by {
                        assert(spec_session_ids(post) == spec_session_ids(pre).push(session_id@));
                    }
                    assert forall|x: Seq<char>| x != session_id@ && old(self).spec_has_session(x)
                        implies final(self).spec_session(x) == old(self).spec_session(x) by {
                        let c = choose|c: int| 0 <= c < pre.len() && pre[c].0@ == x;
                        assert(spec_session_ids(pre)[c] == x);
                        assert(post[c].0@ == x && post[c].1 == pre[c].1);
                        lemma_session_lookup(*old(self), x, c);
                        lemma_session_lookup(*self, x, c);
                    }
                    assert forall|k2: int| 0 <= k2 < post.len()
                        implies self.spec_entry_backed(k2) by {
                        if k2 < pre.len() {
                            assert(post[k2] == pre[k2]);
                            lemma_entry_backed_carries(*old(self), *self, k2, k2);
                        } else {
                            assert(post[k2].0@ == session_id@ && post[k2].1 == session);
                            lemma_new_entry_backed(*old(self), *self, k2, session_id@, &session);
                        }
                    }
                    lemma_wf_sessions_only(*old(self), *self);
                }
                true
            },
        }
    }

    /// Remove a session from the table; an unknown id is a no-op.
    pub fn delete_session(&mut self, session_id: &XenonSessionId) -> (r: Option<Session>)
        requires
            old(self).wf(),
        ensures
            final(self).wf(),
            final(self).service_groups@ == old(self).service_groups@,
            final(self).port_manager == old(self).port_manager,
            final(self).remote_nodes@ == old(self).remote_nodes@,
            match r {
                None => !old(self).spec_has_session(session_id@)
                    && final(self).sessions@ == old(self).sessions@,
                Some(sess) => {
                    &&& exists|k: int| 0 <= k < old(self).sessions@.len()
                        && (#[trigger] old(self).sessions@[k]).0@ == session_id@
                        && sess == old(self).sessions@[k].1
                        && final(self).sessions@ == old(self).sessions@.remove(k)
                    &&& !final(self).spec_has_session(session_id@)
                    &&& forall|x: Seq<char>| x != session_id@
                        ==> final(self).spec_has_session(x) == old(self).spec_has_session(x)
                    &&& forall|x: Seq<char>| x != session_id@ && old(self).spec_has_session(x)
                        ==> final(self).spec_session(x) == old(self).spec_session(x)
                    &&& sess == old(self).spec_session(session_id@)
                },
            },
    {
        match self.find_session_index(session_id) {
            Some(k) => {
                let ghost pre = self.sessions@;
                let (_, sess) = self.sessions.remove(k);
                proof {
                    let post = self.sessions@;
                    assert(spec_session_ids(post) =~= spec_session_ids(pre).remove(k as int));
                    lemma_remove_no_duplicates(spec_session_ids(pre), k as int);
                    assert(spec_session_ids(pre)[k as int] == session_id@);
                    assert forall|x: Seq<char>| #[trigger] spec_session_ids(post).contains(x)
                        == (spec_session_ids(pre).contains(x) && x != session_id@) by {
                        lemma_remove_contains(spec_session_ids(pre), k as int, x);
                    }
                    lemma_session_lookup(*old(self), session_id@, k as int);
                    assert forall|x: Seq<char>| x != session_id@ && old(self).spec_has_session(x)
                        implies final(self).spec_session(x) == old(self).spec_session(x) by {
                        let c = choose|c: int| 0 <= c < pre.len() && pre[c].0@ == x;
                        assert(spec_session_ids(pre)[c] == x);
                        assert(c != k);
                        lemma_session_lookup(*old(self), x, c);
                        if c < k {
                            assert(post[c] == pre[c]);
                            lemma_session_lookup(*self, x, c);
                        } else {
                            assert(post[c - 1] == pre[c]);
                            lemma_session_lookup(*self, x, c - 1);
                        }
                    }
                    assert forall|k2: int| 0 <= k2 < post.len()
                        implies self.spec_entry_backed(k2) by {
                        if k2 < k {
                            assert(post[k2] == pre[k2]);
                            lemma_entry_backed_carries(*old(self), *self, k2, k2);
                        } else {
                            assert(post[k2] == pre[k2 + 1]);
                            lemma_entry_backed_carries(*old(self), *self, k2 + 1, k2);
                        }
                    }
                    lemma_wf_sessions_only(*old(self), *self);
                }
                Some(sess)
            },
            None => None,
        }
    }

    /// Refresh a session's last-activity timestamp; an unknown id is a
    /// no-op. Returns whether the session exists.
    pub fn touch_session(&mut self, session_id: &XenonSessionId, now: u64) -> (r: bool)
        requires
            old(self).wf(),
        ensures
            final(self).wf(),
            final(self).service_groups@ == old(self).service_groups@,
            final(self).port_manager == old(self).port_manager,
            final(self).remote_nodes@ == old(self).remote_nodes@,
            r == old(self).spec_has_session(session_id@),
            !r ==> final(self).sessions@ == old(self).sessions@,
            r ==> final(self).spec_has_session(session_id@)
                && final(self).spec_session(session_id@)
                    == (Session { last_timestamp: now, ..old(self).spec_session(session_id@) }),
            forall|x: Seq<char>| final(self).spec_has_session(x) == old(self).spec_has_session(x),
            r ==> forall|x: Seq<char>| x != session_id@ && old(self).spec_has_session(x)
                ==> final(self).spec_session(x) == old(self).spec_session(x),
    {
        match self.find_session_index(session_id) {
            Some(k) => {
                let ghost pre = self.sessions@;
                let entry = &mut self.sessions[k];
                entry.1.touch(now);
                proof {
                    let post = self.sessions@;
                    assert(post =~= pre.update(k as int, post[k as int]));
                    lemma_session_ids_update(pre, post, k as int);
                    assert(post[k as int].0@ == pre[k as int].0@);
                    assert(spec_session_ids(post) =~= spec_session_ids(pre));
                    lemma_session_lookup(*old(self), session_id@, k as int);
                    lemma_session_lookup(*self, session_id@, k as int);
                    assert forall|x: Seq<char>| x != session_id@ && old(self).spec_has_session(x)
                        implies final(self).spec_session(x) == old(self).spec_session(x) by {
                        let c = choose|c: int| 0 <= c < pre.len() && pre[c].0@ == x;
                        assert(spec_session_ids(pre)[c] == x);
                        assert(c != k);
                        assert(post[c] == pre[c]);
                        lemma_session_lookup(*old(self), x, c);
                        lemma_session_lookup(*self, x, c);
                    }
                    assert forall|k2: int| 0 <= k2 < post.len()
                        implies self.spec_entry_backed(k2) by {
                        if k2 != k {
                            assert(post[k2] == pre[k2]);
                        }
                        assert(post[k2].0@ == pre[k2].0@
                            && post[k2].1.service_group == pre[k2].1.service_group
                            && post[k2].1.port == pre[k2].1.port);
                        lemma_entry_backed_carries(*old(self), *self, k2, k2);
                    }
                    lemma_wf_sessions_only(*old(self), *self);
                }
                true
            },
            None => false,
        }
    }

    /// The ids of every session idle past the timeout.
    pub fn get_timeout_sessions(&self, now: u64) -> (r: Vec<XenonSessionId>)
        requires
            self.wf(),
        ensures
            r.deep_view().no_duplicates(),
            forall|j: int| 0 <= j < r.deep_view().len()
                ==> spec_timed_out_id(self.sessions@, now, #[trigger] r.deep_view()[j]),
            forall|k: int| 0 <= k < self.sessions@.len() && spec_timed_out(#[trigger] self.sessions@[k], now)
                ==> r.deep_view().contains(self.sessions@[k].0@),
    {
        let mut ids: Vec<XenonSessionId> = Vec::new();
        let n = self.sessions.len();
        let mut i: usize = 0;
        while i < n
            invariant
                self.wf(),
                n == self.sessions@.len(),
                i <= n,
                ids.deep_view().no_duplicates(),
                forall|j: int| 0 <= j < ids.deep_view().len()
                    ==> spec_timed_out_id(self.sessions@, now, #[trigger] ids.deep_view()[j]),
                forall|j: int| 0 <= j < ids.deep_view().len()
                    ==> spec_id_in_prefix(self.sessions@, i as int, #[trigger] ids.deep_view()[j]),
                forall|k: int| 0 <= k < i && spec_timed_out(#[trigger] self.sessions@[k], now)
                    ==> ids.deep_view().contains(self.sessions@[k].0@),
            decreases n - i,
        {
            let entry = &self.sessions[i];
            if entry.1.seconds_since_last_request(now) > SESSION_TIMEOUT_SECS {
                let ghost pre = ids.deep_view();
                proof {
                    assert(!pre.contains(self.sessions@[i as int].0@)) by {
                        if pre.contains(self.sessions@[i as int].0@) {
                            let j = choose|j: int| 0 <= j < pre.len()
                                && pre[j] == self.sessions@[i as int].0@;
                            assert(spec_id_in_prefix(self.sessions@, i as int, pre[j]));
                            let k = choose|k: int| 0 <= k < i && k < self.sessions@.len()
                                && (#[trigger] self.sessions@[k]).0@ == pre[j];
                            assert(spec_session_ids(self.sessions@)[k]
                                == spec_session_ids(self.sessions@)[i as int]);
                            assert(k != i);
                        }
                    }
                }
                ids.push(entry.0.clone());
                proof {
                    assert(ids.deep_view() =~= pre.push(self.sessions@[i as int].0@));
                    lemma_push_no_duplicates(pre, self.sessions@[i as int].0@);
                    let dv = ids.deep_view();
                    assert forall|j: int| 0 <= j < dv.len()
                        implies spec_timed_out_id(self.sessions@, now, #[trigger] dv[j]) by {
                        if j < pre.len() {
                            assert(dv[j] == pre[j]);
                            assert(spec_timed_out_id(self.sessions@, now, pre[j]));
                        } else {
                            assert(dv[j] == self.sessions@[i as int].0@);
                            assert(spec_timed_out(self.sessions@[i as int], now));
                            assert(spec_timed_out_id(self.sessions@, now, dv[j]));
                        }
                    }
                    assert forall|j: int| 0 <= j < dv.len()
                        implies spec_id_in_prefix(self.sessions@, i + 1, #[trigger] dv[j]) by {
                        if j < pre.len() {
                            assert(dv[j] == pre[j]);
                            assert(spec_id_in_prefix(self.sessions@, i as int, pre[j]));
                            let k = choose|k: int| 0 <= k < i && k < self.sessions@.len()
                                && (#[trigger] self.sessions@[k]).0@ == pre[j];
                            assert(0 <= k < i + 1 && k < self.sessions@.len()
                                && self.sessions@[k].0@ == dv[j]);
                        } else {
                            assert(0 <= i < i + 1 && self.sessions@[i as int].0@ == dv[j]);
                        }
                    }
                }
            }
            i += 1;
        }
        ids
    }
}

/// Updating one entry of the session table keeps the id at that index and
/// every other entry.
proof fn lemma_session_ids_update(pre: Seq<(XenonSessionId, Session)>, post: Seq<(XenonSessionId, Session)>, k: int)
    requires
        0 <= k < pre.len(),
        post.len() == pre.len(),
        forall|i: int| 0 <= i < pre.len() && i != k ==> post[i] == pre[i],
    ensures
        forall|i: int| 0 <= i < pre.len() && i != k
            ==> spec_session_ids(post)[i] == spec_session_ids(pre)[i],
{
}

/// Membership of the id multiset after updating index `k` to an entry with
/// the same id.
proof fn lemma_ids_update_contains(pre: Seq<(XenonSessionId, Session)>, post: Seq<(XenonSessionId, Session)>, k: int, x: Seq<char>)
    requires
        0 <= k < pre.len(),
        post.len() == pre.len(),
        forall|i: int| 0 <= i < pre.len() && i != k ==> post[i] == pre[i],
        post[k].0@ == pre[k].0@,
    ensures
        spec_session_ids(post).contains(x) == spec_session_ids(pre).contains(x),
{
    if spec_session_ids(post).contains(x) {
        let i = choose|i: int| 0 <= i < post.len() && spec_session_ids(post)[i] == x;
        assert(spec_session_ids(pre)[i] == x);
    }
    if spec_session_ids(pre).contains(x) {
        let i = choose|i: int| 0 <= i < pre.len() && spec_session_ids(pre)[i] == x;
        assert(spec_session_ids(post)[i] == x);
    }
}

/// In a table with distinct ids, the entry found at index `k` is the entry
/// the id designates.
proof fn lemma_session_lookup(s: XenonState, x: Seq<char>, k: int)
    requires
        spec_session_ids(s.sessions@).no_duplicates(),
        0 <= k < s.sessions@.len(),
        s.sessions@[k].0@ == x,
    ensures
        s.spec_has_session(x),
        s.spec_session(x) == s.sessions@[k].1,
{
    assert(spec_session_ids(s.sessions@)[k] == x);
    assert(s.spec_has_session(x));
    lemma_first_id_index(s.sessions@, x);
    let c = spec_first_id_index(s.sessions@, x);
    assert(c < s.sessions@.len()) by {
        if c == s.sessions@.len() {
            assert(s.sessions@[k].0@ != x);
        }
    }
    assert(spec_session_ids(s.sessions@)[c] == x);
    assert(c == k);
}


/// The state invariant only reads the session table through the id list and
/// the per-entry backing, so an operation that leaves groups and ports
/// untouched preserves it.
proof fn lemma_wf_sessions_only(pre: XenonState, post: XenonState)
    requires
        pre.wf(),
        post.service_groups@ == pre.service_groups@,
        post.port_manager == pre.port_manager,
        spec_session_ids(post.sessions@).no_duplicates(),
        forall|k: int| 0 <= k < post.sessions@.len() ==> post.spec_entry_backed(k),
    ensures
        post.wf(),
{
    assert forall|k: int| 0 <= k < post.service_groups@.len()
        implies (#[trigger] post.service_groups@[k]).wf() by {
        assert(post.service_groups@[k] == pre.service_groups@[k]);
    }
    assert forall|i: int, j: int| 0 <= i < j < post.service_groups@.len()
        implies (#[trigger] post.service_groups@[i]).browser.name@
            != (#[trigger] post.service_groups@[j]).browser.name@ by {
        assert(post.service_groups@[i] == pre.service_groups@[i]);
        assert(post.service_groups@[j] == pre.service_groups@[j]);
    }
    assert forall|i: int, j: int, p: ServicePort| 0 <= i < post.service_groups@.len()
        && 0 <= j < post.service_groups@.len() && i != j
        implies !(#[trigger] post.service_groups@[i].has_port(p)
            && #[trigger] post.service_groups@[j].has_port(p)) by {
        assert(post.service_groups@[i] == pre.service_groups@[i]);
        assert(post.service_groups@[j] == pre.service_groups@[j]);
    }
    assert forall|p: ServicePort| post.port_manager.is_taken(p)
        == post.spec_some_group_has_port(p) by {
        assert(pre.port_manager.is_taken(p) == pre.spec_some_group_has_port(p));
        if post.spec_some_group_has_port(p) {
            let k = choose|k: int| 0 <= k < post.service_groups@.len()
                && (#[trigger] post.service_groups@[k]).has_port(p);
            assert(pre.service_groups@[k].has_port(p));
            assert(pre.spec_some_group_has_port(p));
        }
        if pre.spec_some_group_has_port(p) {
            let k = choose|k: int| 0 <= k < pre.service_groups@.len()
                && (#[trigger] pre.service_groups@[k]).has_port(p);
            assert(post.service_groups@[k].has_port(p));
            assert(post.spec_some_group_has_port(p));
        }
    }
}

/// Backing of a session entry carries over to a state with the same service
/// groups and an entry with the same id, group and port.
proof fn lemma_entry_backed_carries(pre: XenonState, post: XenonState, k: int, k2: int)
    requires
        post.service_groups@ == pre.service_groups@,
        0 <= k < pre.sessions@.len(),
        0 <= k2 < post.sessions@.len(),
        post.sessions@[k2].0@ == pre.sessions@[k].0@,
        post.sessions@[k2].1.service_group == pre.sessions@[k].1.service_group,
        post.sessions@[k2].1.port == pre.sessions@[k].1.port,
        pre.spec_entry_backed(k),
    ensures
        post.spec_entry_backed(k2),
{
    match post.sessions@[k2].1.service_group {
        Some(g) => {
            let j = choose|j: int| 0 <= j < pre.service_groups@.len()
                && (#[trigger] pre.service_groups@[j]).browser.name@ == g@
                && pre.service_groups@[j].has_session_at(pre.sessions@[k].1.port, pre.sessions@[k].0@);
            assert(post.service_groups@[j] == pre.service_groups@[j]);
            assert(post.service_groups@[j].browser.name@ == g@
                && post.service_groups@[j].has_session_at(post.sessions@[k2].1.port, post.sessions@[k2].0@));
        },
        None => {},
    }
}


/// A freshly inserted entry checked against the current topology is backed.
proof fn lemma_new_entry_backed(pre: XenonState, post: XenonState, k2: int, id: Seq<char>, session: &Session)
    requires
        post.service_groups@ == pre.service_groups@,
        0 <= k2 < post.sessions@.len(),
        post.sessions@[k2].0@ == id,
        post.sessions@[k2].1 == *session,
        pre.spec_session_backed(id, session),
    ensures
        post.spec_entry_backed(k2),
{
    match session.service_group {
        Some(g) => {
            let j = choose|j: int| 0 <= j < pre.service_groups@.len()
                && (#[trigger] pre.service_groups@[j]).browser.name@ == g@
                && pre.service_groups@[j].has_session_at(session.port, id);
            assert(post.service_groups@[j] == pre.service_groups@[j]);
        },
        None => {},
    }
}


impl XenonState {
    /// Remove a session and release its local backend: the id leaves the
    /// table; a local session is then detached from its service group, which
    /// may terminate the driver and return the port to the pool. An unknown
    /// id is a no-op.
    pub fn teardown_session(&mut self, session_id: &XenonSessionId) -> (r: Option<Session>)
        requires
            old(self).wf(),
        ensures
            final(self).wf(),
            final(self).remote_nodes@ == old(self).remote_nodes@,
            match r {
                None => {
                    &&& !old(self).spec_has_session(session_id@)
                    &&& final(self).sessions@ == old(self).sessions@
                    &&& final(self).service_groups@ == old(self).service_groups@
                    &&& final(self).port_manager == old(self).port_manager
                },
                Some(sess) => {
                    &&& old(self).spec_has_session(session_id@)
                    &&& sess == old(self).spec_session(session_id@)
                    &&& !final(self).spec_has_session(session_id@)
                    &&& forall|x: Seq<char>| x != session_id@
                        ==> final(self).spec_has_session(x) == old(self).spec_has_session(x)
                    &&& forall|x: Seq<char>| x != session_id@ && old(self).spec_has_session(x)
                        ==> final(self).spec_session(x) == old(self).spec_session(x)
                },
            },
    {
        let ghost pre = *old(self);
        let removed = self.delete_session(session_id);
        let ghost mid = *self;
        match removed {
            Some(sess) => {
                proof {
                    let k0 = choose|k0: int| 0 <= k0 < pre.sessions@.len()
                        && (#[trigger] pre.sessions@[k0]).0@ == session_id@
                        && sess == pre.sessions@[k0].1
                        && mid.sessions@ == pre.sessions@.remove(k0);
                    assert(spec_session_ids(pre.sessions@)[k0] == session_id@);
                    assert(pre.spec_has_session(session_id@));
                }
                match &sess.service_group {
                    Some(session_group) => {
                        match find_group_index(&self.service_groups, session_group) {
                            Some(gi) => {
                                proof {
                                    // the removed entry was backed: the group at
                                    // gi holds the id at the session's port
                                    let k = choose|k: int| 0 <= k < pre.sessions@.len()
                                        && (#[trigger] pre.sessions@[k]).0@ == session_id@
                                        && sess == pre.sessions@[k].1
                                        && mid.sessions@ == pre.sessions@.remove(k);
                                    assert(pre.spec_entry_backed(k));
                                    let j = choose|j: int| 0 <= j < pre.service_groups@.len()
                                        && (#[trigger] pre.service_groups@[j]).browser.name@ == session_group@
                                        && pre.service_groups@[j].has_session_at(sess.port, session_id@);
                                    assert(j == gi) by {
                                        if j != gi {
                                            assert(pre.service_groups@[gi as int].browser.name@ == session_group@);
                                        }
                                    }
                                    assert(mid.service_groups@[gi as int].has_session_at(sess.port, session_id@));
                                    assert(mid.service_groups@[gi as int].has_port(sess.port)) by {
                                        let sv = choose|sv: int| 0 <= sv < mid.service_groups@[gi as int].services@.len()
                                            && (#[trigger] mid.service_groups@[gi as int].services@[sv]).port == sess.port
                                            && mid.service_groups@[gi as int].services@[sv].has_session(session_id@);
                                    }
                                }
                                let ghost pre_groups = self.service_groups@;
                                let group = &mut self.service_groups[gi];
                                group.delete_session(sess.port, session_id, &mut self.port_manager);
                                proof {
                                    let post_groups = self.service_groups@;
                                    assert(post_groups =~= pre_groups.update(gi as int, post_groups[gi as int]));
                                    lemma_group_op_wf(mid, *self, gi as int, sess.port, session_id@);
                                }
                            },
                            None => {},
                        }
                    },
                    None => {},
                }
                Some(sess)
            },
            None => None,
        }
    }

    /// Remove every session idle past the timeout, releasing local backends
    /// as a terminal delete would. Returns the reaped ids.
    pub fn reap_timeout_sessions(&mut self, now: u64) -> (r: Vec<XenonSessionId>)
        requires
            old(self).wf(),
        ensures
            final(self).wf(),
            final(self).remote_nodes@ == old(self).remote_nodes@,
            // nothing new appears
            forall|x: Seq<char>| final(self).spec_has_session(x) ==> old(self).spec_has_session(x),
            // every timed-out session is gone
            forall|k: int| 0 <= k < old(self).sessions@.len()
                && spec_timed_out(#[trigger] old(self).sessions@[k], now)
                ==> !final(self).spec_has_session(old(self).sessions@[k].0@),
            // every other session survives, untouched
            forall|k: int| 0 <= k < old(self).sessions@.len()
                && !spec_timed_out(#[trigger] old(self).sessions@[k], now)
                ==> final(self).spec_has_session(old(self).sessions@[k].0@)
                    && final(self).spec_session(old(self).sessions@[k].0@)
                        == old(self).sessions@[k].1,
    {
        let ids = self.get_timeout_sessions(now);
        let ghost all = ids.deep_view();
        let ghost pre = *old(self);
        let n = ids.len();
        let mut i: usize = 0;
        while i < n
            invariant
                old(self).wf(),
                self.wf(),
                n == ids@.len(),
                all == ids.deep_view(),
                i <= n,
                self.remote_nodes@ == old(self).remote_nodes@,
                all.no_duplicates(),
                forall|j: int| 0 <= j < all.len()
                    ==> spec_timed_out_id(old(self).sessions@, now, #[trigger] all[j]),
                forall|k: int| 0 <= k < old(self).sessions@.len()
                    && spec_timed_out(#[trigger] old(self).sessions@[k], now)
                    ==> all.contains(old(self).sessions@[k].0@),
                forall|x: Seq<char>| #[trigger] self.spec_has_session(x)
                    ==> old(self).spec_has_session(x),
                forall|j: int| 0 <= j < i ==> !self.spec_has_session(#[trigger] all[j]),
                forall|x: Seq<char>| old(self).spec_has_session(x)
                    && !spec_removed_by(all, i as int, x)
                    ==> #[trigger] self.spec_has_session(x)
                        && self.spec_session(x) == old(self).spec_session(x),
            decreases n - i,
        {
            let id = &ids[i];
            let ghost snap = *self;
            proof {
                assert(all[i as int] == id@);
            }
            let _ = self.teardown_session(id);
            proof {
                assert forall|x: Seq<char>| #[trigger] self.spec_has_session(x)
                    implies old(self).spec_has_session(x) by {
                    if x != id@ {
                        assert(snap.spec_has_session(x) == self.spec_has_session(x));
                    }
                    assert(snap.spec_has_session(x));
                }
                assert forall|j: int| 0 <= j < i + 1 implies !self.spec_has_session(#[trigger] all[j]) by {
                    if j < i {
                        assert(all[j] != id@) by {
                            if all[j] == all[i as int] {
                            }
                        }
                        assert(!snap.spec_has_session(all[j]));
                    }
                }
                assert forall|x: Seq<char>| old(self).spec_has_session(x)
                    && !spec_removed_by(all, i + 1, x)
                    implies #[trigger] self.spec_has_session(x)
                        && self.spec_session(x) == old(self).spec_session(x) by {
                    assert(!spec_removed_by(all, i as int, x)) by {
                        if spec_removed_by(all, i as int, x) {
                            let j = choose|j: int| 0 <= j < i && j < all.len() && all[j] == x;
                            assert(0 <= j < i + 1 && j < all.len() && all[j] == x);
                        }
                    }
                    assert(x != id@) by {
                        if x == all[i as int] {
                            assert(0 <= i < i + 1 && i < all.len() && all[i as int] == x);
                        }
                    }
                    assert(snap.spec_has_session(x) && snap.spec_session(x) == old(self).spec_session(x));
                }
            }
            i += 1;
        }
        proof {
            assert forall|k: int| 0 <= k < old(self).sessions@.len()
                && spec_timed_out(#[trigger] old(self).sessions@[k], now)
                implies !self.spec_has_session(old(self).sessions@[k].0@) by {
                let x = old(self).sessions@[k].0@;
                assert(all.contains(x));
                let j = choose|j: int| 0 <= j < all.len() && all[j] == x;
                assert(!self.spec_has_session(all[j]));
            }
            assert forall|k: int| 0 <= k < old(self).sessions@.len()
                && !spec_timed_out(#[trigger] old(self).sessions@[k], now)
                implies self.spec_has_session(old(self).sessions@[k].0@)
                    && self.spec_session(old(self).sessions@[k].0@)
                        == old(self).sessions@[k].1 by {
                let x = old(self).sessions@[k].0@;
                assert(spec_session_ids(old(self).sessions@)[k] == x);
                assert(old(self).spec_has_session(x));
                assert(!spec_removed_by(all, n as int, x)) by {
                    if spec_removed_by(all, n as int, x) {
                        let j = choose|j: int| 0 <= j < n && j < all.len() && all[j] == x;
                        assert(spec_timed_out_id(old(self).sessions@, now, all[j]));
                        let k2 = choose|k2: int| 0 <= k2 < old(self).sessions@.len()
                            && (#[trigger] old(self).sessions@[k2]).0@ == x
                            && spec_timed_out(old(self).sessions@[k2], now);
                        assert(spec_session_ids(old(self).sessions@)[k2] == x);
                        assert(k2 == k);
                    }
                }
                lemma_session_lookup(*old(self), x, k);
            }
        }
        ids
    }
}

/// Whether `x` occurs among the first `n` reaped ids.
pub open spec fn spec_removed_by(all: Seq<Seq<char>>, n: int, x: Seq<char>) -> bool {
    exists|j: int| 0 <= j < n && j < all.len() && all[j] == x
}

/// A group-local detach (possibly terminating a service and releasing its
/// port) at index `gi` preserves the state invariant, where the session id
/// no longer sits in the table.
proof fn lemma_group_op_wf(mid: XenonState, post: XenonState, gi: int, port: ServicePort, id: Seq<char>)
    requires
        mid.wf(),
        0 <= gi < mid.service_groups@.len(),
        post.sessions@ == mid.sessions@,
        post.remote_nodes@ == mid.remote_nodes@,
        post.service_groups@.len() == mid.service_groups@.len(),
        forall|j: int| 0 <= j < mid.service_groups@.len() && j != gi
            ==> post.service_groups@[j] == mid.service_groups@[j],
        post.service_groups@[gi].wf(),
        post.service_groups@[gi].browser == mid.service_groups@[gi].browser,
        post.port_manager.wf(),
        // what the group op did to memberships
        !post.service_groups@[gi].has_session_at(port, id),
        forall|q: ServicePort, x: Seq<char>| q != port || x != id
            ==> post.service_groups@[gi].has_session_at(q, x)
                == mid.service_groups@[gi].has_session_at(q, x),
        forall|q: ServicePort| q != port
            ==> post.service_groups@[gi].has_port(q) == mid.service_groups@[gi].has_port(q),
        // what it did to the port pool and to its port, by whether the
        // service there was emptied
        forall|q: ServicePort| q != port
            ==> post.port_manager.is_taken(q) == mid.port_manager.is_taken(q),
        crate::service::spec_emptied(&mid.service_groups@[gi], port, id)
            ==> !post.port_manager.is_taken(port) && !post.service_groups@[gi].has_port(port),
        !crate::service::spec_emptied(&mid.service_groups@[gi], port, id)
            ==> post.port_manager.is_taken(port) == mid.port_manager.is_taken(port)
                && post.service_groups@[gi].has_port(port) == mid.service_groups@[gi].has_port(port),
        // the removed id is no longer in the table
        !spec_session_ids(mid.sessions@).contains(id),
    ensures
        post.wf(),
{
    assert forall|k: int| 0 <= k < post.service_groups@.len()
        implies (#[trigger] post.service_groups@[k]).wf() by {
        if k != gi {
            assert(post.service_groups@[k] == mid.service_groups@[k]);
        }
    }
    assert forall|i: int, j: int| 0 <= i < j < post.service_groups@.len()
        implies (#[trigger] post.service_groups@[i]).browser.name@
            != (#[trigger] post.service_groups@[j]).browser.name@ by {
        assert(post.service_groups@[i].browser == mid.service_groups@[i].browser
            || post.service_groups@[i] == mid.service_groups@[i]);
        assert(post.service_groups@[j].browser == mid.service_groups@[j].browser
            || post.service_groups@[j] == mid.service_groups@[j]);
    }
    assert forall|i: int, j: int, p: ServicePort| 0 <= i < post.service_groups@.len()
        && 0 <= j < post.service_groups@.len() && i != j
        implies !(#[trigger] post.service_groups@[i].has_port(p)
            && #[trigger] post.service_groups@[j].has_port(p)) by {
        if post.service_groups@[i].has_port(p) && post.service_groups@[j].has_port(p) {
            assert(mid.service_groups@[i].has_port(p)) by {
                if i == gi {
                    if p != port {
                    } else {
                    }
                } else {
                    assert(post.service_groups@[i] == mid.service_groups@[i]);
                }
            }
            assert(mid.service_groups@[j].has_port(p)) by {
                if j == gi {
                } else {
                    assert(post.service_groups@[j] == mid.service_groups@[j]);
                }
            }
        }
    }
    assert forall|p: ServicePort| post.port_manager.is_taken(p)
        == post.spec_some_group_has_port(p) by {
        if p != port {
            assert(post.port_manager.is_taken(p) == mid.port_manager.is_taken(p));
            assert(mid.port_manager.is_taken(p) == mid.spec_some_group_has_port(p));
            if post.spec_some_group_has_port(p) {
                let k = choose|k: int| 0 <= k < post.service_groups@.len()
                    && (#[trigger] post.service_groups@[k]).has_port(p);
                if k == gi {
                    assert(mid.service_groups@[gi].has_port(p));
                } else {
                    assert(post.service_groups@[k] == mid.service_groups@[k]);
                }
                assert(mid.spec_some_group_has_port(p));
            }
            if mid.spec_some_group_has_port(p) {
                let k = choose|k: int| 0 <= k < mid.service_groups@.len()
                    && (#[trigger] mid.service_groups@[k]).has_port(p);
                if k == gi {
                    assert(post.service_groups@[gi].has_port(p));
                } else {
                    assert(post.service_groups@[k] == mid.service_groups@[k]);
                }
                assert(post.spec_some_group_has_port(p));
            }
        } else if crate::service::spec_emptied(&mid.service_groups@[gi], port, id) {
            // the service at the port went away: the port is free and no
            // group owns it
            assert(mid.service_groups@[gi].has_port(port)) by {
                let sv = choose|sv: int| 0 <= sv < mid.service_groups@[gi].services@.len()
                    && (#[trigger] mid.service_groups@[gi].services@[sv]).port == port
                    && mid.service_groups@[gi].services@[sv].session_views().len()
                        == (if mid.service_groups@[gi].services@[sv].has_session(id) { 1int } else { 0int });
            }
            assert(!post.port_manager.is_taken(port));
            assert(!post.spec_some_group_has_port(port)) by {
                if post.spec_some_group_has_port(port) {
                    let k = choose|k: int| 0 <= k < post.service_groups@.len()
                        && (#[trigger] post.service_groups@[k]).has_port(port);
                    if k == gi {
                    } else {
                        assert(post.service_groups@[k] == mid.service_groups@[k]);
                        assert(!(mid.service_groups@[gi].has_port(port)
                            && mid.service_groups@[k].has_port(port)));
                    }
                }
            }
        } else {
            // the service stayed (or was never there): nothing changed at
            // this port
            assert(post.port_manager.is_taken(port) == mid.port_manager.is_taken(port));
            assert(mid.port_manager.is_taken(port) == mid.spec_some_group_has_port(port));
            if post.spec_some_group_has_port(port) {
                let k = choose|k: int| 0 <= k < post.service_groups@.len()
                    && (#[trigger] post.service_groups@[k]).has_port(port);
                if k == gi {
                    assert(mid.service_groups@[gi].has_port(port));
                } else {
                    assert(post.service_groups@[k] == mid.service_groups@[k]);
                }
                assert(mid.spec_some_group_has_port(port));
            }
            if mid.spec_some_group_has_port(port) {
                let k = choose|k: int| 0 <= k < mid.service_groups@.len()
                    && (#[trigger] mid.service_groups@[k]).has_port(port);
                if k == gi {
                    assert(post.service_groups@[gi].has_port(port));
                } else {
                    assert(post.service_groups@[k] == mid.service_groups@[k]);
                }
                assert(post.spec_some_group_has_port(port));
            }
        }
    }
    assert forall|k: int| 0 <= k < post.sessions@.len()
        implies post.spec_entry_backed(k) by {
        assert(mid.spec_entry_backed(k));
        assert(post.sessions@[k] == mid.sessions@[k]);
        match post.sessions@[k].1.service_group {
            Some(g) => {
                let j = choose|j: int| 0 <= j < mid.service_groups@.len()
                    && (#[trigger] mid.service_groups@[j]).browser.name@ == g@
                    && mid.service_groups@[j].has_session_at(mid.sessions@[k].1.port, mid.sessions@[k].0@);
                assert(post.sessions@[k].0@ != id) by {
                    assert(spec_session_ids(mid.sessions@)[k] == mid.sessions@[k].0@);
                }
                if j == gi {
                    assert(post.service_groups@[gi].has_session_at(post.sessions@[k].1.port, post.sessions@[k].0@));
                } else {
                    assert(post.service_groups@[j] == mid.service_groups@[j]);
                }
            },
            None => {},
        }
    }
}


/// The mathematical value of a remote-node record.
pub struct NodeView {
    pub id: Seq<char>,
    pub name: Seq<char>,
    pub url: Seq<char>,
    pub comms_id: u128,
    pub groups: Seq<RemoteServiceGroup>,
    pub scheme: Seq<char>,
    pub authority: Seq<char>,
}

pub open spec fn node_view(n: &RemoteNode) -> NodeView {
    NodeView {
        id: n.id@,
        name: n.name@,
        url: n.url@,
        comms_id: n.comms_id,
        groups: n.service_groups@,
        scheme: n.scheme@,
        authority: n.authority@,
    }
}

pub open spec fn nodes_view(s: Seq<RemoteNode>) -> Seq<NodeView> {
    Seq::new(s.len(), |i: int| node_view(&s[i]))
}

/// The body of a node-update request: the full node record, minus the
/// derived scheme and authority.
#[derive(Debug)]
pub struct RemoteNodeUpdate {
    pub id: NodeId,
    pub name: String,
    pub url: String,
    pub comms_id: u128,
    pub service_groups: Vec<RemoteServiceGroup>,
}

/// The mathematical value of a node-update request.
pub struct NodeUpdView {
    pub id: Seq<char>,
    pub name: Seq<char>,
    pub url: Seq<char>,
    pub comms_id: u128,
    pub groups: Seq<RemoteServiceGroup>,
}

pub open spec fn upd_view(u: &RemoteNodeUpdate) -> NodeUpdView {
    NodeUpdView {
        id: u.id@,
        name: u.name@,
        url: u.url@,
        comms_id: u.comms_id,
        groups: u.service_groups@,
    }
}

/// The index of the first node with the given id, or the list's length when
/// the id is unknown.
pub open spec fn first_node_index(s: Seq<NodeView>, id: Seq<char>) -> int
    decreases s.len(),
{
    if s.len() == 0 {
        0
    } else if s[0].id == id {
        0
    } else {
        1 + first_node_index(s.skip(1), id)
    }
}

pub proof fn lemma_first_node_index(s: Seq<NodeView>, id: Seq<char>)
    ensures
        0 <= first_node_index(s, id) <= s.len(),
        first_node_index(s, id) < s.len() ==> s[first_node_index(s, id)].id == id,
        forall|k: int| 0 <= k < first_node_index(s, id) ==> (#[trigger] s[k]).id != id,
    decreases s.len(),
{
    if s.len() == 0 {
    } else if s[0].id == id {
    } else {
        lemma_first_node_index(s.skip(1), id);
        let d = first_node_index(s, id);
        assert forall|k: int| 0 <= k < d implies (#[trigger] s[k]).id != id by {
            if k > 0 {
                assert(s.skip(1)[k - 1] == s[k]);
            }
        }
        if d < s.len() {
            assert(s.skip(1)[d - 1] == s[d]);
        }
    }
}

/// What a `node/update` message does to the stored nodes: nothing for an
/// unknown id or an unparsable URL; for a known node, the update is accepted
/// exactly when its generation counter exceeds the stored one, and then
/// replaces the node's name, URL (with re-derived scheme and authority),
/// capability inventory and counter.
pub open spec fn spec_apply_update(nodes: Seq<NodeView>, u: NodeUpdView) -> Seq<NodeView> {
    let i = first_node_index(nodes, u.id);
    if i == nodes.len() {
        nodes
    } else if u.comms_id > nodes[i].comms_id && crate::nodes::spec_parse_url(u.url) is Some {
        nodes.update(i, NodeView {
            id: nodes[i].id,
            name: u.name,
            url: u.url,
            comms_id: u.comms_id,
            groups: u.groups,
            scheme: (crate::nodes::spec_parse_url(u.url)->0).0,
            authority: (crate::nodes::spec_parse_url(u.url)->0).1,
        })
    } else {
        nodes
    }
}

/// The state invariant does not read the remote nodes, so an operation that
/// only touches them preserves it.
proof fn lemma_wf_nodes_only(pre: XenonState, post: XenonState)
    requires
        pre.wf(),
        post.service_groups@ == pre.service_groups@,
        post.port_manager == pre.port_manager,
        post.sessions@ == pre.sessions@,
    ensures
        post.wf(),
{
    assert forall|k: int| 0 <= k < post.sessions@.len() implies post.spec_entry_backed(k) by {
        lemma_entry_backed_carries(pre, post, k, k);
    }
    lemma_wf_sessions_only(pre, post);
}

impl XenonState {
    /// The index of the first node with the given id.
    fn find_node_index(&self, node_id: &NodeId) -> (r: Option<usize>)
        ensures
            match r {
                Some(k) => k < self.remote_nodes@.len()
                    && k == first_node_index(nodes_view(self.remote_nodes@), node_id@),
                None => first_node_index(nodes_view(self.remote_nodes@), node_id@)
                    == self.remote_nodes@.len(),
            },
    {
        let n = self.remote_nodes.len();
        let mut i: usize = 0;
        while i < n
            invariant
                n == self.remote_nodes@.len(),
                i <= n,
                forall|k: int| 0 <= k < i ==> (#[trigger] self.remote_nodes@[k]).id@ != node_id@,
            decreases n - i,
        {
            if self.remote_nodes[i].id.eq(node_id) {
                proof {
                    lemma_first_node_index(nodes_view(self.remote_nodes@), node_id@);
                    let fi = first_node_index(nodes_view(self.remote_nodes@), node_id@);
                    assert(nodes_view(self.remote_nodes@)[i as int].id == node_id@);
                    assert(fi == i) by {
                        if fi < i {
                            assert(nodes_view(self.remote_nodes@)[fi].id == node_id@);
                            assert(self.remote_nodes@[fi].id@ == node_id@);
                        }
                        if fi > i {
                            assert(nodes_view(self.remote_nodes@)[i as int].id != node_id@);
                        }
                    }
                }
                return Some(i);
            }
            i += 1;
        }
        proof {
            lemma_first_node_index(nodes_view(self.remote_nodes@), node_id@);
            let fi = first_node_index(nodes_view(self.remote_nodes@), node_id@);
            if fi < n {
                assert(nodes_view(self.remote_nodes@)[fi].id == node_id@);
                assert(self.remote_nodes@[fi].id@ == node_id@);
            }
        }
        None
    }

    /// Register a remote node: parse its URL, mint an id, start its
    /// generation counter at zero, and append it.
    pub fn register_node(&mut self, node_info: RemoteNodeCreate) -> (r: XenonResult<NodeId>)
        requires
            old(self).wf(),
        ensures
            final(self).wf(),
            final(self).service_groups@ == old(self).service_groups@,
            final(self).port_manager == old(self).port_manager,
            final(self).sessions@ == old(self).sessions@,
            match r {
                Ok(id) => {
                    &&& final(self).remote_nodes@.len() == old(self).remote_nodes@.len() + 1
                    &&& final(self).remote_nodes@ == old(self).remote_nodes@
                        .push(final(self).remote_nodes@.last())
                    &&& final(self).remote_nodes@.last().id@ == id@
                    &&& final(self).remote_nodes@.last().comms_id == 0
                    &&& final(self).remote_nodes@.last().name@ == node_info.name@
                    &&& final(self).remote_nodes@.last().url@ == node_info.url@
                    &&& final(self).remote_nodes@.last().service_groups == node_info.service_groups
                    &&& Some((final(self).remote_nodes@.last().scheme@,
                            final(self).remote_nodes@.last().authority@))
                        == crate::nodes::spec_parse_url(node_info.url@)
                },
                Err(e) => {
                    &&& crate::nodes::spec_parse_url(node_info.url@) is None
                    &&& e matches XenonError::RespondWith(XenonResponse::ErrorCreatingNode(_))
                    &&& final(self).remote_nodes@ == old(self).remote_nodes@
                },
            },
    {
        let node = match RemoteNode::new(node_info) {
            Ok(n) => n,
            Err(e) => {
                return Err(e);
            },
        };
        let id = node.id();
        self.remote_nodes.push(node);
        proof {
            lemma_wf_nodes_only(*old(self), *self);
        }
        Ok(id)
    }

    /// Apply a `node/update` message: accepted exactly when the node is
    /// known, its URL parses, and the incoming generation counter exceeds
    /// the stored one; a stale counter is silently ignored.
    pub fn update_node(&mut self, update: RemoteNodeUpdate) -> (r: XenonResult<()>)
        requires
            old(self).wf(),
        ensures
            final(self).wf(),
            final(self).service_groups@ == old(self).service_groups@,
            final(self).port_manager == old(self).port_manager,
            final(self).sessions@ == old(self).sessions@,
            nodes_view(final(self).remote_nodes@)
                == spec_apply_update(nodes_view(old(self).remote_nodes@), upd_view(&update)),
            r is Err <==> first_node_index(nodes_view(old(self).remote_nodes@), update.id@)
                    == old(self).remote_nodes@.len()
                || (first_node_index(nodes_view(old(self).remote_nodes@), update.id@)
                        < old(self).remote_nodes@.len()
                    && update.comms_id > old(self).remote_nodes@[
                        first_node_index(nodes_view(old(self).remote_nodes@), update.id@)].comms_id
                    && crate::nodes::spec_parse_url(update.url@) is None),
            (r matches Err(e) ==> (e matches XenonError::RespondWith(resp)
                && (resp is NodeNotFound || resp is ErrorUpdatingNode))),
            (r matches Err(XenonError::RespondWith(XenonResponse::NodeNotFound(_)))
                <==> first_node_index(nodes_view(old(self).remote_nodes@), update.id@)
                    == old(self).remote_nodes@.len()),
    {
        let ghost pre_nodes = nodes_view(self.remote_nodes@);
        let idx = match self.find_node_index(&update.id) {
            Some(i) => i,
            None => {
                proof {
                    assert(spec_apply_update(pre_nodes, upd_view(&update)) == pre_nodes);
                }
                return Err(XenonError::RespondWith(XenonResponse::NodeNotFound(
                    update.id.to_string(),
                )));
            },
        };
        if !(update.comms_id > self.remote_nodes[idx].comms_id) {
            proof {
                assert(spec_apply_update(pre_nodes, upd_view(&update)) == pre_nodes);
            }
            return Ok(());
        }
        match crate::nodes::parse_url(update.url.as_str()) {
            Some((scheme, authority)) => {
                let node = &mut self.remote_nodes[idx];
                node.name = update.name;
                node.url = update.url;
                node.comms_id = update.comms_id;
                node.service_groups = update.service_groups;
                node.scheme = scheme;
                node.authority = authority;
                proof {
                    let post_nodes = nodes_view(self.remote_nodes@);
                    assert(post_nodes =~= spec_apply_update(pre_nodes, upd_view(&update))) by {
                        let target = spec_apply_update(pre_nodes, upd_view(&update));
                        assert forall|k: int| 0 <= k < post_nodes.len()
                            implies post_nodes[k] == target[k] by {
                            if k != idx {
                                assert(self.remote_nodes@[k] == old(self).remote_nodes@[k]);
                            }
                        }
                    }
                    lemma_wf_nodes_only(*old(self), *self);
                }
                Ok(())
            },
            None => {
                proof {
                    assert(spec_apply_update(pre_nodes, upd_view(&update)) == pre_nodes);
                }
                Err(XenonError::RespondWith(XenonResponse::ErrorUpdatingNode(
                    "Error parsing url for remote node: ".to_owned().concat(update.url.as_str()),
                )))
            },
        }
    }

    /// Deregister a node; sessions already placed on it live on until they
    /// are deleted or time out, but no new sessions will go there.
    pub fn deregister_node(&mut self, node_id: &NodeId) -> (r: XenonResult<()>)
        requires
            old(self).wf(),
        ensures
            final(self).wf(),
            final(self).service_groups@ == old(self).service_groups@,
            final(self).port_manager == old(self).port_manager,
            final(self).sessions@ == old(self).sessions@,
            match r {
                Ok(()) => {
                    &&& first_node_index(nodes_view(old(self).remote_nodes@), node_id@)
                        < old(self).remote_nodes@.len()
                    &&& final(self).remote_nodes@ == old(self).remote_nodes@.remove(
                        first_node_index(nodes_view(old(self).remote_nodes@), node_id@))
                },
                Err(e) => {
                    &&& first_node_index(nodes_view(old(self).remote_nodes@), node_id@)
                        == old(self).remote_nodes@.len()
                    &&& e matches XenonError::RespondWith(XenonResponse::NodeNotFound(_))
                    &&& final(self).remote_nodes@ == old(self).remote_nodes@
                },
            },
    {
        match self.find_node_index(node_id) {
            Some(i) => {
                self.remote_nodes.remove(i);
                proof {
                    lemma_wf_nodes_only(*old(self), *self);
                }
                Ok(())
            },
            None => Err(XenonError::RespondWith(XenonResponse::NodeNotFound(
                node_id.to_string(),
            ))),
        }
    }

    /// This instance's local service groups flattened for `node/config`:
    /// each configured browser with its full session budget.
    pub fn node_config_groups(&self) -> (r: Vec<RemoteServiceGroup>)
        ensures
            r@.len() == self.service_groups@.len(),
            forall|k: int| 0 <= k < r@.len()
                ==> (#[trigger] r@[k]).browser.deep_view()
                        == self.service_groups@[k].browser.deep_view()
                    && r@[k].remaining_sessions == self.service_groups@[k].browser.max_sessions,
    {
        let mut groups_out: Vec<RemoteServiceGroup> = Vec::new();
        let n = self.service_groups.len();
        let mut i: usize = 0;
        while i < n
            invariant
                n == self.service_groups@.len(),
                i <= n,
                groups_out@.len() == i,
                forall|k: int| 0 <= k < i
                    ==> (#[trigger] groups_out@[k]).browser.deep_view()
                            == self.service_groups@[k].browser.deep_view()
                        && groups_out@[k].remaining_sessions
                            == self.service_groups@[k].browser.max_sessions,
            decreases n - i,
        {
            let group = &self.service_groups[i];
            groups_out.push(RemoteServiceGroup {
                browser: group.browser.clone(),
                remaining_sessions: group.browser.max_sessions(),
            });
            i += 1;
        }
        groups_out
    }
}


/// One attempt target for a federated session: where to send the create
/// request, and the node's display name for diagnostics.
#[derive(Debug)]
pub struct RemoteCandidate {
    pub display_name: String,
    pub scheme: String,
    pub authority: String,
}

pub open spec fn cand_views(v: Seq<RemoteCandidate>) -> Seq<(Seq<char>, Seq<char>, Seq<char>)> {
    Seq::new(v.len(), |i: int| (v[i].display_name@, v[i].scheme@, v[i].authority@))
}

/// The candidate entries one node's inventory contributes: one entry per
/// matching browser pool with room left, in inventory order.
pub open spec fn spec_groups_cands(
    gs: Seq<RemoteServiceGroup>,
    disp: Seq<char>,
    scheme: Seq<char>,
    authority: Seq<char>,
    c: &Capabilities,
) -> Seq<(Seq<char>, Seq<char>, Seq<char>)>
    decreases gs.len(),
{
    if gs.len() == 0 {
        Seq::empty()
    } else {
        spec_groups_cands(gs.drop_last(), disp, scheme, authority, c)
            + (if crate::browser::spec_matches_capabilities(&gs.last().browser, c)
                && gs.last().remaining_sessions > 0 {
                seq![(disp, scheme, authority)]
            } else {
                Seq::empty()
            })
    }
}

/// The candidates of all nodes, in node order.
pub open spec fn spec_remote_candidates(nodes: Seq<RemoteNode>, c: &Capabilities) -> Seq<(Seq<char>, Seq<char>, Seq<char>)>
    decreases nodes.len(),
{
    if nodes.len() == 0 {
        Seq::empty()
    } else {
        spec_remote_candidates(nodes.drop_last(), c) + spec_groups_cands(
            nodes.last().service_groups@,
            crate::nodes::spec_display_name(&nodes.last()),
            nodes.last().scheme@,
            nodes.last().authority@,
            c,
        )
    }
}

/// Whether any node advertises a browser matching the capabilities,
/// regardless of capacity.
pub open spec fn spec_any_remote_match(nodes: Seq<RemoteNode>, c: &Capabilities) -> bool {
    exists|k: int, j: int| 0 <= k < nodes.len()
        && 0 <= j < (#[trigger] nodes[k]).service_groups@.len()
        && crate::browser::spec_matches_capabilities(&(#[trigger] nodes[k].service_groups@[j]).browser, c)
}

/// The candidates one node contributes, and whether it matched at all.
fn node_candidates(node: &RemoteNode, c: &Capabilities) -> (r: (Vec<RemoteCandidate>, bool))
    ensures
        cand_views(r.0@) == spec_groups_cands(node.service_groups@,
            crate::nodes::spec_display_name(node), node.scheme@, node.authority@, c),
        r.1 == exists|j: int| 0 <= j < node.service_groups@.len()
            && crate::browser::spec_matches_capabilities(
                &(#[trigger] node.service_groups@[j]).browser, c),
{
    let mut out: Vec<RemoteCandidate> = Vec::new();
    let mut matched = false;
    let n = node.service_groups.len();
    let mut j: usize = 0;
    while j < n
        invariant
            n == node.service_groups@.len(),
            j <= n,
            cand_views(out@) == spec_groups_cands(node.service_groups@.take(j as int),
                crate::nodes::spec_display_name(node), node.scheme@, node.authority@, c),
            matched == exists|t: int| 0 <= t < j
                && crate::browser::spec_matches_capabilities(
                    &(#[trigger] node.service_groups@[t]).browser, c),
        decreases n - j,
    {
        let ghost pre = out@;
        let group = &node.service_groups[j];
        if group.browser.matches_capabilities(c) {
            proof {
                assert(crate::browser::spec_matches_capabilities(
                    &node.service_groups@[j as int].browser, c));
            }
            matched = true;
            if group.remaining_sessions > 0 {
                out.push(RemoteCandidate {
                    display_name: node.display_name(),
                    scheme: node.scheme.clone(),
                    authority: node.authority.clone(),
                });
            }
        }
        proof {
            let gs = node.service_groups@;
            assert(gs.take(j + 1).drop_last() =~= gs.take(j as int));
            assert(gs.take(j + 1).last() == gs[j as int]);
            assert(cand_views(out@) =~= spec_groups_cands(gs.take(j + 1),
                crate::nodes::spec_display_name(node), node.scheme@, node.authority@, c));
        }
        j += 1;
    }
    proof {
        assert(node.service_groups@.take(n as int) =~= node.service_groups@);
    }
    (out, matched)
}

impl XenonState {
    /// Snapshot where a federated create-session may be attempted: every
    /// node entry whose advertised inventory matches the capabilities and
    /// still has room, in order; and whether any node matched at all,
    /// capacity aside.
    pub fn remote_candidates(&self, capabilities: &Capabilities) -> (r: (Vec<RemoteCandidate>, bool))
        ensures
            cand_views(r.0@) == spec_remote_candidates(self.remote_nodes@, capabilities),
            r.1 == spec_any_remote_match(self.remote_nodes@, capabilities),
    {
        let mut out: Vec<RemoteCandidate> = Vec::new();
        let mut matched = false;
        let n = self.remote_nodes.len();
        let mut i: usize = 0;
        while i < n
            invariant
                n == self.remote_nodes@.len(),
                i <= n,
                cand_views(out@) == spec_remote_candidates(self.remote_nodes@.take(i as int), capabilities),
                matched == spec_any_remote_match(self.remote_nodes@.take(i as int), capabilities),
            decreases n - i,
        {
            let ghost pre = out@;
            let node = &self.remote_nodes[i];
            let (mut cands, m) = node_candidates(node, capabilities);
            out.append(&mut cands);
            let new_matched = matched || m;
            proof {
                let nodes = self.remote_nodes@;
                assert(nodes.take(i + 1).drop_last() =~= nodes.take(i as int));
                assert(nodes.take(i + 1).last() == nodes[i as int]);
                assert(cand_views(out@) =~= spec_remote_candidates(nodes.take(i + 1), capabilities));
                assert(new_matched == spec_any_remote_match(nodes.take(i + 1), capabilities)) by {
                    if new_matched {
                        if matched {
                            let (k, t) = choose|k: int, t: int| 0 <= k < i
                                && 0 <= t < (#[trigger] nodes.take(i as int)[k]).service_groups@.len()
                                && crate::browser::spec_matches_capabilities(
                                    &(#[trigger] nodes.take(i as int)[k].service_groups@[t]).browser,
                                    capabilities);
                            assert(nodes.take(i + 1)[k] == nodes.take(i as int)[k]);
                            assert(spec_any_remote_match(nodes.take(i + 1), capabilities));
                        } else {
                            let t = choose|t: int| 0 <= t < nodes[i as int].service_groups@.len()
                                && crate::browser::spec_matches_capabilities(
                                    &(#[trigger] nodes[i as int].service_groups@[t]).browser,
                                    capabilities);
                            assert(nodes.take(i + 1)[i as int] == nodes[i as int]);
                            assert(spec_any_remote_match(nodes.take(i + 1), capabilities));
                        }
                    }
                    if spec_any_remote_match(nodes.take(i + 1), capabilities) {
                        let (k, t) = choose|k: int, t: int| 0 <= k < i + 1
                            && 0 <= t < (#[trigger] nodes.take(i + 1)[k]).service_groups@.len()
                            && crate::browser::spec_matches_capabilities(
                                &(#[trigger] nodes.take(i + 1)[k].service_groups@[t]).browser,
                                capabilities);
                        if k < i {
                            assert(nodes.take(i as int)[k] == nodes.take(i + 1)[k]);
                            assert(spec_any_remote_match(nodes.take(i as int), capabilities));
                        } else {
                            assert(nodes.take(i + 1)[k] == nodes[i as int]);
                        }
                    }
                }
            }
            matched = new_matched;
            i += 1;
        }
        proof {
            assert(self.remote_nodes@.take(n as int) =~= self.remote_nodes@);
        }
        (out, matched)
    }
}


/// Attaching a session (and possibly a fresh service on a fresh port) to the
/// group at index `gi` preserves the state invariant.
pub proof fn lemma_group_grow_wf(
    pre: XenonState,
    post: XenonState,
    gi: int,
    p: ServicePort,
    xid: Seq<char>,
    reused: bool,
)
    requires
        pre.wf(),
        0 <= gi < pre.service_groups@.len(),
        post.sessions@ == pre.sessions@,
        post.service_groups@.len() == pre.service_groups@.len(),
        forall|j: int| 0 <= j < pre.service_groups@.len() && j != gi
            ==> post.service_groups@[j] == pre.service_groups@[j],
        post.service_groups@[gi].wf(),
        post.service_groups@[gi].browser == pre.service_groups@[gi].browser,
        post.port_manager.wf(),
        forall|q: ServicePort| q != p
            ==> post.port_manager.is_taken(q) == pre.port_manager.is_taken(q),
        reused ==> post.port_manager.is_taken(p) == pre.port_manager.is_taken(p),
        reused ==> forall|q: ServicePort|
            post.service_groups@[gi].has_port(q) == pre.service_groups@[gi].has_port(q),
        !reused ==> pre.port_manager.is_available(p) && post.port_manager.is_taken(p),
        !reused ==> post.service_groups@[gi].has_port(p),
        !reused ==> forall|q: ServicePort| q != p
            ==> post.service_groups@[gi].has_port(q) == pre.service_groups@[gi].has_port(q),
        post.service_groups@[gi].has_session_at(p, xid),
        forall|q: ServicePort, x: Seq<char>| q != p || x != xid
            ==> post.service_groups@[gi].has_session_at(q, x)
                == pre.service_groups@[gi].has_session_at(q, x),
    ensures
        post.wf(),
{
    assert forall|k: int| 0 <= k < post.service_groups@.len()
        implies (#[trigger] post.service_groups@[k]).wf() by {
        if k != gi {
            assert(post.service_groups@[k] == pre.service_groups@[k]);
        }
    }
    assert forall|i: int, j: int| 0 <= i < j < post.service_groups@.len()
        implies (#[trigger] post.service_groups@[i]).browser.name@
            != (#[trigger] post.service_groups@[j]).browser.name@ by {
        assert(post.service_groups@[i].browser == pre.service_groups@[i].browser
            || post.service_groups@[i] == pre.service_groups@[i]);
        assert(post.service_groups@[j].browser == pre.service_groups@[j].browser
            || post.service_groups@[j] == pre.service_groups@[j]);
    }
    if !reused {
        assert(!pre.port_manager.is_taken(p));
        assert(!pre.spec_some_group_has_port(p));
        assert forall|j: int| 0 <= j < pre.service_groups@.len()
            implies !(#[trigger] pre.service_groups@[j]).has_port(p) by {
            if pre.service_groups@[j].has_port(p) {
                assert(pre.spec_some_group_has_port(p));
            }
        }
    }
    assert forall|i: int, j: int, q: ServicePort| 0 <= i < post.service_groups@.len()
        && 0 <= j < post.service_groups@.len() && i != j
        implies !(#[trigger] post.service_groups@[i].has_port(q)
            && #[trigger] post.service_groups@[j].has_port(q)) by {
        if post.service_groups@[i].has_port(q) && post.service_groups@[j].has_port(q) {
            assert(pre.service_groups@[i].has_port(q)) by {
                if i == gi {
                    if !reused && q == p {
                        assert(!post.service_groups@[j].has_port(q)
                            || post.service_groups@[j] == pre.service_groups@[j]);
                        assert(false);
                    }
                } else {
                    assert(post.service_groups@[i] == pre.service_groups@[i]);
                }
            }
            assert(pre.service_groups@[j].has_port(q)) by {
                if j == gi {
                    if !reused && q == p {
                        assert(false);
                    }
                } else {
                    assert(post.service_groups@[j] == pre.service_groups@[j]);
                }
            }
        }
    }
    assert forall|q: ServicePort| post.port_manager.is_taken(q)
        == post.spec_some_group_has_port(q) by {
        if q != p || reused {
            assert(post.port_manager.is_taken(q) == pre.port_manager.is_taken(q));
            assert(pre.port_manager.is_taken(q) == pre.spec_some_group_has_port(q));
            if post.spec_some_group_has_port(q) {
                let k = choose|k: int| 0 <= k < post.service_groups@.len()
                    && (#[trigger] post.service_groups@[k]).has_port(q);
                if k == gi {
                    assert(pre.service_groups@[gi].has_port(q)) by {
                        if !reused && q != p {
                        }
                    }
                } else {
                    assert(post.service_groups@[k] == pre.service_groups@[k]);
                }
                assert(pre.spec_some_group_has_port(q));
            }
            if pre.spec_some_group_has_port(q) {
                let k = choose|k: int| 0 <= k < pre.service_groups@.len()
                    && (#[trigger] pre.service_groups@[k]).has_port(q);
                if k == gi {
                    assert(post.service_groups@[gi].has_port(q)) by {
                        if !reused && q != p {
                        }
                    }
                } else {
                    assert(post.service_groups@[k] == pre.service_groups@[k]);
                }
                assert(post.spec_some_group_has_port(q));
            }
        } else {
            // a fresh port: now taken, and owned by the group at gi alone
            assert(post.port_manager.is_taken(p));
            assert(post.service_groups@[gi].has_port(p));
            assert(post.spec_some_group_has_port(p));
        }
    }
    assert forall|k: int| 0 <= k < post.sessions@.len()
        implies post.spec_entry_backed(k) by {
        assert(pre.spec_entry_backed(k));
        assert(post.sessions@[k] == pre.sessions@[k]);
        match post.sessions@[k].1.service_group {
            Some(g) => {
                let j = choose|j: int| 0 <= j < pre.service_groups@.len()
                    && (#[trigger] pre.service_groups@[j]).browser.name@ == g@
                    && pre.service_groups@[j].has_session_at(pre.sessions@[k].1.port, pre.sessions@[k].0@);
                if j == gi {
                    assert(post.service_groups@[gi].has_session_at(post.sessions@[k].1.port, post.sessions@[k].0@)) by {
                        if post.sessions@[k].1.port == p && post.sessions@[k].0@ == xid {
                        } else {
                        }
                    }
                } else {
                    assert(post.service_groups@[j] == pre.service_groups@[j]);
                }
            },
            None => {},
        }
    }
}


/// States whose session tables, group contents and port bookkeeping agree
/// view-for-view satisfy the invariant together.
pub proof fn lemma_wf_same_views(pre: XenonState, post: XenonState)
    requires
        pre.wf(),
        post.sessions@ == pre.sessions@,
        post.service_groups@.len() == pre.service_groups@.len(),
        forall|j: int| 0 <= j < post.service_groups@.len()
            ==> (#[trigger] post.service_groups@[j]).browser == pre.service_groups@[j].browser
                && post.service_groups@[j].services@ == pre.service_groups@[j].services@,
        post.port_manager.wf(),
        forall|q: ServicePort| post.port_manager.is_taken(q) == pre.port_manager.is_taken(q),
    ensures
        post.wf(),
{
    assert forall|k: int| 0 <= k < post.service_groups@.len()
        implies (#[trigger] post.service_groups@[k]).wf() by {
        assert(pre.service_groups@[k].wf());
        assert(post.service_groups@[k].services@ == pre.service_groups@[k].services@);
        assert(post.service_groups@[k].spec_total_sessions()
            == pre.service_groups@[k].spec_total_sessions());
        assert forall|a: int, b: int| 0 <= a < b < post.service_groups@[k].services@.len()
            implies (#[trigger] post.service_groups@[k].services@[a]).port
                != (#[trigger] post.service_groups@[k].services@[b]).port by {
            assert(post.service_groups@[k].services@[a] == pre.service_groups@[k].services@[a]);
            assert(post.service_groups@[k].services@[b] == pre.service_groups@[k].services@[b]);
        }
        assert forall|a: int| 0 <= a < post.service_groups@[k].services@.len()
            implies (#[trigger] post.service_groups@[k].services@[a]).wf()
                && post.service_groups@[k].services@[a].session_views().len()
                    <= post.service_groups@[k].browser.sessions_per_driver by {
            assert(post.service_groups@[k].services@[a] == pre.service_groups@[k].services@[a]);
        }
    }
    assert forall|i: int, j: int| 0 <= i < j < post.service_groups@.len()
        implies (#[trigger] post.service_groups@[i]).browser.name@
            != (#[trigger] post.service_groups@[j]).browser.name@ by {
        assert(post.service_groups@[i].browser == pre.service_groups@[i].browser);
        assert(post.service_groups@[j].browser == pre.service_groups@[j].browser);
    }
    assert forall|i: int, j: int, p: ServicePort| 0 <= i < post.service_groups@.len()
        && 0 <= j < post.service_groups@.len() && i != j
        implies !(#[trigger] post.service_groups@[i].has_port(p)
            && #[trigger] post.service_groups@[j].has_port(p)) by {
        assert(post.service_groups@[i].has_port(p) == pre.service_groups@[i].has_port(p));
        assert(post.service_groups@[j].has_port(p) == pre.service_groups@[j].has_port(p));
    }
    assert forall|p: ServicePort| post.port_manager.is_taken(p)
        == post.spec_some_group_has_port(p) by {
        assert(pre.port_manager.is_taken(p) == pre.spec_some_group_has_port(p));
        if post.spec_some_group_has_port(p) {
            let k = choose|k: int| 0 <= k < post.service_groups@.len()
                && (#[trigger] post.service_groups@[k]).has_port(p);
            assert(pre.service_groups@[k].has_port(p));
            assert(pre.spec_some_group_has_port(p));
        }
        if pre.spec_some_group_has_port(p) {
            let k = choose|k: int| 0 <= k < pre.service_groups@.len()
                && (#[trigger] pre.service_groups@[k]).has_port(p);
            assert(post.service_groups@[k].has_port(p));
            assert(post.spec_some_group_has_port(p));
        }
    }
    assert forall|k: int| 0 <= k < post.sessions@.len()
        implies post.spec_entry_backed(k) by {
        assert(pre.spec_entry_backed(k));
        assert(post.sessions@[k] == pre.sessions@[k]);
        match post.sessions@[k].1.service_group {
            Some(g) => {
                let j = choose|j: int| 0 <= j < pre.service_groups@.len()
                    && (#[trigger] pre.service_groups@[j]).browser.name@ == g@
                    && pre.service_groups@[j].has_session_at(pre.sessions@[k].1.port, pre.sessions@[k].0@);
                assert(post.service_groups@[j].browser == pre.service_groups@[j].browser);
                assert(post.service_groups@[j].has_session_at(post.sessions@[k].1.port, post.sessions@[k].0@)
                    == pre.service_groups@[j].has_session_at(pre.sessions@[k].1.port, pre.sessions@[k].0@));
            },
            None => {},
        }
    }
}


impl XenonState {
    /// Roll a reservation back: detach the minted id from the named group at
    /// the reserved port, terminating the service and releasing the port if
    /// the reservation was its only session. Used when the backend handshake
    /// fails after `reserve_available_session` succeeded, so the id is not
    /// in the session table.
    pub fn release_reservation(&mut self, group_name: &String, port: ServicePort, session_id: &XenonSessionId)
        requires
            old(self).wf(),
            !old(self).spec_has_session(session_id@),
        ensures
            final(self).wf(),
            final(self).sessions@ == old(self).sessions@,
            final(self).remote_nodes@ == old(self).remote_nodes@,
            final(self).service_groups@.len() == old(self).service_groups@.len(),
            forall|j: int| 0 <= j < final(self).service_groups@.len()
                ==> (#[trigger] final(self).service_groups@[j]).browser
                    == old(self).service_groups@[j].browser,
            forall|j: int| 0 <= j < final(self).service_groups@.len()
                ==> !((#[trigger] final(self).service_groups@[j]).browser.name@ == group_name@
                    && final(self).service_groups@[j].has_session_at(port, session_id@)),
            forall|j: int, q: ServicePort, x: Seq<char>|
                0 <= j < final(self).service_groups@.len() && (q != port || x != session_id@)
                ==> #[trigger] final(self).service_groups@[j].has_session_at(q, x)
                    == old(self).service_groups@[j].has_session_at(q, x),
    {
        let ghost mid = *old(self);
        match find_group_index(&self.service_groups, group_name) {
            Some(gi) => {
                let group = &mut self.service_groups[gi];
                group.delete_session(port, session_id, &mut self.port_manager);
                proof {
                    let post_groups = self.service_groups@;
                    assert(post_groups =~= mid.service_groups@.update(gi as int, post_groups[gi as int]));
                    lemma_group_op_wf(mid, *self, gi as int, port, session_id@);
                    assert forall|j: int| 0 <= j < post_groups.len()
                        implies !((#[trigger] post_groups[j]).browser.name@ == group_name@
                            && post_groups[j].has_session_at(port, session_id@)) by {
                        if j != gi {
                            assert(post_groups[j] == mid.service_groups@[j]);
                            if post_groups[j].browser.name@ == group_name@ {
                                assert(mid.service_groups@[gi as int].browser.name@ == group_name@);
                            }
                        }
                    }
                }
            },
            None => {
                proof {
                    assert forall|j: int| 0 <= j < self.service_groups@.len()
                        implies !((#[trigger] self.service_groups@[j]).browser.name@ == group_name@
                            && self.service_groups@[j].has_session_at(port, session_id@)) by {}
                }
            },
        }
    }
}


impl XenonState {
    /// Replace one node's cached capability inventory, as the bootstrap
    /// fetch does; nothing else of the node changes. Returns whether the
    /// node exists.
    pub fn set_node_groups(&mut self, node_id: &NodeId, groups: Vec<RemoteServiceGroup>) -> (r: bool)
        requires
            old(self).wf(),
        ensures
            final(self).wf(),
            final(self).service_groups@ == old(self).service_groups@,
            final(self).port_manager == old(self).port_manager,
            final(self).sessions@ == old(self).sessions@,
            r == (first_node_index(nodes_view(old(self).remote_nodes@), node_id@)
                < old(self).remote_nodes@.len()),
            !r ==> final(self).remote_nodes@ == old(self).remote_nodes@,
            r ==> {
                let i = first_node_index(nodes_view(old(self).remote_nodes@), node_id@);
                &&& final(self).remote_nodes@.len() == old(self).remote_nodes@.len()
                &&& forall|k: int| 0 <= k < old(self).remote_nodes@.len() && k != i
                    ==> final(self).remote_nodes@[k] == old(self).remote_nodes@[k]
                &&& final(self).remote_nodes@[i].service_groups == groups
                &&& final(self).remote_nodes@[i].id@ == old(self).remote_nodes@[i].id@
                &&& final(self).remote_nodes@[i].name == old(self).remote_nodes@[i].name
                &&& final(self).remote_nodes@[i].url == old(self).remote_nodes@[i].url
                &&& final(self).remote_nodes@[i].comms_id == old(self).remote_nodes@[i].comms_id
                &&& final(self).remote_nodes@[i].scheme == old(self).remote_nodes@[i].scheme
                &&& final(self).remote_nodes@[i].authority == old(self).remote_nodes@[i].authority
            },
    {
        match self.find_node_index(node_id) {
            Some(i) => {
                let node = &mut self.remote_nodes[i];
                node.service_groups = groups;
                proof {
                    lemma_wf_nodes_only(*old(self), *self);
                }
                true
            },
            None => false,
        }
    }
}

} // verus!
