//! WebDriver services and service groups: one service supervises one driver
//! child process bound to one port; a group owns every service of one
//! configured browser and enforces its session limits.

use vstd::prelude::*;
use crate::browser::{BrowserConfig, Capabilities, spec_matches_capabilities};
use crate::error::{XenonError, XenonResult};
use crate::portmanager::{PortManager, ServicePort};
use crate::response::XenonResponse;
use crate::seqtools::{lemma_remove_contains, lemma_remove_no_duplicates, lemma_push_no_duplicates};
use crate::session::XenonSessionId;

verus! {

broadcast use vstd::seq_lib::group_seq_properties;

#[verifier::external_type_specification]
#[verifier::external_body]
pub struct ExChild(tokio::process::Child);

/// Relies on tokio::process::Command (new, args, arg, kill_on_drop, spawn):
/// spawns the driver binary with the configured arguments plus
/// `--port=<port>`, kill-on-drop, and hands back the child handle or the
/// operating system's error message. Must run inside a tokio runtime.
#[verifier::external_body]
fn spawn_driver(path: &String, args: &Vec<String>, port: u16) -> (r: Result<tokio::process::Child, String>)
{
    let mut command = tokio::process::Command::new(path);
    command.args(args);
    command.arg(format!("--port={}", port));
    command.kill_on_drop(true);
    match command.spawn() {
        Ok(child) => Ok(child),
        Err(e) => Err(e.to_string()),
    }
}

/// Relies on tokio::process::Child::start_kill: sends SIGKILL to the child.
/// A kill error is swallowed, as service teardown must never fail.
#[verifier::external_body]
fn kill_child(child: &mut tokio::process::Child)
{
    let _ = child.start_kill();
}

/// A WebDriverService represents one instance of a webdriver binary such as
/// chromedriver, to which one or more sessions can attach.
#[derive(Debug)]
pub struct WebDriverService {
    pub port: ServicePort,
    pub process: tokio::process::Child,
    pub sessions: Vec<XenonSessionId>,
}

impl WebDriverService {
    /// The session ids attached to this service, as strings.
    pub open spec fn session_views(&self) -> Seq<Seq<char>> {
        self.sessions.deep_view()
    }

    pub open spec fn has_session(&self, id: Seq<char>) -> bool {
        self.session_views().contains(id)
    }

    pub open spec fn wf(&self) -> bool {
        self.session_views().no_duplicates()
    }

    /// Spawn the driver binary for this service on the given port.
    pub fn spawn(port: ServicePort, path: &String, args: &Option<Vec<String>>) -> (r: XenonResult<Self>)
        ensures
            match r {
                Ok(s) => {
                    &&& s.port == port
                    &&& s.session_views().len() == 0
                    &&& s.wf()
                },
                Err(e) => e is IOError,
            },
    {
        let empty: Vec<String> = Vec::new();
        let argv: &Vec<String> = match args {
            Some(a) => a,
            None => &empty,
        };
        match spawn_driver(path, argv, port) {
            Ok(process) => Ok(WebDriverService { port, process, sessions: Vec::new() }),
            Err(m) => Err(XenonError::IOError(m)),
        }
    }

    /// Kill the child process. Only a service with no sessions left may be
    /// terminated; kill errors are logged upstream, never propagated.
    pub fn terminate(self)
        requires
            self.session_views().len() == 0,
    {
        let mut this = self;
        kill_child(&mut this.process);
    }

    pub fn port(&self) -> (r: ServicePort)
        ensures
            r == self.port,
    {
        self.port
    }

    pub fn num_active_sessions(&self) -> (r: usize)
        ensures
            r == self.session_views().len(),
    {
        self.sessions.len()
    }

    /// Attach a session id; attaching an id a second time changes nothing.
    pub fn add_session(&mut self, session_id: XenonSessionId)
        requires
            old(self).wf(),
        ensures
            final(self).wf(),
            final(self).port == old(self).port,
            final(self).process == old(self).process,
            final(self).has_session(session_id@),
            forall|x: Seq<char>| x != session_id@ ==> final(self).has_session(x) == old(self).has_session(x),
            final(self).session_views().len() == old(self).session_views().len()
                + (if old(self).has_session(session_id@) { 0int } else { 1int }),
    {
        if !contains_session(&self.sessions, &session_id) {
            let ghost pre = self.sessions.deep_view();
            self.sessions.push(session_id);
            proof {
                assert(self.sessions.deep_view() =~= pre.push(self.sessions@.last()@));
                lemma_push_no_duplicates(pre, self.sessions@.last()@);
            }
        }
    }

    /// Detach a session id; detaching an unknown id changes nothing.
    pub fn delete_session(&mut self, session_id: &XenonSessionId)
        requires
            old(self).wf(),
        ensures
            final(self).wf(),
            final(self).port == old(self).port,
            final(self).process == old(self).process,
            !final(self).has_session(session_id@),
            forall|x: Seq<char>| x != session_id@ ==> final(self).has_session(x) == old(self).has_session(x),
            final(self).session_views().len() == old(self).session_views().len()
                - (if old(self).has_session(session_id@) { 1int } else { 0int }),
    {
        match find_session(&self.sessions, session_id) {
            Some(i) => {
                let ghost pre = self.sessions.deep_view();
                self.sessions.remove(i);
                proof {
                    assert(self.sessions.deep_view() =~= pre.remove(i as int));
                    assert(pre[i as int] == session_id@);
                    lemma_remove_no_duplicates(pre, i as int);
                    assert forall|x: Seq<char>| #[trigger] self.session_views().contains(x)
                        == (pre.contains(x) && x != session_id@) by {
                        lemma_remove_contains(pre, i as int, x);
                    }
                }
            },
            None => {},
        }
    }
}

/// Whether a session id occurs in a list of ids.
fn contains_session(v: &Vec<XenonSessionId>, x: &XenonSessionId) -> (r: bool)
    ensures
        r == v.deep_view().contains(x@),
{
    let mut i: usize = 0;
    let n = v.len();
    while i < n
        invariant
            n == v@.len(),
            i <= n,
            forall|k: int| 0 <= k < i ==> v.deep_view()[k] != x@,
        decreases n - i,
    {
        if v[i].eq(x) {
            proof {
                assert(v.deep_view()[i as int] == x@);
            }
            return true;
        }
        i += 1;
    }
    proof {
        if v.deep_view().contains(x@) {
            let k = choose|k: int| 0 <= k < v.deep_view().len() && v.deep_view()[k] == x@;
        }
    }
    false
}

/// The index of a session id in a list of ids, if any.
fn find_session(v: &Vec<XenonSessionId>, x: &XenonSessionId) -> (r: Option<usize>)
    ensures
        match r {
            Some(i) => i < v@.len() && v.deep_view()[i as int] == x@,
            None => !v.deep_view().contains(x@),
        },
{
    let mut i: usize = 0;
    let n = v.len();
    while i < n
        invariant
            n == v@.len(),
            i <= n,
            forall|k: int| 0 <= k < i ==> v.deep_view()[k] != x@,
        decreases n - i,
    {
        if v[i].eq(x) {
            proof {
                assert(v.deep_view()[i as int] == x@);
            }
            return Some(i);
        }
        i += 1;
    }
    proof {
        if v.deep_view().contains(x@) {
            let k = choose|k: int| 0 <= k < v.deep_view().len() && v.deep_view()[k] == x@;
        }
    }
    None
}

pub type ServiceGroupName = String;

/// The number of sessions attached across a sequence of services.
pub open spec fn sum_sessions(s: Seq<WebDriverService>) -> int
    decreases s.len(),
{
    if s.len() == 0 {
        0
    } else {
        sum_sessions(s.drop_last()) + s.last().session_views().len()
    }
}

pub proof fn lemma_sum_concat(a: Seq<WebDriverService>, b: Seq<WebDriverService>)
    ensures
        sum_sessions(a + b) == sum_sessions(a) + sum_sessions(b),
    decreases b.len(),
{
    if b.len() == 0 {
        assert(a + b =~= a);
    } else {
        lemma_sum_concat(a, b.drop_last());
        assert((a + b).drop_last() =~= a + b.drop_last());
        assert((a + b).last() == b.last());
    }
}

pub proof fn lemma_sum_nonneg(s: Seq<WebDriverService>)
    ensures
        sum_sessions(s) >= 0,
    decreases s.len(),
{
    if s.len() > 0 {
        lemma_sum_nonneg(s.drop_last());
    }
}

pub proof fn lemma_sum_take(s: Seq<WebDriverService>, i: int)
    requires
        0 <= i < s.len(),
    ensures
        sum_sessions(s.take(i + 1)) == sum_sessions(s.take(i)) + s[i].session_views().len(),
        sum_sessions(s.take(i)) <= sum_sessions(s.take(i + 1)),
{
    assert(s.take(i + 1).drop_last() =~= s.take(i));
    assert(s.take(i + 1).last() == s[i]);
}

pub proof fn lemma_sum_take_le(s: Seq<WebDriverService>, i: int)
    requires
        0 <= i <= s.len(),
    ensures
        sum_sessions(s.take(i)) <= sum_sessions(s),
    decreases s.len() - i,
{
    if i == s.len() {
        assert(s.take(i) =~= s);
    } else {
        lemma_sum_take(s, i);
        lemma_sum_take_le(s, i + 1);
    }
}

pub proof fn lemma_sum_update(s: Seq<WebDriverService>, i: int, svc: WebDriverService)
    requires
        0 <= i < s.len(),
    ensures
        sum_sessions(s.update(i, svc)) == sum_sessions(s) - s[i].session_views().len()
            + svc.session_views().len(),
    decreases s.len(),
{
    if i == s.len() - 1 {
        assert(s.update(i, svc).drop_last() =~= s.drop_last());
        assert(s.update(i, svc).last() == svc);
    } else {
        lemma_sum_update(s.drop_last(), i, svc);
        assert(s.update(i, svc).drop_last() =~= s.drop_last().update(i, svc));
        assert(s.update(i, svc).last() == s.last());
        assert(s.drop_last()[i] == s[i]);
    }
}

pub proof fn lemma_sum_remove(s: Seq<WebDriverService>, i: int)
    requires
        0 <= i < s.len(),
    ensures
        sum_sessions(s.remove(i)) == sum_sessions(s) - s[i].session_views().len(),
{
    let a = s.take(i);
    let b = s.skip(i + 1);
    assert(s.remove(i) =~= a + b);
    assert(s =~= (a + seq![s[i]]) + b);
    lemma_sum_concat(a, b);
    lemma_sum_concat(a + seq![s[i]], b);
    lemma_sum_concat(a, seq![s[i]]);
    assert(sum_sessions(seq![s[i]]) == s[i].session_views().len()) by {
        assert(seq![s[i]].drop_last() =~= Seq::<WebDriverService>::empty());
    }
}

/// Two service sequences of the same length and the same ports at each index
/// have the same port membership.
proof fn lemma_ports_preserved(pre: Seq<WebDriverService>, post: Seq<WebDriverService>)
    requires
        post.len() == pre.len(),
        forall|k: int| 0 <= k < pre.len() ==> (#[trigger] post[k]).port == (#[trigger] pre[k]).port,
    ensures
        forall|q: ServicePort| spec_seq_has_port(post, q) == spec_seq_has_port(pre, q),
{
    assert forall|q: ServicePort| spec_seq_has_port(post, q) == spec_seq_has_port(pre, q) by {
        if spec_seq_has_port(post, q) {
            let k = choose|k: int| 0 <= k < post.len() && (#[trigger] post[k]).port == q;
            assert(pre[k].port == q);
        }
        if spec_seq_has_port(pre, q) {
            let k = choose|k: int| 0 <= k < pre.len() && (#[trigger] pre[k]).port == q;
            assert(post[k].port == q);
        }
    }
}

pub open spec fn spec_seq_has_session_at(s: Seq<WebDriverService>, p: ServicePort, id: Seq<char>) -> bool {
    exists|k: int| 0 <= k < s.len() && (#[trigger] s[k]).port == p && s[k].has_session(id)
}

pub open spec fn spec_seq_has_port(s: Seq<WebDriverService>, p: ServicePort) -> bool {
    exists|k: int| 0 <= k < s.len() && (#[trigger] s[k]).port == p
}

/// A ServiceGroup provides every service of a single configured browser. A
/// group may spawn several driver instances, each taking up to
/// `sessions_per_driver` sessions, with at most `max_sessions` sessions in
/// the group altogether.
#[derive(Debug)]
pub struct ServiceGroup {
    pub browser: BrowserConfig,
    pub services: Vec<WebDriverService>,
}

impl ServiceGroup {
    pub open spec fn spec_total_sessions(&self) -> int {
        sum_sessions(self.services@)
    }

    pub open spec fn has_port(&self, p: ServicePort) -> bool {
        spec_seq_has_port(self.services@, p)
    }

    /// A session id attached to the service at a port.
    pub open spec fn has_session_at(&self, p: ServicePort, id: Seq<char>) -> bool {
        spec_seq_has_session_at(self.services@, p, id)
    }

    /// Some service of the group still has a session slot.
    pub open spec fn has_slack(&self) -> bool {
        exists|k: int| 0 <= k < self.services@.len()
            && (#[trigger] self.services@[k]).session_views().len()
                < self.browser.sessions_per_driver
    }

    /// Well-formed, and within its limits: service ports are distinct, no
    /// service holds a session twice, no service exceeds
    /// `sessions_per_driver`, and the group total is within `max_sessions`.
    pub open spec fn wf(&self) -> bool {
        &&& self.browser.driver_path is Some
        &&& forall|i: int, j: int| 0 <= i < j < self.services@.len()
                ==> (#[trigger] self.services@[i]).port != (#[trigger] self.services@[j]).port
        &&& forall|k: int| 0 <= k < self.services@.len() ==> (#[trigger] self.services@[k]).wf()
        &&& forall|k: int| 0 <= k < self.services@.len()
                ==> (#[trigger] self.services@[k]).session_views().len()
                    <= self.browser.sessions_per_driver
        &&& self.spec_total_sessions() <= self.browser.max_sessions
    }

    pub fn new(browser: BrowserConfig) -> (r: Self)
        requires
            browser.driver_path is Some,
        ensures
            r.browser == browser,
            r.services@.len() == 0,
            r.wf(),
            r.spec_total_sessions() == 0,
    {
        ServiceGroup { browser, services: Vec::new() }
    }

    pub fn name(&self) -> (r: &String)
        ensures
            r == &self.browser.name,
    {
        self.browser.name()
    }

    pub fn matches_capabilities(&self, capabilities: &Capabilities) -> (r: bool)
        ensures
            r == spec_matches_capabilities(&self.browser, capabilities),
    {
        self.browser.matches_capabilities(capabilities)
    }

    pub fn total_sessions(&self) -> (r: usize)
        requires
            self.wf(),
        ensures
            r == self.spec_total_sessions(),
    {
        let mut count: usize = 0;
        let n = self.services.len();
        let mut i: usize = 0;
        while i < n
            invariant
                self.wf(),
                n == self.services@.len(),
                i <= n,
                count == sum_sessions(self.services@.take(i as int)),
                count <= self.browser.max_sessions,
            decreases n - i,
        {
            proof {
                lemma_sum_take(self.services@, i as int);
                lemma_sum_take_le(self.services@, i + 1);
            }
            count = count + self.services[i].num_active_sessions();
            i += 1;
        }
        proof {
            assert(self.services@.take(n as int) =~= self.services@);
        }
        count
    }

    pub fn has_capacity(&self) -> (r: bool)
        requires
            self.wf(),
        ensures
            r == (self.spec_total_sessions() < self.browser.max_sessions),
    {
        let max_sessions = self.browser.max_sessions();
        self.total_sessions() < max_sessions as usize
    }

    /// Pick the service a new session should attach to, spawning a new
    /// driver when no existing service has a slot left. Returns the port of
    /// the chosen service; the session itself is attached by `add_session_at`.
    pub fn get_or_start_service(&mut self, port_manager: &mut PortManager) -> (r: XenonResult<ServicePort>)
        requires
            old(self).wf(),
            old(port_manager).wf(),
            forall|q: ServicePort| old(self).has_port(q) ==> old(port_manager).is_taken(q),
        ensures
            final(self).wf(),
            final(port_manager).wf(),
            final(self).browser == old(self).browser,
            match r {
                Ok(p) => {
                    &&& old(self).spec_total_sessions() < old(self).browser.max_sessions
                    &&& final(self).spec_total_sessions() == old(self).spec_total_sessions()
                    &&& final(self).has_port(p)
                    &&& exists|k: int| 0 <= k < final(self).services@.len()
                        && (#[trigger] final(self).services@[k]).port == p
                        && final(self).services@[k].session_views().len()
                            < final(self).browser.sessions_per_driver
                    &&& forall|q: ServicePort| q != p
                        ==> final(port_manager).is_taken(q) == old(port_manager).is_taken(q)
                            && final(port_manager).is_available(q) == old(port_manager).is_available(q)
                    &&& forall|q: ServicePort| q != p ==> final(self).has_port(q) == old(self).has_port(q)
                    &&& if old(self).has_port(p) {
                        &&& final(self).services@ == old(self).services@
                        &&& final(port_manager).is_taken(p) == old(port_manager).is_taken(p)
                        &&& final(port_manager).is_available(p) == old(port_manager).is_available(p)
                    } else {
                        &&& final(self).services@.len() == old(self).services@.len() + 1
                        &&& final(self).services@ == old(self).services@.push(final(self).services@.last())
                        &&& final(self).services@.last().port == p
                        &&& final(self).services@.last().session_views().len() == 0
                        &&& old(port_manager).is_available(p)
                        &&& final(port_manager).is_taken(p)
                        &&& !final(port_manager).is_available(p)
                    }
                    &&& forall|q: ServicePort, x: Seq<char>|
                        final(self).has_session_at(q, x) == old(self).has_session_at(q, x)
                },
                Err(e) => {
                    &&& (e is NoSessionsAvailable
                        || (e matches XenonError::RespondWith(XenonResponse::NoSessionsAvailable))
                        || e is IOError)
                    &&& final(self).services@ == old(self).services@
                    &&& forall|q: ServicePort| final(port_manager).is_taken(q) == old(port_manager).is_taken(q)
                        && final(port_manager).is_available(q) == old(port_manager).is_available(q)
                    &&& (e is NoSessionsAvailable
                        <==> old(self).spec_total_sessions() >= old(self).browser.max_sessions
                            || (!old(self).has_slack() && old(self).browser.sessions_per_driver == 0))
                    &&& ((e matches XenonError::RespondWith(XenonResponse::NoSessionsAvailable))
                        <==> (old(self).spec_total_sessions() < old(self).browser.max_sessions
                            && !old(self).has_slack() && old(self).browser.sessions_per_driver >= 1
                            && (forall|q: ServicePort| !old(port_manager).is_available(q))))
                    &&& (e is IOError ==> old(self).spec_total_sessions() < old(self).browser.max_sessions
                            && !old(self).has_slack())
                    &&& (old(self).spec_total_sessions() < old(self).browser.max_sessions
                            && old(self).has_slack() ==> false)
                },
            },
    {
        let max_per_service = self.browser.sessions_per_driver();
        let max_sessions = self.browser.max_sessions();
        if max_sessions == 0 {
            proof {
                lemma_sum_nonneg(self.services@);
            }
            return Err(XenonError::NoSessionsAvailable);
        }
        let mut overall_session_count: usize = 0;
        let mut next_port: Option<ServicePort> = None;
        let mut best: u32 = max_per_service;
        let n = self.services.len();
        let mut i: usize = 0;
        while i < n
            invariant
                old(self) == self,
                old(port_manager) == port_manager,
                self.wf(),
                port_manager.wf(),
                max_per_service == self.browser.sessions_per_driver,
                max_sessions == self.browser.max_sessions,
                n == self.services@.len(),
                i <= n,
                overall_session_count == sum_sessions(self.services@.take(i as int)),
                overall_session_count < max_sessions,
                best <= max_per_service,
                match next_port {
                    Some(p) => exists|k: int| 0 <= k < i
                        && (#[trigger] self.services@[k]).port == p
                        && self.services@[k].session_views().len() == best
                        && best < max_per_service,
                    None => best == max_per_service,
                },
                forall|k: int| 0 <= k < i
                    ==> best <= (#[trigger] self.services@[k]).session_views().len()
                        || self.services@[k].session_views().len() >= max_per_service,
            decreases n - i,
        {
            let num_sessions_for_service = self.services[i].num_active_sessions();
            proof {
                lemma_sum_take(self.services@, i as int);
                lemma_sum_take_le(self.services@, i + 1);
                lemma_sum_nonneg(self.services@.take(i as int));
            }
            overall_session_count = overall_session_count + num_sessions_for_service;
            if overall_session_count >= max_sessions as usize {
                proof {
                    lemma_sum_take_le(self.services@, i + 1);
                }
                return Err(XenonError::NoSessionsAvailable);
            }
            if num_sessions_for_service < best as usize {
                best = num_sessions_for_service as u32;
                next_port = Some(self.services[i].port());
            }
            i += 1;
        }
        proof {
            assert(self.services@.take(n as int) =~= self.services@);
        }

        match next_port {
            Some(p) => Ok(p),
            None => {
                // No existing service has a slot left: spawn a new driver.
                if max_per_service == 0 {
                    // A driver that may hold no sessions can serve nothing.
                    return Err(XenonError::NoSessionsAvailable);
                }
                let newport = match port_manager.lock_next_port() {
                    Some(p) => p,
                    None => {
                        return Err(XenonError::RespondWith(XenonResponse::NoSessionsAvailable));
                    },
                };
                match WebDriverService::spawn(newport, self.browser.driver_path(), self.browser.args()) {
                    Ok(service) => {
                        let ghost pre = self.services@;
                        proof {
                            assert forall|k: int| 0 <= k < pre.len() implies (#[trigger] pre[k]).port != newport by {
                                if pre[k].port == newport {
                                    assert(old(self).has_port(newport));
                                }
                            }
                        }
                        self.services.push(service);
                        proof {
                            lemma_sum_concat(pre, seq![self.services@.last()]);
                            assert(pre.push(self.services@.last()) =~= pre + seq![self.services@.last()]);
                            assert(sum_sessions(seq![self.services@.last()]) == 0) by {
                                assert(seq![self.services@.last()].drop_last()
                                    =~= Seq::<WebDriverService>::empty());
                            }
                            assert forall|q: ServicePort, x: Seq<char>|
                                self.has_session_at(q, x) == old(self).has_session_at(q, x) by {
                                if self.has_session_at(q, x) {
                                    let k = choose|k: int| 0 <= k < self.services@.len()
                                        && (#[trigger] self.services@[k]).port == q
                                        && self.services@[k].has_session(x);
                                    assert(k < pre.len());
                                }
                                if old(self).has_session_at(q, x) {
                                    let k = choose|k: int| 0 <= k < pre.len()
                                        && (#[trigger] pre[k]).port == q && pre[k].has_session(x);
                                    assert(self.services@[k].port == q);
                                }
                            }
                            assert forall|q: ServicePort| q != newport
                                implies self.has_port(q) == old(self).has_port(q) by {
                                if self.has_port(q) {
                                    let k = choose|k: int| 0 <= k < self.services@.len()
                                        && (#[trigger] self.services@[k]).port == q;
                                    assert(k < pre.len());
                                }
                                if old(self).has_port(q) {
                                    let k = choose|k: int| 0 <= k < pre.len()
                                        && (#[trigger] pre[k]).port == q;
                                    assert(self.services@[k].port == q);
                                }
                            }
                            assert(self.has_port(newport)) by {
                                assert(self.services@[self.services@.len() - 1].port == newport);
                            }
                        }
                        Ok(newport)
                    },
                    Err(e) => {
                        // The locked port must be released on spawn failure.
                        port_manager.unlock_port(newport);
                        Err(e)
                    },
                }
            },
        }
    }

    /// Attach a freshly minted session id to the service at `port`. The
    /// caller has just obtained `port` from `get_or_start_service`, so the
    /// service is there, has a slot left, and the group has capacity.
    pub fn add_session_at(&mut self, port: ServicePort, session_id: XenonSessionId)
        requires
            old(self).wf(),
            old(self).spec_total_sessions() < old(self).browser.max_sessions,
            exists|k: int| 0 <= k < old(self).services@.len()
                && (#[trigger] old(self).services@[k]).port == port
                && old(self).services@[k].session_views().len()
                    < old(self).browser.sessions_per_driver,
        ensures
            final(self).wf(),
            final(self).browser == old(self).browser,
            final(self).has_session_at(port, session_id@),
            forall|q: ServicePort| final(self).has_port(q) == old(self).has_port(q),
            forall|q: ServicePort, x: Seq<char>| q != port || x != session_id@
                ==> final(self).has_session_at(q, x) == old(self).has_session_at(q, x),
            final(self).spec_total_sessions() == old(self).spec_total_sessions()
                + (if old(self).has_session_at(port, session_id@) { 0int } else { 1int }),
    {
        let ghost pre = self.services@;
        match self.find_port_index(port) {
            Some(i) => {
                let svc = &mut self.services[i];
                proof {
                    assert(pre[i as int].session_views().len()
                        < old(self).browser.sessions_per_driver) by {
                        let k = choose|k: int| 0 <= k < pre.len()
                            && (#[trigger] pre[k]).port == port
                            && pre[k].session_views().len() < old(self).browser.sessions_per_driver;
                        assert(k == i);
                    }
                }
                svc.add_session(session_id);
                proof {
                    let post = self.services@;
                    assert(post =~= pre.update(i as int, post[i as int]));
                    lemma_sum_update(pre, i as int, post[i as int]);
                    lemma_group_session_update(pre, post, i as int, port, session_id@);
                    lemma_ports_preserved(pre, post);
                    assert(old(self).has_session_at(port, session_id@)
                        == pre[i as int].has_session(session_id@)) by {
                        if old(self).has_session_at(port, session_id@) {
                            let k = choose|k: int| 0 <= k < pre.len()
                                && (#[trigger] pre[k]).port == port
                                && pre[k].has_session(session_id@);
                            assert(k == i);
                        }
                    }
                    assert(self.has_session_at(port, session_id@)) by {
                        assert(post[i as int].port == port && post[i as int].has_session(session_id@));
                    }

                }
            },
            None => {
                proof {
                    let k = choose|k: int| 0 <= k < pre.len() && (#[trigger] pre[k]).port == port
                        && pre[k].session_views().len() < old(self).browser.sessions_per_driver;
                    assert(false);
                }
            },
        }
    }

    /// Whether the session id is attached to the service at `port`.
    pub fn has_session_on_port(&self, port: ServicePort, id: &XenonSessionId) -> (r: bool)
        requires
            self.wf(),
        ensures
            r == self.has_session_at(port, id@),
    {
        match self.find_port_index(port) {
            Some(i) => {
                let r = contains_session(&self.services[i].sessions, id);
                proof {
                    if r {
                        assert(self.services@[i as int].port == port
                            && self.services@[i as int].has_session(id@));
                    }
                    if self.has_session_at(port, id@) {
                        let k = choose|k: int| 0 <= k < self.services@.len()
                            && (#[trigger] self.services@[k]).port == port
                            && self.services@[k].has_session(id@);
                        if k != i && !r {
                            assert(self.services@[k].port == port);
                        }
                    }
                }
                r
            },
            None => {
                proof {
                    if self.has_session_at(port, id@) {
                        let k = choose|k: int| 0 <= k < self.services@.len()
                            && (#[trigger] self.services@[k]).port == port
                            && self.services@[k].has_session(id@);
                    }
                }
                false
            },
        }
    }

    /// The index of the service bound to a port.
    fn find_port_index(&self, port: ServicePort) -> (r: Option<usize>)
        ensures
            match r {
                Some(i) => i < self.services@.len() && self.services@[i as int].port == port,
                None => !self.has_port(port),
            },
    {
        let n = self.services.len();
        let mut i: usize = 0;
        while i < n
            invariant
                n == self.services@.len(),
                i <= n,
                forall|k: int| 0 <= k < i ==> (#[trigger] self.services@[k]).port != port,
            decreases n - i,
        {
            if self.services[i].port() == port {
                return Some(i);
            }
            i += 1;
        }
        proof {
            if self.has_port(port) {
                let k = choose|k: int| 0 <= k < self.services@.len()
                    && (#[trigger] self.services@[k]).port == port;
            }
        }
        None
    }

    /// Detach a session from the service at `port`. A service whose last
    /// session goes away is removed, its child terminated and its port
    /// returned to the pool; an unknown port or id changes nothing.
    pub fn delete_session(
        &mut self,
        port: ServicePort,
        xsession_id: &XenonSessionId,
        port_manager: &mut PortManager,
    )
        requires
            old(self).wf(),
            old(port_manager).wf(),
        ensures
            final(self).wf(),
            final(port_manager).wf(),
            final(self).browser == old(self).browser,
            !final(self).has_session_at(port, xsession_id@),
            forall|q: ServicePort, x: Seq<char>| q != port || x != xsession_id@
                ==> final(self).has_session_at(q, x) == old(self).has_session_at(q, x),
            final(self).spec_total_sessions() == old(self).spec_total_sessions()
                - (if old(self).has_session_at(port, xsession_id@) { 1int } else { 0int }),
            forall|q: ServicePort| q != port ==> final(self).has_port(q) == old(self).has_port(q),
            forall|q: ServicePort| q != port
                ==> final(port_manager).is_taken(q) == old(port_manager).is_taken(q)
                    && final(port_manager).is_available(q) == old(port_manager).is_available(q),
            // the service stays unless its session set became empty
            spec_emptied(old(self), port, xsession_id@) ==> !final(self).has_port(port)
                && !final(port_manager).is_taken(port)
                && final(port_manager).is_available(port) == old(port_manager).in_pool(port),
            !spec_emptied(old(self), port, xsession_id@)
                ==> final(self).has_port(port) == old(self).has_port(port)
                    && final(port_manager).is_taken(port) == old(port_manager).is_taken(port)
                    && final(port_manager).is_available(port) == old(port_manager).is_available(port),
    {
        let ghost pre = self.services@;
        match self.find_port_index(port) {
            Some(i) => {
                let ghost presvc = pre[i as int];
                let svc = &mut self.services[i];
                svc.delete_session(xsession_id);
                let ghost mid = self.services@;
                proof {
                    assert(mid =~= pre.update(i as int, mid[i as int]));
                    lemma_sum_update(pre, i as int, mid[i as int]);
                    lemma_group_session_update(pre, mid, i as int, port, xsession_id@);
                    lemma_ports_preserved(pre, mid);
                    assert(old(self).has_session_at(port, xsession_id@)
                        == presvc.has_session(xsession_id@)) by {
                        if old(self).has_session_at(port, xsession_id@) {
                            let k = choose|k: int| 0 <= k < pre.len()
                                && (#[trigger] pre[k]).port == port
                                && pre[k].has_session(xsession_id@);
                            assert(k == i);
                        }
                    }
                }
                if self.services[i].num_active_sessions() == 0 {
                    let service = self.services.remove(i);
                    proof {
                        lemma_sum_remove(mid, i as int);
                        lemma_group_session_remove(mid, i as int, port);
                        assert(spec_emptied(old(self), port, xsession_id@));
                    }
                    service.terminate();
                    port_manager.unlock_port(port);
                } else {
                    proof {
                        assert(!spec_emptied(old(self), port, xsession_id@));
                        assert(self.has_port(port)) by {
                            assert(mid[i as int].port == port);
                        }

                    }
                }
            },
            None => {
                proof {
                    assert(!old(self).has_session_at(port, xsession_id@)) by {
                        if old(self).has_session_at(port, xsession_id@) {
                            let k = choose|k: int| 0 <= k < pre.len()
                                && (#[trigger] pre[k]).port == port
                                && pre[k].has_session(xsession_id@);
                        }
                    }
                    assert(!spec_emptied(old(self), port, xsession_id@));
                }
            },
        }
    }
}

/// Whether deleting `id` at `port` empties the service there: the service
/// exists and `id` is its only session.
pub open spec fn spec_emptied(g: &ServiceGroup, port: ServicePort, id: Seq<char>) -> bool {
    exists|k: int| 0 <= k < g.services@.len()
        && (#[trigger] g.services@[k]).port == port
        && g.services@[k].session_views().len()
            == (if g.services@[k].has_session(id) { 1int } else { 0int })
}

/// After updating index `i` (whose port is `port`) by attaching or detaching
/// `id`, session membership at every other (port, id) pair is unchanged.
proof fn lemma_group_session_update(
    pre: Seq<WebDriverService>,
    post: Seq<WebDriverService>,
    i: int,
    port: ServicePort,
    id: Seq<char>,
)
    requires
        0 <= i < pre.len(),
        post.len() == pre.len(),
        forall|k: int| 0 <= k < pre.len() && k != i ==> post[k] == pre[k],
        post[i].port == pre[i].port,
        pre[i].port == port,
        forall|j: int, k: int| 0 <= j < k < pre.len() ==> (#[trigger] pre[j]).port != (#[trigger] pre[k]).port,
        forall|x: Seq<char>| x != id ==> post[i].has_session(x) == pre[i].has_session(x),
    ensures
        forall|q: ServicePort, x: Seq<char>| q != port || x != id
            ==> spec_seq_has_session_at(post, q, x) == spec_seq_has_session_at(pre, q, x),
{
    assert forall|q: ServicePort, x: Seq<char>| q != port || x != id
        implies spec_seq_has_session_at(post, q, x) == spec_seq_has_session_at(pre, q, x) by {
        if spec_seq_has_session_at(post, q, x) {
            let k = choose|k: int| 0 <= k < post.len() && (#[trigger] post[k]).port == q
                && post[k].has_session(x);
            assert(pre[k].port == q);
            assert(pre[k].has_session(x));
        }
        if spec_seq_has_session_at(pre, q, x) {
            let k = choose|k: int| 0 <= k < pre.len() && (#[trigger] pre[k]).port == q
                && pre[k].has_session(x);
            assert(post[k].port == q);
            assert(post[k].has_session(x));
        }
    }
}

/// Removing the (now empty) service at index `i` removes session membership
/// only at its port.
proof fn lemma_group_session_remove(mid: Seq<WebDriverService>, i: int, port: ServicePort)
    requires
        0 <= i < mid.len(),
        mid[i].port == port,
        forall|j: int, k: int| 0 <= j < k < mid.len() ==> (#[trigger] mid[j]).port != (#[trigger] mid[k]).port,
        mid[i].session_views().len() == 0,
    ensures
        forall|q: ServicePort, x: Seq<char>|
            spec_seq_has_session_at(mid.remove(i), q, x) == spec_seq_has_session_at(mid, q, x),
        forall|q: ServicePort| q != port
            ==> spec_seq_has_port(mid.remove(i), q) == spec_seq_has_port(mid, q),
        !spec_seq_has_port(mid.remove(i), port),
{
    let post = mid.remove(i);
    assert forall|q: ServicePort, x: Seq<char>|
        spec_seq_has_session_at(post, q, x) == spec_seq_has_session_at(mid, q, x) by {
        if spec_seq_has_session_at(post, q, x) {
            let k = choose|k: int| 0 <= k < post.len() && (#[trigger] post[k]).port == q
                && post[k].has_session(x);
            if k < i {
                assert(mid[k].port == q && mid[k].has_session(x));
            } else {
                assert(mid[k + 1].port == q && mid[k + 1].has_session(x));
            }
        }
        if spec_seq_has_session_at(mid, q, x) {
            let k = choose|k: int| 0 <= k < mid.len() && (#[trigger] mid[k]).port == q
                && mid[k].has_session(x);
            assert(k != i) by {
                if k == i {
                    assert(mid[i].session_views().contains(x));
                }
            }
            if k < i {
                assert(post[k].port == q && post[k].has_session(x));
            } else {
                assert(post[k - 1].port == q && post[k - 1].has_session(x));
            }
        }
    }
    assert forall|q: ServicePort| q != port
        implies spec_seq_has_port(post, q) == spec_seq_has_port(mid, q) by {
        if spec_seq_has_port(post, q) {
            let k = choose|k: int| 0 <= k < post.len() && (#[trigger] post[k]).port == q;
            if k < i {
                assert(mid[k].port == q);
            } else {
                assert(mid[k + 1].port == q);
            }
        }
        if spec_seq_has_port(mid, q) {
            let k = choose|k: int| 0 <= k < mid.len() && (#[trigger] mid[k]).port == q;
            if k < i {
                assert(post[k].port == q);
            } else {
                assert(k > i);
                assert(post[k - 1].port == q);
            }
        }
    }
    assert(!spec_seq_has_port(post, port)) by {
        if spec_seq_has_port(post, port) {
            let k = choose|k: int| 0 <= k < post.len() && (#[trigger] post[k]).port == port;
            if k < i {
                assert(mid[k].port == mid[i].port);
            } else {
                assert(mid[k + 1].port == mid[i].port);
            }
        }
    }
}

} // verus!
