//! The request router's decisions: capability reservation for a new local
//! session, the local-versus-remote fallback order, and the classification
//! of request paths. The HTTP server around it only moves bytes; every
//! choice it acts on is made here.

use vstd::prelude::*;
use crate::browser::{Capabilities, spec_matches_capabilities};
use crate::error::{XenonError, XenonResult};
use crate::portmanager::ServicePort;
use crate::response::XenonResponse;
use crate::service::ServiceGroupName;
use crate::session::XenonSessionId;
use crate::state::{XenonState, lemma_group_grow_wf, lemma_wf_same_views};

verus! {

broadcast use vstd::seq_lib::group_seq_properties;

/// Reserve capacity for a new session: find the matching service groups in
/// insertion order, pick or spawn a service in the first group that can take
/// the session, mint a fresh session id and attach it. On success the
/// reservation `(id, port, group name)` is recorded in the group; the
/// session table itself is untouched until the backend handshake succeeds.
pub fn reserve_available_session(state: &mut XenonState, capabilities: &Capabilities)
    -> (r: XenonResult<(XenonSessionId, ServicePort, ServiceGroupName)>)
    requires
        old(state).wf(),
    ensures
        final(state).wf(),
        final(state).sessions@ == old(state).sessions@,
        final(state).remote_nodes@ == old(state).remote_nodes@,
        final(state).service_groups@.len() == old(state).service_groups@.len(),
        forall|j: int| 0 <= j < final(state).service_groups@.len()
            ==> (#[trigger] final(state).service_groups@[j]).browser
                == old(state).service_groups@[j].browser,
        match r {
            Ok(t) => {
                &&& t.0@.len() == 36
                &&& exists|j: int| 0 <= j < final(state).service_groups@.len()
                    && (#[trigger] final(state).service_groups@[j]).browser.name@ == t.2@
                    && final(state).service_groups@[j].has_session_at(t.1, t.0@)
                    && spec_matches_capabilities(&final(state).service_groups@[j].browser, capabilities)
            },
            Err(e) => {
                &&& ((e matches XenonError::RespondWith(XenonResponse::NoMatchingBrowser))
                    <==> (forall|j: int| 0 <= j < old(state).service_groups@.len()
                        ==> !spec_matches_capabilities(
                            &(#[trigger] old(state).service_groups@[j]).browser, capabilities)))
                &&& ((exists|j: int| 0 <= j < old(state).service_groups@.len()
                        && spec_matches_capabilities(
                            &(#[trigger] old(state).service_groups@[j]).browser, capabilities))
                    && (forall|j: int| 0 <= j < old(state).service_groups@.len()
                        && spec_matches_capabilities(
                            &(#[trigger] old(state).service_groups@[j]).browser, capabilities)
                        ==> old(state).service_groups@[j].spec_total_sessions()
                            >= old(state).service_groups@[j].browser.max_sessions)
                    ==> (e matches XenonError::RespondWith(XenonResponse::NoSessionsAvailable)))
                &&& !(exists|j: int| 0 <= j < old(state).service_groups@.len()
                    && spec_matches_capabilities(
                        &(#[trigger] old(state).service_groups@[j]).browser, capabilities)
                    && old(state).service_groups@[j].spec_total_sessions()
                        < old(state).service_groups@[j].browser.max_sessions
                    && old(state).service_groups@[j].has_slack())
                &&& forall|j: int| 0 <= j < final(state).service_groups@.len()
                    ==> (#[trigger] final(state).service_groups@[j]).services@
                        == old(state).service_groups@[j].services@
                &&& forall|q: ServicePort|
                    final(state).port_manager.is_taken(q) == old(state).port_manager.is_taken(q)
                    && final(state).port_manager.is_available(q) == old(state).port_manager.is_available(q)
            },
        },
{
    // Capability matching over the groups, in insertion order.
    let mut matching_any = false;
    let mut candidates: Vec<usize> = Vec::new();
    let n = state.service_groups.len();
    let mut k: usize = 0;
    while k < n
        invariant
            state.wf(),
            state == old(state),
            n == state.service_groups@.len(),
            k <= n,
            matching_any == exists|j: int| 0 <= j < k
                && spec_matches_capabilities(
                    &(#[trigger] state.service_groups@[j]).browser, capabilities),
            forall|t: int| 0 <= t < candidates@.len()
                ==> (#[trigger] candidates@[t]) < k
                    && spec_matches_capabilities(
                        &state.service_groups@[candidates@[t] as int].browser, capabilities)
                    && state.service_groups@[candidates@[t] as int].spec_total_sessions()
                        < state.service_groups@[candidates@[t] as int].browser.max_sessions,
            forall|j: int| 0 <= j < k
                && spec_matches_capabilities(
                    &(#[trigger] state.service_groups@[j]).browser, capabilities)
                && state.service_groups@[j].spec_total_sessions()
                    < state.service_groups@[j].browser.max_sessions
                ==> exists|t: int| 0 <= t < candidates@.len() && (#[trigger] candidates@[t]) == j,
        decreases n - k,
    {
        let group = &state.service_groups[k];
        if group.matches_capabilities(capabilities) {
            matching_any = true;
            if group.has_capacity() {
                let ghost pre = candidates@;
                candidates.push(k);
                proof {
                    assert(candidates@[candidates@.len() - 1] == k);
                    assert forall|j: int| 0 <= j < k + 1
                        && spec_matches_capabilities(
                            &(#[trigger] state.service_groups@[j]).browser, capabilities)
                        && state.service_groups@[j].spec_total_sessions()
                            < state.service_groups@[j].browser.max_sessions
                        implies exists|t: int| 0 <= t < candidates@.len()
                            && (#[trigger] candidates@[t]) == j by {
                        if j < k {
                            let t = choose|t: int| 0 <= t < pre.len() && (#[trigger] pre[t]) == j;
                            assert(candidates@[t] == j);
                        } else {
                            assert(candidates@[candidates@.len() - 1] == j);
                        }
                    }
                }
            }
        }
        proof {
            if matching_any && !(exists|j: int| 0 <= j < k
                && spec_matches_capabilities(
                    &(#[trigger] state.service_groups@[j]).browser, capabilities)) {
                assert(spec_matches_capabilities(
                    &state.service_groups@[k as int].browser, capabilities));
            }
        }
        k += 1;
    }

    if !matching_any {
        return Err(XenonError::RespondWith(XenonResponse::NoMatchingBrowser));
    }
    if candidates.len() == 0 {
        proof {
            assert forall|j: int| 0 <= j < state.service_groups@.len()
                && spec_matches_capabilities(
                    &(#[trigger] state.service_groups@[j]).browser, capabilities)
                implies state.service_groups@[j].spec_total_sessions()
                    >= state.service_groups@[j].browser.max_sessions by {
                if state.service_groups@[j].spec_total_sessions()
                    < state.service_groups@[j].browser.max_sessions {
                    let t = choose|t: int| 0 <= t < candidates@.len()
                        && (#[trigger] candidates@[t]) == j;
                }
            }
        }
        return Err(XenonError::RespondWith(XenonResponse::NoSessionsAvailable));
    }

    // Try the candidate groups in order; remember the first failure.
    let mut first_error: Option<XenonError> = None;
    let ncand = candidates.len();
    let mut ci: usize = 0;
    while ci < ncand
        invariant
            old(state).wf(),
            state.wf(),
            ncand == candidates@.len(),
            ncand > 0,
            ci <= ncand,
            state.sessions@ == old(state).sessions@,
            state.remote_nodes@ == old(state).remote_nodes@,
            state.service_groups@.len() == old(state).service_groups@.len(),
            forall|j: int| 0 <= j < state.service_groups@.len()
                ==> (#[trigger] state.service_groups@[j]).browser
                        == old(state).service_groups@[j].browser
                    && state.service_groups@[j].services@
                        == old(state).service_groups@[j].services@,
            forall|q: ServicePort|
                state.port_manager.is_taken(q) == old(state).port_manager.is_taken(q)
                && state.port_manager.is_available(q) == old(state).port_manager.is_available(q),
            forall|t: int| 0 <= t < candidates@.len()
                ==> (#[trigger] candidates@[t]) < state.service_groups@.len()
                    && spec_matches_capabilities(
                        &old(state).service_groups@[candidates@[t] as int].browser, capabilities)
                    && old(state).service_groups@[candidates@[t] as int].spec_total_sessions()
                        < old(state).service_groups@[candidates@[t] as int].browser.max_sessions,
            forall|j: int| 0 <= j < old(state).service_groups@.len()
                && spec_matches_capabilities(
                    &(#[trigger] old(state).service_groups@[j]).browser, capabilities)
                && old(state).service_groups@[j].spec_total_sessions()
                    < old(state).service_groups@[j].browser.max_sessions
                ==> exists|t: int| 0 <= t < candidates@.len() && (#[trigger] candidates@[t]) == j,
            forall|t: int| 0 <= t < ci
                ==> !old(state).service_groups@[(#[trigger] candidates@[t]) as int].has_slack(),
            ci > 0 ==> first_error is Some,
            first_error matches Some(e) ==> (e is NoSessionsAvailable
                || (e matches XenonError::RespondWith(XenonResponse::NoSessionsAvailable))
                || e is IOError),
        decreases ncand - ci,
    {
        let idx = candidates[ci];
        let ghost snap = *state;
        proof {
            assert forall|q: ServicePort| state.service_groups@[idx as int].has_port(q)
                implies state.port_manager.is_taken(q) by {
                assert(state.spec_some_group_has_port(q));
            }
        }
        let group = &mut state.service_groups[idx];
        match group.get_or_start_service(&mut state.port_manager) {
            Ok(port) => {
                let xsession_id = XenonSessionId::new();
                let ghost reused = snap.service_groups@[idx as int].has_port(port);
                let group2 = &mut state.service_groups[idx];
                group2.add_session_at(port, xsession_id.clone());
                let group_name = state.service_groups[idx].name().clone();
                proof {
                    lemma_group_grow_wf(snap, *state, idx as int, port, xsession_id@, reused);
                    assert(state.service_groups@[idx as int].browser.name@ == group_name@);
                    assert(state.service_groups@[idx as int].has_session_at(port, xsession_id@));
                    assert(spec_matches_capabilities(
                        &state.service_groups@[idx as int].browser, capabilities));
                }
                return Ok((xsession_id, port, group_name));
            },
            Err(e) => {
                proof {
                    assert(!old(state).service_groups@[idx as int].has_slack()) by {
                        assert(snap.service_groups@[idx as int].services@
                            == old(state).service_groups@[idx as int].services@);
                        assert(snap.service_groups@[idx as int].spec_total_sessions()
                            == old(state).service_groups@[idx as int].spec_total_sessions());
                        if old(state).service_groups@[idx as int].has_slack() {
                            let sv = choose|sv: int| 0 <= sv
                                < old(state).service_groups@[idx as int].services@.len()
                                && (#[trigger] old(state).service_groups@[idx as int].services@[sv])
                                    .session_views().len()
                                    < old(state).service_groups@[idx as int].browser.sessions_per_driver;
                            assert(snap.service_groups@[idx as int].services@[sv]
                                == old(state).service_groups@[idx as int].services@[sv]);
                            assert(snap.service_groups@[idx as int].has_slack());
                        }
                    }
                    assert forall|t: int| 0 <= t < ci + 1
                        implies !old(state).service_groups@[(#[trigger] candidates@[t]) as int]
                            .has_slack() by {}
                    lemma_wf_same_views(snap, *state);
                }
                if first_error.is_none() {
                    first_error = Some(e);
                }
            },
        }
        ci += 1;
    }

    proof {
        assert(!(exists|j: int| 0 <= j < old(state).service_groups@.len()
            && spec_matches_capabilities(
                &(#[trigger] old(state).service_groups@[j]).browser, capabilities)
            && old(state).service_groups@[j].spec_total_sessions()
                < old(state).service_groups@[j].browser.max_sessions
            && old(state).service_groups@[j].has_slack())) by {
            if exists|j: int| 0 <= j < old(state).service_groups@.len()
                && spec_matches_capabilities(
                    &(#[trigger] old(state).service_groups@[j]).browser, capabilities)
                && old(state).service_groups@[j].spec_total_sessions()
                    < old(state).service_groups@[j].browser.max_sessions
                && old(state).service_groups@[j].has_slack() {
                let j = choose|j: int| 0 <= j < old(state).service_groups@.len()
                    && spec_matches_capabilities(
                        &(#[trigger] old(state).service_groups@[j]).browser, capabilities)
                    && old(state).service_groups@[j].spec_total_sessions()
                        < old(state).service_groups@[j].browser.max_sessions
                    && old(state).service_groups@[j].has_slack();
                let t = choose|t: int| 0 <= t < candidates@.len() && (#[trigger] candidates@[t]) == j;
                assert(!old(state).service_groups@[candidates@[t] as int].has_slack());
            }
        }
    }
    proof {
        // the first candidate is a matching group below its limit, so the
        // all-at-capacity premise cannot hold here
        let j0 = candidates@[0];
        assert(spec_matches_capabilities(
            &old(state).service_groups@[j0 as int].browser, capabilities)
            && old(state).service_groups@[j0 as int].spec_total_sessions()
                < old(state).service_groups@[j0 as int].browser.max_sessions);
    }
    match first_error {
        Some(e) => Err(e),
        None => Err(XenonError::RespondWith(XenonResponse::NoSessionsAvailable)),
    }
}


/// The index of the first occurrence of `c`, or the string's length.
pub open spec fn first_index_of(s: Seq<char>, c: char) -> int
    decreases s.len(),
{
    if s.len() == 0 {
        0
    } else if s[0] == c {
        0
    } else {
        1 + first_index_of(s.skip(1), c)
    }
}

pub proof fn lemma_first_index_of(s: Seq<char>, c: char)
    ensures
        0 <= first_index_of(s, c) <= s.len(),
        first_index_of(s, c) < s.len() ==> s[first_index_of(s, c)] == c,
        forall|k: int| 0 <= k < first_index_of(s, c) ==> s[k] != c,
    decreases s.len(),
{
    if s.len() == 0 {
    } else if s[0] == c {
    } else {
        lemma_first_index_of(s.skip(1), c);
        let d = first_index_of(s, c);
        assert forall|k: int| 0 <= k < d implies s[k] != c by {
            if k > 0 {
                assert(s.skip(1)[k - 1] == s[k]);
            }
        }
        if d < s.len() {
            assert(s.skip(1)[d - 1] == s[d]);
        }
    }
}

/// The index of the first character that is not a `/`, or the length.
pub open spec fn first_non_slash(s: Seq<char>) -> int
    decreases s.len(),
{
    if s.len() == 0 {
        0
    } else if s[0] != '/' {
        0
    } else {
        1 + first_non_slash(s.skip(1))
    }
}

/// The index of the last character that is not a `/`, or `-1`.
pub open spec fn last_non_slash(s: Seq<char>) -> int
    decreases s.len(),
{
    if s.len() == 0 {
        -1
    } else if s.last() != '/' {
        s.len() - 1
    } else {
        last_non_slash(s.drop_last())
    }
}

/// A path with its surrounding slashes removed, as `trim_matches('/')`
/// leaves it.
pub open spec fn spec_trim_slashes(s: Seq<char>) -> Seq<char> {
    let a = first_non_slash(s);
    let b = last_non_slash(s);
    if a > b {
        Seq::empty()
    } else {
        s.subrange(a, b + 1)
    }
}

proof fn lemma_first_non_slash(s: Seq<char>)
    ensures
        0 <= first_non_slash(s) <= s.len(),
        first_non_slash(s) < s.len() ==> s[first_non_slash(s)] != '/',
        forall|k: int| 0 <= k < first_non_slash(s) ==> s[k] == '/',
    decreases s.len(),
{
    if s.len() == 0 {
    } else if s[0] != '/' {
    } else {
        lemma_first_non_slash(s.skip(1));
        let d = first_non_slash(s);
        assert forall|k: int| 0 <= k < d implies s[k] == '/' by {
            if k > 0 {
                assert(s.skip(1)[k - 1] == s[k]);
            }
        }
        if d < s.len() {
            assert(s.skip(1)[d - 1] == s[d]);
        }
    }
}

proof fn lemma_last_non_slash(s: Seq<char>)
    ensures
        -1 <= last_non_slash(s) < s.len(),
        last_non_slash(s) >= 0 ==> s[last_non_slash(s)] != '/',
        forall|k: int| last_non_slash(s) < k < s.len() ==> s[k] == '/',
    decreases s.len(),
{
    if s.len() == 0 {
    } else if s.last() != '/' {
    } else {
        lemma_last_non_slash(s.drop_last());
        let d = last_non_slash(s);
        assert forall|k: int| d < k < s.len() implies s[k] == '/' by {
            if k < s.len() - 1 {
                assert(s.drop_last()[k] == s[k]);
            }
        }
        if d >= 0 {
            assert(s.drop_last()[d] == s[d]);
        }
    }
}

/// Remove the leading and trailing slashes of a request path.
pub fn trim_slashes(s: &str) -> (r: String)
    ensures
        r@ == spec_trim_slashes(s@),
{
    proof {
        lemma_first_non_slash(s@);
        lemma_last_non_slash(s@);
    }
    let n = s.unicode_len();
    let mut a: usize = 0;
    while a < n && s.get_char(a) == '/'
        invariant
            n == s@.len(),
            a <= n,
            forall|k: int| 0 <= k < a ==> s@[k] == '/',
        decreases n - a,
    {
        a += 1;
    }
    proof {
        assert(a == first_non_slash(s@)) by {
            let f = first_non_slash(s@);
            if f < a {
                assert(s@[f] == '/');
            }
            if f > a {
                assert(a < n);
                assert(s@[a as int] != '/');
            }
        }
    }
    let mut b: usize = n;
    while b > a && s.get_char(b - 1) == '/'
        invariant
            n == s@.len(),
            a <= b <= n,
            forall|k: int| b <= k < n ==> s@[k] == '/',
            forall|k: int| 0 <= k < a ==> s@[k] == '/',
            a == first_non_slash(s@),
        decreases b,
    {
        b -= 1;
    }
    proof {
        let l = last_non_slash(s@);
        if b == a {
            // everything is slashes outside [a, b)
            assert(l < a) by {
                if l >= a {
                    assert(s@[l] == '/');
                }
            }
            assert(spec_trim_slashes(s@) =~= Seq::<char>::empty());
        } else {
            assert(s@[b - 1] != '/');
            assert(l == b - 1) by {
                if l < b - 1 {
                    assert(s@[b - 1] == '/');
                }
                if l > b - 1 {
                    assert(s@[l] == '/');
                }
            }
        }
    }
    let out = s.substring_char(a, b);
    proof {
        assert(out@ =~= spec_trim_slashes(s@));
    }
    out.to_owned()
}

/// A path's segments: the (already trimmed) path split at every `/`.
/// An empty path yields a single empty segment, as `"".split('/')` does.
pub open spec fn spec_split_slash(s: Seq<char>) -> Seq<Seq<char>>
    decreases s.len(),
{
    let d = first_index_of(s, '/');
    if d == s.len() {
        seq![s]
    } else if 0 <= d < s.len() {
        seq![s.take(d)] + spec_split_slash(s.skip(d + 1))
    } else {
        seq![s]
    }
}

/// Split a request path into its segments: surrounding slashes are removed
/// first, then the remainder is split at every `/`.
pub fn split_path(path: &str) -> (r: Vec<String>)
    ensures
        r.deep_view() == spec_split_slash(spec_trim_slashes(path@)),
        r@.len() >= 1,
{
    let trimmed = trim_slashes(path);
    let ghost whole = trimmed@;
    let mut out: Vec<String> = Vec::new();
    let mut rest: String = trimmed;
    let mut done = false;
    while !done
        invariant
            !done ==> out.deep_view() + spec_split_slash(rest@) == spec_split_slash(whole),
            done ==> out.deep_view() == spec_split_slash(whole) && out@.len() >= 1,
        decreases (if done { 0int } else { rest@.len() as int + 1 }),
    {
        proof {
            lemma_first_index_of(rest@, '/');
        }
        let n = rest.as_str().unicode_len();
        match crate::strutil::find_char(rest.as_str(), '/') {
            Some(d) => {
                proof {
                    let f = first_index_of(rest@, '/');
                    assert(f == d) by {
                        if f < d {
                            assert(rest@[f] == '/');
                        }
                        if f > d {
                            assert(rest@[d as int] == '/');
                        }
                    }
                }
                let seg = rest.as_str().substring_char(0, d).to_owned();
                let next = rest.as_str().substring_char(d + 1, n).to_owned();
                let ghost pre = out.deep_view();
                let ghost old_rest = rest@;
                out.push(seg);
                proof {
                    assert(seg@ =~= old_rest.take(d as int));
                    assert(next@ =~= old_rest.skip(d + 1));
                    assert(out.deep_view() =~= pre.push(old_rest.take(d as int)));
                    assert(spec_split_slash(old_rest)
                        == seq![old_rest.take(d as int)] + spec_split_slash(old_rest.skip(d + 1)));
                    assert(out.deep_view() + spec_split_slash(next@) =~= spec_split_slash(whole)) by {
                        assert(pre + (seq![old_rest.take(d as int)] + spec_split_slash(old_rest.skip(d + 1)))
                            =~= (pre.push(old_rest.take(d as int))) + spec_split_slash(old_rest.skip(d + 1)));
                    }
                }
                rest = next;
            },
            None => {
                proof {
                    let f = first_index_of(rest@, '/');
                    if f < rest@.len() {
                        assert(rest@[f] == '/');
                    }
                    assert(spec_split_slash(rest@) == seq![rest@]);
                }
                let ghost pre = out.deep_view();
                out.push(rest.clone());
                proof {
                    assert(out.deep_view() =~= pre.push(rest@));
                    assert(pre.push(rest@) =~= pre + seq![rest@]);
                    assert(out.deep_view() =~= spec_split_slash(whole));
                }
                done = true;
            },
        }
    }
    proof {
        assert(out.deep_view().len() == out@.len());
    }
    out
}

/// Join path segments with `/`, from the given position on.
pub open spec fn spec_join_slash(parts: Seq<Seq<char>>) -> Seq<char>
    decreases parts.len(),
{
    if parts.len() == 0 {
        Seq::empty()
    } else if parts.len() == 1 {
        parts[0]
    } else {
        parts[0] + seq!['/'] + spec_join_slash(parts.skip(1))
    }
}

/// Join the segments from index `from` on with `/` between them.
pub fn join_slash(parts: &Vec<String>, from: usize) -> (r: String)
    requires
        from <= parts@.len(),
    ensures
        r@ == spec_join_slash(parts.deep_view().skip(from as int)),
    decreases parts@.len() - from,
{
    if from >= parts.len() {
        proof {
            assert(parts.deep_view().skip(from as int) =~= Seq::<Seq<char>>::empty());
        }
        String::new()
    } else if from + 1 == parts.len() {
        proof {
            assert(parts.deep_view().skip(from as int).len() == 1);
            assert(parts.deep_view().skip(from as int)[0] == parts@[from as int]@);
        }
        parts[from].clone()
    } else {
        let mut out = parts[from].clone();
        out.append("/");
        let tail = join_slash(parts, from + 1);
        out.append(tail.as_str());
        proof {
            let dv = parts.deep_view();
            assert(dv.skip(from as int)[0] == dv[from as int]);
            assert(dv.skip(from as int).skip(1) =~= dv.skip(from + 1));
            assert(out@ =~= spec_join_slash(dv.skip(from as int))) by {
                reveal_strlit("/");
                assert(out@ =~= dv[from as int] + seq!['/'] + spec_join_slash(dv.skip(from + 1)));
            }
        }
        out
    }
}

/// Where a request goes, by the first segment of its path.
#[derive(Clone, Copy, PartialEq, Eq, Structural, Debug)]
pub enum Route {
    /// The bare root: a trivial OK placeholder.
    Root,
    /// The `/session` tree.
    Session,
    /// The `/wd` tree: the `/session` tree with selenium compatibility on.
    SessionCompat,
    /// The `/node` management tree.
    Node,
    /// The static `/status` endpoint.
    Status,
    /// Anything else.
    NotFound,
}

pub open spec fn spec_route(seg: Seq<char>) -> Route {
    if seg.len() == 0 {
        Route::Root
    } else if seg == "session"@ {
        Route::Session
    } else if seg == "wd"@ {
        Route::SessionCompat
    } else if seg == "node"@ {
        Route::Node
    } else if seg == "status"@ {
        Route::Status
    } else {
        Route::NotFound
    }
}

/// Classify a request by the first segment of its path.
pub fn route_top_level(first_segment: &String) -> (r: Route)
    ensures
        r == spec_route(first_segment@),
{
    if first_segment.as_str().is_empty() {
        Route::Root
    } else if crate::strutil::str_eq(first_segment.as_str(), "session") {
        Route::Session
    } else if crate::strutil::str_eq(first_segment.as_str(), "wd") {
        Route::SessionCompat
    } else if crate::strutil::str_eq(first_segment.as_str(), "node") {
        Route::Node
    } else if crate::strutil::str_eq(first_segment.as_str(), "status") {
        Route::Status
    } else {
        Route::NotFound
    }
}

/// Mimic selenium by dropping a leading `wd/hub` from the segments.
pub fn strip_selenium_prefix(path_elements: Vec<String>) -> (r: Vec<String>)
    ensures
        r.deep_view() == (if path_elements.deep_view().len() > 2
            && path_elements.deep_view()[0] == "wd"@
            && path_elements.deep_view()[1] == "hub"@ {
            path_elements.deep_view().skip(2)
        } else {
            path_elements.deep_view()
        }),
{
    if path_elements.len() > 2
        && crate::strutil::str_eq(path_elements[0].as_str(), "wd")
        && crate::strutil::str_eq(path_elements[1].as_str(), "hub")
    {
        let mut out: Vec<String> = Vec::new();
        let n = path_elements.len();
        let mut i: usize = 2;
        while i < n
            invariant
                n == path_elements@.len(),
                n > 2,
                2 <= i <= n,
                out.deep_view() =~= path_elements.deep_view().subrange(2, i as int),
            decreases n - i,
        {
            let c = path_elements[i].clone();
            let ghost pre_dv = out.deep_view();
            proof {
                assert(c@ == path_elements@[i as int]@);
            }
            out.push(c);
            proof {
                assert(out.deep_view() =~= pre_dv.push(path_elements.deep_view()[i as int]));
                assert(out.deep_view() =~= path_elements.deep_view().subrange(2, i + 1));
            }
            i += 1;
        }
        proof {
            assert(path_elements.deep_view().subrange(2, n as int)
                =~= path_elements.deep_view().skip(2));
        }
        out
    } else {
        path_elements
    }
}

/// What a request under the `/session` tree means.
#[derive(Debug)]
pub enum SessionRoute {
    /// `POST /session`: create a session.
    CreateSession,
    /// A bad method on `/session`; the payload is the joined path.
    MethodNotFound(String),
    /// A per-session request to forward: the id from the path, the trailing
    /// path to append, and whether this is a terminal delete.
    Forward { xsession_id: XenonSessionId, remaining_path: String, is_delete: bool },
}

/// Classify a request under the `/session` tree (after any `wd/hub` strip).
/// The method is the HTTP method's name, e.g. `"POST"`.
pub fn session_route(path_elements: &Vec<String>, method: &String) -> (r: SessionRoute)
    requires
        path_elements@.len() >= 1,
    ensures
        path_elements@.len() == 1 && method@ == "POST"@
            ==> r is CreateSession,
        path_elements@.len() == 1 && method@ != "POST"@
            ==> (r matches SessionRoute::MethodNotFound(m)
                && m@ == spec_join_slash(path_elements.deep_view())),
        path_elements@.len() >= 2 ==> (r matches SessionRoute::Forward { xsession_id, remaining_path, is_delete } ==> {
            &&& xsession_id@ == path_elements@[1]@
            &&& remaining_path@ == spec_join_slash(path_elements.deep_view().skip(2))
            &&& is_delete == (path_elements@.len() == 2
                && path_elements@[0]@ == "session"@ && method@ == "DELETE"@)
        }),
        path_elements@.len() >= 2 ==> r is Forward,
{
    if path_elements.len() == 1 {
        if crate::strutil::str_eq(method.as_str(), "POST") {
            SessionRoute::CreateSession
        } else {
            SessionRoute::MethodNotFound(join_slash(path_elements, 0))
        }
    } else {
        let xsession_id = XenonSessionId::from_string(path_elements[1].clone());
        let is_delete = path_elements.len() == 2
            && crate::strutil::str_eq(path_elements[0].as_str(), "session")
            && crate::strutil::str_eq(method.as_str(), "DELETE");
        let remaining_path = join_slash(path_elements, 2);
        SessionRoute::Forward { xsession_id, remaining_path, is_delete }
    }
}

/// What a request under the `/node` tree means.
#[derive(Debug)]
pub enum NodeRoute {
    /// `GET /node/config`: report this instance's inventory.
    Config,
    /// `POST /node/register`.
    Register,
    /// `POST /node/update`.
    Update,
    /// `POST /node/deregister`.
    Deregister,
    /// Anything else; the payload is the joined path.
    NotFound(String),
}

/// Classify a request under the `/node` tree.
pub fn node_route(path_elements: &Vec<String>, method: &String) -> (r: NodeRoute)
    ensures
        path_elements@.len() >= 2 && path_elements@[1]@ == "config"@ && method@ == "GET"@
            ==> r is Config,
        path_elements@.len() >= 2 && path_elements@[1]@ == "register"@ && method@ == "POST"@
            ==> r is Register,
        path_elements@.len() >= 2 && path_elements@[1]@ == "update"@ && method@ == "POST"@
            ==> r is Update,
        path_elements@.len() >= 2 && path_elements@[1]@ == "deregister"@ && method@ == "POST"@
            ==> r is Deregister,
        (path_elements@.len() < 2
            || !((path_elements@[1]@ == "config"@ && method@ == "GET"@)
                || (path_elements@[1]@ == "register"@ && method@ == "POST"@)
                || (path_elements@[1]@ == "update"@ && method@ == "POST"@)
                || (path_elements@[1]@ == "deregister"@ && method@ == "POST"@)))
            ==> (r matches NodeRoute::NotFound(m)
                && m@ == spec_join_slash(path_elements.deep_view())),
{
    proof {
        reveal_strlit("config");
        reveal_strlit("register");
        reveal_strlit("update");
        reveal_strlit("deregister");
        reveal_strlit("GET");
        reveal_strlit("POST");
        assert("config"@.len() == 6);
        assert("register"@.len() == 8);
        assert("update"@.len() == 6);
        assert("deregister"@.len() == 10);
        assert("GET"@.len() == 3);
        assert("POST"@.len() == 4);
        assert("config"@ != "update"@) by {
            assert("config"@[0] == 'c' && "update"@[0] == 'u');
        }
        assert("config"@ != "register"@);
        assert("GET"@ != "POST"@);
        assert("register"@ != "update"@);
        assert("register"@ != "deregister"@);
        assert("update"@ != "deregister"@);
    }
    if path_elements.len() < 2 {
        return NodeRoute::NotFound(join_slash(path_elements, 0));
    }
    let endpoint = &path_elements[1];
    if crate::strutil::str_eq(endpoint.as_str(), "config")
        && crate::strutil::str_eq(method.as_str(), "GET") {
        NodeRoute::Config
    } else if crate::strutil::str_eq(endpoint.as_str(), "register")
        && crate::strutil::str_eq(method.as_str(), "POST") {
        NodeRoute::Register
    } else if crate::strutil::str_eq(endpoint.as_str(), "update")
        && crate::strutil::str_eq(method.as_str(), "POST") {
        NodeRoute::Update
    } else if crate::strutil::str_eq(endpoint.as_str(), "deregister")
        && crate::strutil::str_eq(method.as_str(), "POST") {
        NodeRoute::Deregister
    } else {
        NodeRoute::NotFound(join_slash(path_elements, 0))
    }
}

/// After a local create-session attempt failed, decide whether remote nodes
/// should be tried: only a local "no matching browser" or "no sessions
/// available" falls through to federation.
pub fn should_try_remote(local_error: &XenonError) -> (r: bool)
    ensures
        r == ((local_error matches XenonError::RespondWith(XenonResponse::NoSessionsAvailable))
            || (local_error matches XenonError::RespondWith(XenonResponse::NoMatchingBrowser))),
{
    match local_error {
        XenonError::RespondWith(XenonResponse::NoSessionsAvailable) => true,
        XenonError::RespondWith(XenonResponse::NoMatchingBrowser) => true,
        _ => false,
    }
}

/// When both the local and the remote attempt failed, pick the error the
/// client sees: local capacity pressure dominates a remote "no matching
/// browser"; otherwise the remote verdict stands.
pub fn combine_create_errors(local_error: XenonError, remote_error: XenonError) -> (r: XenonError)
    ensures
        ((local_error matches XenonError::RespondWith(XenonResponse::NoSessionsAvailable))
            && (remote_error matches XenonError::RespondWith(XenonResponse::NoMatchingBrowser)))
            ==> (r matches XenonError::RespondWith(XenonResponse::NoSessionsAvailable)),
        !((local_error matches XenonError::RespondWith(XenonResponse::NoSessionsAvailable))
            && (remote_error matches XenonError::RespondWith(XenonResponse::NoMatchingBrowser)))
            ==> r == remote_error,
{
    let local_no_sessions = matches!(local_error, XenonError::RespondWith(XenonResponse::NoSessionsAvailable));
    let remote_no_match = matches!(remote_error, XenonError::RespondWith(XenonResponse::NoMatchingBrowser));
    if local_no_sessions && remote_no_match {
        local_error
    } else {
        remote_error
    }
}

/// When every remote attempt failed, the verdict depends on whether any node
/// matched the capabilities at all: capacity pressure if one did, otherwise
/// no matching browser.
pub fn remote_failure_error(matched_caps: bool) -> (r: XenonError)
    ensures
        matched_caps ==> (r matches XenonError::RespondWith(XenonResponse::NoSessionsAvailable)),
        !matched_caps ==> (r matches XenonError::RespondWith(XenonResponse::NoMatchingBrowser)),
{
    if matched_caps {
        XenonError::RespondWith(XenonResponse::NoSessionsAvailable)
    } else {
        XenonError::RespondWith(XenonResponse::NoMatchingBrowser)
    }
}

} // verus!
