//! The properties the session-lifecycle engine guarantees, stated and
//! proved once over the state model: the session-count bounds, the port
//! accounting, the backing of every local session, and the monotonicity of
//! federated node updates.

use vstd::prelude::*;
use crate::portmanager::ServicePort;
use crate::service::ServiceGroup;
use crate::session::{last_colon, spec_authority_port, lemma_last_colon};
use crate::strutil::{all_digits, dec_value, dec_str_of, digit_char, digit_val, is_digit};
use crate::state::{
    XenonState, NodeView, NodeUpdView, spec_apply_update, first_node_index,
    lemma_first_node_index,
};

verus! {

broadcast use vstd::seq_lib::group_seq_properties;

/// The sessions attached across a sequence of service groups.
pub open spec fn sum_group_sessions(gs: Seq<ServiceGroup>) -> int
    decreases gs.len(),
{
    if gs.len() == 0 {
        0
    } else {
        sum_group_sessions(gs.drop_last()) + gs.last().spec_total_sessions()
    }
}

/// The session budget across a sequence of service groups.
pub open spec fn sum_max_sessions(gs: Seq<ServiceGroup>) -> int
    decreases gs.len(),
{
    if gs.len() == 0 {
        0
    } else {
        sum_max_sessions(gs.drop_last()) + gs.last().browser.max_sessions
    }
}

/// In a well-formed state, the sessions attached across all service groups
/// never exceed the summed `max_sessions` budget of the configured browsers.
pub proof fn lemma_total_sessions_bounded(s: &XenonState)
    requires
        s.wf(),
    ensures
        sum_group_sessions(s.service_groups@) <= sum_max_sessions(s.service_groups@),
{
    lemma_sum_groups_le(s.service_groups@);
}

proof fn lemma_sum_groups_le(gs: Seq<ServiceGroup>)
    requires
        forall|k: int| 0 <= k < gs.len() ==> (#[trigger] gs[k]).wf(),
    ensures
        sum_group_sessions(gs) <= sum_max_sessions(gs),
    decreases gs.len(),
{
    if gs.len() > 0 {
        assert forall|k: int| 0 <= k < gs.drop_last().len()
            implies (#[trigger] gs.drop_last()[k]).wf() by {
            assert(gs.drop_last()[k] == gs[k]);
        }
        lemma_sum_groups_le(gs.drop_last());
        assert(gs.last().wf());
        assert(gs.last().spec_total_sessions() <= gs.last().browser.max_sessions);
    }
}

/// In a well-formed state, no service carries more sessions than its
/// browser's `sessions_per_driver` limit.
pub proof fn lemma_sessions_per_driver_bounded(s: &XenonState, gi: int, si: int)
    requires
        s.wf(),
        0 <= gi < s.service_groups@.len(),
        0 <= si < s.service_groups@[gi].services@.len(),
    ensures
        s.service_groups@[gi].services@[si].session_views().len()
            <= s.service_groups@[gi].browser.sessions_per_driver,
{
    assert(s.service_groups@[gi].wf());
}

/// In a well-formed state, a port is marked `Taken` exactly while some
/// service group owns a service bound to it.
pub proof fn lemma_port_taken_iff_owned(s: &XenonState, p: ServicePort)
    requires
        s.wf(),
    ensures
        s.port_manager.is_taken(p) <==> s.spec_some_group_has_port(p),
{
}

/// In a well-formed state, every session of the table either names a
/// service group that exists and whose service at the session's port holds
/// the session id, or is a remote session with no local backend.
pub proof fn lemma_sessions_backed(s: &XenonState, k: int)
    requires
        s.wf(),
        0 <= k < s.sessions@.len(),
    ensures
        s.spec_entry_backed(k),
{
}

/// Replacing the node at `i` with one carrying the same id does not move
/// the first index of any id.
proof fn lemma_first_index_stable(s: Seq<NodeView>, i: int, v: NodeView, id: Seq<char>)
    requires
        0 <= i < s.len(),
        v.id == s[i].id,
    ensures
        first_node_index(s.update(i, v), id) == first_node_index(s, id),
    decreases s.len(),
{
    let t = s.update(i, v);
    if i == 0 {
        if s[0].id == id {
            assert(t[0].id == id);
        } else {
            assert(t[0].id == s[0].id);
            assert(t.skip(1) =~= s.skip(1));
        }
    } else {
        assert(t[0] == s[0]);
        assert(t.skip(1) =~= s.skip(1).update(i - 1, v));
        assert(s.skip(1)[i - 1] == s[i]);
        lemma_first_index_stable(s.skip(1), i - 1, v, id);
    }
}

/// Monotonic federation: two updates for the same node with generation
/// counters `a < b` leave the same stored state whatever order they arrive
/// in; and whenever `b` is applicable at all, the stored state is `b`'s.
pub proof fn lemma_node_update_monotonic(nodes: Seq<NodeView>, a: NodeUpdView, b: NodeUpdView)
    requires
        a.id == b.id,
        a.comms_id < b.comms_id,
    ensures
        spec_apply_update(spec_apply_update(nodes, a), b)
            == spec_apply_update(spec_apply_update(nodes, b), a),
        ({
            let i = first_node_index(nodes, b.id);
            i < nodes.len() && b.comms_id > nodes[i].comms_id
                && crate::nodes::spec_parse_url(b.url) is Some
                ==> {
                    let r = spec_apply_update(spec_apply_update(nodes, a), b);
                    &&& r[i].comms_id == b.comms_id
                    &&& r[i].groups == b.groups
                    &&& r[i].name == b.name
                    &&& r[i].url == b.url
                }
        }),
{
    lemma_first_node_index(nodes, a.id);
    let i = first_node_index(nodes, a.id);
    if i == nodes.len() {
        assert(spec_apply_update(nodes, a) == nodes);
        assert(spec_apply_update(nodes, b) == nodes);
    } else {
        let c = nodes[i].comms_id;
        let va = crate::nodes::spec_parse_url(a.url) is Some;
        let vb = crate::nodes::spec_parse_url(b.url) is Some;
        if a.comms_id > c && va {
            let na = NodeView {
                id: nodes[i].id,
                name: a.name,
                url: a.url,
                comms_id: a.comms_id,
                groups: a.groups,
                scheme: (crate::nodes::spec_parse_url(a.url)->0).0,
                authority: (crate::nodes::spec_parse_url(a.url)->0).1,
            };
            let na_applied = nodes.update(i, na);
            assert(spec_apply_update(nodes, a) == na_applied);
            lemma_first_index_stable(nodes, i, na, b.id);
            assert(first_node_index(na_applied, b.id) == i);
            assert(na_applied[i].comms_id == a.comms_id);
            if vb {
                // b overwrites a's state, in either order
                let nb1 = NodeView {
                    id: na_applied[i].id,
                    name: b.name,
                    url: b.url,
                    comms_id: b.comms_id,
                    groups: b.groups,
                    scheme: (crate::nodes::spec_parse_url(b.url)->0).0,
                    authority: (crate::nodes::spec_parse_url(b.url)->0).1,
                };
                assert(spec_apply_update(na_applied, b) == na_applied.update(i, nb1));
                let nb2 = NodeView {
                    id: nodes[i].id,
                    name: b.name,
                    url: b.url,
                    comms_id: b.comms_id,
                    groups: b.groups,
                    scheme: (crate::nodes::spec_parse_url(b.url)->0).0,
                    authority: (crate::nodes::spec_parse_url(b.url)->0).1,
                };
                assert(spec_apply_update(nodes, b) == nodes.update(i, nb2));
                lemma_first_index_stable(nodes, i, nb2, a.id);
                assert(spec_apply_update(nodes.update(i, nb2), a) == nodes.update(i, nb2));
                assert(na_applied[i].id == nodes[i].id);
                assert(nb1 == nb2);
                assert(na_applied.update(i, nb1) =~= nodes.update(i, nb2));
            } else {
                // b cannot be applied: a's state stands, in either order
                assert(spec_apply_update(na_applied, b) == na_applied);
                assert(spec_apply_update(nodes, b) == nodes);
                assert(spec_apply_update(nodes, a) == na_applied);
            }
        } else {
            // a is not applicable now, and cannot overwrite b later either
            assert(spec_apply_update(nodes, a) == nodes);
            if b.comms_id > c && vb {
                let nb = NodeView {
                    id: nodes[i].id,
                    name: b.name,
                    url: b.url,
                    comms_id: b.comms_id,
                    groups: b.groups,
                    scheme: (crate::nodes::spec_parse_url(b.url)->0).0,
                    authority: (crate::nodes::spec_parse_url(b.url)->0).1,
                };
                assert(spec_apply_update(nodes, b) == nodes.update(i, nb));
                lemma_first_index_stable(nodes, i, nb, a.id);
                assert(nodes.update(i, nb)[i].comms_id == b.comms_id);
                assert(spec_apply_update(nodes.update(i, nb), a) == nodes.update(i, nb));
            } else {
                assert(spec_apply_update(nodes, b) == nodes);
            }
        }
    }
}


/// Rendering a number in decimal and reading the digits back gives the
/// number again.
proof fn lemma_dec_str_roundtrip(n: int)
    requires
        0 <= n,
    ensures
        all_digits(dec_str_of(n)),
        dec_str_of(n).len() > 0,
        dec_value(dec_str_of(n)) == n,
    decreases n,
{
    if n < 10 {
        let s = dec_str_of(n);
        assert(s.len() == 1);
        assert(s.drop_last() =~= Seq::<char>::empty());
        assert(s.last() == digit_char(n));
        assert(digit_val(digit_char(n)) == n);
        assert(dec_value(s) == dec_value(s.drop_last()) * 10 + digit_val(s.last()));
        assert(dec_value(s.drop_last()) == 0);
    } else {
        lemma_dec_str_roundtrip(n / 10);
        let s = dec_str_of(n);
        let p = dec_str_of(n / 10);
        assert(s == p.push(digit_char(n % 10)));
        assert(s.drop_last() =~= p);
        assert(s.last() == digit_char(n % 10));
        assert(all_digits(s)) by {
            assert(forall|i: int| 0 <= i < p.len() ==> s[i] == #[trigger] p[i]);
        }
        assert(dec_value(s) == dec_value(p) * 10 + digit_val(digit_char(n % 10)));
        assert(digit_val(digit_char(n % 10)) == n % 10);
        assert(n / 10 * 10 + n % 10 == n);
    }
}

/// The authority the server builds for a local backend, `localhost:<port>`,
/// always reads back as exactly that port, so creating a local session
/// never fails on the authority.
pub proof fn lemma_local_authority_port(port: u16)
    ensures
        spec_authority_port("localhost:"@ + dec_str_of(port as int)) == Some(port),
{
    reveal_strlit("localhost:");
    let prefix = "localhost:"@;
    let digits = dec_str_of(port as int);
    let s = prefix + digits;
    lemma_dec_str_roundtrip(port as int);
    assert(prefix.len() == 10);
    assert(prefix[9] == ':');
    assert forall|k: int| 0 <= k < digits.len() implies #[trigger] s[k + 10] != ':' by {
        assert(s[k + 10] == digits[k]);
        assert(is_digit(digits[k]));
    }
    lemma_last_colon(s);
    let c = last_colon(s);
    assert(c == 9) by {
        if c < 9 {
            assert(s[9] == ':');
        }
        if c > 9 {
            assert(s[c] == ':');
            assert(s[(c - 10) + 10] != ':');
        }
    }
    assert(s.skip(10) =~= digits);
    assert(dec_value(digits) == port as int);
}

} // verus!
