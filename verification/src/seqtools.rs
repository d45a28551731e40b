//! Small sequence lemmas shared by the state-carrying modules.

use vstd::prelude::*;

verus! {

/// Removing index `i` from a duplicate-free sequence removes exactly the
/// element at `i` from the set of members.
pub proof fn lemma_remove_contains<A>(s: Seq<A>, i: int, x: A)
    requires
        0 <= i < s.len(),
        s.no_duplicates(),
    ensures
        s.remove(i).contains(x) <==> (s.contains(x) && x != s[i]),
{
    let r = s.remove(i);
    if r.contains(x) {
        let k = choose|k: int| 0 <= k < r.len() && r[k] == x;
        if k < i {
            assert(s[k] == x);
        } else {
            assert(s[k + 1] == x);
        }
        assert(s.contains(x));
        assert(x != s[i]) by {
            if k < i {
                assert(s[k] == x);
            } else {
                assert(s[k + 1] == x);
            }
        }
    }
    if s.contains(x) && x != s[i] {
        let k = choose|k: int| 0 <= k < s.len() && s[k] == x;
        if k < i {
            assert(r[k] == x);
        } else {
            assert(k > i);
            assert(r[k - 1] == x);
        }
        assert(r.contains(x));
    }
}

/// Removing an index keeps a sequence duplicate-free.
pub proof fn lemma_remove_no_duplicates<A>(s: Seq<A>, i: int)
    requires
        0 <= i < s.len(),
        s.no_duplicates(),
    ensures
        s.remove(i).no_duplicates(),
{
    let r = s.remove(i);
    assert forall|p: int, q: int| 0 <= p < q < r.len() implies r[p] != r[q] by {
        let p2: int = if p < i { p } else { p + 1 };
        let q2: int = if q < i { q } else { q + 1 };
        assert(r[p] == s[p2]);
        assert(r[q] == s[q2]);
    }
}

/// Pushing a fresh element keeps a sequence duplicate-free.
pub proof fn lemma_push_no_duplicates<A>(s: Seq<A>, x: A)
    requires
        s.no_duplicates(),
        !s.contains(x),
    ensures
        s.push(x).no_duplicates(),
{
    let r = s.push(x);
    assert forall|p: int, q: int| 0 <= p < q < r.len() implies r[p] != r[q] by {
        if q == s.len() {
            assert(r[p] == s[p]);
            assert(s.contains(s[p]));
        } else {
            assert(r[p] == s[p]);
            assert(r[q] == s[q]);
        }
    }
}

} // verus!
