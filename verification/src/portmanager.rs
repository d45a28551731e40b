//! Port arbitration: a pool of TCP ports handed out to spawned WebDriver
//! services and reclaimed when a service terminates.

use vstd::prelude::*;
use crate::seqtools::{lemma_remove_contains, lemma_remove_no_duplicates, lemma_push_no_duplicates};

verus! {

broadcast use vstd::seq_lib::group_seq_properties;

pub type ServicePort = u16;

/// The state of one port of the pool.
#[derive(Clone, Copy, PartialEq, Eq, Structural, Debug)]
pub enum PortStatus {
    Available,
    Taken,
}

/// Owns the pool of ports that WebDriver services may bind to. Every port is
/// either `Available` or `Taken`; a `Taken` port is owned by exactly one
/// running service.
pub struct PortManager {
    pub available: Vec<ServicePort>,
    pub taken: Vec<ServicePort>,
}

impl PortManager {
    /// A port that can still be handed out.
    pub open spec fn is_available(&self, port: ServicePort) -> bool {
        self.available@.contains(port)
    }

    /// A port currently owned by some service.
    pub open spec fn is_taken(&self, port: ServicePort) -> bool {
        self.taken@.contains(port)
    }

    /// A port that belongs to the pool at all.
    pub open spec fn in_pool(&self, port: ServicePort) -> bool {
        self.is_available(port) || self.is_taken(port)
    }

    pub open spec fn wf(&self) -> bool {
        &&& self.available@.no_duplicates()
        &&& self.taken@.no_duplicates()
        &&& forall|p: ServicePort| #[trigger] self.taken@.contains(p) ==> !self.available@.contains(p)
    }

    /// Build the pool from an explicit port list; duplicates collapse into a
    /// single pool entry. Every port starts out `Available`.
    pub fn from_port_list(ports: &Vec<ServicePort>) -> (r: Self)
        ensures
            r.wf(),
            forall|p: ServicePort| r.is_available(p) == ports@.contains(p),
            forall|p: ServicePort| !r.is_taken(p),
    {
        let mut available: Vec<ServicePort> = Vec::new();
        let n = ports.len();
        let mut i: usize = 0;
        while i < n
            invariant
                n == ports@.len(),
                i <= n,
                available@.no_duplicates(),
                forall|p: ServicePort| available@.contains(p) == ports@.take(i as int).contains(p),
            decreases n - i,
        {
            let p = ports[i];
            if !contains_port(&available, p) {
                available.push(p);
            }
            proof {
                assert(ports@.take(i + 1) =~= ports@.take(i as int).push(ports@[i as int]));
            }
            i += 1;
        }
        proof {
            assert(ports@.take(n as int) =~= ports@);
        }
        Self { available, taken: Vec::new() }
    }

    /// Build the pool from the configured port ranges. Every port starts
    /// out `Available`.
    pub fn new(config: &crate::config::XenonConfig) -> (r: Self)
        ensures
            r.wf(),
            forall|p: ServicePort| r.is_available(p)
                == crate::config::spec_port_list(config.ports.deep_view()).contains(p),
            forall|p: ServicePort| !r.is_taken(p),
    {
        let port_list = config.get_port_list();
        Self::from_port_list(&port_list)
    }

    /// Hand out any currently `Available` port and mark it `Taken`.
    /// Returns `None` exactly when the pool has no available port.
    pub fn lock_next_port(&mut self) -> (r: Option<ServicePort>)
        requires
            old(self).wf(),
        ensures
            final(self).wf(),
            match r {
                Some(p) => {
                    &&& old(self).is_available(p)
                    &&& final(self).is_taken(p)
                    &&& !final(self).is_available(p)
                    &&& forall|q: ServicePort| q != p ==> final(self).is_available(q) == old(self).is_available(q)
                    &&& forall|q: ServicePort| q != p ==> final(self).is_taken(q) == old(self).is_taken(q)
                },
                None => {
                    &&& final(self).available@ == old(self).available@
                    &&& final(self).taken@ == old(self).taken@
                    &&& forall|q: ServicePort| !old(self).is_available(q)
                },
            },
    {
        let ghost pre = self.available@;
        match self.available.pop() {
            Some(p) => {
                proof {
                    assert(pre =~= self.available@.push(p));
                    assert(pre.contains(p));
                    assert(!self.available@.contains(p)) by {
                        if self.available@.contains(p) {
                            let k = choose|k: int| 0 <= k < self.available@.len() && self.available@[k] == p;
                            assert(pre[k] == pre[pre.len() - 1]);
                        }
                    }
                    assert(self.available@.no_duplicates()) by {
                        assert forall|a: int, b: int| 0 <= a < b < self.available@.len() implies self.available@[a] != self.available@[b] by {
                            assert(pre[a] == self.available@[a]);
                            assert(pre[b] == self.available@[b]);
                        }
                    }
                    assert(!self.taken@.contains(p));
                }
                let ghost pre_taken = self.taken@;
                self.taken.push(p);
                proof {
                    lemma_push_no_duplicates(pre_taken, p);
                    assert forall|q: ServicePort| #[trigger] self.taken@.contains(q) implies !self.available@.contains(q) by {
                        assert(q == p || pre_taken.contains(q));
                        if pre_taken.contains(q) {
                            assert(!pre.contains(q) || false) by {
                                assert(old(self).taken@.contains(q));
                            }
                            assert(!self.available@.contains(q)) by {
                                if self.available@.contains(q) {
                                    assert(pre.contains(q));
                                }
                            }
                        }
                    }
                    assert(self.taken@.contains(p));
                }
                Some(p)
            },
            None => {
                proof {
                    assert(pre.len() == 0);
                }
                None
            },
        }
    }

    /// Mark a `Taken` port `Available` again. A port that is not `Taken`
    /// (already available, or not of the pool at all) is left untouched.
    pub fn unlock_port(&mut self, port: ServicePort)
        requires
            old(self).wf(),
        ensures
            final(self).wf(),
            !final(self).is_taken(port),
            final(self).is_available(port) == old(self).in_pool(port),
            forall|q: ServicePort| q != port ==> final(self).is_available(q) == old(self).is_available(q),
            forall|q: ServicePort| q != port ==> final(self).is_taken(q) == old(self).is_taken(q),
    {
        match find_port(&self.taken, port) {
            Some(i) => {
                let ghost pre = self.taken@;
                self.taken.remove(i);
                proof {
                    assert(pre[i as int] == port);
                    assert(pre.contains(port));
                    lemma_remove_no_duplicates(pre, i as int);
                    assert forall|q: ServicePort| #[trigger] self.taken@.contains(q) == (pre.contains(q) && q != port) by {
                        lemma_remove_contains(pre, i as int, q);
                    }
                    assert(!self.available@.contains(port));
                }
                let ghost pre_avail = self.available@;
                self.available.push(port);
                proof {
                    lemma_push_no_duplicates(pre_avail, port);
                    assert(self.available@.contains(port));
                    assert forall|q: ServicePort| #[trigger] self.taken@.contains(q) implies !self.available@.contains(q) by {
                        assert(pre.contains(q) && q != port);
                        assert(old(self).taken@.contains(q));
                        assert(!pre_avail.contains(q));
                        assert(!self.available@.contains(q)) by {
                            if self.available@.contains(q) {
                                assert(pre_avail.contains(q) || q == port);
                            }
                        }
                    }
                }
            },
            None => {},
        }
    }

    /// The current status of a port, or `None` for a port outside the pool.
    pub fn status(&self, port: ServicePort) -> (r: Option<PortStatus>)
        requires
            self.wf(),
        ensures
            r == Some(PortStatus::Available) <==> self.is_available(port),
            r == Some(PortStatus::Taken) <==> self.is_taken(port),
            r is None <==> !self.in_pool(port),
    {
        if contains_port(&self.available, port) {
            Some(PortStatus::Available)
        } else if contains_port(&self.taken, port) {
            Some(PortStatus::Taken)
        } else {
            None
        }
    }
}

/// Whether a port occurs in a vector of ports.
pub fn contains_port(v: &Vec<ServicePort>, x: ServicePort) -> (r: bool)
    ensures
        r == v@.contains(x),
{
    let mut i: usize = 0;
    let n = v.len();
    while i < n
        invariant
            n == v@.len(),
            i <= n,
            forall|k: int| 0 <= k < i ==> v@[k] != x,
        decreases n - i,
    {
        if v[i] == x {
            return true;
        }
        i += 1;
    }
    proof {
        if v@.contains(x) {
            let k = choose|k: int| 0 <= k < v@.len() && v@[k] == x;
        }
    }
    false
}

/// The index of the first occurrence of a port in a vector, if any.
pub fn find_port(v: &Vec<ServicePort>, x: ServicePort) -> (r: Option<usize>)
    ensures
        match r {
            Some(i) => i < v@.len() && v@[i as int] == x,
            None => !v@.contains(x),
        },
{
    let mut i: usize = 0;
    let n = v.len();
    while i < n
        invariant
            n == v@.len(),
            i <= n,
            forall|k: int| 0 <= k < i ==> v@[k] != x,
        decreases n - i,
    {
        if v[i] == x {
            return Some(i);
        }
        i += 1;
    }
    proof {
        if v@.contains(x) {
            let k = choose|k: int| 0 <= k < v@.len() && v@[k] == x;
        }
    }
    None
}

} // verus!
