//! Startup configuration: the configured browsers, the port pool ranges, and
//! the pre-registered remote nodes.

use vstd::prelude::*;
use crate::browser::BrowserConfig;
use crate::nodes::RemoteNodeCreate;
use crate::portmanager::ServicePort;
use crate::strutil::{is_uint_token, uint_token_value, parse_u16, find_char};

verus! {

broadcast use vstd::seq_lib::group_seq_properties;

/// The index of the first `-` of a string, or its length when it has none.
pub open spec fn first_dash(s: Seq<char>) -> int
    decreases s.len(),
{
    if s.len() == 0 {
        0
    } else if s[0] == '-' {
        0
    } else {
        1 + first_dash(s.skip(1))
    }
}

pub proof fn lemma_first_dash(s: Seq<char>)
    ensures
        0 <= first_dash(s) <= s.len(),
        first_dash(s) < s.len() ==> s[first_dash(s)] == '-',
        forall|k: int| 0 <= k < first_dash(s) ==> s[k] != '-',
    decreases s.len(),
{
    if s.len() == 0 {
    } else if s[0] == '-' {
    } else {
        lemma_first_dash(s.skip(1));
        let d = first_dash(s);
        assert forall|k: int| 0 <= k < d implies s[k] != '-' by {
            if k > 0 {
                assert(s.skip(1)[k - 1] == s[k]);
            }
        }
        if d < s.len() {
            assert(s.skip(1)[d - 1] == s[d]);
        }
    }
}

/// The ports `a..=b`, in increasing order.
pub open spec fn port_range(a: int, b: int) -> Seq<u16>
    decreases b - a + 1,
{
    if a > b || a < 0 || b > u16::MAX {
        Seq::empty()
    } else {
        port_range(a, b - 1).push(b as u16)
    }
}

/// A value accepted as a pool port: a parseable 16-bit number above 1024.
pub open spec fn is_pool_port(s: Seq<char>) -> bool {
    &&& is_uint_token(s)
    &&& 1024 < uint_token_value(s) <= u16::MAX
}

/// The ports one configured range specifier contributes: `"N"` gives the
/// single port `N`, `"A-B"` gives `A..=B`. A malformed entry, a port of at
/// most 1024, or a reversed range contributes nothing.
pub open spec fn spec_entry_ports(s: Seq<char>) -> Seq<u16> {
    let d = first_dash(s);
    if d == s.len() {
        if is_pool_port(s) {
            seq![uint_token_value(s) as u16]
        } else {
            Seq::empty()
        }
    } else {
        let a = s.take(d);
        let b = s.skip(d + 1);
        if is_pool_port(a) && is_pool_port(b) && uint_token_value(a) <= uint_token_value(b) {
            port_range(uint_token_value(a), uint_token_value(b))
        } else {
            Seq::empty()
        }
    }
}

/// The ports of a whole list of range specifiers, in order.
pub open spec fn spec_port_list(entries: Seq<Seq<char>>) -> Seq<u16>
    decreases entries.len(),
{
    if entries.len() == 0 {
        Seq::empty()
    } else {
        spec_port_list(entries.drop_last()) + spec_entry_ports(entries.last())
    }
}

/// The ports contributed by one range specifier.
#[verifier::rlimit(50)]
fn entry_ports(s: &str) -> (r: Vec<ServicePort>)
    ensures
        r@ == spec_entry_ports(s@),
{
    proof {
        lemma_first_dash(s@);
    }
    let n = s.unicode_len();
    let mut out: Vec<ServicePort> = Vec::new();
    match find_char(s, '-') {
        None => {
            proof {
                if first_dash(s@) < s@.len() {
                    assert(s@[first_dash(s@)] == '-');
                }
                assert(first_dash(s@) == s@.len());
            }
            match parse_u16(s) {
                Some(p) => {
                    if p > 1024 {
                        out.push(p);
                    }
                },
                None => {},
            }
        },
        Some(d) => {
            proof {
                let fd = first_dash(s@);
                assert(fd == d) by {
                    if fd < d {
                        assert(s@[fd] == '-');
                    }
                    if fd > d {
                        assert(s@[d as int] == '-');
                    }
                }
            }
            let start_str = s.substring_char(0, d);
            let end_str = s.substring_char(d + 1, n);
            proof {
                assert(start_str@ =~= s@.take(d as int));
                assert(end_str@ =~= s@.skip(d + 1));
            }
            match (parse_u16(start_str), parse_u16(end_str)) {
                (Some(start), Some(end)) => {
                    if start > 1024 && end > 1024 && start <= end {
                        let mut p: u16 = start;
                        while p < end
                            invariant
                                start <= p <= end,
                                out@ == port_range(start as int, p as int - 1),
                            decreases end - p,
                        {
                            out.push(p);
                            p += 1;
                        }
                        out.push(end);
                        proof {
                            assert(out@ == port_range(start as int, end as int));
                        }
                    }
                },
                _ => {},
            }
        },
    }
    out
}

/// Parse the configured range specifiers into the port pool. Malformed
/// entries are skipped, never fatal.
pub fn parse_port_list(port_ranges: &Vec<String>) -> (r: Vec<ServicePort>)
    ensures
        r@ == spec_port_list(port_ranges.deep_view()),
{
    let mut ports: Vec<ServicePort> = Vec::new();
    let n = port_ranges.len();
    let mut i: usize = 0;
    while i < n
        invariant
            n == port_ranges@.len(),
            i <= n,
            ports@ == spec_port_list(port_ranges.deep_view().take(i as int)),
        decreases n - i,
    {
        let mut entry = entry_ports(port_ranges[i].as_str());
        ports.append(&mut entry);
        proof {
            let dv = port_ranges.deep_view();
            assert(dv.take(i + 1).drop_last() =~= dv.take(i as int));
            assert(dv.take(i + 1).last() == dv[i as int]);
            assert(dv[i as int] == port_ranges@[i as int]@);
        }
        i += 1;
    }
    proof {
        assert(port_ranges.deep_view().take(n as int) =~= port_ranges.deep_view());
    }
    ports
}

/// The whole YAML configuration, already decoded into plain values.
#[derive(Debug)]
pub struct XenonConfig {
    pub browsers: Vec<BrowserConfig>,
    pub ports: Vec<String>,
    pub nodes: Vec<RemoteNodeCreate>,
}

impl XenonConfig {
    /// An empty configuration: no browsers, no ports, no nodes.
    pub fn new() -> (r: Self)
        ensures
            r.browsers@.len() == 0,
            r.ports@.len() == 0,
            r.nodes@.len() == 0,
    {
        XenonConfig { browsers: Vec::new(), ports: Vec::new(), nodes: Vec::new() }
    }

    /// Get the port list as a Vec of individual ports.
    pub fn get_port_list(&self) -> (r: Vec<ServicePort>)
        ensures
            r@ == spec_port_list(self.ports.deep_view()),
    {
        parse_port_list(&self.ports)
    }

    /// Get the list of browsers and consume the config.
    pub fn browsers(self) -> (r: Vec<BrowserConfig>)
        ensures
            r == self.browsers,
    {
        self.browsers
    }

    /// Split the config into its browsers and its pre-registered nodes.
    pub fn browsers_and_nodes(self) -> (r: (Vec<BrowserConfig>, Vec<RemoteNodeCreate>))
        ensures
            r.0 == self.browsers,
            r.1 == self.nodes,
    {
        (self.browsers, self.nodes)
    }

    /// Whether any remote node is configured at startup.
    pub fn has_nodes(&self) -> (r: bool)
        ensures
            r == (self.nodes@.len() > 0),
    {
        self.nodes.len() > 0
    }
}

} // verus!
