//! Discovery of agents on the local network: the addresses probed, which
//! answers look like an agent's metrics, and the status read from them.
use vstd::prelude::*;
use vstd::string::*;

use crate::text::{
    contains, decimal, lines, lines_of, parse_u64, parse_u64_str, split_all, split_char, split_once,
    split_once_char, str_contains, str_eq, u64_to_decimal,
};
use crate::web::Status;

verus! {

/// The local ports probed first, on 127.0.0.1.
pub open spec fn local_port(i: int) -> Seq<char> {
    if i == 0 {
        "9090"@
    } else if i == 1 {
        "3030"@
    } else if i == 2 {
        "8080"@
    } else {
        "7070"@
    }
}

/// The `k`-th address probed in the network `base` (the first three parts
/// of an IPv4 address): the four local ports, then hosts 1 to 254 of the
/// network on ports 9090 and 3030.
pub open spec fn probe_address(base: Seq<char>, k: int) -> Seq<char> {
    if k < 4 {
        "127.0.0.1:"@ + local_port(k)
    } else {
        base + "."@ + decimal(((k - 4) / 2 + 1) as nat) + ":"@ + (if (k - 4) % 2 == 0 {
            "9090"@
        } else {
            "3030"@
        })
    }
}

/// How many addresses are probed: four local ones and two per host.
pub open spec fn probe_count() -> int {
    512
}

/// Every address probed, in order.
pub fn discovery_targets(base: &str) -> (r: Vec<String>)
    ensures
        r@.len() == probe_count(),
        forall|k: int| 0 <= k < r@.len() ==> #[trigger] r@[k]@ == probe_address(base@, k),
{
    let mut out: Vec<String> = Vec::new();
    proof {
        reveal_strlit("127.0.0.1:");
    }
    out.push(String::from_str("127.0.0.1:9090"));
    out.push(String::from_str("127.0.0.1:3030"));
    out.push(String::from_str("127.0.0.1:8080"));
    out.push(String::from_str("127.0.0.1:7070"));
    proof {
        reveal_strlit("127.0.0.1:9090");
        reveal_strlit("127.0.0.1:3030");
        reveal_strlit("127.0.0.1:8080");
        reveal_strlit("127.0.0.1:7070");
        reveal_strlit("9090");
        reveal_strlit("3030");
        reveal_strlit("8080");
        reveal_strlit("7070");
        assert(out@[0]@ =~= probe_address(base@, 0));
        assert(out@[1]@ =~= probe_address(base@, 1));
        assert(out@[2]@ =~= probe_address(base@, 2));
        assert(out@[3]@ =~= probe_address(base@, 3));
    }
    let mut host: u64 = 1;
    while host < 255
        invariant
            1 <= host <= 255,
            out@.len() == 4 + 2 * (host - 1),
            forall|k: int| 0 <= k < out@.len() ==> #[trigger] out@[k]@ == probe_address(base@, k),
        decreases 255 - host,
    {
        let h = u64_to_decimal(host);
        let ip = String::from_str(base).concat(".").concat(h.as_str());
        let a = ip.clone().concat(":9090");
        let b = ip.concat(":3030");
        let ghost n = out@.len() as int;
        proof {
            reveal_strlit(":9090");
            reveal_strlit(":3030");
            reveal_strlit(":");
            reveal_strlit("9090");
            reveal_strlit("3030");
            reveal_strlit(".");
            assert((n - 4) / 2 + 1 == host);
            assert((n + 1 - 4) / 2 + 1 == host);
            assert((n - 4) % 2 == 0);
            assert((n + 1 - 4) % 2 == 1);
            assert(a@ =~= probe_address(base@, n));
            assert(b@ =~= probe_address(base@, n + 1));
        }
        out.push(a);
        out.push(b);
        host = host + 1;
    }
    out
}

/// Does a `/metrics` answer come from an agent? It names one of the
/// agent's own metrics.
pub fn looks_like_agent(metrics: &str) -> (r: bool)
    ensures
        r == (contains(metrics@, "agent_version"@) || contains(metrics@, "components_running"@)),
{
    str_contains(metrics, "agent_version") || str_contains(metrics, "components_running")
}

/// The network of a local IPv4 address: its first three parts, or
/// `192.168.1` when it has fewer.
pub open spec fn network_of(ip: Seq<char>) -> Seq<char> {
    let parts = split_all(ip, '.');
    if parts.len() >= 3 {
        parts[0] + "."@ + parts[1] + "."@ + parts[2]
    } else {
        "192.168.1"@
    }
}

pub fn network_base(ip: &str) -> (r: String)
    ensures
        r@ == network_of(ip@),
{
    let parts = split_char(ip, '.');
    if parts.len() >= 3 {
        String::from_str(parts[0]).concat(".").concat(parts[1]).concat(".").concat(parts[2])
    } else {
        String::from_str("192.168.1")
    }
}

/// Version, running and desired components read from metrics text: a line
/// `name value` with a decimal value sets the counter it names, the last
/// such line winning.
pub open spec fn peer_counters(ls: Seq<Seq<char>>, acc: (u64, u64, u64)) -> (u64, u64, u64)
    decreases ls.len(),
{
    if ls.len() == 0 {
        acc
    } else {
        let next = match split_once(ls[0], ' ') {
            Some((name, val)) => match parse_u64(val) {
                Some(v) => if name == "agent_version"@ {
                    (v, acc.1, acc.2)
                } else if name == "components_running"@ {
                    (acc.0, v, acc.2)
                } else if name == "components_desired"@ {
                    (acc.0, acc.1, v)
                } else {
                    acc
                },
                None => acc,
            },
            None => acc,
        };
        peer_counters(ls.drop_first(), next)
    }
}

/// The status shown for an agent found at `address` whose `/metrics`
/// answer is `metrics`: its counters, no load, the tag `discovered`, and
/// the drift of desired over running components (as 64-bit signed values,
/// wrapping).
pub fn parse_peer_info(address: &str, metrics: &str) -> (r: Status)
    ensures
        ({
            let c = peer_counters(lines(metrics@), (0, 0, 0));
            &&& r.node_id@ == address@
            &&& r.msg@ == "discovered"@
            &&& r.agent_version == c.0
            &&& r.components_running == c.1
            &&& r.components_desired == c.2
            &&& r.cpu_percent == 0
            &&& r.mem_percent == 0
            &&& r.tags.deep_view() == seq!["discovered"@]
            &&& r.drift == (c.2 as i64).wrapping_sub(c.1 as i64)
            &&& r.trusted_owner_pub_bs58 is None
            &&& r.links == 0
        }),
{
    let ls = lines_of(metrics);
    let ghost all = lines(metrics@);
    let mut version: u64 = 0;
    let mut running: u64 = 0;
    let mut desired: u64 = 0;
    let mut i: usize = 0;
    assert(all.subrange(0, all.len() as int) =~= all);
    while i < ls.len()
        invariant
            ls@.len() == all.len(),
            forall|k: int| 0 <= k < ls@.len() ==> #[trigger] ls@[k]@ == all[k],
            i <= ls@.len(),
            peer_counters(all, (0, 0, 0)) == peer_counters(
                all.subrange(i as int, all.len() as int),
                (version, running, desired),
            ),
        decreases ls.len() - i,
    {
        let ghost rest = all.subrange(i as int, all.len() as int);
        proof {
            assert(rest[0] == ls@[i as int]@);
            assert(rest.drop_first() =~= all.subrange(i + 1, all.len() as int));
        }
        match split_once_char(ls[i], ' ') {
            Some((name, val)) => match parse_u64_str(val) {
                Some(v) => {
                    if str_eq(name, "agent_version") {
                        version = v;
                    } else if str_eq(name, "components_running") {
                        running = v;
                    } else if str_eq(name, "components_desired") {
                        desired = v;
                    }
                },
                None => {},
            },
            None => {},
        }
        i = i + 1;
    }
    proof {
        assert(all.subrange(all.len() as int, all.len() as int) =~= Seq::<Seq<char>>::empty());
    }
    let mut tags: Vec<String> = Vec::new();
    tags.push(String::from_str("discovered"));
    proof {
        assert(tags.deep_view() =~= seq!["discovered"@]);
    }
    let d = desired as i64;
    let g = running as i64;
    Status {
        node_id: String::from_str(address),
        msg: String::from_str("discovered"),
        agent_version: version,
        components_desired: desired,
        components_running: running,
        cpu_percent: 0,
        mem_percent: 0,
        tags,
        drift: d.wrapping_sub(g),
        trusted_owner_pub_bs58: None,
        links: 0,
    }
}

/// The summary a discovery round reports: how many agents answered, or the
/// error that cut it short.
pub fn discovery_status(outcome: Result<usize, String>) -> (r: String)
    ensures
        match outcome {
            Ok(n) => r@ == "Successfully discovered "@ + decimal(n as nat) + " peers"@,
            Err(e) => r@ == "Discovery completed with errors: "@ + e@,
        },
{
    match outcome {
        Ok(n) => String::from_str("Successfully discovered ").concat(u64_to_decimal(n as u64).as_str()).concat(
            " peers",
        ),
        Err(e) => String::from_str("Discovery completed with errors: ").concat(e.as_str()),
    }
}

} // verus!
