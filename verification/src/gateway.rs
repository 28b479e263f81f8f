//! The HTTP gateway in front of HTTP components: which component a request
//! path names, what is answered when there is none, and the status passed on
//! from the component.
use vstd::prelude::*;
use vstd::string::*;

use crate::supervisor::{DesiredComponent, Supervisor};
use crate::metrics::{wrap_add, Metrics};
use crate::text::{find_char, find_char_in};
use vstd::utf8::encode_utf8;

verus! {

/// `s` without its leading slashes.
pub open spec fn strip_slashes(s: Seq<char>) -> Seq<char>
    decreases s.len(),
{
    if s.len() > 0 && s[0] == '/' {
        strip_slashes(s.drop_first())
    } else {
        s
    }
}

/// The component a request path names and the rest of the path: the path
/// without leading slashes, split at its first slash (the rest is empty
/// when there is none).
pub open spec fn path_target(path: Seq<char>) -> (Seq<char>, Seq<char>) {
    let p = strip_slashes(path);
    match find_char(p, '/') {
        Some(i) => (p.subrange(0, i), p.subrange(i + 1, p.len() as int)),
        None => (p, Seq::empty()),
    }
}

pub fn split_target(path: &str) -> (r: (&str, &str))
    ensures
        (r.0@, r.1@) == path_target(path@),
{
    let n = path.unicode_len();
    let mut i: usize = 0;
    assert(path@.subrange(0, n as int) =~= path@);
    while i < n && path.get_char(i) == '/'
        invariant
            n == path@.len(),
            i <= n,
            strip_slashes(path@) == strip_slashes(path@.subrange(i as int, n as int)),
        decreases n - i,
    {
        assert(path@.subrange(i as int, n as int).drop_first() =~= path@.subrange(i + 1, n as int));
        i = i + 1;
    }
    let p = path.substring_char(i, n);
    proof {
        assert(strip_slashes(p@) == p@);
    }
    match find_char_in(p, '/') {
        Some(k) => {
            let m = p.unicode_len();
            (p.substring_char(0, k), p.substring_char(k + 1, m))
        },
        None => {
            proof {
                reveal_strlit("");
            }
            (p, "")
        },
    }
}

/// What the gateway does with a request.
pub enum GatewayRoute {
    /// No component named: 404.
    MissingName,
    /// No such component: 404.
    UnknownComponent(String),
    /// Call the component's module with the rest of the path.
    Invoke { name: String, rest: String, module_file: String },
}

/// Route a request path to a desired component.
pub fn gateway_route(sup: &Supervisor, path: &str) -> (r: GatewayRoute)
    requires
        sup.wf(),
    ensures
        ({
            let (name, rest) = path_target(path@);
            match r {
                GatewayRoute::MissingName => name.len() == 0,
                GatewayRoute::UnknownComponent(n) => name.len() > 0 && n@ == name && sup.desired.lookup(name) is None,
                GatewayRoute::Invoke { name: n, rest: rp, module_file } => {
                    &&& name.len() > 0
                    &&& n@ == name
                    &&& rp@ == rest
                    &&& sup.desired.lookup(name) matches Some(d)
                    &&& module_file == d.path
                },
            }
        }),
{
    let (name, rest) = split_target(path);
    if name.unicode_len() == 0 {
        GatewayRoute::MissingName
    } else {
        match sup.get_component(name) {
            Some(d) => GatewayRoute::Invoke {
                name: String::from_str(name),
                rest: String::from_str(rest),
                module_file: d.path.clone(),
            },
            None => GatewayRoute::UnknownComponent(String::from_str(name)),
        }
    }
}

/// The answer to a request for an unknown component.
pub fn unknown_component_body(name: &str) -> (r: String)
    ensures
        r@ == "Component '"@ + name@ + "' not found"@,
{
    String::from_str("Component '").concat(name).concat("' not found")
}

/// The status passed on from a component: its code when HTTP allows it
/// (100 to 999), else 200.
pub fn passed_status(code: u16) -> (r: u16)
    ensures
        r == (if 100 <= code && code <= 999 { code } else { 200 }),
{
    if 100 <= code && code <= 999 {
        code
    } else {
        200
    }
}

/// The reply to a request for no component.
pub fn missing_name_body() -> (r: &'static str)
    ensures
        r@ == "Component name required"@,
{
    "Component name required"
}

/// The reply of the gateway to a routed request, given for a component the
/// outcome of invoking it (`invoked`: none when the request body could not
/// be read, else the component's status and body or its failure), and the
/// request counted in the metrics (after `latency_ms`): 404 without a
/// component name or for an unknown component, the component's status
/// (see `passed_status`) and body, 500 `Component error` when the
/// invocation failed. A request whose body could not be read is answered
/// 400 and not counted.
pub fn gateway_reply(route: &GatewayRoute, invoked: Option<Result<(u16, Vec<u8>), String>>, m: &mut Metrics, latency_ms: u64) -> (r: (
    u16,
    Vec<u8>,
))
    ensures
        match route {
            GatewayRoute::MissingName => r.0 == 404 && r.1@ == encode_utf8("Component name required"@),
            GatewayRoute::UnknownComponent(n) => r.0 == 404 && r.1@ == encode_utf8(
                "Component '"@ + n@ + "' not found"@,
            ),
            GatewayRoute::Invoke { .. } => match invoked {
                None => r.0 == 400 && r.1@ == encode_utf8("Failed to read request body"@),
                Some(Ok((code, body))) => r.0 == (if 100 <= code && code <= 999 {
                    code
                } else {
                    200
                }) && r.1@ == body@,
                Some(Err(_)) => r.0 == 500 && r.1@ == encode_utf8("Component error"@),
            },
        },
        (route is Invoke && invoked is None) ==> *final(m) == *old(m),
        !(route is Invoke && invoked is None) ==> *final(m) == (Metrics {
            gateway_requests_total: wrap_add(old(m).gateway_requests_total, 1),
            gateway_last_latency_ms: latency_ms,
            gateway_errors_total: if 200 <= r.0 <= 299 {
                old(m).gateway_errors_total
            } else {
                wrap_add(old(m).gateway_errors_total, 1)
            },
            ..*old(m)
        }),
{
    let reply: (u16, Vec<u8>) = match route {
        GatewayRoute::MissingName => (404, missing_name_body().as_bytes_vec()),
        GatewayRoute::UnknownComponent(n) => (404, unknown_component_body(n.as_str()).as_str().as_bytes_vec()),
        GatewayRoute::Invoke { .. } => match invoked {
            None => {
                return (400, "Failed to read request body".as_bytes_vec());
            },
            Some(Ok((code, body))) => (passed_status(code), body),
            Some(Err(_)) => (500, "Component error".as_bytes_vec()),
        },
    };
    m.record_gateway_request(reply.0, latency_ms);
    reply
}

} // verus!
