//! Decisions of the command-line tool: which binaries an upgrade sends and
//! for which platforms.
use vstd::prelude::*;
use vstd::string::*;

use crate::component::{parse_u16, parse_u16_str, MountSpec, MountView, PortView, Protocol, ServicePort, Visibility};
use crate::text::{
    ascii_lower, eq_ignore_ascii_case, split_all, split_char, split_once, split_once_char, str_eq, trim, trim_str,
};

verus! {

/// One binary to send in an upgrade, and the platform it is for (when
/// known before looking at the binary).
pub struct UpgradeItem {
    pub path: String,
    pub platform: Option<String>,
}

/// The binary and platform one `--bin` entry names: `<platform>=<path>`
/// (both trimmed) or a bare path; without `--all-platforms` a missing
/// platform falls back to `--target-platform`.
pub open spec fn bin_entry(entry: Seq<char>, target_platform: Option<Seq<char>>, all_platforms: bool) -> (Seq<char>, Option<Seq<char>>) {
    let (plat, path) = match split_once(entry, '=') {
        Some((p, f)) => (Some(trim(p)), trim(f)),
        None => (None, entry),
    };
    (
        path,
        if all_platforms {
            plat
        } else {
            match plat {
                Some(p) => Some(p),
                None => target_platform,
            }
        },
    )
}

pub open spec fn item_view(i: UpgradeItem) -> (Seq<char>, Option<Seq<char>>) {
    (
        i.path@,
        match i.platform {
            Some(p) => Some(p@),
            None => None,
        },
    )
}

/// What `upgrade-multi` sends: without `--bin` entries, the one `--file`
/// (required) for `--target-platform`; otherwise each entry in order.
pub fn upgrade_plan(bins: &Vec<String>, file: Option<&str>, target_platform: Option<&str>, all_platforms: bool) -> (r: Result<Vec<UpgradeItem>, String>)
    ensures
        bins@.len() == 0 ==> match file {
            None => r matches Err(e) && e@ == "--file is required if no --bin provided"@,
            Some(f) => r matches Ok(v) && v@.len() == 1 && item_view(v@[0]) == (
                f@,
                crate::text::opt_str_view(target_platform),
            ),
        },
        bins@.len() > 0 ==> (r matches Ok(v) && v@.len() == bins@.len() && forall|i: int|
            0 <= i < bins@.len() ==> #[trigger] item_view(v@[i]) == bin_entry(
                bins@[i]@,
                crate::text::opt_str_view(target_platform),
                all_platforms,
            )),
{
    let mut out: Vec<UpgradeItem> = Vec::new();
    if bins.len() == 0 {
        return match file {
            None => Err(String::from_str("--file is required if no --bin provided")),
            Some(f) => {
                out.push(
                    UpgradeItem {
                        path: String::from_str(f),
                        platform: match target_platform {
                            Some(p) => Some(String::from_str(p)),
                            None => None,
                        },
                    },
                );
                Ok(out)
            },
        };
    }
    let mut i: usize = 0;
    while i < bins.len()
        invariant
            i <= bins@.len(),
            out@.len() == i,
            forall|k: int|
                0 <= k < i ==> #[trigger] item_view(out@[k]) == bin_entry(
                    bins@[k]@,
                    crate::text::opt_str_view(target_platform),
                    all_platforms,
                ),
        decreases bins.len() - i,
    {
        let entry = bins[i].as_str();
        let (plat, path): (Option<String>, String) = match split_once_char(entry, '=') {
            Some((p, f)) => (Some(String::from_str(trim_str(p))), String::from_str(trim_str(f))),
            None => (None, String::from_str(entry)),
        };
        let platform = if all_platforms {
            plat
        } else {
            match plat {
                Some(p) => Some(p),
                None => match target_platform {
                    Some(t) => Some(String::from_str(t)),
                    None => None,
                },
            }
        };
        out.push(UpgradeItem { path, platform });
        i = i + 1;
    }
    Ok(out)
}

/// What the `key=value` parts of a `--mount` option have set: `host`,
/// `guest` (trimmed) and `ro` (true when its value is `true` in any ASCII
/// case); parts without `=` and other keys are ignored, the last one wins.
pub open spec fn cli_mount_parts(parts: Seq<Seq<char>>, host: Option<Seq<char>>, guest: Option<Seq<char>>, ro: bool) -> (
    Option<Seq<char>>,
    Option<Seq<char>>,
    bool,
)
    decreases parts.len(),
{
    if parts.len() == 0 {
        (host, guest, ro)
    } else {
        let rest = parts.drop_first();
        match split_once(parts[0], '=') {
            Some((k0, v0)) => {
                let k = trim(k0);
                let v = trim(v0);
                if k == "host"@ {
                    cli_mount_parts(rest, Some(v), guest, ro)
                } else if k == "guest"@ {
                    cli_mount_parts(rest, host, Some(v), ro)
                } else if k == "ro"@ {
                    cli_mount_parts(rest, host, guest, ascii_lower(v) == ascii_lower("true"@))
                } else {
                    cli_mount_parts(rest, host, guest, ro)
                }
            },
            None => cli_mount_parts(rest, host, guest, ro),
        }
    }
}

/// The mount a `--mount host=...,guest=...[,ro=true]` option gives, when it
/// names both a host and a guest path.
pub open spec fn cli_mount(entry: Seq<char>) -> Option<MountView> {
    let (h, g, ro) = cli_mount_parts(split_all(entry, ','), None, None, false);
    match (h, g) {
        (Some(hv), Some(gv)) => Some(MountView { host: hv, guest: gv, ro }),
        _ => None,
    }
}

/// The mounts of the first `k` `--mount` options, those that give none
/// skipped.
pub open spec fn cli_mount_list(entries: Seq<Seq<char>>, k: int) -> Seq<MountView>
    decreases k,
{
    if k <= 0 {
        Seq::empty()
    } else {
        let rest = cli_mount_list(entries, k - 1);
        match cli_mount(entries[k - 1]) {
            Some(m) => rest.push(m),
            None => rest,
        }
    }
}

fn cli_mount_exec(entry: &str) -> (r: Option<MountSpec>)
    ensures
        match r {
            Some(m) => cli_mount(entry@) == Some(m@),
            None => cli_mount(entry@) is None,
        },
{
    let parts = split_char(entry, ',');
    let ghost ps = split_all(entry@, ',');
    let mut host: Option<String> = None;
    let mut guest: Option<String> = None;
    let mut ro = false;
    let mut i: usize = 0;
    proof {
        reveal_strlit("host");
        reveal_strlit("guest");
        reveal_strlit("ro");
        reveal_strlit("true");
        assert(ps.subrange(0, ps.len() as int) =~= ps);
    }
    while i < parts.len()
        invariant
            ps == split_all(entry@, ','),
            parts@.len() == ps.len(),
            forall|k: int| 0 <= k < parts@.len() ==> #[trigger] parts@[k]@ == ps[k],
            i <= parts@.len(),
            cli_mount_parts(ps, None, None, false) == cli_mount_parts(
                ps.subrange(i as int, ps.len() as int),
                match host {
                    Some(h) => Some(h@),
                    None => None,
                },
                match guest {
                    Some(g) => Some(g@),
                    None => None,
                },
                ro,
            ),
        decreases parts.len() - i,
    {
        let ghost rest = ps.subrange(i as int, ps.len() as int);
        proof {
            assert(rest[0] == parts@[i as int]@);
            assert(rest.drop_first() =~= ps.subrange(i + 1, ps.len() as int));
        }
        match split_once_char(parts[i], '=') {
            Some((k0, v0)) => {
                let k = trim_str(k0);
                let v = trim_str(v0);
                if str_eq(k, "host") {
                    host = Some(String::from_str(v));
                } else if str_eq(k, "guest") {
                    guest = Some(String::from_str(v));
                } else if str_eq(k, "ro") {
                    ro = eq_ignore_ascii_case(v, "true");
                }
            },
            None => {},
        }
        i = i + 1;
    }
    proof {
        assert(ps.subrange(ps.len() as int, ps.len() as int) =~= Seq::<Seq<char>>::empty());
    }
    match (host, guest) {
        (Some(h), Some(g)) => Some(MountSpec { host: h, guest: g, ro }),
        _ => None,
    }
}

pub open spec fn cli_mounts_of(entries: Seq<Seq<char>>) -> Option<Seq<MountView>> {
    let l = cli_mount_list(entries, entries.len() as int);
    if l.len() == 0 {
        None
    } else {
        Some(l)
    }
}

/// The mounts of the `--mount` options: none when no option gives one.
pub fn cli_mounts(entries: &Vec<String>) -> (r: Option<Vec<MountSpec>>)
    ensures
        match r {
            Some(v) => cli_mounts_of(entries.deep_view()) == Some(crate::component::mounts_view(v@)),
            None => cli_mounts_of(entries.deep_view()) is None,
        },
{
    let ghost es = entries.deep_view();
    let mut out: Vec<MountSpec> = Vec::new();
    let mut i: usize = 0;
    while i < entries.len()
        invariant
            es == entries.deep_view(),
            i <= es.len(),
            crate::component::mounts_view(out@) == cli_mount_list(es, i as int),
        decreases entries.len() - i,
    {
        proof {
            assert(es[i as int] == entries@[i as int]@);
        }
        match cli_mount_exec(entries[i].as_str()) {
            Some(m) => {
                let ghost before = crate::component::mounts_view(out@);
                out.push(m);
                assert(crate::component::mounts_view(out@) =~= before.push(m@));
            },
            None => {},
        }
        i = i + 1;
    }
    if out.len() == 0 {
        None
    } else {
        Some(out)
    }
}

/// The port a `--port number/protocol` option gives: both parts must be
/// there and the number must read; `udp` in any ASCII case is UDP, any
/// other protocol TCP.
pub open spec fn cli_port(entry: Seq<char>) -> Option<PortView> {
    let parts = split_all(entry, '/');
    if parts.len() >= 2 {
        match parse_u16(parts[0]) {
            Some(p) => Some(
                PortView {
                    name: None,
                    port: p,
                    protocol: if ascii_lower(parts[1]) == ascii_lower("udp"@) {
                        Protocol::Udp
                    } else {
                        Protocol::Tcp
                    },
                },
            ),
            None => None,
        }
    } else {
        None
    }
}

pub open spec fn cli_port_list(entries: Seq<Seq<char>>, k: int) -> Seq<PortView>
    decreases k,
{
    if k <= 0 {
        Seq::empty()
    } else {
        let rest = cli_port_list(entries, k - 1);
        match cli_port(entries[k - 1]) {
            Some(p) => rest.push(p),
            None => rest,
        }
    }
}

pub open spec fn cli_ports_of(entries: Seq<Seq<char>>) -> Option<Seq<PortView>> {
    let l = cli_port_list(entries, entries.len() as int);
    if l.len() == 0 {
        None
    } else {
        Some(l)
    }
}

/// The ports of the `--port` options: none when no option gives one.
pub fn cli_ports(entries: &Vec<String>) -> (r: Option<Vec<ServicePort>>)
    ensures
        match r {
            Some(v) => cli_ports_of(entries.deep_view()) == Some(crate::component::ports_view(v@)),
            None => cli_ports_of(entries.deep_view()) is None,
        },
{
    let ghost es = entries.deep_view();
    let mut out: Vec<ServicePort> = Vec::new();
    let mut i: usize = 0;
    while i < entries.len()
        invariant
            es == entries.deep_view(),
            i <= es.len(),
            crate::component::ports_view(out@) == cli_port_list(es, i as int),
        decreases entries.len() - i,
    {
        proof {
            assert(es[i as int] == entries@[i as int]@);
        }
        let parts = split_char(entries[i].as_str(), '/');
        if parts.len() >= 2 {
            match parse_u16_str(parts[0]) {
                Some(port) => {
                    let protocol = if eq_ignore_ascii_case(parts[1], "udp") {
                        Protocol::Udp
                    } else {
                        Protocol::Tcp
                    };
                    let ghost before = crate::component::ports_view(out@);
                    let sp = ServicePort { name: None, port, protocol };
                    proof {
                        assert(cli_port(es[i as int]) == Some(sp@));
                    }
                    out.push(sp);
                    assert(crate::component::ports_view(out@) =~= before.push(sp@));
                },
                None => {},
            }
        }
        i = i + 1;
    }
    if out.len() == 0 {
        None
    } else {
        Some(out)
    }
}

/// The visibility a `--visibility` option names: `local`/`Local` or
/// `public`/`Public`; any other word names none.
pub fn cli_visibility(v: Option<&str>) -> (r: Option<Visibility>)
    ensures
        r == match v {
            Some(s) => if s@ == "local"@ || s@ == "Local"@ {
                Some(Visibility::Local)
            } else if s@ == "public"@ || s@ == "Public"@ {
                Some(Visibility::Public)
            } else {
                None
            },
            None => None,
        },
{
    match v {
        Some(s) => if str_eq(s, "local") || str_eq(s, "Local") {
            Some(Visibility::Local)
        } else if str_eq(s, "public") || str_eq(s, "Public") {
            Some(Visibility::Public)
        } else {
            None
        },
        None => None,
    }
}

/// The push description the `push` command signs for module digest
/// `digest`: the limits as given, the mounts, ports and visibility read
/// from their options (see `cli_mounts`, `cli_ports`, `cli_visibility`),
/// and the targets as given.
pub fn cli_push_unsigned(
    name: String,
    owner_pub_bs58: String,
    digest: String,
    replicas: u32,
    memory_max_mb: u64,
    fuel: u64,
    epoch_ms: u64,
    mounts_cli: &Vec<String>,
    ports_cli: &Vec<String>,
    visibility_cli: Option<&str>,
    target_peers: Vec<String>,
    target_tags: Vec<String>,
    start: bool,
) -> (r: crate::deploy::PushUnsigned)
    ensures
        r.alg@ == "ed25519"@,
        r.owner_pub_bs58 == owner_pub_bs58,
        r.component_name == name,
        r.target_peer_ids == target_peers,
        r.target_tags == target_tags,
        r.memory_max_mb == Some(memory_max_mb),
        r.fuel == Some(fuel),
        r.epoch_ms == Some(epoch_ms),
        r.replicas == replicas,
        r.start == start,
        r.binary_sha256_hex == digest,
        crate::deploy::opt_mounts(r.mounts) == cli_mounts_of(mounts_cli.deep_view()),
        crate::deploy::opt_ports(r.ports) == cli_ports_of(ports_cli.deep_view()),
        r.visibility == match visibility_cli {
            Some(s) => if s@ == "local"@ || s@ == "Local"@ {
                Some(Visibility::Local)
            } else if s@ == "public"@ || s@ == "Public"@ {
                Some(Visibility::Public)
            } else {
                None
            },
            None => None,
        },
{
    let mounts = cli_mounts(mounts_cli);
    let ports = cli_ports(ports_cli);
    let visibility = cli_visibility(visibility_cli);
    crate::deploy::PushUnsigned {
        alg: String::from_str("ed25519"),
        owner_pub_bs58,
        component_name: name,
        target_peer_ids: target_peers,
        target_tags,
        memory_max_mb: Some(memory_max_mb),
        fuel: Some(fuel),
        epoch_ms: Some(epoch_ms),
        replicas,
        start,
        binary_sha256_hex: digest,
        mounts,
        ports,
        visibility,
    }
}

/// The platform an upgrade is announced for: the one given, else the one
/// the binary's headers name (see `detect_binary_platform`).
pub fn upgrade_target_platform(given: Option<String>, bin: &[u8]) -> (r: Option<String>)
    ensures
        given is Some ==> r == given,
        given is None ==> crate::platform::opt_string_view(r) == crate::platform::spec_binary_platform(bin@),
{
    match given {
        Some(p) => Some(p),
        None => crate::platform::detect_binary_platform(bin),
    }
}

/// The state of `p2p watch`: messages counted since the last rate report,
/// when that report was made, and when a message was last printed
/// (milliseconds of a monotonic clock).
pub struct WatchState {
    pub message_count: u64,
    pub last_report_ms: u64,
    pub last_print_ms: u64,
}

/// What `p2p watch` does with a message: print it (numbered) when 200 ms
/// have passed since the last one printed, and report the rate of the
/// messages counted when 5 seconds have passed since the last report.
pub struct WatchStep {
    pub print: bool,
    pub number: u64,
    pub report: Option<(u64, u64)>,
}

/// Milliseconds from `from` to `to`, 0 when `to` is earlier.
pub open spec fn elapsed_ms(from: u64, to: u64) -> int {
    if to >= from {
        to - from
    } else {
        0
    }
}

impl WatchState {
    pub fn new(now_ms: u64) -> (r: WatchState)
        ensures
            r.message_count == 0,
            r.last_report_ms == now_ms,
            r.last_print_ms == now_ms,
    {
        WatchState { message_count: 0, last_report_ms: now_ms, last_print_ms: now_ms }
    }

    /// A message arrived at `now_ms`: it is counted; it is printed when 200
    /// ms passed since the last print (which then moves to now); when 5
    /// seconds passed since the last report, the report gives the count and
    /// the elapsed milliseconds, and counting starts again.
    pub fn on_message(&mut self, now_ms: u64) -> (r: WatchStep)
        requires
            old(self).message_count < u64::MAX,
        ensures
            r.number == old(self).message_count + 1,
            r.print == (elapsed_ms(old(self).last_print_ms, now_ms) >= 200),
            final(self).last_print_ms == (if r.print { now_ms } else { old(self).last_print_ms }),
            elapsed_ms(old(self).last_report_ms, now_ms) >= 5000 ==> r.report == Some(
                (r.number, elapsed_ms(old(self).last_report_ms, now_ms) as u64),
            ) && final(self).message_count == 0 && final(self).last_report_ms == now_ms,
            elapsed_ms(old(self).last_report_ms, now_ms) < 5000 ==> r.report is None
                && final(self).message_count == r.number && final(self).last_report_ms
                == old(self).last_report_ms,
    {
        self.message_count = self.message_count + 1;
        let number = self.message_count;
        let since_print: u64 = if now_ms >= self.last_print_ms {
            now_ms - self.last_print_ms
        } else {
            0
        };
        let print = since_print >= 200;
        if print {
            self.last_print_ms = now_ms;
        }
        let since_report: u64 = if now_ms >= self.last_report_ms {
            now_ms - self.last_report_ms
        } else {
            0
        };
        let report = if since_report >= 5000 {
            let r = Some((number, since_report));
            self.last_report_ms = now_ms;
            self.message_count = 0;
            r
        } else {
            None
        };
        WatchStep { print, number, report }
    }
}

/// A manifest signed by its owner, as `apply` sends it.
pub struct SignedManifest {
    pub alg: String,
    pub owner_pub_bs58: String,
    pub version: u64,
    pub manifest_toml: String,
    pub signature_b64: String,
}

/// Pack a signed manifest: Ed25519, the owner's key, the version and text,
/// and the owner's signature over the text in standard base64.
pub fn signed_manifest(owner_pub_bs58: String, version: u64, manifest_toml: String, signature: &[u8]) -> (r: SignedManifest)
    ensures
        r.alg@ == "ed25519"@,
        r.owner_pub_bs58 == owner_pub_bs58,
        r.version == version,
        r.manifest_toml == manifest_toml,
        r.signature_b64@ == crate::digest::base64_standard_encode(signature@),
{
    SignedManifest {
        alg: String::from_str("ed25519"),
        owner_pub_bs58,
        version,
        manifest_toml,
        signature_b64: crate::digest::encode_base64(signature),
    }
}

/// An agent upgrade as `upgrade` sends it.
pub struct AgentUpgrade {
    pub alg: String,
    pub owner_pub_bs58: String,
    pub version: u64,
    pub target_platform: Option<String>,
    pub target_peer_ids: Vec<String>,
    pub target_tags: Vec<String>,
    pub binary_sha256_hex: String,
    pub binary_b64: String,
    pub signature_b64: String,
}

/// Pack an upgrade to `version` with binary `bin` and the owner's signature
/// over it: the platform given or detected (see `upgrade_target_platform`),
/// the binary's digest, and binary and signature in standard base64.
pub fn upgrade_package(
    owner_pub_bs58: String,
    version: u64,
    target_platform: Option<String>,
    target_peers: Vec<String>,
    target_tags: Vec<String>,
    bin: &[u8],
    signature: &[u8],
) -> (r: AgentUpgrade)
    ensures
        r.alg@ == "ed25519"@,
        r.owner_pub_bs58 == owner_pub_bs58,
        r.version == version,
        target_platform is Some ==> r.target_platform == target_platform,
        target_platform is None ==> crate::platform::opt_string_view(r.target_platform) == crate::platform::spec_binary_platform(bin@),
        r.target_peer_ids == target_peers,
        r.target_tags == target_tags,
        r.binary_sha256_hex@ == crate::digest::sha256_hex_spec(bin@),
        r.binary_b64@ == crate::digest::base64_standard_encode(bin@),
        r.signature_b64@ == crate::digest::base64_standard_encode(signature@),
{
    AgentUpgrade {
        alg: String::from_str("ed25519"),
        owner_pub_bs58,
        version,
        target_platform: upgrade_target_platform(target_platform, bin),
        target_peer_ids: target_peers,
        target_tags,
        binary_sha256_hex: crate::digest::sha256_hex(bin),
        binary_b64: crate::digest::encode_base64(bin),
        signature_b64: crate::digest::encode_base64(signature),
    }
}

/// The arguments of `cargo` that build a component for `deploy-component`:
/// a WASI component build, `--release` for the release profile, the
/// features when there are any, and the package when one is named.
pub open spec fn build_args_of(profile: Seq<char>, features: Seq<char>, package: Seq<char>) -> Seq<Seq<char>> {
    seq!["component"@, "build"@, "--target"@, "wasm32-wasip1"@] + (if profile == "release"@ {
        seq!["--release"@]
    } else {
        Seq::empty()
    }) + (if features.len() > 0 {
        seq!["-F"@, features]
    } else {
        Seq::empty()
    }) + (if package.len() > 0 {
        seq!["-p"@, package]
    } else {
        Seq::empty()
    })
}

pub fn component_build_args(profile: &str, features: &str, package: &str) -> (r: Vec<String>)
    ensures
        r.deep_view() == build_args_of(profile@, features@, package@),
{
    let mut args: Vec<String> = Vec::new();
    args.push(String::from_str("component"));
    args.push(String::from_str("build"));
    args.push(String::from_str("--target"));
    args.push(String::from_str("wasm32-wasip1"));
    let ghost a0 = args.deep_view();
    assert(a0 =~= seq!["component"@, "build"@, "--target"@, "wasm32-wasip1"@]);
    if str_eq(profile, "release") {
        args.push(String::from_str("--release"));
    }
    let ghost a1 = args.deep_view();
    assert(a1 =~= a0 + (if profile@ == "release"@ {
        seq!["--release"@]
    } else {
        Seq::empty()
    }));
    if features.unicode_len() > 0 {
        args.push(String::from_str("-F"));
        args.push(String::from_str(features));
    }
    let ghost a2 = args.deep_view();
    assert(a2 =~= a1 + (if features@.len() > 0 {
        seq!["-F"@, features@]
    } else {
        Seq::empty()
    }));
    if package.unicode_len() > 0 {
        args.push(String::from_str("-p"));
        args.push(String::from_str(package));
    }
    assert(args.deep_view() =~= a2 + (if package@.len() > 0 {
        seq!["-p"@, package@]
    } else {
        Seq::empty()
    }));
    args
}

/// `s` with every `-` replaced by `_` (how cargo names a package's
/// artifact).
pub open spec fn underscored(s: Seq<char>) -> Seq<char> {
    s.map_values(|c: char| if c == '-' { '_' } else { c })
}

/// Where the built component lies, relative to a target directory:
/// `wasm32-wasip1/<release|debug>/<package with _ for ->.wasm`.
pub fn component_artifact(package_name: &str, profile: &str) -> (r: String)
    ensures
        r@ == "wasm32-wasip1/"@ + (if profile@ == "release"@ { "release"@ } else { "debug"@ }) + "/"@
            + underscored(package_name@) + ".wasm"@,
{
    let n = package_name.unicode_len();
    let mut name = String::new();
    let mut i: usize = 0;
    while i < n
        invariant
            n == package_name@.len(),
            i <= n,
            name@ =~= underscored(package_name@.subrange(0, i as int)),
        decreases n - i,
    {
        if package_name.get_char(i) == '-' {
            name.append("_");
        } else {
            name.append(package_name.substring_char(i, i + 1));
        }
        proof {
            reveal_strlit("_");
            assert(package_name@.subrange(0, i + 1) =~= package_name@.subrange(0, i as int).push(package_name@[i as int]));
        }
        i = i + 1;
    }
    assert(package_name@.subrange(0, n as int) =~= package_name@);
    let prof = if str_eq(profile, "release") {
        "release"
    } else {
        "debug"
    };
    String::from_str("wasm32-wasip1/").concat(prof).concat("/").concat(name.as_str()).concat(".wasm")
}

/// A path joined with a relative one as `Path::join` writes it: a separator
/// between them unless the first is empty or already ends with one.
pub open spec fn path_join(base: Seq<char>, rel: Seq<char>) -> Seq<char> {
    if base.len() == 0 || base.last() == '/' {
        base + rel
    } else {
        base + "/"@ + rel
    }
}

fn path_join_exec(base: &str, rel: &str) -> (r: String)
    ensures
        r@ == path_join(base@, rel@),
{
    let n = base.unicode_len();
    if n == 0 || base.get_char(n - 1) == '/' {
        String::from_str(base).concat(rel)
    } else {
        String::from_str(base).concat("/").concat(rel)
    }
}

/// The two places the built component is looked for: the project's own
/// `target` directory, then the workspace's (`target_root`).
pub fn artifact_candidates(project_dir: &str, target_root: &str, artifact: &str) -> (r: (String, String))
    ensures
        r.0@ == path_join(path_join(project_dir@, "target"@), artifact@),
        r.1@ == path_join(target_root@, artifact@),
{
    let local_target = path_join_exec(project_dir, "target");
    (path_join_exec(local_target.as_str(), artifact), path_join_exec(target_root, artifact))
}

/// The name under which `toml` reads `package.name` of a manifest text: the
/// name when it is a string, none when it is missing or not a string, or
/// the parse error's text.
pub uninterp spec fn toml_package_name(text: Seq<char>) -> Result<Option<Seq<char>>, Seq<char>>;

pub open spec fn name_result_view(r: Result<Option<String>, String>) -> Result<Option<Seq<char>>, Seq<char>> {
    match r {
        Ok(Some(n)) => Ok(Some(n@)),
        Ok(None) => Ok(None),
        Err(e) => Err(e@),
    }
}

/// `toml::from_str::<toml::Value>(text)`, then `package.name` as a string.
/// A function of the text alone; the contract names it.
#[verifier::external_body]
fn cargo_package_name(text: &str) -> (r: Result<Option<String>, String>)
    ensures
        name_result_view(r) == toml_package_name(text@),
{
    match toml::from_str::<toml::Value>(text) {
        Ok(v) => Ok(v.get("package").and_then(|t| t.get("name")).and_then(|n| n.as_str()).map(|s| s.to_string())),
        Err(e) => Err(e.to_string()),
    }
}

/// The package a component project builds, from its `Cargo.toml` text:
/// `package.name`, or `component` when the manifest names none.
pub fn package_name_from_cargo(cargo_toml: &str) -> (r: Result<String, String>)
    ensures
        match toml_package_name(cargo_toml@) {
            Ok(Some(n)) => r matches Ok(s) && s@ == n,
            Ok(None) => r matches Ok(s) && s@ == "component"@,
            Err(e) => r matches Err(m) && m@ == e,
        },
{
    match cargo_package_name(cargo_toml) {
        Ok(Some(n)) => Ok(n),
        Ok(None) => Ok(String::from_str("component")),
        Err(e) => Err(e),
    }
}

/// The push `deploy-component` signs: one replica of the built module with
/// 64 MB, 5 000 000 fuel and 100 ms epochs, reachable locally, without
/// mounts or ports.
pub fn deploy_component_unsigned(
    owner_pub_bs58: String,
    name: String,
    target_peers: Vec<String>,
    target_tags: Vec<String>,
    start: bool,
    digest: String,
) -> (r: crate::deploy::PushUnsigned)
    ensures
        r.alg@ == "ed25519"@,
        r.owner_pub_bs58 == owner_pub_bs58,
        r.component_name == name,
        r.target_peer_ids == target_peers,
        r.target_tags == target_tags,
        r.memory_max_mb == Some(64u64),
        r.fuel == Some(5000000u64),
        r.epoch_ms == Some(100u64),
        r.replicas == 1,
        r.start == start,
        r.binary_sha256_hex == digest,
        r.mounts is None,
        r.ports is None,
        r.visibility == Some(Visibility::Local),
{
    crate::deploy::PushUnsigned {
        alg: String::from_str("ed25519"),
        owner_pub_bs58,
        component_name: name,
        target_peer_ids: target_peers,
        target_tags,
        memory_max_mb: Some(64),
        fuel: Some(5000000),
        epoch_ms: Some(100),
        replicas: 1,
        start,
        binary_sha256_hex: digest,
        mounts: None,
        ports: None,
        visibility: Some(Visibility::Local),
    }
}

/// Where `deploy-component` is in sending its push: how many peers are
/// connected, and whether the push went out.
pub struct PublishState {
    pub connected_peers: u32,
    pub command_sent: bool,
}

/// What the sending loop does on a tick of its two-second timer.
#[derive(Debug, Clone, Copy, PartialEq, Eq, Structural)]
pub enum TickAction {
    /// Publish the push to the connected peers (the first time there are some).
    Publish,
    /// It went out already: leave the loop.
    Stop,
    /// Keep waiting for a peer.
    Wait,
}

impl PublishState {
    pub fn new() -> (r: PublishState)
        ensures
            r.connected_peers == 0,
            !r.command_sent,
    {
        PublishState { connected_peers: 0, command_sent: false }
    }

    pub fn on_tick(&mut self) -> (r: TickAction)
        ensures
            old(self).connected_peers > 0 && !old(self).command_sent ==> r == TickAction::Publish
                && final(self).command_sent,
            old(self).command_sent ==> r == TickAction::Stop && final(self).command_sent,
            old(self).connected_peers == 0 && !old(self).command_sent ==> r == TickAction::Wait
                && !final(self).command_sent,
            final(self).connected_peers == old(self).connected_peers,
    {
        if self.connected_peers > 0 && !self.command_sent {
            self.command_sent = true;
            TickAction::Publish
        } else if self.command_sent {
            TickAction::Stop
        } else {
            TickAction::Wait
        }
    }

    pub fn on_connected(&mut self)
        requires
            old(self).connected_peers < u32::MAX,
        ensures
            final(self).connected_peers == old(self).connected_peers + 1,
            final(self).command_sent == old(self).command_sent,
    {
        self.connected_peers = self.connected_peers + 1;
    }

    pub fn on_closed(&mut self)
        ensures
            final(self).connected_peers == (if old(self).connected_peers > 0 {
                old(self).connected_peers - 1
            } else {
                0
            }),
            final(self).command_sent == old(self).command_sent,
    {
        if self.connected_peers > 0 {
            self.connected_peers = self.connected_peers - 1;
        }
    }

    /// After the loop: whether to publish now (it never went out), and
    /// whether to publish once more after a pause (it did).
    pub fn after_loop(&self) -> (r: (bool, bool))
        ensures
            r == (!self.command_sent, self.command_sent),
    {
        (!self.command_sent, self.command_sent)
    }
}

} // verus!
