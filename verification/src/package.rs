//! Installing a component package: its manifest, the check of the module
//! digest, where its mounts go on the host, and the specification the
//! component is scheduled with.
use vstd::prelude::*;
use vstd::string::*;

use crate::component::MountSpec;
use crate::supervisor::ComponentSpec;
use crate::text::str_eq;

verus! {

/// How a package mount is backed on the host.
#[derive(Debug, Clone, Copy, PartialEq, Eq, Structural)]
pub enum MountKind {
    /// Read-only files shipped in the package.
    Static,
    /// Read-only configuration shipped in the package.
    Config,
    /// A scratch directory per component.
    Work,
    /// A persistent volume, optionally seeded from the package.
    State,
}

/// A mount a package asks for.
pub struct PackageMount {
    pub kind: MountKind,
    pub source: Option<String>,
    pub guest: String,
    pub size_mb: Option<u64>,
    pub volume: Option<String>,
    pub seed: Option<String>,
}

/// The component a package holds.
pub struct PackageComponent {
    pub name: String,
    pub wasm: String,
    pub sha256: Option<String>,
}

/// The manifest of a package.
pub struct PackageManifest {
    pub component: PackageComponent,
    pub mounts: Vec<PackageMount>,
}

/// Where a package mount goes on the host: files of the package (unpacked
/// under `package_dir`) read-only; a work directory under
/// `data_dir/work/components/<component>`; a state volume (named, or named
/// after the component) under `data_dir/state/components/`. A package file
/// mount without a source gives nothing.
pub open spec fn mount_host(m: PackageMount, comp: Seq<char>, package_dir: Seq<char>, data_dir: Seq<char>) -> Option<(Seq<char>, bool)> {
    match m.kind {
        MountKind::Static | MountKind::Config => match m.source {
            Some(src) => Some((package_dir + "/"@ + src@, true)),
            None => None,
        },
        MountKind::Work => Some((data_dir + "/work/components/"@ + comp, false)),
        MountKind::State => Some(
            (
                data_dir + "/state/components/"@ + match m.volume {
                    Some(v) => v@,
                    None => comp,
                },
                false,
            ),
        ),
    }
}

/// The host side of one package mount (see `mount_host`).
pub fn resolve_mount(m: &PackageMount, comp: &str, package_dir: &str, data_dir: &str) -> (r: Option<MountSpec>)
    ensures
        match r {
            Some(ms) => mount_host(*m, comp@, package_dir@, data_dir@) == Some((ms.host@, ms.ro))
                && ms.guest@ == m.guest@,
            None => mount_host(*m, comp@, package_dir@, data_dir@) is None,
        },
        m.kind is Static || m.kind is Config ==> match m.source {
            Some(src) => r is Some && r->0.host@ == package_dir@ + "/"@ + src@ && r->0.guest@
                == m.guest@ && r->0.ro,
            None => r is None,
        },
        m.kind is Work ==> r is Some && r->0.host@ == data_dir@ + "/work/components/"@ + comp@
            && r->0.guest@ == m.guest@ && !r->0.ro,
        m.kind is State ==> r is Some && r->0.host@ == data_dir@ + "/state/components/"@ + match m.volume {
            Some(v) => v@,
            None => comp@,
        } && r->0.guest@ == m.guest@ && !r->0.ro,
{
    match m.kind {
        MountKind::Static | MountKind::Config => match &m.source {
            Some(src) => Some(
                MountSpec {
                    host: String::from_str(package_dir).concat("/").concat(src.as_str()),
                    guest: m.guest.clone(),
                    ro: true,
                },
            ),
            None => None,
        },
        MountKind::Work => Some(
            MountSpec {
                host: String::from_str(data_dir).concat("/work/components/").concat(comp),
                guest: m.guest.clone(),
                ro: false,
            },
        ),
        MountKind::State => {
            let vol: &str = match &m.volume {
                Some(v) => v.as_str(),
                None => comp,
            };
            Some(
                MountSpec {
                    host: String::from_str(data_dir).concat("/state/components/").concat(vol),
                    guest: m.guest.clone(),
                    ro: false,
                },
            )
        },
    }
}

/// The host mounts of all package mounts, in order, skipping those that
/// give nothing.
pub open spec fn resolved_mounts(ms: Seq<PackageMount>, comp: Seq<char>, package_dir: Seq<char>, data_dir: Seq<char>) -> Seq<(Seq<char>, Seq<char>, bool)>
    decreases ms.len(),
{
    if ms.len() == 0 {
        Seq::empty()
    } else {
        let rest = resolved_mounts(ms.drop_last(), comp, package_dir, data_dir);
        match mount_host(ms.last(), comp, package_dir, data_dir) {
            Some((h, ro)) => rest.push((h, ms.last().guest@, ro)),
            None => rest,
        }
    }
}

pub open spec fn mount_triples(v: Seq<MountSpec>) -> Seq<(Seq<char>, Seq<char>, bool)> {
    v.map_values(|m: MountSpec| (m.host@, m.guest@, m.ro))
}

pub fn resolve_mounts(ms: &Vec<PackageMount>, comp: &str, package_dir: &str, data_dir: &str) -> (r: Vec<MountSpec>)
    ensures
        mount_triples(r@) == resolved_mounts(ms@, comp@, package_dir@, data_dir@),
{
    let mut out: Vec<MountSpec> = Vec::new();
    let mut i: usize = 0;
    while i < ms.len()
        invariant
            i <= ms@.len(),
            mount_triples(out@) == resolved_mounts(ms@.subrange(0, i as int), comp@, package_dir@, data_dir@),
        decreases ms.len() - i,
    {
        proof {
            assert(ms@.subrange(0, i + 1).drop_last() =~= ms@.subrange(0, i as int));
            assert(ms@.subrange(0, i + 1).last() == ms@[i as int]);
        }
        match resolve_mount(&ms[i], comp, package_dir, data_dir) {
            Some(m) => {
                let ghost before = mount_triples(out@);
                out.push(m);
                assert(mount_triples(out@) =~= before.push((m.host@, m.guest@, m.ro)));
            },
            None => {},
        }
        i = i + 1;
    }
    assert(ms@.subrange(0, ms@.len() as int) =~= ms@);
    out
}

/// The module in a package must have the digest its manifest names, if it
/// names one; the refusal says both.
pub fn check_wasm_digest(manifest_sha: Option<&str>, actual: &str) -> (r: Result<(), String>)
    ensures
        match manifest_sha {
            Some(m) => if m@ == actual@ {
                r is Ok
            } else {
                r matches Err(e) && e@ == "wasm sha256 mismatch: manifest="@ + m@ + ", actual="@ + actual@
            },
            None => r is Ok,
        },
{
    match manifest_sha {
        Some(m) => if str_eq(m, actual) {
            Ok(())
        } else {
            Err(String::from_str("wasm sha256 mismatch: manifest=").concat(m).concat(", actual=").concat(actual))
        },
        None => Ok(()),
    }
}

/// The specification a component from a package runs with: its module by
/// digest from the cache, one replica, 64 MB, no fuel limit, 100 ms epochs,
/// the resolved mounts (none when empty), started, for every node.
pub fn package_component_spec(wasm_digest: &str, mounts: Vec<MountSpec>) -> (r: ComponentSpec)
    ensures
        r.source@ == "cached:"@ + wasm_digest@,
        r.sha256_hex@ == wasm_digest@,
        r.replicas == Some(1u32),
        r.memory_max_mb == Some(64u64),
        r.fuel is None,
        r.epoch_ms == Some(100u64),
        mounts@.len() == 0 ==> r.mounts is None,
        mounts@.len() > 0 ==> r.mounts == Some(mounts),
        r.ports is None,
        r.visibility is None,
        r.target_peer_ids@.len() == 0,
        r.target_tags@.len() == 0,
        r.start,
{
    let mounts = if mounts.len() == 0 {
        None
    } else {
        Some(mounts)
    };
    ComponentSpec {
        source: String::from_str("cached:").concat(wasm_digest),
        sha256_hex: String::from_str(wasm_digest),
        replicas: Some(1),
        memory_max_mb: Some(64),
        fuel: None,
        epoch_ms: Some(100),
        mounts,
        ports: None,
        visibility: None,
        target_peer_ids: Vec::new(),
        target_tags: Vec::new(),
        start: true,
    }
}

/// The name a package is installed under: the form's name when given
/// (trimmed, non-blank), else the manifest's.
pub fn package_component_name(name_override: Option<&str>, manifest_name: &str) -> (r: String)
    ensures
        r@ == (match name_override {
            Some(n) => if crate::text::trim(n@).len() > 0 {
                crate::text::trim(n@)
            } else {
                manifest_name@
            },
            None => manifest_name@,
        }),
{
    match name_override {
        Some(n) => {
            let t = crate::text::trim_str(n);
            if t.unicode_len() > 0 {
                String::from_str(t)
            } else {
                String::from_str(manifest_name)
            }
        },
        None => String::from_str(manifest_name),
    }
}


/// Check a fetched component module against its manifest digest: on a match,
/// the file name it is staged under; otherwise the refusal naming the
/// component.
pub fn verify_component_bytes(name: &str, expected_sha256_hex: &str, bytes: &[u8]) -> (r: Result<String, String>)
    ensures
        crate::digest::sha256_hex_spec(bytes@) == expected_sha256_hex@ ==> (r matches Ok(f) && f@ == name@ + "-"@
            + expected_sha256_hex@.subrange(0, 16) + ".wasm"@),
        crate::digest::sha256_hex_spec(bytes@) != expected_sha256_hex@ ==> (r matches Err(e) && e@ == "component "@
            + name@ + " digest mismatch"@),
{
    let digest = crate::digest::sha256_hex(bytes);
    if str_eq(digest.as_str(), expected_sha256_hex) {
        Ok(crate::admission::staged_artifact_name(name, digest.as_str()))
    } else {
        Err(String::from_str("component ").concat(name).concat(" digest mismatch"))
    }
}


pub open spec fn opt_text(o: Option<String>) -> Option<Seq<char>> {
    match o {
        Some(s) => Some(s@),
        None => None,
    }
}

/// The mounts a package made from a directory declares: `static/` served at
/// `/www` and `config/` at `/etc/app` (read-only files), and a state volume
/// named after the component at `/data` seeded from `seed-data/`, each when
/// the directory is there.
pub fn package_mounts(comp_name: &str, has_static: bool, has_config: bool, has_seed: bool) -> (r: Vec<PackageMount>)
    ensures
        r@.len() == (if has_static { 1int } else { 0 }) + (if has_config { 1int } else { 0 }) + (if has_seed {
            1int
        } else {
            0
        }),
        forall|i: int|
            0 <= i < r@.len() ==> {
                let m = #[trigger] r@[i];
                m.size_mb is None && (if m.kind == MountKind::Static {
                    has_static && i == 0 && m.guest@ == "/www"@ && opt_text(m.source) == Some("static/"@)
                        && m.volume is None && m.seed is None
                } else if m.kind == MountKind::Config {
                    has_config && m.guest@ == "/etc/app"@ && opt_text(m.source) == Some("config/"@)
                        && m.volume is None && m.seed is None
                } else {
                    m.kind == MountKind::State && has_seed && i == r@.len() - 1 && m.guest@ == "/data"@
                        && m.source is None && opt_text(m.volume) == Some(comp_name@) && opt_text(m.seed) == Some(
                        "seed-data/"@,
                    )
                })
            },
{
    let mut mounts: Vec<PackageMount> = Vec::new();
    if has_static {
        mounts.push(
            PackageMount {
                kind: MountKind::Static,
                source: Some(String::from_str("static/")),
                guest: String::from_str("/www"),
                size_mb: None,
                volume: None,
                seed: None,
            },
        );
    }
    if has_config {
        mounts.push(
            PackageMount {
                kind: MountKind::Config,
                source: Some(String::from_str("config/")),
                guest: String::from_str("/etc/app"),
                size_mb: None,
                volume: None,
                seed: None,
            },
        );
    }
    if has_seed {
        mounts.push(
            PackageMount {
                kind: MountKind::State,
                source: None,
                guest: String::from_str("/data"),
                size_mb: None,
                volume: Some(String::from_str(comp_name)),
                seed: Some(String::from_str("seed-data/")),
            },
        );
    }
    mounts
}

/// The file a package is written to by default: the directory's name with
/// `.realm` appended unless it already ends so.
pub fn package_file_name(base: &str) -> (r: String)
    ensures
        r@ == (if crate::text::ends_with(base@, ".realm"@) { base@ } else { base@ + ".realm"@ }),
{
    if crate::text::str_ends_with(base, ".realm") {
        String::from_str(base)
    } else {
        String::from_str(base).concat(".realm")
    }
}

/// Where a package with digest `digest` is unpacked under the agent data
/// directory `data_dir`.
pub fn package_dir(data_dir: &str, digest: &str) -> (r: String)
    ensures
        r@ == data_dir@ + "/artifacts/packages/"@ + digest@,
{
    String::from_str(data_dir).concat("/artifacts/packages/").concat(digest)
}

/// A package ready to be installed: the component's name, its module's
/// digest, the specification it runs with, and the file name its module is
/// staged under.
pub struct PackageInstall {
    pub name: String,
    pub wasm_digest: String,
    pub spec: ComponentSpec,
    pub staged_file: String,
}

/// Plan the installation of an unpacked package under the name `comp_name`,
/// whose module read `wasm`: the module must have the manifest's digest (if
/// it names one); the mounts are resolved against `package_dir` and
/// `data_dir`; the component runs from the cached module.
pub fn plan_package_install(
    manifest: &PackageManifest,
    comp_name: &str,
    package_dir: &str,
    data_dir: &str,
    wasm: &[u8],
) -> (r: Result<PackageInstall, String>)
    ensures
        ({
            let d = crate::digest::sha256_hex_spec(wasm@);
            match opt_text(manifest.component.sha256) {
                Some(m) if m != d => r matches Err(e) && e@ == "wasm sha256 mismatch: manifest="@ + m
                    + ", actual="@ + d,
                _ => r matches Ok(p) && p.name@ == comp_name@ && p.wasm_digest@ == d
                    && p.staged_file@ == comp_name@ + "-"@ + d.subrange(0, 16) + ".wasm"@
                    && p.spec.source@ == "cached:"@ + d && p.spec.sha256_hex@ == d
                    && p.spec.replicas == Some(1u32) && p.spec.memory_max_mb == Some(64u64)
                    && p.spec.fuel is None && p.spec.epoch_ms == Some(100u64) && p.spec.ports is None
                    && p.spec.visibility is None && p.spec.target_peer_ids@.len() == 0
                    && p.spec.target_tags@.len() == 0 && p.spec.start && match p.spec.mounts {
                    Some(ms) => ms@.len() > 0 && mount_triples(ms@) == resolved_mounts(
                        manifest.mounts@,
                        comp_name@,
                        package_dir@,
                        data_dir@,
                    ),
                    None => resolved_mounts(manifest.mounts@, comp_name@, package_dir@, data_dir@).len()
                        == 0,
                },
            }
        }),
{
    let digest = crate::digest::sha256_hex(wasm);
    let manifest_sha: Option<&str> = match &manifest.component.sha256 {
        Some(m) => Some(m.as_str()),
        None => None,
    };
    match check_wasm_digest(manifest_sha, digest.as_str()) {
        Ok(()) => {},
        Err(e) => {
            return Err(e);
        },
    }
    let mounts = resolve_mounts(&manifest.mounts, comp_name, package_dir, data_dir);
    let ghost mv = mounts@;
    let spec = package_component_spec(digest.as_str(), mounts);
    let staged_file = crate::admission::staged_artifact_name(comp_name, digest.as_str());
    proof {
        if mv.len() == 0 {
            assert(mount_triples(mv).len() == 0);
        }
    }
    Ok(PackageInstall { name: String::from_str(comp_name), wasm_digest: digest, spec, staged_file })
}

/// The answer to an installed package upload: the component's name and the
/// package's digest, as JSON.
pub fn install_reply(name: &str, digest: &str) -> (r: String)
    ensures
        r@ == "{\"name\":\""@ + name@ + "\",\"digest\":\""@ + digest@ + "\"}"@,
{
    String::from_str("{\"name\":\"").concat(name).concat("\",\"digest\":\"").concat(digest).concat("\"}")
}

/// The name a mount kind is shown under.
pub open spec fn kind_name(k: MountKind) -> Seq<char> {
    match k {
        MountKind::Static => "Static"@,
        MountKind::Config => "Config"@,
        MountKind::Work => "Work"@,
        MountKind::State => "State"@,
    }
}

fn kind_text(k: MountKind) -> (r: String)
    ensures
        r@ == kind_name(k),
{
    match k {
        MountKind::Static => String::from_str("Static"),
        MountKind::Config => String::from_str("Config"),
        MountKind::Work => String::from_str("Work"),
        MountKind::State => String::from_str("State"),
    }
}

/// A mount as an inspection of a package proposes it, before anything is
/// unpacked.
pub struct ProposedMount {
    pub kind: String,
    pub guest: String,
    pub host: String,
    pub ro: bool,
}

/// Where an inspection proposes to mount `m` from: package files under
/// `<package>/` (read-only, the source empty when missing), work and state
/// directories as an installation would place them under `data_dir`.
pub open spec fn proposed_host(m: PackageMount, comp: Seq<char>, data_dir: Seq<char>) -> (Seq<char>, bool) {
    match m.kind {
        MountKind::Static | MountKind::Config => (
            "<package>/"@ + match m.source {
                Some(src) => src@,
                None => Seq::empty(),
            },
            true,
        ),
        MountKind::Work => (data_dir + "/work/components/"@ + comp, false),
        MountKind::State => (
            data_dir + "/state/components/"@ + match m.volume {
                Some(v) => v@,
                None => comp,
            },
            false,
        ),
    }
}

/// The mounts an inspection of a package for component `comp` proposes,
/// one per package mount, in order.
pub fn propose_mounts(ms: &Vec<PackageMount>, comp: &str, data_dir: &str) -> (r: Vec<ProposedMount>)
    ensures
        r@.len() == ms@.len(),
        forall|i: int|
            0 <= i < r@.len() ==> {
                let p = #[trigger] r@[i];
                &&& p.kind@ == kind_name(ms@[i].kind)
                &&& p.guest@ == ms@[i].guest@
                &&& (p.host@, p.ro) == proposed_host(ms@[i], comp@, data_dir@)
            },
{
    let mut out: Vec<ProposedMount> = Vec::new();
    let mut i: usize = 0;
    while i < ms.len()
        invariant
            i <= ms@.len(),
            out@.len() == i,
            forall|k: int|
                0 <= k < i ==> {
                    let p = #[trigger] out@[k];
                    &&& p.kind@ == kind_name(ms@[k].kind)
                    &&& p.guest@ == ms@[k].guest@
                    &&& (p.host@, p.ro) == proposed_host(ms@[k], comp@, data_dir@)
                },
        decreases ms.len() - i,
    {
        let m = &ms[i];
        let (host, ro) = match m.kind {
            MountKind::Static | MountKind::Config => {
                let src: &str = match &m.source {
                    Some(s) => s.as_str(),
                    None => {
                        proof {
                            reveal_strlit("");
                            assert(""@ =~= Seq::<char>::empty());
                        }
                        ""
                    },
                };
                (String::from_str("<package>/").concat(src), true)
            },
            MountKind::Work => (String::from_str(data_dir).concat("/work/components/").concat(comp), false),
            MountKind::State => {
                let vol: &str = match &m.volume {
                    Some(v) => v.as_str(),
                    None => comp,
                };
                (String::from_str(data_dir).concat("/state/components/").concat(vol), false)
            },
        };
        out.push(ProposedMount { kind: kind_text(m.kind), guest: m.guest.clone(), host, ro });
        i = i + 1;
    }
    out
}

/// A file of a package archive as an inspection lists it.
pub struct PackageFile {
    pub path: String,
    pub is_dir: bool,
    pub size: u64,
}

/// The archive's entries (name and uncompressed size, in archive order) as
/// listed: a name ending in `/` is a directory, shown with size 0.
pub fn package_inventory(entries: &Vec<(String, u64)>) -> (r: Vec<PackageFile>)
    ensures
        r@.len() == entries@.len(),
        forall|i: int|
            0 <= i < r@.len() ==> {
                let f = #[trigger] r@[i];
                let dir = entries@[i].0@.len() > 0 && entries@[i].0@.last() == '/';
                &&& f.path@ == entries@[i].0@
                &&& f.is_dir == dir
                &&& f.size == (if dir { 0 } else { entries@[i].1 })
            },
{
    let mut out: Vec<PackageFile> = Vec::new();
    let mut i: usize = 0;
    while i < entries.len()
        invariant
            i <= entries@.len(),
            out@.len() == i,
            forall|k: int|
                0 <= k < i ==> {
                    let f = #[trigger] out@[k];
                    let dir = entries@[k].0@.len() > 0 && entries@[k].0@.last() == '/';
                    &&& f.path@ == entries@[k].0@
                    &&& f.is_dir == dir
                    &&& f.size == (if dir { 0 } else { entries@[k].1 })
                },
        decreases entries.len() - i,
    {
        let name = entries[i].0.as_str();
        let n = name.unicode_len();
        let dir = n > 0 && name.get_char(n - 1) == '/';
        out.push(PackageFile { path: String::from_str(name), is_dir: dir, size: if dir { 0 } else { entries[i].1 } });
        i = i + 1;
    }
    out
}

/// Where a state mount's volume is seeded from when a package is
/// installed: the package's seed directory (under `package_dir`), only for
/// a state mount that names a seed, and only on the volume's first install
/// (its directory was not there before, so it is empty); otherwise the
/// volume is left as it is.
pub fn seed_plan(m: &PackageMount, package_dir: &str, volume_existed: bool) -> (r: Option<String>)
    ensures
        match r {
            Some(src) => m.kind == MountKind::State && !volume_existed && (m.seed matches Some(sd) && src@
                == package_dir@ + "/"@ + sd@),
            None => !(m.kind == MountKind::State && m.seed is Some && !volume_existed),
        },
{
    if m.kind != MountKind::State || volume_existed {
        return None;
    }
    match &m.seed {
        Some(sd) => Some(String::from_str(package_dir).concat("/").concat(sd.as_str())),
        None => None,
    }
}

} // verus!
