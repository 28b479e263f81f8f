//! Deployments requested through the web UI: the upload form read field by
//! field, its validation, and the unsigned push description an owner signs
//! for it.
use vstd::prelude::*;
use vstd::string::*;

use crate::ci::{nonblank, parse_platform_list, platform_list};
use crate::component::{
    mount_entries, mounts_view, parse_mount_entries, parse_port_entries, parse_visibility,
    port_entries, ports_view, visibility_of, MountSpec, MountView, PortView, ServicePort, Visibility,
};
use crate::digest::{sha256_hex, sha256_hex_spec};
use crate::text::{
    ascii_lower, ascii_lowercase, lines, lines_of, parse_u64, parse_u64_str, str_eq, trim, trim_str,
};
use crate::web::DeployRequest;

verus! {

/// `str::parse::<u32>`.
pub open spec fn parse_u32(s: Seq<char>) -> Option<u32> {
    match parse_u64(s) {
        Some(v) => if v <= u32::MAX {
            Some(v as u32)
        } else {
            None
        },
        None => None,
    }
}

fn parse_u32_str(s: &str) -> (r: Option<u32>)
    ensures
        r == parse_u32(s@),
{
    match parse_u64_str(s) {
        Some(v) => if v <= 4294967295 {
            Some(v as u32)
        } else {
            None
        },
        None => None,
    }
}

/// The non-blank lines of a text, trimmed.
pub open spec fn entry_lines(text: Seq<char>) -> Seq<Seq<char>> {
    lines(text).map_values(|l: Seq<char>| trim(l)).filter(nonblank())
}

fn entry_lines_of(text: &str) -> (r: Vec<String>)
    ensures
        r.deep_view() == entry_lines(text@),
{
    let ls = lines_of(text);
    let ghost all = lines(text@);
    let ghost tr = all.map_values(|l: Seq<char>| trim(l));
    let mut out: Vec<String> = Vec::new();
    let mut i: usize = 0;
    proof {
        reveal(Seq::filter);
        assert(tr.subrange(0, 0) =~= Seq::<Seq<char>>::empty());
    }
    while i < ls.len()
        invariant
            ls@.len() == all.len(),
            forall|k: int| 0 <= k < ls@.len() ==> #[trigger] ls@[k]@ == all[k],
            tr == all.map_values(|l: Seq<char>| trim(l)),
            i <= ls@.len(),
            out.deep_view() == tr.subrange(0, i as int).filter(nonblank()),
        decreases ls.len() - i,
    {
        let t = trim_str(ls[i]);
        let ghost before = out.deep_view();
        proof {
            assert(tr[i as int] == t@);
            assert(tr.subrange(0, i + 1) =~= tr.subrange(0, i as int).push(t@));
            tr.subrange(0, i as int).lemma_filter_push(t@, nonblank());
        }
        if t.unicode_len() > 0 {
            out.push(String::from_str(t));
            assert(out.deep_view() =~= before.push(t@));
        }
        i = i + 1;
    }
    assert(tr.subrange(0, tr.len() as int) =~= tr);
    out
}

/// The deploy form as it has been read so far.
pub struct DeployForm {
    pub name: Option<String>,
    pub replicas: Option<u32>,
    pub memory_max_mb: Option<u64>,
    pub fuel: Option<u64>,
    pub epoch_ms: Option<u64>,
    pub tags_csv: Option<String>,
    pub file: Option<Vec<u8>>,
    pub mounts: Vec<String>,
    pub ports: Vec<String>,
    pub visibility: Option<String>,
    pub start: Option<bool>,
}

pub struct FormView {
    pub name: Option<Seq<char>>,
    pub replicas: Option<u32>,
    pub memory_max_mb: Option<u64>,
    pub fuel: Option<u64>,
    pub epoch_ms: Option<u64>,
    pub tags_csv: Option<Seq<char>>,
    pub file: Option<Seq<u8>>,
    pub mounts: Seq<Seq<char>>,
    pub ports: Seq<Seq<char>>,
    pub visibility: Option<Seq<char>>,
    pub start: Option<bool>,
}

pub open spec fn opt_text(o: Option<String>) -> Option<Seq<char>> {
    match o {
        Some(s) => Some(s@),
        None => None,
    }
}

pub open spec fn opt_bytes(o: Option<Vec<u8>>) -> Option<Seq<u8>> {
    match o {
        Some(b) => Some(b@),
        None => None,
    }
}

impl View for DeployForm {
    type V = FormView;

    open spec fn view(&self) -> FormView {
        FormView {
            name: opt_text(self.name),
            replicas: self.replicas,
            memory_max_mb: self.memory_max_mb,
            fuel: self.fuel,
            epoch_ms: self.epoch_ms,
            tags_csv: opt_text(self.tags_csv),
            file: opt_bytes(self.file),
            mounts: self.mounts.deep_view(),
            ports: self.ports.deep_view(),
            visibility: opt_text(self.visibility),
            start: self.start,
        }
    }
}

/// A number field: its value when its text reads as one.
pub open spec fn number_field(text: Option<Seq<char>>) -> Option<u64> {
    match text {
        Some(t) => parse_u64(t),
        None => None,
    }
}

/// The words the `start` field reads as true (trimmed, any ASCII case).
pub open spec fn start_on(text: Seq<char>) -> bool {
    let v = ascii_lower(trim(text));
    v == "1"@ || v == "true"@ || v == "yes"@ || v == "on"@
}

/// The form after its text field `field` arrived with `text` (`None` when
/// the text could not be read): `name`, `tags` and `visibility` take the
/// text; `replicas`, `memory`/`memory_max_mb`, `fuel` and `epoch`/`epoch_ms`
/// its number; `mount` and `port` add a non-blank entry, `mounts` and
/// `ports` each non-blank line; `start` is on for `1`, `true`, `yes` or
/// `on` (and when unreadable); other fields change nothing.
pub open spec fn with_text(f: FormView, field: Seq<char>, text: Option<Seq<char>>) -> FormView {
    if field == "name"@ {
        FormView { name: text, ..f }
    } else if field == "replicas"@ {
        FormView {
            replicas: match text {
                Some(t) => parse_u32(t),
                None => None,
            },
            ..f
        }
    } else if field == "memory"@ || field == "memory_max_mb"@ {
        FormView { memory_max_mb: number_field(text), ..f }
    } else if field == "fuel"@ {
        FormView { fuel: number_field(text), ..f }
    } else if field == "epoch"@ || field == "epoch_ms"@ {
        FormView { epoch_ms: number_field(text), ..f }
    } else if field == "tags"@ {
        FormView { tags_csv: text, ..f }
    } else if field == "mount"@ {
        match text {
            Some(t) => if trim(t).len() > 0 {
                FormView { mounts: f.mounts.push(t), ..f }
            } else {
                f
            },
            None => f,
        }
    } else if field == "mounts"@ {
        match text {
            Some(t) => FormView { mounts: f.mounts + entry_lines(t), ..f },
            None => f,
        }
    } else if field == "port"@ {
        match text {
            Some(t) => if trim(t).len() > 0 {
                FormView { ports: f.ports.push(t), ..f }
            } else {
                f
            },
            None => f,
        }
    } else if field == "ports"@ {
        match text {
            Some(t) => FormView { ports: f.ports + entry_lines(t), ..f },
            None => f,
        }
    } else if field == "visibility"@ {
        FormView { visibility: text, ..f }
    } else if field == "start"@ {
        FormView {
            start: Some(
                match text {
                    Some(t) => start_on(t),
                    None => true,
                },
            ),
            ..f
        }
    } else {
        f
    }
}

/// Is `field` the module file, read as bytes rather than text?
pub fn is_file_field(field: &str) -> (r: bool)
    ensures
        r == (field@ == "file"@),
{
    str_eq(field, "file")
}

fn number_field_of(text: &Option<String>) -> (r: Option<u64>)
    ensures
        r == number_field(opt_text(*text)),
{
    match text {
        Some(t) => parse_u64_str(t.as_str()),
        None => None,
    }
}

fn append_strings(v: &mut Vec<String>, more: Vec<String>)
    ensures
        final(v).deep_view() == old(v).deep_view() + more.deep_view(),
{
    let ghost start = v.deep_view();
    let mut i: usize = 0;
    assert(more.deep_view().subrange(0, 0) =~= Seq::<Seq<char>>::empty());
    while i < more.len()
        invariant
            i <= more@.len(),
            v.deep_view() == start + more.deep_view().subrange(0, i as int),
        decreases more.len() - i,
    {
        let ghost before = v.deep_view();
        v.push(more[i].clone());
        assert(v.deep_view() =~= before.push(more.deep_view()[i as int]));
        assert(more.deep_view().subrange(0, i + 1) =~= more.deep_view().subrange(0, i as int).push(
            more.deep_view()[i as int],
        ));
        i = i + 1;
    }
    assert(more.deep_view().subrange(0, more@.len() as int) =~= more.deep_view());
}

impl DeployForm {
    /// A form of which nothing has arrived yet.
    pub fn new() -> (r: DeployForm)
        ensures
            r@ == (FormView {
                name: None,
                replicas: None,
                memory_max_mb: None,
                fuel: None,
                epoch_ms: None,
                tags_csv: None,
                file: None,
                mounts: Seq::empty(),
                ports: Seq::empty(),
                visibility: None,
                start: None,
            }),
    {
        let r = DeployForm {
            name: None,
            replicas: None,
            memory_max_mb: None,
            fuel: None,
            epoch_ms: None,
            tags_csv: None,
            file: None,
            mounts: Vec::new(),
            ports: Vec::new(),
            visibility: None,
            start: None,
        };
        assert(r@.mounts =~= Seq::<Seq<char>>::empty());
        assert(r@.ports =~= Seq::<Seq<char>>::empty());
        r
    }

    /// Take in text field `field` (see `with_text`).
    pub fn text_field(&mut self, field: &str, text: Option<String>)
        ensures
            final(self)@ == with_text(old(self)@, field@, opt_text(text)),
    {
        proof {
            reveal_strlit("name");
            reveal_strlit("replicas");
            reveal_strlit("memory");
            reveal_strlit("memory_max_mb");
            reveal_strlit("fuel");
            reveal_strlit("epoch");
            reveal_strlit("epoch_ms");
            reveal_strlit("tags");
            reveal_strlit("mount");
            reveal_strlit("mounts");
            reveal_strlit("port");
            reveal_strlit("ports");
            reveal_strlit("visibility");
            reveal_strlit("start");
        }
        if str_eq(field, "name") {
            self.name = text;
        } else if str_eq(field, "replicas") {
            self.replicas = match &text {
                Some(t) => parse_u32_str(t.as_str()),
                None => None,
            };
        } else if str_eq(field, "memory") || str_eq(field, "memory_max_mb") {
            self.memory_max_mb = number_field_of(&text);
        } else if str_eq(field, "fuel") {
            self.fuel = number_field_of(&text);
        } else if str_eq(field, "epoch") || str_eq(field, "epoch_ms") {
            self.epoch_ms = number_field_of(&text);
        } else if str_eq(field, "tags") {
            self.tags_csv = text;
        } else if str_eq(field, "mount") {
            match text {
                Some(t) => {
                    if trim_str(t.as_str()).unicode_len() > 0 {
                        let ghost before = self.mounts.deep_view();
                        let ghost tv = t@;
                        self.mounts.push(t);
                        assert(self.mounts.deep_view() =~= before.push(tv));
                    }
                },
                None => {},
            }
        } else if str_eq(field, "mounts") {
            match text {
                Some(t) => {
                    let more = entry_lines_of(t.as_str());
                    append_strings(&mut self.mounts, more);
                },
                None => {},
            }
        } else if str_eq(field, "port") {
            match text {
                Some(t) => {
                    if trim_str(t.as_str()).unicode_len() > 0 {
                        let ghost before = self.ports.deep_view();
                        let ghost tv = t@;
                        self.ports.push(t);
                        assert(self.ports.deep_view() =~= before.push(tv));
                    }
                },
                None => {},
            }
        } else if str_eq(field, "ports") {
            match text {
                Some(t) => {
                    let more = entry_lines_of(t.as_str());
                    append_strings(&mut self.ports, more);
                },
                None => {},
            }
        } else if str_eq(field, "visibility") {
            self.visibility = text;
        } else if str_eq(field, "start") {
            let on = match &text {
                Some(t) => {
                    let v = ascii_lowercase(trim_str(t.as_str()));
                    str_eq(v.as_str(), "1") || str_eq(v.as_str(), "true") || str_eq(v.as_str(), "yes")
                        || str_eq(v.as_str(), "on")
                },
                None => true,
            };
            self.start = Some(on);
        }
    }

    /// Take in the module file (`None` when it could not be read).
    pub fn file_field(&mut self, bytes: Option<Vec<u8>>)
        ensures
            final(self)@ == (FormView { file: opt_bytes(bytes), ..old(self)@ }),
    {
        self.file = bytes;
    }
}

/// The mounts of a form's entries: none without entries, else every entry
/// read, or the first error.
pub open spec fn mounts_outcome(es: Seq<Seq<char>>) -> Result<Option<Seq<MountView>>, Seq<char>> {
    if es.len() == 0 {
        Ok(None)
    } else {
        match mount_entries(es) {
            Ok(ms) => Ok(Some(ms)),
            Err(e) => Err(e),
        }
    }
}

/// The ports of a form's entries: none when no entry names one, else the
/// ports, or the first error.
pub open spec fn ports_outcome(es: Seq<Seq<char>>) -> Result<Option<Seq<PortView>>, Seq<char>> {
    match port_entries(es) {
        Ok(ps) => if ps.len() == 0 {
            Ok(None)
        } else {
            Ok(Some(ps))
        },
        Err(e) => Err(e),
    }
}

pub open spec fn opt_mounts(o: Option<Vec<MountSpec>>) -> Option<Seq<MountView>> {
    match o {
        Some(v) => Some(mounts_view(v@)),
        None => None,
    }
}

pub open spec fn opt_ports(o: Option<Vec<ServicePort>>) -> Option<Seq<PortView>> {
    match o {
        Some(v) => Some(ports_view(v@)),
        None => None,
    }
}

/// A validated deployment: the component, its module and how it is to run.
pub struct DeployDraft {
    pub name: String,
    pub bin: Vec<u8>,
    pub tags: Vec<String>,
    pub replicas: u32,
    pub memory_max_mb: Option<u64>,
    pub fuel: Option<u64>,
    pub epoch_ms: Option<u64>,
    pub mounts: Option<Vec<MountSpec>>,
    pub ports: Option<Vec<ServicePort>>,
    pub visibility: Option<Visibility>,
    pub start: bool,
}

impl DeployForm {
    /// Validate the completed form: a name and a non-empty module are
    /// required (refused with "Missing name" / "Missing file"), then the
    /// mounts, ports and visibility must read; the tags are the
    /// comma-separated list, one replica and starting are the defaults.
    pub fn finish(self) -> (r: Result<DeployDraft, String>)
        ensures
            ({
                let f = self@;
                if !(f.name matches Some(n) && n.len() > 0) {
                    r matches Err(e) && e@ == "Missing name"@
                } else if !(f.file matches Some(b) && b.len() > 0) {
                    r matches Err(e) && e@ == "Missing file"@
                } else if mounts_outcome(f.mounts) is Err {
                    r matches Err(e) && mounts_outcome(f.mounts) == Err::<Option<Seq<MountView>>, Seq<char>>(e@)
                } else if ports_outcome(f.ports) is Err {
                    r matches Err(e) && ports_outcome(f.ports) == Err::<Option<Seq<PortView>>, Seq<char>>(e@)
                } else if visibility_of(f.visibility) is Err {
                    r matches Err(e) && visibility_of(f.visibility) == Err::<Option<Visibility>, Seq<char>>(e@)
                } else {
                    r matches Ok(d) && d.name@ == f.name->0 && d.bin@ == f.file->0 && d.tags.deep_view()
                        == platform_list(
                        match f.tags_csv {
                            Some(t) => t,
                            None => Seq::empty(),
                        },
                    ) && d.replicas == (match f.replicas {
                        Some(x) => x,
                        None => 1,
                    }) && d.memory_max_mb == f.memory_max_mb && d.fuel == f.fuel && d.epoch_ms
                        == f.epoch_ms && mounts_outcome(f.mounts) == Ok::<
                        Option<Seq<MountView>>,
                        Seq<char>,
                    >(opt_mounts(d.mounts)) && ports_outcome(f.ports) == Ok::<
                        Option<Seq<PortView>>,
                        Seq<char>,
                    >(opt_ports(d.ports)) && visibility_of(f.visibility) == Ok::<
                        Option<Visibility>,
                        Seq<char>,
                    >(d.visibility) && d.start == (match f.start {
                        Some(s) => s,
                        None => true,
                    })
                }
            }),
    {
        let ghost f = self@;
        let DeployForm {
            name,
            replicas,
            memory_max_mb,
            fuel,
            epoch_ms,
            tags_csv,
            file,
            mounts,
            ports,
            visibility,
            start,
        } = self;
        let name = match name {
            Some(n) => {
                if n.as_str().unicode_len() == 0 {
                    return Err(String::from_str("Missing name"));
                }
                n
            },
            None => {
                return Err(String::from_str("Missing name"));
            },
        };
        let bin = match file {
            Some(b) => {
                if b.len() == 0 {
                    return Err(String::from_str("Missing file"));
                }
                b
            },
            None => {
                return Err(String::from_str("Missing file"));
            },
        };
        let tags = match &tags_csv {
            Some(t) => parse_platform_list(t.as_str()),
            None => {
                proof {
                    reveal_strlit("");
                    assert(""@ =~= Seq::<char>::empty());
                }
                parse_platform_list("")
            },
        };
        let mounts = match parse_mount_entries(&mounts) {
            Ok(m) => m,
            Err(e) => {
                return Err(e);
            },
        };
        let ports = match parse_port_entries(&ports) {
            Ok(p) => p,
            Err(e) => {
                return Err(e);
            },
        };
        let vis_raw: Option<&str> = match &visibility {
            Some(v) => Some(v.as_str()),
            None => None,
        };
        let visibility = match parse_visibility(vis_raw) {
            Ok(v) => v,
            Err(e) => {
                return Err(e);
            },
        };
        Ok(
            DeployDraft {
                name,
                bin,
                tags,
                replicas: match replicas {
                    Some(x) => x,
                    None => 1,
                },
                memory_max_mb,
                fuel,
                epoch_ms,
                mounts,
                ports,
                visibility,
                start: match start {
                    Some(s) => s,
                    None => true,
                },
            },
        )
    }
}

/// What an owner signs to push a component: the signature scheme, the
/// owner's public key, the component and its placement, limits and module
/// digest.
pub struct PushUnsigned {
    pub alg: String,
    pub owner_pub_bs58: String,
    pub component_name: String,
    pub target_peer_ids: Vec<String>,
    pub target_tags: Vec<String>,
    pub memory_max_mb: Option<u64>,
    pub fuel: Option<u64>,
    pub epoch_ms: Option<u64>,
    pub replicas: u32,
    pub start: bool,
    pub binary_sha256_hex: String,
    pub mounts: Option<Vec<MountSpec>>,
    pub ports: Option<Vec<ServicePort>>,
    pub visibility: Option<Visibility>,
}

/// The push description of a validated deployment, for the owner with
/// public key `owner_pub_bs58`: Ed25519, addressed by tags only, with the
/// module's SHA-256 digest. The module comes back with it.
pub fn push_unsigned(draft: DeployDraft, owner_pub_bs58: String) -> (r: (PushUnsigned, Vec<u8>))
    ensures
        r.0.alg@ == "ed25519"@,
        r.0.owner_pub_bs58 == owner_pub_bs58,
        r.0.component_name == draft.name,
        r.0.target_peer_ids@.len() == 0,
        r.0.target_tags == draft.tags,
        r.0.memory_max_mb == draft.memory_max_mb,
        r.0.fuel == draft.fuel,
        r.0.epoch_ms == draft.epoch_ms,
        r.0.replicas == draft.replicas,
        r.0.start == draft.start,
        r.0.binary_sha256_hex@ == sha256_hex_spec(draft.bin@),
        r.0.mounts == draft.mounts,
        r.0.ports == draft.ports,
        r.0.visibility == draft.visibility,
        r.1 == draft.bin,
{
    let digest = sha256_hex(draft.bin.as_slice());
    let DeployDraft {
        name,
        bin,
        tags,
        replicas,
        memory_max_mb,
        fuel,
        epoch_ms,
        mounts,
        ports,
        visibility,
        start,
    } = draft;
    (
        PushUnsigned {
            alg: String::from_str("ed25519"),
            owner_pub_bs58,
            component_name: name,
            target_peer_ids: Vec::new(),
            target_tags: tags,
            memory_max_mb,
            fuel,
            epoch_ms,
            replicas,
            start,
            binary_sha256_hex: digest,
            mounts,
            ports,
            visibility,
        },
        bin,
    )
}

/// Where the module of a deploy request is read from: the request must
/// name the component, its source and digest (else 400), and the source
/// must be a `file://` path (else 501, other sources are not fetched).
pub fn deploy_source_path(req: &DeployRequest) -> (r: Result<String, (u16, &'static str)>)
    ensures
        match r {
            Ok(p) => req.name@.len() > 0 && req.source@.len() > 0 && req.sha256_hex@.len() > 0
                && req.source@.len() >= 7 && req.source@.subrange(0, 7) == "file://"@ && p@
                == req.source@.subrange(7, req.source@.len() as int),
            Err((code, msg)) => if req.name@.len() == 0 || req.source@.len() == 0
                || req.sha256_hex@.len() == 0 {
                code == 400 && msg@ == "Missing required fields: name, source, sha256_hex"@
            } else {
                !(req.source@.len() >= 7 && req.source@.subrange(0, 7) == "file://"@) && code == 501
                    && msg@ == "HTTP sources not yet implemented"@
            },
        },
{
    if req.name.as_str().unicode_len() == 0 || req.source.as_str().unicode_len() == 0
        || req.sha256_hex.as_str().unicode_len() == 0 {
        return Err((400, "Missing required fields: name, source, sha256_hex"));
    }
    proof {
        reveal_strlit("file://");
    }
    if crate::text::str_starts_with(req.source.as_str(), "file://") {
        let n = req.source.as_str().unicode_len();
        Ok(String::from_str(req.source.as_str().substring_char(7, n)))
    } else {
        Err((501, "HTTP sources not yet implemented"))
    }
}

/// The module of a deploy request must have the digest it names (else 400
/// "Digest mismatch"); its digest is returned.
pub fn check_deployed_module(expected_sha256_hex: &str, bin: &[u8]) -> (r: Result<String, (u16, &'static str)>)
    ensures
        sha256_hex_spec(bin@) == expected_sha256_hex@ ==> (r matches Ok(d) && d@ == expected_sha256_hex@),
        sha256_hex_spec(bin@) != expected_sha256_hex@ ==> (r matches Err((code, msg)) && code == 400 && msg@
            == "Digest mismatch"@),
{
    let digest = sha256_hex(bin);
    if str_eq(digest.as_str(), expected_sha256_hex) {
        Ok(digest)
    } else {
        Err((400, "Digest mismatch"))
    }
}

/// What an accepted push stages and schedules: the module file under
/// `stage_dir` (named after the component and the first sixteen digits of
/// the module's digest `digest`), and, when the push asks to start, the
/// component to run from it with the pushed limits and placement.
pub fn accepted_push(u: PushUnsigned, stage_dir: &str, digest: &str) -> (r: (String, Option<crate::supervisor::DesiredComponent>))
    requires
        digest@.len() >= 16,
    ensures
        r.0@ == stage_dir@ + "/"@ + u.component_name@ + "-"@ + digest@.subrange(0, 16) + ".wasm"@,
        !u.start ==> r.1 is None,
        u.start ==> (r.1 matches Some(d) && d.name == u.component_name && d.path == r.0 && d.spec.source@
            == "cached:"@ + u.binary_sha256_hex@ && d.spec.sha256_hex == u.binary_sha256_hex
            && d.spec.replicas == Some(u.replicas) && d.spec.memory_max_mb == u.memory_max_mb
            && d.spec.fuel == u.fuel && d.spec.epoch_ms == u.epoch_ms && d.spec.mounts == u.mounts
            && d.spec.ports == u.ports && d.spec.visibility == u.visibility && d.spec.target_peer_ids
            == u.target_peer_ids && d.spec.target_tags == u.target_tags && d.spec.start),
{
    let path = crate::admission::staged_module_path(stage_dir, u.component_name.as_str(), digest);
    if !u.start {
        return (path, None);
    }
    let PushUnsigned {
        alg: _,
        owner_pub_bs58: _,
        component_name,
        target_peer_ids,
        target_tags,
        memory_max_mb,
        fuel,
        epoch_ms,
        replicas,
        start,
        binary_sha256_hex,
        mounts,
        ports,
        visibility,
    } = u;
    let source = String::from_str("cached:").concat(binary_sha256_hex.as_str());
    let spec = crate::supervisor::ComponentSpec {
        source,
        sha256_hex: binary_sha256_hex,
        replicas: Some(replicas),
        memory_max_mb,
        fuel,
        epoch_ms,
        mounts,
        ports,
        visibility,
        target_peer_ids,
        target_tags,
        start,
    };
    let path2 = path.clone();
    (path, Some(crate::supervisor::DesiredComponent { name: component_name, path: path2, spec }))
}

/// The log line of an accepted push of `size` bytes with digest `digest`.
pub fn pushed_log(size: usize, digest: &str) -> (r: String)
    requires
        digest@.len() >= 16,
    ensures
        r@ == "pushed "@ + crate::text::decimal(size as nat) + " bytes (sha256="@ + digest@.subrange(0, 16)
            + ")"@,
{
    String::from_str("pushed ").concat(crate::text::u64_to_decimal(size as u64).as_str()).concat(
        " bytes (sha256=",
    ).concat(digest.substring_char(0, 16)).concat(")")
}

/// A signed push as it is sent: the description, the module and the
/// owner's signature over the description, both in base64.
pub struct PushPackage {
    pub unsigned: PushUnsigned,
    pub binary_b64: String,
    pub signature_b64: String,
}

/// Pack a signed push: the module `bin` and the signature `signature` are
/// encoded in standard base64.
pub fn pack_push(unsigned: PushUnsigned, bin: &[u8], signature: &[u8]) -> (r: PushPackage)
    ensures
        r.unsigned == unsigned,
        r.binary_b64@ == crate::digest::base64_standard_encode(bin@),
        r.signature_b64@ == crate::digest::base64_standard_encode(signature@),
{
    PushPackage {
        unsigned,
        binary_b64: crate::digest::encode_base64(bin),
        signature_b64: crate::digest::encode_base64(signature),
    }
}

/// The push a JSON deploy request makes, for the owner with public key
/// `owner_pub_bs58` and the checked module digest `digest`: the request's
/// limits, a fuel limit only when it is positive, one replica unless the
/// request asks for more, started, for every node, without mounts, ports or
/// visibility (the request carries none).
pub fn deploy_request_unsigned(req: &DeployRequest, owner_pub_bs58: String, digest: String) -> (r: PushUnsigned)
    ensures
        r.alg@ == "ed25519"@,
        r.owner_pub_bs58 == owner_pub_bs58,
        r.component_name@ == req.name@,
        r.target_peer_ids@.len() == 0,
        r.target_tags@.len() == 0,
        r.memory_max_mb == req.memory_max_mb,
        r.fuel == (match req.fuel {
            Some(f) => if f > 0 {
                Some(f)
            } else {
                None
            },
            None => None,
        }),
        r.epoch_ms == req.epoch_ms,
        r.replicas == (match req.replicas {
            Some(n) => n,
            None => 1,
        }),
        r.start,
        r.binary_sha256_hex == digest,
        r.mounts is None,
        r.ports is None,
        r.visibility is None,
{
    PushUnsigned {
        alg: String::from_str("ed25519"),
        owner_pub_bs58,
        component_name: req.name.clone(),
        target_peer_ids: Vec::new(),
        target_tags: Vec::new(),
        memory_max_mb: req.memory_max_mb,
        fuel: match req.fuel {
            Some(f) => if f > 0 {
                Some(f)
            } else {
                None
            },
            None => None,
        },
        epoch_ms: req.epoch_ms,
        replicas: match req.replicas {
            Some(n) => n,
            None => 1,
        },
        start: true,
        binary_sha256_hex: digest,
        mounts: None,
        ports: None,
        visibility: None,
    }
}

} // verus!
