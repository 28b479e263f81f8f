//! The upload forms of the management web API (agent upgrades, manifests,
//! agent installs, job specifications, peer addresses): what the fields of
//! each form give, where uploads are staged, and how each is answered.
use vstd::prelude::*;
use vstd::string::*;

use crate::text::{parse_u64, parse_u64_str, str_eq, trim, trim_str};

verus! {

/// A `version` field: its number, 1 when the text is missing or is not a
/// number.
pub open spec fn version_of(text: Option<Seq<char>>) -> u64 {
    match text {
        Some(t) => match parse_u64(t) {
            Some(v) => v,
            None => 1,
        },
        None => 1,
    }
}

pub fn version_field(text: Option<String>) -> (r: u64)
    ensures
        r == version_of(crate::platform::opt_string_view(text)),
{
    match text {
        Some(t) => match parse_u64_str(t.as_str()) {
            Some(v) => v,
            None => 1,
        },
        None => 1,
    }
}

/// The agent-upgrade form as its fields arrive: every `file` field's
/// bytes, every non-blank `platform` field (as sent), and the version.
pub struct UpgradeForm {
    pub bins: Vec<Vec<u8>>,
    pub platforms: Vec<String>,
    pub version: u64,
}

impl UpgradeForm {
    pub fn new() -> (r: UpgradeForm)
        ensures
            r.bins@.len() == 0,
            r.platforms@.len() == 0,
            r.version == 1,
    {
        UpgradeForm { bins: Vec::new(), platforms: Vec::new(), version: 1 }
    }

    /// A `file` field: kept when its bytes were read.
    pub fn file_field(&mut self, bytes: Option<Vec<u8>>)
        ensures
            final(self).platforms == old(self).platforms,
            final(self).version == old(self).version,
            match bytes {
                Some(b) => final(self).bins@ == old(self).bins@.push(b),
                None => final(self).bins@ == old(self).bins@,
            },
    {
        match bytes {
            Some(b) => self.bins.push(b),
            None => {},
        }
    }

    /// A `platform` field: kept when its text is not blank.
    pub fn platform_field(&mut self, text: Option<String>)
        ensures
            final(self).bins == old(self).bins,
            final(self).version == old(self).version,
            match text {
                Some(s) => if trim(s@).len() > 0 {
                    final(self).platforms@ == old(self).platforms@.push(s)
                } else {
                    final(self).platforms@ == old(self).platforms@
                },
                None => final(self).platforms@ == old(self).platforms@,
            },
    {
        match text {
            Some(s) => {
                if trim_str(s.as_str()).unicode_len() > 0 {
                    self.platforms.push(s);
                }
            },
            None => {},
        }
    }

    /// A `version` field (see `version_of`).
    pub fn version_text(&mut self, text: Option<String>)
        ensures
            final(self).bins == old(self).bins,
            final(self).platforms == old(self).platforms,
            final(self).version == version_of(crate::platform::opt_string_view(text)),
    {
        self.version = version_field(text);
    }

    /// The binaries to send, each with the platform given at its position
    /// (none past the last platform), and the version; a form without a
    /// binary is answered 400 `missing file`.
    pub fn finish(self) -> (r: Result<(Vec<(Vec<u8>, Option<String>)>, u64), (u16, String)>)
        ensures
            self.bins@.len() == 0 ==> (r matches Err(e) && e.0 == 400 && e.1@ == "missing file"@),
            self.bins@.len() > 0 ==> (r matches Ok(p) && p.1 == self.version && p.0@.len() == self.bins@.len()
                && forall|i: int|
                0 <= i < p.0@.len() ==> (#[trigger] p.0@[i]).0 == self.bins@[i] && p.0@[i].1 == (if i
                    < self.platforms@.len() {
                    Some(self.platforms@[i])
                } else {
                    None
                })),
    {
        if self.bins.len() == 0 {
            return Err((400, String::from_str("missing file")));
        }
        let UpgradeForm { bins, platforms, version } = self;
        let ghost bs = bins@;
        let mut rest = bins;
        let mut out: Vec<(Vec<u8>, Option<String>)> = Vec::new();
        let n = rest.len();
        let mut i: usize = 0;
        while i < n
            invariant
                n == bs.len(),
                i <= n,
                rest@ == bs.subrange(i as int, n as int),
                out@.len() == i,
                forall|k: int|
                    0 <= k < i ==> (#[trigger] out@[k]).0 == bs[k] && out@[k].1 == (if k < platforms@.len() {
                        Some(platforms@[k])
                    } else {
                        None
                    }),
            decreases n - i,
        {
            let b = rest.remove(0);
            proof {
                assert(b == bs[i as int]);
                assert(rest@ =~= bs.subrange(i + 1, n as int));
            }
            let plat = if i < platforms.len() {
                Some(platforms[i].clone())
            } else {
                None
            };
            out.push((b, plat));
            i = i + 1;
        }
        Ok((out, version))
    }
}

/// Where an uploaded agent binary is staged under the agent data directory:
/// named by the first sixteen digits of its digest.
pub fn upload_agent_path(data_dir: &str, bin: &[u8]) -> (r: String)
    ensures
        r@ == data_dir@ + "/upload-agent-"@ + crate::digest::sha256_hex_spec(bin@).subrange(0, 16) + ".bin"@,
{
    let digest = crate::digest::sha256_hex(bin);
    String::from_str(data_dir).concat("/upload-agent-").concat(digest.as_str().substring_char(0, 16)).concat(".bin")
}

/// The answer to an upgrade upload: `ok`, or 400 with the first failure.
pub fn upgrade_reply(failure: Option<String>) -> (r: (u16, String))
    ensures
        match failure {
            None => r.0 == 200 && r.1@ == "ok"@,
            Some(e) => r.0 == 400 && r.1 == e,
        },
{
    match failure {
        None => (200, String::from_str("ok")),
        Some(e) => (400, e),
    }
}

/// The failure of sending one uploaded binary.
pub fn upgrade_failed(error: &str) -> (r: String)
    ensures
        r@ == "upgrade failed: "@ + error@,
{
    String::from_str("upgrade failed: ").concat(error)
}

/// A manifest upload: the last `file` field's text (none when it could not
/// be read) and the version.
pub struct ApplyForm {
    pub toml_text: Option<String>,
    pub version: u64,
}

impl ApplyForm {
    pub fn new() -> (r: ApplyForm)
        ensures
            r.toml_text is None,
            r.version == 1,
    {
        ApplyForm { toml_text: None, version: 1 }
    }

    pub fn file_field(&mut self, text: Option<String>)
        ensures
            final(self).toml_text == text,
            final(self).version == old(self).version,
    {
        self.toml_text = text;
    }

    pub fn version_text(&mut self, text: Option<String>)
        ensures
            final(self).toml_text == old(self).toml_text,
            final(self).version == version_of(crate::platform::opt_string_view(text)),
    {
        self.version = version_field(text);
    }

    /// The manifest and version to apply; 400 `missing file` without one.
    pub fn finish(self) -> (r: Result<(String, u64), (u16, String)>)
        ensures
            match self.toml_text {
                Some(t) => r == Ok::<(String, u64), (u16, String)>((t, self.version)),
                None => (r matches Err(e) && e.0 == 400 && e.1@ == "missing file"@),
            },
    {
        match self.toml_text {
            Some(t) => Ok((t, self.version)),
            None => Err((400, String::from_str("missing file"))),
        }
    }
}

/// Where an uploaded manifest is staged.
pub fn upload_manifest_path(data_dir: &str) -> (r: String)
    ensures
        r@ == data_dir@ + "/upload-manifest.toml"@,
{
    String::from_str(data_dir).concat("/upload-manifest.toml")
}

/// The answer to a manifest upload: staging failed (500), applying it
/// failed (400), or `ok`.
pub fn apply_reply(staged: bool, applied: Result<(), String>) -> (r: (u16, String))
    ensures
        !staged ==> r.0 == 500 && r.1@ == "failed to stage manifest"@,
        staged ==> match applied {
            Ok(()) => r.0 == 200 && r.1@ == "ok"@,
            Err(e) => r.0 == 400 && r.1@ == "apply failed: "@ + e@,
        },
{
    if !staged {
        return (500, String::from_str("failed to stage manifest"));
    }
    match applied {
        Ok(()) => (200, String::from_str("ok")),
        Err(e) => (400, String::from_str("apply failed: ").concat(e.as_str())),
    }
}

/// The `system` field of the agent-install form: on for `true` or `1`,
/// off otherwise or when it could not be read.
pub fn system_flag(text: Option<String>) -> (r: bool)
    ensures
        r == match text {
            Some(s) => s@ == "true"@ || s@ == "1"@,
            None => false,
        },
{
    match text {
        Some(s) => str_eq(s.as_str(), "true") || str_eq(s.as_str(), "1"),
        None => false,
    }
}

/// Where an uploaded agent binary to install is staged.
pub fn upload_install_path(data_dir: &str) -> (r: String)
    ensures
        r@ == data_dir@ + "/upload-agent.bin"@,
{
    String::from_str(data_dir).concat("/upload-agent.bin")
}

/// The answer to an agent install: `ok`, or 400 with the failure.
pub fn install_agent_reply(result: Result<(), String>) -> (r: (u16, String))
    ensures
        match result {
            Ok(()) => r.0 == 200 && r.1@ == "ok"@,
            Err(e) => r.0 == 400 && r.1@ == "install-agent failed: "@ + e@,
        },
{
    match result {
        Ok(()) => (200, String::from_str("ok")),
        Err(e) => (400, String::from_str("install-agent failed: ").concat(e.as_str())),
    }
}

/// The job specification of a job upload: the last `job_toml` or `file`
/// field's text; a missing or empty one is answered 400.
pub fn job_upload_text(text: Option<String>) -> (r: Result<String, (u16, String)>)
    ensures
        match text {
            Some(t) => if t@.len() > 0 {
                r == Ok::<String, (u16, String)>(t)
            } else {
                (r matches Err(e) && e.0 == 400 && e.1@ == "Missing job TOML content"@)
            },
            None => (r matches Err(e) && e.0 == 400 && e.1@ == "Missing job TOML content"@),
        },
{
    match text {
        Some(t) => if t.unicode_len() > 0 {
            Ok(t)
        } else {
            Err((400, String::from_str("Missing job TOML content")))
        },
        None => Err((400, String::from_str("Missing job TOML content"))),
    }
}

/// Is a form field one that carries a job upload?
pub fn is_job_field(name: &str) -> (r: bool)
    ensures
        r == (name@ == "job_toml"@ || name@ == "file"@),
{
    str_eq(name, "job_toml") || str_eq(name, "file")
}

/// The answer to a job specification that does not parse.
pub fn invalid_job_reply(error: &str) -> (r: (u16, String))
    ensures
        r.0 == 400,
        r.1@ == "Invalid job TOML: "@ + error@,
{
    (400, String::from_str("Invalid job TOML: ").concat(error))
}

/// The answer to a job submission, with the system log line on success.
pub fn job_submit_reply(result: Result<(), String>) -> (r: (u16, String, Option<String>))
    ensures
        match result {
            Ok(()) => r.0 == 200 && r.1@ == "Job submitted successfully"@ && (r.2 matches Some(l) && l@
                == "Job submitted via web interface"@),
            Err(e) => r.0 == 500 && r.1@ == "Failed to submit job: "@ + e@ && r.2 is None,
        },
{
    match result {
        Ok(()) => (
            200,
            String::from_str("Job submitted successfully"),
            Some(String::from_str("Job submitted via web interface")),
        ),
        Err(e) => (500, String::from_str("Failed to submit job: ").concat(e.as_str()), None),
    }
}

/// Add a peer address to the bootstrap list: the address trimmed, refused
/// with 400 when blank; whether the list changed (it is then written).
pub fn connect_peer(addr: Option<&str>, bootstrap: &mut Vec<String>) -> (r: Result<bool, (u16, String)>)
    ensures
        ({
            let a = match addr {
                Some(s) => trim(s@),
                None => Seq::empty(),
            };
            if a.len() == 0 {
                (r matches Err(e) && e.0 == 400 && e.1@ == "addr required"@) && *final(bootstrap) == *old(bootstrap)
            } else {
                r matches Ok(changed) && changed == !old(bootstrap).deep_view().contains(a) && (changed
                    ==> final(bootstrap).deep_view() == old(bootstrap).deep_view().push(a)) && (!changed
                    ==> *final(bootstrap) == *old(bootstrap))
            }
        }),
{
    let a: &str = match addr {
        Some(s) => trim_str(s),
        None => "",
    };
    proof {
        reveal_strlit("");
    }
    if a.unicode_len() == 0 {
        return Err((400, String::from_str("addr required")));
    }
    Ok(crate::state::add_known_peer(bootstrap, a))
}

/// The size of a state volume as listed, in whole MiB.
pub fn volume_size_mb(bytes: u64) -> (r: u64)
    ensures
        r == bytes / 1048576,
{
    bytes / 1048576
}

} // verus!
