//! Admission of what owners send to an agent: signed manifests, agent
//! upgrades and pushed components. The first owner seen is trusted from then
//! on (trust on first use), versions only move forward, and digests and
//! target platforms must match before anything is staged.
use vstd::prelude::*;
use vstd::string::*;

use crate::digest::{base64_standard_decode, decode_base64, sha256_hex, sha256_hex_spec};
use crate::platform::{
    binary_target_matches_host, host_platform_string, result_string_view, spec_target_matches_host,
};
use crate::text::{decimal, str_eq, u64_to_decimal};

verus! {

/// Outcome of the trust-on-first-use check for `owner`.
pub open spec fn owner_trusted(trusted: Option<Seq<char>>, owner: Seq<char>) -> bool {
    match trusted {
        Some(t) => t == owner,
        None => true,
    }
}

pub open spec fn opt_view(o: Option<&str>) -> Option<Seq<char>> {
    match o {
        Some(s) => Some(s@),
        None => None,
    }
}

/// What the agent does with a signed manifest: whether it records `owner` as
/// its trusted owner, and whether it accepts the manifest or why not.
pub struct ManifestDecision {
    pub record_owner: bool,
    pub verdict: Result<(), String>,
}

/// The reason a manifest of `version` is refused when the agent already has
/// `current`.
pub open spec fn stale_manifest_msg(version: u64, current: u64) -> Seq<char> {
    "manifest rejected (stale v"@ + decimal(version as nat) + " <= v"@ + decimal(current as nat)
        + ")"@
}

pub open spec fn manifest_spec(
    owner: Seq<char>,
    signature_valid: bool,
    trusted: Option<Seq<char>>,
    version: u64,
    current: u64,
) -> (bool, Result<(), Seq<char>>) {
    if !signature_valid {
        (false, Err("manifest rejected (sig)"@))
    } else if !owner_trusted(trusted, owner) {
        (false, Err("manifest rejected (owner mismatch)"@))
    } else if current >= version {
        (trusted is None, Err(stale_manifest_msg(version, current)))
    } else {
        (trusted is None, Ok(()))
    }
}

/// The reason a manifest signature that is not valid base64 is refused.
pub open spec fn bad_manifest_signature_msg(err: Seq<char>) -> Seq<char> {
    "bad signature_b64: "@ + err
}

/// Decode the base64 signature of a signed manifest.
pub fn decode_manifest_signature(signature_b64: &str) -> (r: Result<Vec<u8>, String>)
    ensures
        match base64_standard_decode(signature_b64@) {
            Ok(bytes) => r matches Ok(v) && v@ == bytes,
            Err(e) => r matches Err(m) && m@ == bad_manifest_signature_msg(e),
        },
{
    match decode_base64(signature_b64) {
        Ok(v) => Ok(v),
        Err(e) => Err(String::from_str("bad signature_b64: ").concat(e.as_str())),
    }
}

/// Decide on a signed manifest of `version` from `owner`, whose signature
/// checked out as `signature_valid`, on an agent that trusts `trusted_owner`
/// (if any) and runs manifest version `current_version`. A bad signature or
/// another owner is refused; a first owner is recorded; only a strictly
/// newer version is accepted.
pub fn admit_manifest(
    owner: &str,
    signature_valid: bool,
    trusted_owner: Option<&str>,
    version: u64,
    current_version: u64,
) -> (d: ManifestDecision)
    ensures
        manifest_spec(owner@, signature_valid, opt_view(trusted_owner), version, current_version)
            == (d.record_owner, match d.verdict {
            Ok(()) => Ok::<(), Seq<char>>(()),
            Err(e) => Err::<(), Seq<char>>(e@),
        }),
        d.verdict is Ok ==> signature_valid && version > current_version && owner_trusted(
            opt_view(trusted_owner),
            owner@,
        ),
{
    if !signature_valid {
        return ManifestDecision {
            record_owner: false,
            verdict: Err(String::from_str("manifest rejected (sig)")),
        };
    }
    let record_owner = match trusted_owner {
        Some(t) => {
            if !str_eq(t, owner) {
                return ManifestDecision {
                    record_owner: false,
                    verdict: Err(String::from_str("manifest rejected (owner mismatch)")),
                };
            }
            false
        },
        None => true,
    };
    if current_version >= version {
        let msg = String::from_str("manifest rejected (stale v").concat(
            u64_to_decimal(version).as_str(),
        ).concat(" <= v").concat(u64_to_decimal(current_version).as_str()).concat(")");
        return ManifestDecision { record_owner, verdict: Err(msg) };
    }
    ManifestDecision { record_owner, verdict: Ok(()) }
}

/// The message with which an accepted manifest is acknowledged.
pub fn manifest_accepted_msg(version: u64) -> (r: String)
    ensures
        r@ == "manifest accepted v"@ + decimal(version as nat),
{
    String::from_str("manifest accepted v").concat(u64_to_decimal(version).as_str())
}

/// What the agent does with an upgrade: whether it records `owner` as its
/// trusted owner, and either the version it upgrades from or why it refuses.
pub struct UpgradeDecision {
    pub record_owner: bool,
    pub verdict: Result<u64, String>,
}

pub open spec fn upgrade_spec(
    owner: Seq<char>,
    declared_sha256_hex: Seq<char>,
    target_platform: Option<Seq<char>>,
    version: u64,
    bin: Seq<u8>,
    signature_valid: bool,
    trusted: Option<Seq<char>>,
    host_os: Seq<char>,
    host_arch: Seq<char>,
    current: u64,
) -> (bool, Result<u64, Seq<char>>) {
    if !signature_valid {
        (false, Err("upgrade rejected (sig)"@))
    } else if !owner_trusted(trusted, owner) {
        (false, Err("upgrade rejected (owner mismatch)"@))
    } else {
        let rec = trusted is None;
        if sha256_hex_spec(bin) != declared_sha256_hex {
            (rec, Err("upgrade rejected (digest mismatch)"@))
        } else {
            match spec_target_matches_host(bin, host_os, host_arch) {
                Err(why) => (rec, Err("upgrade rejected (target mismatch: "@ + why + ")"@)),
                Ok(_) => match target_platform {
                    Some(p) => if host_os + "/"@ + host_arch != p {
                        (
                            rec,
                            Err(
                                "upgrade rejected (platform "@ + host_os + "/"@ + host_arch
                                    + " != "@ + p + ")"@,
                            ),
                        )
                    } else if version <= current {
                        (
                            rec,
                            Err(
                                "upgrade rejected (stale v"@ + decimal(version as nat) + " <= v"@
                                    + decimal(current as nat) + ")"@,
                            ),
                        )
                    } else {
                        (rec, Ok(current))
                    },
                    None => if version <= current {
                        (
                            rec,
                            Err(
                                "upgrade rejected (stale v"@ + decimal(version as nat) + " <= v"@
                                    + decimal(current as nat) + ")"@,
                            ),
                        )
                    } else {
                        (rec, Ok(current))
                    },
                },
            }
        }
    }
}

/// Decode the base64 signature and binary of an upgrade package, in that
/// order, refusing the package at the first that does not decode.
pub fn decode_upgrade_payload(signature_b64: &str, binary_b64: &str) -> (r: Result<
    (Vec<u8>, Vec<u8>),
    String,
>)
    ensures
        match base64_standard_decode(signature_b64@) {
            Err(e) => r matches Err(m) && m@ == "upgrade rejected (bad signature_b64: "@ + e + ")"@,
            Ok(sig) => match base64_standard_decode(binary_b64@) {
                Err(e) => r matches Err(m) && m@ == "upgrade rejected (bad binary_b64: "@ + e
                    + ")"@,
                Ok(bin) => r matches Ok((s, b)) && s@ == sig && b@ == bin,
            },
        },
{
    let sig = match decode_base64(signature_b64) {
        Ok(s) => s,
        Err(e) => {
            return Err(
                String::from_str("upgrade rejected (bad signature_b64: ").concat(e.as_str()).concat(
                    ")",
                ),
            );
        },
    };
    let bin = match decode_base64(binary_b64) {
        Ok(b) => b,
        Err(e) => {
            return Err(
                String::from_str("upgrade rejected (bad binary_b64: ").concat(e.as_str()).concat(
                    ")",
                ),
            );
        },
    };
    Ok((sig, bin))
}

fn stale_upgrade_msg(version: u64, current: u64) -> (r: String)
    ensures
        r@ == "upgrade rejected (stale v"@ + decimal(version as nat) + " <= v"@ + decimal(
            current as nat,
        ) + ")"@,
{
    String::from_str("upgrade rejected (stale v").concat(u64_to_decimal(version).as_str()).concat(
        " <= v",
    ).concat(u64_to_decimal(current).as_str()).concat(")")
}

/// Decide on an agent upgrade: the binary `bin` (decoded from the package)
/// from `owner`, declared with digest `declared_sha256_hex`, optionally aimed
/// at `target_platform`, for agent `version`. The signature over the binary
/// checked out as `signature_valid`; the agent trusts `trusted_owner` (if
/// any), runs on `host_os`/`host_arch` and has agent version
/// `current_version`. In that order: the signature, the owner (a first owner
/// is recorded), the digest, the binary's target, the declared platform and
/// the version must all pass; downgrades and reinstalls are refused.
pub fn admit_upgrade(
    owner: &str,
    declared_sha256_hex: &str,
    target_platform: Option<&str>,
    version: u64,
    bin: &[u8],
    signature_valid: bool,
    trusted_owner: Option<&str>,
    host_os: &str,
    host_arch: &str,
    current_version: u64,
) -> (d: UpgradeDecision)
    ensures
        upgrade_spec(
            owner@,
            declared_sha256_hex@,
            opt_view(target_platform),
            version,
            bin@,
            signature_valid,
            opt_view(trusted_owner),
            host_os@,
            host_arch@,
            current_version,
        ) == (d.record_owner, match d.verdict {
            Ok(v) => Ok::<u64, Seq<char>>(v),
            Err(e) => Err::<u64, Seq<char>>(e@),
        }),
        d.verdict is Ok ==> {
            &&& signature_valid
            &&& owner_trusted(opt_view(trusted_owner), owner@)
            &&& sha256_hex_spec(bin@) == declared_sha256_hex@
            &&& spec_target_matches_host(bin@, host_os@, host_arch@) is Ok
            &&& version > current_version
            &&& d.verdict == Ok::<u64, String>(current_version)
        },
        d.record_owner ==> trusted_owner is None && signature_valid,
{
    if !signature_valid {
        return UpgradeDecision {
            record_owner: false,
            verdict: Err(String::from_str("upgrade rejected (sig)")),
        };
    }
    let record_owner = match trusted_owner {
        Some(t) => {
            if !str_eq(t, owner) {
                return UpgradeDecision {
                    record_owner: false,
                    verdict: Err(String::from_str("upgrade rejected (owner mismatch)")),
                };
            }
            false
        },
        None => true,
    };
    let digest = sha256_hex(bin);
    if !str_eq(digest.as_str(), declared_sha256_hex) {
        return UpgradeDecision {
            record_owner,
            verdict: Err(String::from_str("upgrade rejected (digest mismatch)")),
        };
    }
    match binary_target_matches_host(bin, host_os, host_arch) {
        Err(why) => {
            return UpgradeDecision {
                record_owner,
                verdict: Err(
                    String::from_str("upgrade rejected (target mismatch: ").concat(
                        why.as_str(),
                    ).concat(")"),
                ),
            };
        },
        Ok(_) => {},
    }
    match target_platform {
        Some(p) => {
            let host = host_platform_string(host_os, host_arch);
            if !str_eq(host.as_str(), p) {
                let msg = String::from_str("upgrade rejected (platform ").concat(host.as_str()).concat(
                    " != ",
                ).concat(p).concat(")");
                assert(msg@ =~= "upgrade rejected (platform "@ + host_os@ + "/"@ + host_arch@ + " != "@
                    + p@ + ")"@);
                return UpgradeDecision { record_owner, verdict: Err(msg) };
            }
        },
        None => {},
    }
    if version <= current_version {
        return UpgradeDecision {
            record_owner,
            verdict: Err(stale_upgrade_msg(version, current_version)),
        };
    }
    UpgradeDecision { record_owner, verdict: Ok(current_version) }
}

/// Why a pushed component was refused.
pub enum PushAcceptanceError {
    InvalidSignature,
    OwnerMismatch { expected: String, found: String },
    DigestMismatch,
    Decode(String),
    Verify(String),
    Io(String),
}

impl PushAcceptanceError {
    /// The text of the error, as it is shown to the pushing client.
    pub fn message(&self) -> (r: String)
        ensures
            r@ == match self {
                PushAcceptanceError::InvalidSignature => "invalid signature"@,
                PushAcceptanceError::OwnerMismatch { expected, found } => "owner mismatch (trusted="@
                    + expected@ + ", provided="@ + found@ + ")"@,
                PushAcceptanceError::DigestMismatch => "binary digest mismatch"@,
                PushAcceptanceError::Decode(e) => "invalid base64: "@ + e@,
                PushAcceptanceError::Verify(e) => "signature verification failed: "@ + e@,
                PushAcceptanceError::Io(e) => "filesystem error: "@ + e@,
            },
    {
        match self {
            PushAcceptanceError::InvalidSignature => String::from_str("invalid signature"),
            PushAcceptanceError::OwnerMismatch { expected, found } => String::from_str(
                "owner mismatch (trusted=",
            ).concat(expected.as_str()).concat(", provided=").concat(found.as_str()).concat(")"),
            PushAcceptanceError::DigestMismatch => String::from_str("binary digest mismatch"),
            PushAcceptanceError::Decode(e) => String::from_str("invalid base64: ").concat(
                e.as_str(),
            ),
            PushAcceptanceError::Verify(e) => String::from_str(
                "signature verification failed: ",
            ).concat(e.as_str()),
            PushAcceptanceError::Io(e) => String::from_str("filesystem error: ").concat(e.as_str()),
        }
    }

    /// The HTTP status a refusal is answered with by the web API: 500 when
    /// the agent's own disk failed, 400 otherwise.
    pub fn http_status(&self) -> (r: u16)
        ensures
            r == (if self is Io { 500u16 } else { 400u16 }),
    {
        match self {
            PushAcceptanceError::Io(_) => 500,
            _ => 400,
        }
    }

    /// Refusals caused by the agent's own disk rather than by the package.
    pub fn is_io(&self) -> (r: bool)
        ensures
            r == (self is Io),
    {
        match self {
            PushAcceptanceError::Io(_) => true,
            _ => false,
        }
    }
}

/// Decode the base64 signature of a pushed component.
pub fn decode_push_signature(signature_b64: &str) -> (r: Result<Vec<u8>, PushAcceptanceError>)
    ensures
        match base64_standard_decode(signature_b64@) {
            Ok(bytes) => r matches Ok(v) && v@ == bytes,
            Err(e) => r matches Err(PushAcceptanceError::Decode(m)) && m@ == e,
        },
{
    match decode_base64(signature_b64) {
        Ok(v) => Ok(v),
        Err(e) => Err(PushAcceptanceError::Decode(e)),
    }
}

/// Decide on a pushed component once its signature has been verified: the
/// verification result, then the binary (decoded from `binary_b64`) against
/// its declared digest, then the owner against the trusted owner. On success
/// the result says whether `owner` is to be recorded as the first trusted
/// owner, and holds the decoded binary.
pub fn admit_push(
    verification: Result<bool, String>,
    binary_b64: &str,
    declared_sha256_hex: &str,
    owner: &str,
    trusted_owner: Option<&str>,
) -> (r: Result<(bool, Vec<u8>), PushAcceptanceError>)
    ensures
        match verification {
            Err(e) => r matches Err(PushAcceptanceError::Verify(m)) && m@ == e@,
            Ok(false) => r matches Err(PushAcceptanceError::InvalidSignature),
            Ok(true) => match base64_standard_decode(binary_b64@) {
                Err(e) => r matches Err(PushAcceptanceError::Decode(m)) && m@ == e,
                Ok(bin) => if sha256_hex_spec(bin) != declared_sha256_hex@ {
                    r matches Err(PushAcceptanceError::DigestMismatch)
                } else {
                    match trusted_owner {
                        Some(t) => if t@ != owner@ {
                            r matches Err(PushAcceptanceError::OwnerMismatch { expected, found })
                                && expected@ == t@ && found@ == owner@
                        } else {
                            r matches Ok((rec, b)) && !rec && b@ == bin
                        },
                        None => r matches Ok((rec, b)) && rec && b@ == bin,
                    }
                },
            },
        },
{
    match verification {
        Err(e) => {
            return Err(PushAcceptanceError::Verify(e));
        },
        Ok(valid) => {
            if !valid {
                return Err(PushAcceptanceError::InvalidSignature);
            }
        },
    }
    let bin = match decode_base64(binary_b64) {
        Ok(b) => b,
        Err(e) => {
            return Err(PushAcceptanceError::Decode(e));
        },
    };
    let digest = sha256_hex(bin.as_slice());
    if !str_eq(digest.as_str(), declared_sha256_hex) {
        return Err(PushAcceptanceError::DigestMismatch);
    }
    match trusted_owner {
        Some(t) => {
            if !str_eq(t, owner) {
                return Err(
                    PushAcceptanceError::OwnerMismatch {
                        expected: String::from_str(t),
                        found: String::from_str(owner),
                    },
                );
            }
            Ok((false, bin))
        },
        None => Ok((true, bin)),
    }
}

/// The file name under which a component binary is staged: the component
/// name, a dash, the first sixteen digits of its digest, and `.wasm`.
pub fn staged_artifact_name(name: &str, digest: &str) -> (r: String)
    requires
        digest@.len() >= 16,
    ensures
        r@ == name@ + "-"@ + digest@.subrange(0, 16) + ".wasm"@,
{
    String::from_str(name).concat("-").concat(digest.substring_char(0, 16)).concat(".wasm")
}

/// The path a component module is staged at under the staging directory
/// `stage_dir` (see `staged_artifact_name`).
pub fn staged_module_path(stage_dir: &str, name: &str, digest: &str) -> (r: String)
    requires
        digest@.len() >= 16,
    ensures
        r@ == stage_dir@ + "/"@ + name@ + "-"@ + digest@.subrange(0, 16) + ".wasm"@,
{
    let file = staged_artifact_name(name, digest);
    String::from_str(stage_dir).concat("/").concat(file.as_str())
}

/// Where the binary of agent `version` is written under the agent data
/// directory `data_dir`.
pub fn versioned_binary_path(data_dir: &str, version: u64) -> (r: String)
    ensures
        r@ == data_dir@ + "/bin/realm-agent-v"@ + decimal(version as nat),
{
    String::from_str(data_dir).concat("/bin/realm-agent-v").concat(u64_to_decimal(version).as_str())
}

/// The message with which an accepted upgrade is acknowledged.
pub fn upgrade_accepted_msg(version: u64, previous: u64) -> (r: String)
    ensures
        r@ == "upgrade accepted v"@ + decimal(version as nat) + " (prev v"@ + decimal(previous as nat) + ")"@,
{
    String::from_str("upgrade accepted v").concat(u64_to_decimal(version).as_str()).concat(" (prev v").concat(
        u64_to_decimal(previous).as_str(),
    ).concat(")")
}

/// Check an invitation to join: its signature must have verified
/// (`signature_valid`) and, when it expires at `exp_unix`, the time `now`
/// must not be past it.
pub fn check_invite(signature_valid: bool, exp_unix: Option<u64>, now: u64) -> (r: Result<(), String>)
    ensures
        !signature_valid ==> (r matches Err(e) && e@ == "invalid invite signature"@),
        signature_valid && (exp_unix matches Some(exp) && now > exp) ==> (r matches Err(e) && e@
            == "invite token expired"@),
        signature_valid && !(exp_unix matches Some(exp) && now > exp) ==> r is Ok,
{
    if !signature_valid {
        return Err(String::from_str("invalid invite signature"));
    }
    match exp_unix {
        Some(exp) => {
            if now > exp {
                return Err(String::from_str("invite token expired"));
            }
        },
        None => {},
    }
    Ok(())
}

} // verus!
