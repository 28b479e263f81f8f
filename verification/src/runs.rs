//! How a job run is staged and what it reports: where a WebAssembly job's
//! module comes from, the digest check, the execution-policy gates for native
//! and emulated jobs, the emulator to use, and the messages a run ends with.
//! The fetching, the store reads and the process itself are the caller's.
use vstd::prelude::*;
use vstd::string::*;

use crate::digest::{sha256_hex, sha256_hex_spec};
use crate::jobs::JobArtifact;
use crate::policy::ExecutionPolicy;
use crate::text::{decimal, i64_to_decimal, join_strings, seq_join, signed_decimal, starts_with, str_starts_with, u64_to_decimal};

verus! {

/// Where the module of a WebAssembly job is taken from.
pub enum WasmRoute {
    /// A `cached:` or `cas:` source with a digest: the content store, else
    /// the peers.
    Cached(String),
    /// Another source with a digest: fetched directly, else from the peers.
    FetchFirst(String),
    /// No digest: fetched directly, nothing else.
    FetchOnly,
}

/// Does a job source name the content store?
pub open spec fn is_store_source(source: Seq<char>) -> bool {
    starts_with(source, "cached:"@) || starts_with(source, "cas:"@)
}

/// The route of a WebAssembly job's module (see `WasmRoute`).
pub fn wasm_route(source: &str, sha256_hex: Option<String>) -> (r: WasmRoute)
    ensures
        match sha256_hex {
            None => r is FetchOnly,
            Some(h) => if is_store_source(source@) {
                r == WasmRoute::Cached(h)
            } else {
                r == WasmRoute::FetchFirst(h)
            },
        },
{
    match sha256_hex {
        None => WasmRoute::FetchOnly,
        Some(h) => if str_starts_with(source, "cached:") || str_starts_with(source, "cas:") {
            WasmRoute::Cached(h)
        } else {
            WasmRoute::FetchFirst(h)
        },
    }
}

/// The module of a `Cached` route: what the content store held
/// (`in_store`), else, when the peers can be asked (`has_peer_storage`),
/// what they gave (`from_peers`), which is then to be saved in the store
/// (the flag).
pub fn from_store_or_peers(in_store: Option<Vec<u8>>, has_peer_storage: bool, from_peers: Option<Vec<u8>>) -> (r: Result<
    (Vec<u8>, bool),
    String,
>)
    ensures
        match in_store {
            Some(b) => (r matches Ok(p) && p.0@ == b@ && !p.1),
            None => if !has_peer_storage {
                (r matches Err(e) && e@ == "job failed: digest not local and no P2P storage available"@)
            } else {
                match from_peers {
                    Some(b) => (r matches Ok(p) && p.0@ == b@ && p.1),
                    None => (r matches Err(e) && e@ == "job failed: digest not available via P2P"@),
                }
            },
        },
{
    match in_store {
        Some(b) => Ok((b, false)),
        None => if !has_peer_storage {
            Err(String::from_str("job failed: digest not local and no P2P storage available"))
        } else {
            match from_peers {
                Some(b) => Ok((b, true)),
                None => Err(String::from_str("job failed: digest not available via P2P")),
            }
        },
    }
}

/// The module of a `FetchFirst` route: what the direct fetch gave, else,
/// when the peers can be asked, what they gave.
pub fn fetched_or_peers(fetched: Result<Vec<u8>, String>, has_peer_storage: bool, from_peers: Option<Vec<u8>>) -> (r: Result<
    Vec<u8>,
    String,
>)
    ensures
        match fetched {
            Ok(b) => (r matches Ok(v) && v@ == b@),
            Err(_) => if !has_peer_storage {
                (r matches Err(e) && e@ == "job failed: unsupported source and no P2P storage"@)
            } else {
                match from_peers {
                    Some(b) => (r matches Ok(v) && v@ == b@),
                    None => (r matches Err(e) && e@ == "job failed: fetch unavailable and P2P fetch failed"@),
                }
            },
        },
{
    match fetched {
        Ok(b) => Ok(b),
        Err(_) => if !has_peer_storage {
            Err(String::from_str("job failed: unsupported source and no P2P storage"))
        } else {
            match from_peers {
                Some(b) => Ok(b),
                None => Err(String::from_str("job failed: fetch unavailable and P2P fetch failed")),
            }
        },
    }
}

/// A binary fetched directly with nothing to fall back on: a failed fetch
/// fails the job with the fetch's error.
pub fn fetched_only(fetched: Result<Vec<u8>, String>) -> (r: Result<Vec<u8>, String>)
    ensures
        match fetched {
            Ok(b) => (r matches Ok(v) && v@ == b@),
            Err(e) => (r matches Err(m) && m@ == "job failed: fetch: "@ + e@),
        },
{
    match fetched {
        Ok(b) => Ok(b),
        Err(e) => Err(String::from_str("job failed: fetch: ").concat(e.as_str())),
    }
}

/// A job's binary must have the digest the job names, when it names one.
pub fn check_job_digest(expected: Option<&str>, bytes: &[u8]) -> (r: Result<(), String>)
    ensures
        match expected {
            None => r is Ok,
            Some(h) => if sha256_hex_spec(bytes@) == h@ {
                r is Ok
            } else {
                (r matches Err(e) && e@ == "job failed: digest mismatch"@)
            },
        },
{
    match expected {
        None => Ok(()),
        Some(h) => {
            let d = sha256_hex(bytes);
            if crate::text::str_eq(d.as_str(), h) {
                Ok(())
            } else {
                Err(String::from_str("job failed: digest mismatch"))
            }
        },
    }
}

/// The digest a pre-staged item names: its source after `cas:`; items of
/// other sources are not pre-staged.
pub fn prestage_digest(source: &str) -> (r: Option<&str>)
    ensures
        match r {
            Some(h) => starts_with(source@, "cas:"@) && h@ == source@.subrange(4, source@.len() as int),
            None => !starts_with(source@, "cas:"@),
        },
{
    if str_starts_with(source, "cas:") {
        proof {
            reveal_strlit("cas:");
        }
        Some(source.substring_char(4, source.unicode_len()))
    } else {
        None
    }
}

/// The bytes of a pre-staged item with digest `hex`: what the store held,
/// else what the peers gave when they can be asked.
pub fn prestage_bytes(hex: &str, in_store: Option<Vec<u8>>, has_peer_storage: bool, from_peers: Option<Vec<u8>>) -> (r: Result<
    Vec<u8>,
    String,
>)
    ensures
        match in_store {
            Some(b) => (r matches Ok(v) && v@ == b@),
            None => if !has_peer_storage {
                (r matches Err(e) && e@ == "prestage: digest not local and no P2P storage available"@)
            } else {
                match from_peers {
                    Some(b) => (r matches Ok(v) && v@ == b@),
                    None => (r matches Err(e) && e@ == "prestage: digest not available via P2P: "@ + hex@),
                }
            },
        },
{
    match in_store {
        Some(b) => Ok(b),
        None => if !has_peer_storage {
            Err(String::from_str("prestage: digest not local and no P2P storage available"))
        } else {
            match from_peers {
                Some(b) => Ok(b),
                None => Err(String::from_str("prestage: digest not available via P2P: ").concat(hex)),
            }
        },
    }
}

/// Native jobs run only where the policy allows native execution.
pub fn native_allowed(policy: &ExecutionPolicy, job_name: &str, enable_help: &str) -> (r: Result<(), String>)
    ensures
        policy.allow_native_execution ==> r is Ok,
        !policy.allow_native_execution ==> (r matches Err(e) && e@
            == "job failed: native execution is disabled by policy for job "@ + job_name@ + ". "@ + enable_help@),
{
    if policy.allow_native_execution {
        Ok(())
    } else {
        Err(
            String::from_str("job failed: native execution is disabled by policy for job ").concat(job_name).concat(
                ". ",
            ).concat(enable_help),
        )
    }
}

/// Emulated jobs run only where the policy allows emulation.
pub fn emulation_allowed(policy: &ExecutionPolicy, job_name: &str, enable_help: &str) -> (r: Result<(), String>)
    ensures
        policy.allow_emulation ==> r is Ok,
        !policy.allow_emulation ==> (r matches Err(e) && e@ == "job failed: QEMU emulation is disabled by policy for job "@
            + job_name@ + ". "@ + enable_help@),
{
    if policy.allow_emulation {
        Ok(())
    } else {
        Err(
            String::from_str("job failed: QEMU emulation is disabled by policy for job ").concat(job_name).concat(
                ". ",
            ).concat(enable_help),
        )
    }
}

/// The name of `format!("{:?}", s)` for a string `s`: the string quoted
/// and escaped as Rust's `Debug` writes it.
pub uninterp spec fn debug_quoted(s: Seq<char>) -> Seq<char>;

/// `format!("{:?}", s)`: the `Debug` text of a string. It depends on the
/// string alone and is named.
#[verifier::external_body]
fn debug_str(s: &str) -> (r: String)
    ensures
        r@ == debug_quoted(s@),
{
    format!("{:?}", s)
}

/// The `Debug` text of an optional string: `None`, or `Some(` and the
/// quoted string and `)`.
pub open spec fn debug_opt(o: Option<Seq<char>>) -> Seq<char> {
    match o {
        None => "None"@,
        Some(s) => "Some("@ + debug_quoted(s) + ")"@,
    }
}

/// The emulator a QEMU job runs under: the one the job names, else the one
/// found for its platform (`found`, the caller's lookup of
/// `crate::policy::qemu_binary_name` on the `PATH`).
pub fn qemu_path(qemu_binary: Option<String>, found: Option<String>, target_platform: Option<&str>, install_help: &str) -> (r: Result<
    String,
    String,
>)
    ensures
        match qemu_binary {
            Some(p) => r == Ok::<String, String>(p),
            None => match found {
                Some(f) => r == Ok::<String, String>(f),
                None => (r matches Err(e) && e@ == "job failed: QEMU user-mode binary not found for platform "@
                    + debug_opt(crate::text::opt_str_view(target_platform)) + ". "@ + install_help@),
            },
        },
{
    match qemu_binary {
        Some(p) => Ok(p),
        None => match found {
            Some(f) => Ok(f),
            None => {
                let shown = match target_platform {
                    Some(p) => String::from_str("Some(").concat(debug_str(p).as_str()).concat(")"),
                    None => String::from_str("None"),
                };
                Err(
                    String::from_str("job failed: QEMU user-mode binary not found for platform ").concat(
                        shown.as_str(),
                    ).concat(". ").concat(install_help),
                )
            },
        },
    }
}

/// The message of a job that ran to success.
pub fn job_ok_message(job_name: &str) -> (r: String)
    ensures
        r@ == "job ok: "@ + job_name@,
{
    String::from_str("job ok: ").concat(job_name)
}

/// The message of a WebAssembly job whose run failed with `error`.
pub fn wasm_job_error(job_name: &str, error: &str) -> (r: String)
    ensures
        r@ == "job error: "@ + job_name@ + ": "@ + error@,
{
    String::from_str("job error: ").concat(job_name).concat(": ").concat(error)
}

/// The `Debug` text of an exit code as a process reports it: `None` when it
/// was killed by a signal, else `Some(` and the code and `)`.
pub open spec fn exit_code_text(code: Option<i32>) -> Seq<char> {
    match code {
        None => "None"@,
        Some(c) => "Some("@ + signed_decimal(c as int) + ")"@,
    }
}

/// The message of a process job (`runner` is `native` or `qemu`) whose
/// process exited unsuccessfully with `code`.
pub fn exit_error(job_name: &str, runner: &str, code: Option<i32>) -> (r: String)
    ensures
        r@ == "job error: "@ + job_name@ + ": "@ + runner@ + " exit code "@ + exit_code_text(code),
{
    let shown = match code {
        None => String::from_str("None"),
        Some(c) => String::from_str("Some(").concat(i64_to_decimal(c as i64).as_str()).concat(")"),
    };
    String::from_str("job error: ").concat(job_name).concat(": ").concat(runner).concat(" exit code ").concat(
        shown.as_str(),
    )
}

/// The log lines of a WebAssembly job starting: the agent log's and the
/// job's.
pub fn wasm_start_lines(memory_mb: u64, fuel: u64, epoch_ms: u64) -> (r: (String, String))
    ensures
        r.0@ == "starting wasm job (mem="@ + decimal(memory_mb as nat) + "MB fuel="@ + decimal(fuel as nat)
            + " epoch_ms="@ + decimal(epoch_ms as nat) + ")"@,
        r.1@ == "Executing WASM with "@ + decimal(memory_mb as nat) + "MB memory, "@ + decimal(fuel as nat)
            + " fuel, "@ + decimal(epoch_ms as nat) + "ms epoch"@,
{
    let m = u64_to_decimal(memory_mb);
    let f = u64_to_decimal(fuel);
    let e = u64_to_decimal(epoch_ms);
    (
        String::from_str("starting wasm job (mem=").concat(m.as_str()).concat("MB fuel=").concat(f.as_str()).concat(
            " epoch_ms=",
        ).concat(e.as_str()).concat(")"),
        String::from_str("Executing WASM with ").concat(m.as_str()).concat("MB memory, ").concat(f.as_str()).concat(
            " fuel, ",
        ).concat(e.as_str()).concat("ms epoch"),
    )
}

/// The agent log line of a process job starting: the command (the
/// emulator first, for a QEMU job), the binary's path and the arguments
/// joined by spaces.
pub fn process_start_line(emulator: Option<&str>, binary_path: &str, args: &Vec<String>) -> (r: String)
    ensures
        r@ == match emulator {
            Some(q) => "starting qemu job: "@ + q@ + " "@ + binary_path@ + " "@ + seq_join(args.deep_view(), " "@),
            None => "starting native job: "@ + binary_path@ + " "@ + seq_join(args.deep_view(), " "@),
        },
{
    let joined = join_strings(args, " ");
    match emulator {
        Some(q) => String::from_str("starting qemu job: ").concat(q).concat(" ").concat(binary_path).concat(" ").concat(
            joined.as_str(),
        ),
        None => String::from_str("starting native job: ").concat(binary_path).concat(" ").concat(joined.as_str()),
    }
}

/// The artifact a successful job records for a path it was asked to keep:
/// named as asked, else by its path, with its size when it is a regular
/// file (`size`), and no digest yet.
pub fn produced_artifact(name: Option<String>, path: String, size: Option<u64>) -> (r: JobArtifact)
    ensures
        r.name@ == (match name {
            Some(n) => n@,
            None => path@,
        }),
        r.stored_path == path,
        r.size_bytes == size,
        r.sha256_hex is None,
{
    let n = match name {
        Some(n) => n,
        None => path.clone(),
    };
    JobArtifact { name: n, stored_path: path, size_bytes: size, sha256_hex: None }
}

/// How a binary source is fetched: a `file:` source is read from the path
/// after the prefix, an `http://` or `https://` source is downloaded, any
/// other source is refused with `unsupported source: <source>`.
pub enum FetchPlan {
    File(String),
    Http,
    Unsupported(String),
}

pub fn fetch_plan(url: &str) -> (r: FetchPlan)
    ensures
        starts_with(url@, "file:"@) ==> (r matches FetchPlan::File(p) && p@ == url@.subrange(5, url@.len() as int)),
        !starts_with(url@, "file:"@) && (starts_with(url@, "http://"@) || starts_with(url@, "https://"@)) ==> r is Http,
        !starts_with(url@, "file:"@) && !(starts_with(url@, "http://"@) || starts_with(url@, "https://"@)) ==> (r matches FetchPlan::Unsupported(m) && m@ == "unsupported source: "@ + url@),
{
    if str_starts_with(url, "file:") {
        proof {
            reveal_strlit("file:");
        }
        FetchPlan::File(String::from_str(url.substring_char(5, url.unicode_len())))
    } else if str_starts_with(url, "http://") || str_starts_with(url, "https://") {
        FetchPlan::Http
    } else {
        FetchPlan::Unsupported(String::from_str("unsupported source: ").concat(url))
    }
}

/// The error of a download answered with a non-success status (`status`,
/// as the HTTP client writes it).
pub fn fetch_status_error(url: &str, status: &str) -> (r: String)
    ensures
        r@ == "fetch "@ + url@ + ": "@ + status@,
{
    String::from_str("fetch ").concat(url).concat(": ").concat(status)
}

/// The job log line a service job adds when its run ends: `info`, "Service
/// job completed normally", after a successful run; none after a failed one
/// (the failure is recorded with the job).
pub fn service_end_log(succeeded: bool) -> (r: Option<(String, String)>)
    ensures
        succeeded ==> (r matches Some(l) && l.0@ == "info"@ && l.1@ == "Service job completed normally"@),
        !succeeded ==> r is None,
{
    if succeeded {
        Some((String::from_str("info"), String::from_str("Service job completed normally")))
    } else {
        None
    }
}

/// The failure of a job cancelled while it ran: a WebAssembly service job
/// is "Service job cancelled" (after a `warn` job log line, "Service job
/// cancelled during execution"), a process job "Job cancelled".
pub fn cancelled_outcome(wasm: bool) -> (r: (String, Option<(String, String)>))
    ensures
        wasm ==> r.0@ == "Service job cancelled"@ && (r.1 matches Some(l) && l.0@ == "warn"@ && l.1@
            == "Service job cancelled during execution"@),
        !wasm ==> r.0@ == "Job cancelled"@ && r.1 is None,
{
    if wasm {
        (
            String::from_str("Service job cancelled"),
            Some((String::from_str("warn"), String::from_str("Service job cancelled during execution"))),
        )
    } else {
        (String::from_str("Job cancelled"), None)
    }
}

} // verus!
