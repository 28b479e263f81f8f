//! The execution policy: whether native binaries and emulated ones may run,
//! with environment overrides, and the help texts shown when they may not.
use vstd::prelude::*;
use vstd::string::*;

use crate::text::{ascii_lower, eq_ignore_ascii_case, split_all, split_char, str_eq};

verus! {

/// What an agent allows beyond WebAssembly.
#[derive(Debug, Clone, Copy, PartialEq, Eq, Structural)]
pub struct ExecutionPolicy {
    pub allow_native_execution: bool,
    pub allow_emulation: bool,
}

impl ExecutionPolicy {
    /// Nothing beyond WebAssembly.
    pub fn default_policy() -> (r: ExecutionPolicy)
        ensures
            !r.allow_native_execution,
            !r.allow_emulation,
    {
        ExecutionPolicy { allow_native_execution: false, allow_emulation: false }
    }
}

/// An override value turns a permission on when it is `1` or `true` (any
/// ASCII case); any other value turns it off.
pub open spec fn flag_on(v: Seq<char>) -> bool {
    v == "1"@ || ascii_lower(v) == ascii_lower("true"@)
}

pub fn env_flag(v: &str) -> (r: bool)
    ensures
        r == flag_on(v@),
{
    str_eq(v, "1") || eq_ignore_ascii_case(v, "true")
}

/// The policy in effect: the file's policy (or the default), with each
/// permission replaced by its environment override when one is set.
pub fn apply_overrides(file_policy: Option<ExecutionPolicy>, env_native: Option<&str>, env_emulation: Option<&str>) -> (r: ExecutionPolicy)
    ensures
        r.allow_native_execution == (match env_native {
            Some(v) => flag_on(v@),
            None => match file_policy {
                Some(p) => p.allow_native_execution,
                None => false,
            },
        }),
        r.allow_emulation == (match env_emulation {
            Some(v) => flag_on(v@),
            None => match file_policy {
                Some(p) => p.allow_emulation,
                None => false,
            },
        }),
{
    let mut policy = match file_policy {
        Some(p) => p,
        None => ExecutionPolicy::default_policy(),
    };
    match env_native {
        Some(v) => {
            policy.allow_native_execution = env_flag(v);
        },
        None => {},
    }
    match env_emulation {
        Some(v) => {
            policy.allow_emulation = env_flag(v);
        },
        None => {},
    }
    policy
}

/// How to install QEMU user-mode emulators on operating system `os`.
pub fn qemu_install_help(os: &str) -> (r: String)
    ensures
        r@ == (if os@ == "linux"@ {
            "Install qemu-user binaries (e.g., `sudo apt install qemu-user` or `sudo dnf install qemu-user-binfmt`)."@
        } else if os@ == "macos"@ {
            "Install QEMU with Homebrew: `brew install qemu` (user-mode binaries like qemu-aarch64, qemu-x86_64)."@
        } else if os@ == "freebsd"@ {
            "Install QEMU via pkg: `sudo pkg install qemu-user-static`."@
        } else {
            "Install QEMU user-mode emulator (package name varies by OS)."@
        }),
{
    if str_eq(os, "linux") {
        String::from_str(
            "Install qemu-user binaries (e.g., `sudo apt install qemu-user` or `sudo dnf install qemu-user-binfmt`).",
        )
    } else if str_eq(os, "macos") {
        String::from_str(
            "Install QEMU with Homebrew: `brew install qemu` (user-mode binaries like qemu-aarch64, qemu-x86_64).",
        )
    } else if str_eq(os, "freebsd") {
        String::from_str("Install QEMU via pkg: `sudo pkg install qemu-user-static`.")
    } else {
        String::from_str("Install QEMU user-mode emulator (package name varies by OS).")
    }
}

/// How to enable the policy, naming the policy file under `data_dir`.
pub fn policy_enable_help(data_dir: &str) -> (r: String)
    ensures
        r@ == "To enable, create "@ + data_dir@ + "/policy.json"@
            + " with:\n{\n  \"allow_native_execution\": true,\n  \"allow_emulation\": true\n}\nOr set env vars REALM_ALLOW_NATIVE_EXECUTION=1 and/or REALM_ALLOW_EMULATION=1."@,
{
    String::from_str("To enable, create ").concat(data_dir).concat("/policy.json").concat(
        " with:\n{\n  \"allow_native_execution\": true,\n  \"allow_emulation\": true\n}\nOr set env vars REALM_ALLOW_NATIVE_EXECUTION=1 and/or REALM_ALLOW_EMULATION=1.",
    )
}

/// The architecture assumed when a job names no target platform.
pub fn arch_hint() -> (r: &'static str)
    ensures
        r@ == "x86_64"@,
{
    "x86_64"
}

/// The QEMU user-mode emulator for an architecture, if there is one.
pub open spec fn qemu_for_arch(arch: Seq<char>) -> Option<Seq<char>> {
    if arch == "x86_64"@ || arch == "amd64"@ {
        Some("qemu-x86_64"@)
    } else if arch == "aarch64"@ || arch == "arm64"@ {
        Some("qemu-aarch64"@)
    } else if arch == "arm"@ || arch == "armv7"@ {
        Some("qemu-arm"@)
    } else if arch == "riscv64"@ {
        Some("qemu-riscv64"@)
    } else {
        None
    }
}

/// The architecture of a target platform `os/arch` (its second `/` part),
/// or the hint when there is no platform or no second part.
pub open spec fn target_arch(platform: Option<Seq<char>>) -> Seq<char> {
    match platform {
        Some(p) => if split_all(p, '/').len() > 1 {
            split_all(p, '/')[1]
        } else {
            "x86_64"@
        },
        None => "x86_64"@,
    }
}

/// The name of the QEMU emulator to run a job for `target_platform` with
/// (looked up on the `PATH` by the caller).
pub fn qemu_binary_name(target_platform: Option<&str>) -> (r: Option<&'static str>)
    ensures
        match r {
            Some(n) => qemu_for_arch(target_arch(crate::text::opt_str_view(target_platform))) == Some(n@),
            None => qemu_for_arch(target_arch(crate::text::opt_str_view(target_platform))) is None,
        },
{
    let arch: &str = match target_platform {
        Some(p) => {
            let parts = split_char(p, '/');
            if parts.len() > 1 {
                parts[1]
            } else {
                arch_hint()
            }
        },
        None => arch_hint(),
    };
    if str_eq(arch, "x86_64") || str_eq(arch, "amd64") {
        Some("qemu-x86_64")
    } else if str_eq(arch, "aarch64") || str_eq(arch, "arm64") {
        Some("qemu-aarch64")
    } else if str_eq(arch, "arm") || str_eq(arch, "armv7") {
        Some("qemu-arm")
    } else if str_eq(arch, "riscv64") {
        Some("qemu-riscv64")
    } else {
        None
    }
}

} // verus!
