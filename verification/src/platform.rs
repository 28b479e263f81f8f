//! Sniffing executable headers (ELF, Mach-O, PE) to learn which operating
//! system and CPU architecture a binary was built for, and checking a binary
//! against the host that is about to run it.
use vstd::prelude::*;
use vstd::string::*;

use crate::text::{seq_join, join_strings, opt_str_view};

verus! {

/// The operating-system family a binary header belongs to.
#[derive(Debug, Clone, Copy, PartialEq, Eq, Structural)]
pub enum BinaryOs {
    Linux,
    MacOs,
    Windows,
}

/// Little-endian 16-bit value of two bytes.
pub open spec fn le16(b0: u8, b1: u8) -> int {
    b0 + 256 * b1
}

/// Big-endian 16-bit value of two bytes.
pub open spec fn be16(b0: u8, b1: u8) -> int {
    b0 * 256 + b1
}

/// Little-endian 32-bit value of the four bytes of `b` starting at `off`.
pub open spec fn le32_at(b: Seq<u8>, off: int) -> int {
    b[off] + 256 * b[off + 1] + 65536 * b[off + 2] + 16777216 * b[off + 3]
}

/// Big-endian 32-bit value of the four bytes of `b` starting at `off`.
pub open spec fn be32_at(b: Seq<u8>, off: int) -> int {
    16777216 * b[off] + 65536 * b[off + 1] + 256 * b[off + 2] + b[off + 3]
}

/// The first four bytes of `b` are exactly `m0 m1 m2 m3`.
pub open spec fn magic4(b: Seq<u8>, m0: u8, m1: u8, m2: u8, m3: u8) -> bool {
    b.len() >= 4 && b[0] == m0 && b[1] == m1 && b[2] == m2 && b[3] == m3
}

pub open spec fn is_elf_magic(b: Seq<u8>) -> bool {
    magic4(b, 0x7F, 0x45, 0x4C, 0x46)
}

/// Thin Mach-O magics, in either byte order and for 32 or 64 bits.
pub open spec fn is_thin_macho_magic(b: Seq<u8>) -> bool {
    magic4(b, 0xFE, 0xED, 0xFA, 0xCE) || magic4(b, 0xFE, 0xED, 0xFA, 0xCF)
        || magic4(b, 0xCE, 0xFA, 0xED, 0xFE) || magic4(b, 0xCF, 0xFA, 0xED, 0xFE)
}

/// Universal ("fat") Mach-O magics that identify the operating system.
pub open spec fn is_fat32_magic(b: Seq<u8>) -> bool {
    magic4(b, 0xCA, 0xFE, 0xBA, 0xBE) || magic4(b, 0xBE, 0xBA, 0xFE, 0xCA)
}

/// Universal Mach-O magics with 64-bit architecture records.
pub open spec fn is_fat64_magic(b: Seq<u8>) -> bool {
    magic4(b, 0xCA, 0xFE, 0xBA, 0xBF) || magic4(b, 0xBF, 0xBA, 0xFE, 0xCA)
}

/// Which operating system a binary's header announces, if any.
pub open spec fn spec_binary_os(b: Seq<u8>) -> Option<BinaryOs> {
    if b.len() < 4 {
        None
    } else if is_elf_magic(b) {
        Some(BinaryOs::Linux)
    } else if b[0] == 0x4D && b[1] == 0x5A {
        Some(BinaryOs::Windows)
    } else if is_thin_macho_magic(b) || is_fat32_magic(b) {
        Some(BinaryOs::MacOs)
    } else {
        None
    }
}

/// The architecture named by an ELF `e_machine` value.
pub open spec fn elf_machine_arch(em: int) -> Option<Seq<char>> {
    if em == 62 {
        Some("x86_64"@)
    } else if em == 183 {
        Some("aarch64"@)
    } else if em == 3 {
        Some("x86"@)
    } else if em == 40 {
        Some("arm"@)
    } else if em == 243 {
        Some("riscv64"@)
    } else {
        None
    }
}

/// The architecture of an ELF binary, read from `e_machine` in the byte order
/// that `EI_DATA` announces (1 is little-endian, anything else big-endian).
pub open spec fn spec_elf_arch(b: Seq<u8>) -> Option<Seq<char>> {
    if b.len() < 20 || !is_elf_magic(b) {
        None
    } else if b[5] == 1 {
        elf_machine_arch(le16(b[18], b[19]))
    } else {
        elf_machine_arch(be16(b[18], b[19]))
    }
}

/// The architecture named by a Mach-O `cputype`.
pub open spec fn spec_cputype_arch(cputype: u32) -> Option<Seq<char>> {
    let base = cputype & 0x00FF_FFFFu32;
    let is64 = (cputype & 0x0100_0000u32) != 0;
    if base == 7 && is64 {
        Some("x86_64"@)
    } else if base == 7 {
        Some("x86"@)
    } else if base == 12 && is64 {
        Some("aarch64"@)
    } else if base == 12 {
        Some("arm"@)
    } else {
        None
    }
}

/// The cputype of the record at `off`, in the byte order of the fat header.
pub open spec fn fat_cputype(b: Seq<u8>, be: bool, off: int) -> u32 {
    if be {
        be32_at(b, off) as u32
    } else {
        le32_at(b, off) as u32
    }
}

/// The known architectures of the at most `n` fat records that start at `off`,
/// each `rec` bytes long; the scan stops at the first record that does not
/// fit in the binary.
pub open spec fn fat_scan(b: Seq<u8>, be: bool, rec: int, off: int, n: nat) -> Seq<Seq<char>>
    decreases n,
{
    if n == 0 || b.len() < off + rec {
        Seq::empty()
    } else {
        let rest = fat_scan(b, be, rec, off + rec, (n - 1) as nat);
        match spec_cputype_arch(fat_cputype(b, be, off)) {
            Some(a) => seq![a] + rest,
            None => rest,
        }
    }
}

/// The architectures a Mach-O binary (thin or universal) was built for.
pub open spec fn spec_macho_arches(b: Seq<u8>) -> Option<Seq<Seq<char>>> {
    if b.len() < 8 {
        None
    } else if is_fat32_magic(b) || is_fat64_magic(b) {
        if b.len() < 12 {
            None
        } else {
            let be = magic4(b, 0xCA, 0xFE, 0xBA, 0xBE) || magic4(b, 0xCA, 0xFE, 0xBA, 0xBF);
            let n = if be { be32_at(b, 4) } else { le32_at(b, 4) };
            let rec = if is_fat64_magic(b) { 32int } else { 20int };
            let arches = fat_scan(b, be, rec, 8, n as nat);
            if arches.len() == 0 {
                None
            } else {
                Some(arches)
            }
        }
    } else if is_thin_macho_magic(b) {
        let be = magic4(b, 0xFE, 0xED, 0xFA, 0xCE) || magic4(b, 0xFE, 0xED, 0xFA, 0xCF);
        match spec_cputype_arch(fat_cputype(b, be, 4)) {
            Some(a) => Some(seq![a]),
            None => None,
        }
    } else {
        None
    }
}

/// The architecture named by a PE/COFF `Machine` value.
pub open spec fn pe_machine_arch(m: int) -> Option<Seq<char>> {
    if m == 0x8664 {
        Some("x86_64"@)
    } else if m == 0x014c {
        Some("x86"@)
    } else if m == 0xAA64 {
        Some("aarch64"@)
    } else if m == 0x01c0 {
        Some("arm"@)
    } else {
        None
    }
}

/// The architecture of a PE binary: the DOS header points (at 0x3C) to the
/// `PE\0\0` signature, which is followed by the machine type.
pub open spec fn spec_pe_arch(b: Seq<u8>) -> Option<Seq<char>> {
    if b.len() < 0x40 || b[0] != 0x4D || b[1] != 0x5A {
        None
    } else {
        let pe = le32_at(b, 0x3C);
        if b.len() < pe + 6 {
            None
        } else if !(b[pe] == 0x50 && b[pe + 1] == 0x45 && b[pe + 2] == 0 && b[pe + 3] == 0) {
            None
        } else {
            pe_machine_arch(le16(b[pe + 4], b[pe + 5]))
        }
    }
}

/// The `os/arch` platform string that a binary announces, when it announces
/// exactly one: universal Mach-O binaries with several slices give `None`.
pub open spec fn spec_binary_platform(b: Seq<u8>) -> Option<Seq<char>> {
    match spec_binary_os(b) {
        Some(BinaryOs::Linux) => match spec_elf_arch(b) {
            Some(a) => Some("linux/"@ + a),
            None => None,
        },
        Some(BinaryOs::MacOs) => match spec_macho_arches(b) {
            Some(arches) => if arches.len() == 1 {
                Some("macos/"@ + arches[0])
            } else {
                None
            },
            None => None,
        },
        Some(BinaryOs::Windows) => match spec_pe_arch(b) {
            Some(a) => Some("windows/"@ + a),
            None => None,
        },
        None => None,
    }
}

/// The architecture names that this agent knows how to compare.
pub open spec fn is_known_arch(a: Seq<char>) -> bool {
    a == "x86_64"@ || a == "aarch64"@ || a == "arm"@ || a == "x86"@ || a == "riscv64"@
}

/// A binary for `bin_arch` runs natively on `host_arch` exactly when both
/// name the same known architecture.
pub open spec fn spec_arch_matches(bin_arch: Seq<char>, host_arch: Seq<char>) -> bool {
    is_known_arch(bin_arch) && bin_arch == host_arch
}

/// The verdict of checking a binary against a host `os`/`arch`: `Ok` with a
/// description of the binary's target, or `Err` with the reason of refusal.
pub open spec fn spec_target_matches_host(
    b: Seq<u8>,
    host_os: Seq<char>,
    host_arch: Seq<char>,
) -> Result<Seq<char>, Seq<char>> {
    match spec_binary_os(b) {
        Some(BinaryOs::Linux) => if host_os != "linux"@ {
            Err("host "@ + host_os + " but bin linux"@)
        } else {
            match spec_elf_arch(b) {
                Some(a) => if spec_arch_matches(a, host_arch) {
                    Ok("linux/"@ + a)
                } else {
                    Err("host "@ + host_os + "/"@ + host_arch + " but bin linux/"@ + a)
                },
                None => Err("unrecognized ELF arch"@),
            }
        },
        Some(BinaryOs::MacOs) => if host_os != "macos"@ {
            Err("host "@ + host_os + " but bin macos"@)
        } else {
            match spec_macho_arches(b) {
                Some(arches) => if exists|i: int|
                    0 <= i < arches.len() && #[trigger] spec_arch_matches(arches[i], host_arch) {
                    Ok("macos/"@ + seq_join(arches, "|"@))
                } else {
                    Err("host "@ + host_os + "/"@ + host_arch + " but bin macos/"@ + seq_join(arches, "|"@))
                },
                None => Err("unrecognized Mach-O arch"@),
            }
        },
        Some(BinaryOs::Windows) => if host_os != "windows"@ {
            Err("host "@ + host_os + " but bin windows"@)
        } else {
            match spec_pe_arch(b) {
                Some(a) => if spec_arch_matches(a, host_arch) {
                    Ok("windows/"@ + a)
                } else {
                    Err("host "@ + host_os + "/"@ + host_arch + " but bin windows/"@ + a)
                },
                None => Err("unrecognized PE arch"@),
            }
        },
        None => Err("unknown binary format"@),
    }
}

pub open spec fn opt_string_view(o: Option<String>) -> Option<Seq<char>> {
    match o {
        Some(s) => Some(s@),
        None => None,
    }
}

pub open spec fn result_string_view(r: Result<String, String>) -> Result<Seq<char>, Seq<char>> {
    match r {
        Ok(s) => Ok(s@),
        Err(e) => Err(e@),
    }
}

pub open spec fn opt_strings_view(o: Option<Vec<String>>) -> Option<Seq<Seq<char>>> {
    match o {
        Some(v) => Some(v.deep_view()),
        None => None,
    }
}

/// Does `b` start with the four bytes `m0 m1 m2 m3`?
fn has_magic(b: &[u8], m0: u8, m1: u8, m2: u8, m3: u8) -> (r: bool)
    ensures
        r == magic4(b@, m0, m1, m2, m3),
{
    b.len() >= 4 && b[0] == m0 && b[1] == m1 && b[2] == m2 && b[3] == m3
}

fn read_le32(b: &[u8], off: usize) -> (r: u32)
    requires
        off + 4 <= b@.len(),
    ensures
        r as int == le32_at(b@, off as int),
{
    b[off] as u32 + 256 * (b[off + 1] as u32) + 65536 * (b[off + 2] as u32) + 16777216 * (
    b[off + 3] as u32)
}

fn read_be32(b: &[u8], off: usize) -> (r: u32)
    requires
        off + 4 <= b@.len(),
    ensures
        r as int == be32_at(b@, off as int),
{
    16777216 * (b[off] as u32) + 65536 * (b[off + 1] as u32) + 256 * (b[off + 2] as u32) + b[off
        + 3] as u32
}

/// Identify the operating system family of a binary from its magic bytes.
pub fn detect_binary_os(bin: &[u8]) -> (r: Option<BinaryOs>)
    ensures
        r == spec_binary_os(bin@),
{
    if bin.len() >= 4 {
        if has_magic(bin, 0x7F, 0x45, 0x4C, 0x46) {
            return Some(BinaryOs::Linux);
        }
        if bin[0] == 0x4D && bin[1] == 0x5A {
            return Some(BinaryOs::Windows);
        }
        if has_magic(bin, 0xFE, 0xED, 0xFA, 0xCE) || has_magic(bin, 0xFE, 0xED, 0xFA, 0xCF)
            || has_magic(bin, 0xCE, 0xFA, 0xED, 0xFE) || has_magic(bin, 0xCF, 0xFA, 0xED, 0xFE)
            || has_magic(bin, 0xCA, 0xFE, 0xBA, 0xBE) || has_magic(bin, 0xBE, 0xBA, 0xFE, 0xCA) {
            return Some(BinaryOs::MacOs);
        }
    }
    None
}

fn elf_machine_name(em: u16) -> (r: Option<String>)
    ensures
        opt_string_view(r) == elf_machine_arch(em as int),
{
    if em == 62 {
        Some(String::from_str("x86_64"))
    } else if em == 183 {
        Some(String::from_str("aarch64"))
    } else if em == 3 {
        Some(String::from_str("x86"))
    } else if em == 40 {
        Some(String::from_str("arm"))
    } else if em == 243 {
        Some(String::from_str("riscv64"))
    } else {
        None
    }
}

/// The CPU architecture of an ELF binary, from its `e_machine` field.
pub fn detect_elf_arch(bin: &[u8]) -> (r: Option<String>)
    ensures
        opt_string_view(r) == spec_elf_arch(bin@),
{
    if bin.len() < 20 || !has_magic(bin, 0x7F, 0x45, 0x4C, 0x46) {
        return None;
    }
    let is_le = bin[5] == 1;
    let em: u16 = if is_le {
        bin[18] as u16 + 256 * (bin[19] as u16)
    } else {
        256 * (bin[18] as u16) + bin[19] as u16
    };
    elf_machine_name(em)
}

/// The architecture that a Mach-O `cputype` value stands for.
pub fn macho_cputype_to_arch(cputype: u32) -> (r: Option<&'static str>)
    ensures
        opt_str_view(r) == spec_cputype_arch(cputype),
{
    let base = cputype & 0x00FF_FFFFu32;
    let is64 = (cputype & 0x0100_0000u32) != 0;
    if base == 7 && is64 {
        Some("x86_64")
    } else if base == 7 {
        Some("x86")
    } else if base == 12 && is64 {
        Some("aarch64")
    } else if base == 12 {
        Some("arm")
    } else {
        None
    }
}

/// The architectures of a Mach-O binary: one for a thin binary, one per
/// recognised slice for a universal binary; `None` when none is recognised.
pub fn detect_macho_arches(bin: &[u8]) -> (r: Option<Vec<String>>)
    ensures
        opt_strings_view(r) == spec_macho_arches(bin@),
{
    if bin.len() < 8 {
        return None;
    }
    let fat_be32 = has_magic(bin, 0xCA, 0xFE, 0xBA, 0xBE);
    let fat_le32 = has_magic(bin, 0xBE, 0xBA, 0xFE, 0xCA);
    let fat_be64 = has_magic(bin, 0xCA, 0xFE, 0xBA, 0xBF);
    let fat_le64 = has_magic(bin, 0xBF, 0xBA, 0xFE, 0xCA);
    if fat_be32 || fat_le32 || fat_be64 || fat_le64 {
        let be = fat_be32 || fat_be64;
        if bin.len() < 12 {
            return None;
        }
        let nfat_arch: u32 = if be {
            read_be32(bin, 4)
        } else {
            read_le32(bin, 4)
        };
        let rec_size: usize = if fat_be64 || fat_le64 {
            32
        } else {
            20
        };
        let ghost b = bin@;
        let ghost n0 = nfat_arch as nat;
        let mut arches: Vec<String> = Vec::new();
        let mut off: usize = 8;
        let mut i: u32 = 0;
        while i < nfat_arch && bin.len() - off >= rec_size
            invariant
                b == bin@,
                8 <= off <= b.len(),
                i <= nfat_arch,
                rec_size == 20 || rec_size == 32,
                n0 == nfat_arch as nat,
                arches.deep_view() + fat_scan(b, be, rec_size as int, off as int, (n0 - i) as nat)
                    == fat_scan(b, be, rec_size as int, 8, n0),
            decreases nfat_arch - i,
        {
            let cputype = if be {
                read_be32(bin, off)
            } else {
                read_le32(bin, off)
            };
            proof {
                assert(cputype == fat_cputype(b, be, off as int));
            }
            let ghost before = arches.deep_view();
            match macho_cputype_to_arch(cputype) {
                Some(a) => {
                    arches.push(String::from_str(a));
                    assert(arches.deep_view() =~= before + seq![a@]);
                },
                None => {},
            }
            off = off + rec_size;
            i = i + 1;
            proof {
                let rest = fat_scan(b, be, rec_size as int, off as int, (n0 - i) as nat);
                assert(fat_scan(b, be, rec_size as int, (off - rec_size) as int, (n0 - (i - 1)) as nat)
                    == match spec_cputype_arch(cputype) {
                        Some(a) => seq![a] + rest,
                        None => rest,
                    });
                match spec_cputype_arch(cputype) {
                    Some(a) => {
                        assert(before + (seq![a] + rest) =~= (before + seq![a]) + rest);
                    },
                    None => {},
                }
            }
        }
        proof {
            assert(fat_scan(b, be, rec_size as int, off as int, (n0 - i) as nat) =~= Seq::empty());
            assert(arches.deep_view() =~= fat_scan(b, be, rec_size as int, 8, n0));
        }
        if arches.len() == 0 {
            None
        } else {
            Some(arches)
        }
    } else if has_magic(bin, 0xFE, 0xED, 0xFA, 0xCE) || has_magic(bin, 0xFE, 0xED, 0xFA, 0xCF)
        || has_magic(bin, 0xCE, 0xFA, 0xED, 0xFE) || has_magic(bin, 0xCF, 0xFA, 0xED, 0xFE) {
        let be = has_magic(bin, 0xFE, 0xED, 0xFA, 0xCE) || has_magic(bin, 0xFE, 0xED, 0xFA, 0xCF);
        let cputype = if be {
            read_be32(bin, 4)
        } else {
            read_le32(bin, 4)
        };
        match macho_cputype_to_arch(cputype) {
            Some(a) => {
                let mut v: Vec<String> = Vec::new();
                v.push(String::from_str(a));
                assert(v.deep_view() =~= seq![a@]);
                Some(v)
            },
            None => None,
        }
    } else {
        None
    }
}

fn pe_machine_name(m: u16) -> (r: Option<String>)
    ensures
        opt_string_view(r) == pe_machine_arch(m as int),
{
    if m == 0x8664 {
        Some(String::from_str("x86_64"))
    } else if m == 0x014c {
        Some(String::from_str("x86"))
    } else if m == 0xAA64 {
        Some(String::from_str("aarch64"))
    } else if m == 0x01c0 {
        Some(String::from_str("arm"))
    } else {
        None
    }
}

/// The CPU architecture of a PE (Windows) binary.
pub fn detect_pe_arch(bin: &[u8]) -> (r: Option<String>)
    ensures
        opt_string_view(r) == spec_pe_arch(bin@),
{
    if bin.len() < 0x40 || bin[0] != 0x4D || bin[1] != 0x5A {
        return None;
    }
    let pe_off = read_le32(bin, 0x3C);
    if (bin.len() as u64) < (pe_off as u64) + 6 {
        return None;
    }
    let p = pe_off as usize;
    if !(bin[p] == 0x50 && bin[p + 1] == 0x45 && bin[p + 2] == 0 && bin[p + 3] == 0) {
        return None;
    }
    let machine: u16 = bin[p + 4] as u16 + 256 * (bin[p + 5] as u16);
    pe_machine_name(machine)
}

/// Does a binary for `bin_arch` run natively on `host_arch`?
pub fn arch_matches(bin_arch: &str, host_arch: &str) -> (r: bool)
    ensures
        r == spec_arch_matches(bin_arch@, host_arch@),
{
    let known = crate::text::str_eq(bin_arch, "x86_64") || crate::text::str_eq(bin_arch, "aarch64")
        || crate::text::str_eq(bin_arch, "arm") || crate::text::str_eq(bin_arch, "x86")
        || crate::text::str_eq(bin_arch, "riscv64");
    known && crate::text::str_eq(bin_arch, host_arch)
}

/// The `os/arch` platform a binary announces (as the CLI uses it when no
/// platform is given); universal Mach-O binaries with several slices yield
/// `None` so that every macOS agent decides for itself.
pub fn detect_binary_platform(bin: &[u8]) -> (r: Option<String>)
    ensures
        opt_string_view(r) == spec_binary_platform(bin@),
{
    match detect_binary_os(bin) {
        Some(BinaryOs::Linux) => match detect_elf_arch(bin) {
            Some(a) => {
                let s = String::from_str("linux/").concat(a.as_str());
                Some(s)
            },
            None => None,
        },
        Some(BinaryOs::MacOs) => match detect_macho_arches(bin) {
            Some(arches) => {
                if arches.len() == 1 {
                    Some(String::from_str("macos/").concat(arches[0].as_str()))
                } else {
                    None
                }
            },
            None => None,
        },
        Some(BinaryOs::Windows) => match detect_pe_arch(bin) {
            Some(a) => Some(String::from_str("windows/").concat(a.as_str())),
            None => None,
        },
        None => None,
    }
}

/// The `os/arch` string of a host.
pub fn host_platform_string(host_os: &str, host_arch: &str) -> (r: String)
    ensures
        r@ == host_os@ + "/"@ + host_arch@,
{
    String::from_str(host_os).concat("/").concat(host_arch)
}

fn host_mismatch(host_os: &str, host_arch: &str, but_bin: &str, bin_arch: &str) -> (r: String)
    ensures
        r@ == "host "@ + host_os@ + "/"@ + host_arch@ + but_bin@ + bin_arch@,
{
    String::from_str("host ").concat(host_os).concat("/").concat(host_arch).concat(but_bin).concat(
        bin_arch,
    )
}

/// Check that a binary targets the host operating system `host_os` and CPU
/// architecture `host_arch`. On success the result describes the binary's
/// target (`linux/x86_64`, `macos/x86_64|aarch64`, ...); on failure it says
/// why the binary cannot run here.
pub fn binary_target_matches_host(bin: &[u8], host_os: &str, host_arch: &str) -> (r: Result<
    String,
    String,
>)
    ensures
        result_string_view(r) == spec_target_matches_host(bin@, host_os@, host_arch@),
{
    proof {
        reveal_strlit("linux");
        reveal_strlit("macos");
        reveal_strlit("windows");
    }
    match detect_binary_os(bin) {
        Some(BinaryOs::Linux) => {
            if !crate::text::str_eq(host_os, "linux") {
                return Err(String::from_str("host ").concat(host_os).concat(" but bin linux"));
            }
            match detect_elf_arch(bin) {
                Some(a) => {
                    if arch_matches(a.as_str(), host_arch) {
                        Ok(String::from_str("linux/").concat(a.as_str()))
                    } else {
                        Err(host_mismatch(host_os, host_arch, " but bin linux/", a.as_str()))
                    }
                },
                None => Err(String::from_str("unrecognized ELF arch")),
            }
        },
        Some(BinaryOs::MacOs) => {
            if !crate::text::str_eq(host_os, "macos") {
                return Err(String::from_str("host ").concat(host_os).concat(" but bin macos"));
            }
            match detect_macho_arches(bin) {
                Some(arches) => {
                    let joined = join_strings(&arches, "|");
                    let mut any = false;
                    let mut i: usize = 0;
                    while i < arches.len()
                        invariant
                            i <= arches.len(),
                            any == exists|j: int|
                                0 <= j < i && #[trigger] spec_arch_matches(
                                    arches.deep_view()[j],
                                    host_arch@,
                                ),
                        decreases arches.len() - i,
                    {
                        let m = arch_matches(arches[i].as_str(), host_arch);
                        proof {
                            assert(arches.deep_view()[i as int] == arches[i as int]@);
                            if m {
                                assert(spec_arch_matches(arches.deep_view()[i as int], host_arch@));
                            }
                        }
                        any = any || m;
                        i = i + 1;
                    }
                    if any {
                        Ok(String::from_str("macos/").concat(joined.as_str()))
                    } else {
                        Err(host_mismatch(host_os, host_arch, " but bin macos/", joined.as_str()))
                    }
                },
                None => Err(String::from_str("unrecognized Mach-O arch")),
            }
        },
        Some(BinaryOs::Windows) => {
            if !crate::text::str_eq(host_os, "windows") {
                return Err(String::from_str("host ").concat(host_os).concat(" but bin windows"));
            }
            match detect_pe_arch(bin) {
                Some(a) => {
                    if arch_matches(a.as_str(), host_arch) {
                        Ok(String::from_str("windows/").concat(a.as_str()))
                    } else {
                        Err(host_mismatch(host_os, host_arch, " but bin windows/", a.as_str()))
                    }
                },
                None => Err(String::from_str("unrecognized PE arch")),
            }
        },
        None => Err(String::from_str("unknown binary format")),
    }
}

} // verus!
