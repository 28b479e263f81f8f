use realm_agent::platform::{
    arch_matches, binary_target_matches_host, detect_binary_os, detect_binary_platform,
    detect_elf_arch, detect_macho_arches, detect_pe_arch, host_platform_string,
    macho_cputype_to_arch, BinaryOs,
};

fn elf(machine: u16, little_endian: bool) -> Vec<u8> {
    let mut b = vec![0u8; 64];
    b[0] = 0x7F;
    b[1] = b'E';
    b[2] = b'L';
    b[3] = b'F';
    b[5] = if little_endian { 1 } else { 2 };
    let m = if little_endian { machine.to_le_bytes() } else { machine.to_be_bytes() };
    b[18] = m[0];
    b[19] = m[1];
    b
}

fn macho_thin(cputype: u32) -> Vec<u8> {
    let mut b = vec![0xCF, 0xFA, 0xED, 0xFE];
    b.extend_from_slice(&cputype.to_le_bytes());
    b.extend_from_slice(&[0u8; 24]);
    b
}

fn macho_fat(cputypes: &[u32]) -> Vec<u8> {
    let mut b = vec![0xCA, 0xFE, 0xBA, 0xBE];
    b.extend_from_slice(&(cputypes.len() as u32).to_be_bytes());
    for c in cputypes {
        b.extend_from_slice(&c.to_be_bytes());
        b.extend_from_slice(&[0u8; 16]);
    }
    b
}

fn pe(machine: u16) -> Vec<u8> {
    let mut b = vec![0u8; 0x48];
    b[0] = b'M';
    b[1] = b'Z';
    b[0x3C] = 0x40;
    b[0x40] = b'P';
    b[0x41] = b'E';
    let m = machine.to_le_bytes();
    b[0x44] = m[0];
    b[0x45] = m[1];
    b
}

#[test]
fn os_from_magic() {
    assert_eq!(detect_binary_os(&elf(62, true)), Some(BinaryOs::Linux));
    assert_eq!(detect_binary_os(&pe(0x8664)), Some(BinaryOs::Windows));
    assert_eq!(detect_binary_os(&macho_thin(0x0100_0007)), Some(BinaryOs::MacOs));
    assert_eq!(detect_binary_os(&macho_fat(&[0x0100_0007])), Some(BinaryOs::MacOs));
    assert_eq!(detect_binary_os(b"#!/bin/sh"), None);
    assert_eq!(detect_binary_os(&[0x7F, b'E']), None);
}

#[test]
fn elf_machines() {
    assert_eq!(detect_elf_arch(&elf(62, true)).as_deref(), Some("x86_64"));
    assert_eq!(detect_elf_arch(&elf(183, true)).as_deref(), Some("aarch64"));
    assert_eq!(detect_elf_arch(&elf(40, false)).as_deref(), Some("arm"));
    assert_eq!(detect_elf_arch(&elf(243, true)).as_deref(), Some("riscv64"));
    assert_eq!(detect_elf_arch(&elf(3, true)).as_deref(), Some("x86"));
    assert_eq!(detect_elf_arch(&elf(8, true)), None);
    assert_eq!(detect_elf_arch(&elf(62, true)[..19]), None);
}

#[test]
fn macho_cputypes() {
    assert_eq!(macho_cputype_to_arch(0x0100_0007), Some("x86_64"));
    assert_eq!(macho_cputype_to_arch(7), Some("x86"));
    assert_eq!(macho_cputype_to_arch(0x0100_000C), Some("aarch64"));
    assert_eq!(macho_cputype_to_arch(12), Some("arm"));
    assert_eq!(macho_cputype_to_arch(18), None);
    assert_eq!(
        detect_macho_arches(&macho_thin(0x0100_000C)),
        Some(vec!["aarch64".to_string()])
    );
    assert_eq!(
        detect_macho_arches(&macho_fat(&[0x0100_0007, 18, 0x0100_000C])),
        Some(vec!["x86_64".to_string(), "aarch64".to_string()])
    );
    assert_eq!(detect_macho_arches(&macho_fat(&[18])), None);
}

#[test]
fn pe_machines() {
    assert_eq!(detect_pe_arch(&pe(0x8664)).as_deref(), Some("x86_64"));
    assert_eq!(detect_pe_arch(&pe(0xAA64)).as_deref(), Some("aarch64"));
    assert_eq!(detect_pe_arch(&pe(0x014c)).as_deref(), Some("x86"));
    assert_eq!(detect_pe_arch(&pe(0x1234)), None);
    let mut broken = pe(0x8664);
    broken[0x3C] = 0xF0;
    assert_eq!(detect_pe_arch(&broken), None);
}

#[test]
fn platforms() {
    assert_eq!(detect_binary_platform(&elf(62, true)).as_deref(), Some("linux/x86_64"));
    assert_eq!(detect_binary_platform(&pe(0xAA64)).as_deref(), Some("windows/aarch64"));
    assert_eq!(
        detect_binary_platform(&macho_thin(0x0100_000C)).as_deref(),
        Some("macos/aarch64")
    );
    assert_eq!(detect_binary_platform(&macho_fat(&[0x0100_0007, 0x0100_000C])), None);
    assert_eq!(host_platform_string("linux", "aarch64"), "linux/aarch64");
    assert!(arch_matches("x86_64", "x86_64"));
    assert!(!arch_matches("x86_64", "aarch64"));
    assert!(!arch_matches("mips", "mips"));
}

#[test]
fn target_against_host() {
    assert_eq!(
        binary_target_matches_host(&elf(62, true), "linux", "x86_64"),
        Ok("linux/x86_64".to_string())
    );
    assert_eq!(
        binary_target_matches_host(&elf(62, true), "macos", "x86_64"),
        Err("host macos but bin linux".to_string())
    );
    assert_eq!(
        binary_target_matches_host(&elf(183, true), "linux", "x86_64"),
        Err("host linux/x86_64 but bin linux/aarch64".to_string())
    );
    assert_eq!(
        binary_target_matches_host(&elf(8, true), "linux", "x86_64"),
        Err("unrecognized ELF arch".to_string())
    );
    let fat = macho_fat(&[0x0100_0007, 0x0100_000C]);
    assert_eq!(
        binary_target_matches_host(&fat, "macos", "aarch64"),
        Ok("macos/x86_64|aarch64".to_string())
    );
    assert_eq!(
        binary_target_matches_host(&macho_thin(0x0100_0007), "macos", "aarch64"),
        Err("host macos/aarch64 but bin macos/x86_64".to_string())
    );
    assert_eq!(
        binary_target_matches_host(&pe(0x8664), "windows", "x86_64"),
        Ok("windows/x86_64".to_string())
    );
    assert_eq!(
        binary_target_matches_host(b"plain text file", "linux", "x86_64"),
        Err("unknown binary format".to_string())
    );
}
