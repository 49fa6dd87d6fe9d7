use ld_so::elf::{R_AARCH64_ADD_ABS_LO12_NC, R_AARCH64_ADR_PREL_PG_HI21, R_AARCH64_CALL26, R_AARCH64_COPY,
    R_AARCH64_MOVW_UABS_G1_NC, R_AARCH64_TLS_TPREL64, R_RISCV_ADD32, R_RISCV_ALIGN, R_RISCV_CALL, R_RISCV_COPY,
    R_RISCV_HI20, R_RISCV_LO12_I, R_RISCV_LO12_S, R_RISCV_RELATIVE, R_RISCV_RVC_BRANCH, R_RISCV_RVC_JUMP, R_RISCV_SUB64,
    R_X86_64_64, R_X86_64_COPY, R_X86_64_DTPMOD64, R_X86_64_DTPOFF64, R_X86_64_GLOB_DAT, R_X86_64_IRELATIVE,
    R_X86_64_RELATIVE, R_X86_64_TPOFF64};
use ld_so::memory::Memory;
use ld_so::reloc::{Arch, relocate, relocate_copy, relocation_width, resolve_ifunc};
use ld_so::elf::{R_AARCH64_GLOB_DAT, R_RISCV_TLS_TPREL64};

const AT: u64 = 0x1000;

fn mem_with(word: &[u8]) -> Memory {
    let mut m = Memory::new(AT, 0x100);
    assert!(m.write_bytes(AT, &word.to_vec()));
    m
}

fn word32(m: &Memory, addr: u64) -> u32 {
    let b = m.read_bytes(addr, 4).unwrap();
    u32::from_le_bytes([b[0], b[1], b[2], b[3]])
}

fn word16(m: &Memory, addr: u64) -> u16 {
    let b = m.read_bytes(addr, 2).unwrap();
    u16::from_le_bytes([b[0], b[1]])
}

#[test]
fn tls_tp_relative_x86_64() {
    let mut m = Memory::new(0x0fff_f000, 0x2000);
    assert!(relocate(Arch::X86_64, &mut m, R_X86_64_TPOFF64, 8, 0, 0x1000_0000, Some(0), 0, 1, 32, 128, 16, None));
    assert_eq!(m.read_u64(0x1000_0000), Some((-88i64) as u64));
}

#[test]
fn tls_dtpmod_writes_module_id() {
    let mut m = mem_with(&[0xff; 8]);
    assert!(relocate(Arch::X86_64, &mut m, R_X86_64_DTPMOD64, 0x1234, 0, AT, Some(0), 0, 3, 0, 0, 16, None));
    assert_eq!(m.read_u64(AT), Some(3));
}

#[test]
fn relative_ignores_symbol_value() {
    let mut a = Memory::new(AT, 0x100);
    let mut b = Memory::new(AT, 0x100);
    assert!(relocate(Arch::X86_64, &mut a, R_X86_64_RELATIVE, 0x5555, 0, AT, Some(0x20), 0x400000, 0, 0, 0, 16, None));
    assert!(relocate(Arch::X86_64, &mut b, R_X86_64_RELATIVE, 0, 0, AT, Some(0x20), 0x400000, 0, 0, 0, 16, None));
    assert_eq!(a.bytes, b.bytes);
    assert_eq!(a.read_u64(AT), Some(0x400020));
    let mut c = Memory::new(AT, 0x100);
    assert!(relocate(Arch::RiscV64, &mut c, R_RISCV_RELATIVE, 0x99, 0, AT, Some(0x20), 0x400000, 0, 0, 0, 16, None));
    assert_eq!(c.read_u64(AT), Some(0x400020));
}

#[test]
fn x86_64_data_relocations() {
    let mut m = Memory::new(AT, 0x100);
    assert!(relocate(Arch::X86_64, &mut m, R_X86_64_64, 0x1000, 0, AT, Some(0x10), 0, 0, 0, 0, 16, None));
    assert_eq!(m.read_u64(AT), Some(0x1010));
    assert!(relocate(Arch::X86_64, &mut m, R_X86_64_GLOB_DAT, 0x2000, 0, AT + 8, Some(0x10), 0, 0, 0, 0, 16, None));
    assert_eq!(m.read_u64(AT + 8), Some(0x2000));
    assert!(relocate(Arch::X86_64, &mut m, R_X86_64_DTPOFF64, 0x30, 0, AT + 16, None, 0, 0, 0, 0, 16, None));
    assert_eq!(m.read_u64(AT + 16), Some(0x30));
    assert!(relocate(Arch::X86_64, &mut m, R_X86_64_IRELATIVE, 0, 0, AT + 24, Some(0x40), 0x7000, 0, 0, 0, 16, Some(0x9999)));
    assert_eq!(m.read_u64(AT + 24), Some(0x9999));
    assert!(relocate(Arch::X86_64, &mut m, R_X86_64_IRELATIVE, 0, 0, AT + 32, Some(0x40), 0x7000, 0, 0, 0, 16, None));
    assert_eq!(m.read_u64(AT + 32), Some(0));
    assert_eq!(resolve_ifunc(&[(0x7040, 0x9999), (0x7040, 1)], 0x7040), Some(0x9999));
    assert_eq!(resolve_ifunc(&[(0x7040, 0x9999)], 0x7000), None);
    assert!(!relocate(Arch::X86_64, &mut m, R_X86_64_COPY, 0, 0, AT, None, 0, 0, 0, 0, 16, None));
    assert!(!relocate(Arch::X86_64, &mut m, 999, 0, 0, AT, None, 0, 0, 0, 0, 16, None));
    assert_eq!(m.read_u64(AT), Some(0x1010));
}

#[test]
fn unwritable_target_left_alone() {
    let mut m = Memory::new(AT, 0x100);
    m.protect(AT, 8);
    assert!(relocate(Arch::X86_64, &mut m, R_X86_64_64, 0x1000, 0, AT, Some(0), 0, 0, 0, 0, 16, None));
    assert_eq!(m.read_u64(AT), Some(0));
}

#[test]
fn aarch64_instruction_patches() {
    // bl with imm26 = (0x2000 - 0x1000) >> 2
    let mut m = mem_with(&0x9400_0000u32.to_le_bytes());
    assert!(relocate(Arch::AArch64, &mut m, R_AARCH64_CALL26, 0x2000, 0, AT, Some(0), 0, 0, 0, 0, 16, None));
    assert_eq!(word32(&m, AT), 0x9400_0400);
    // add x0, x0, #lo12 puts the low 12 bits at 10..22
    let mut m = mem_with(&0x9100_0000u32.to_le_bytes());
    assert!(relocate(Arch::AArch64, &mut m, R_AARCH64_ADD_ABS_LO12_NC, 0x12345, 0, AT, Some(0), 0, 0, 0, 0, 16, None));
    assert_eq!(word32(&m, AT), 0x9100_0000 | (0x345 << 10));
    // adrp: page difference 0x5 pages: immlo = 1 at 29, immhi = 1 at 5
    let mut m = mem_with(&0x9000_0000u32.to_le_bytes());
    assert!(relocate(Arch::AArch64, &mut m, R_AARCH64_ADR_PREL_PG_HI21, 0x6010, 0, AT, Some(0), 0, 0, 0, 0, 16, None));
    assert_eq!(word32(&m, AT), 0x9000_0000 | (1 << 29) | (1 << 5));
    let mut m = mem_with(&0xd2a0_0000u32.to_le_bytes());
    assert!(relocate(Arch::AArch64, &mut m, R_AARCH64_MOVW_UABS_G1_NC, 0xabcd_0000, 0, AT, Some(0), 0, 0, 0, 0, 16, None));
    assert_eq!(word32(&m, AT), 0xd2a0_0000 | (0xabcd << 5));
    let mut m = Memory::new(AT, 0x100);
    assert!(relocate(Arch::AArch64, &mut m, R_AARCH64_TLS_TPREL64, 8, 0, AT, Some(0), 0, 1, 32, 0, 16, None));
    assert_eq!(m.read_u64(AT), Some(128 + 32 + 8));
    assert!(relocate(Arch::AArch64, &mut m, R_AARCH64_TLS_TPREL64, 8, 0, AT, Some(0), 0, 1, 32, 0, 256, None));
    assert_eq!(m.read_u64(AT), Some(256 + 32 + 8));
    assert!(relocate(Arch::RiscV64, &mut m, R_RISCV_TLS_TPREL64, 8, 0, AT, Some(4), 0, 1, 32, 0, 16, None));
    assert_eq!(m.read_u64(AT), Some(128 + 32 + 8 + 4));
    assert!(relocate(Arch::AArch64, &mut m, R_AARCH64_GLOB_DAT, 0x5000, 0, AT, Some(0x10), 0, 0, 0, 0, 16, None));
    assert_eq!(m.read_u64(AT), Some(0x5000));
    assert_eq!(relocation_width(Arch::AArch64, R_AARCH64_CALL26), Some(4));
    assert_eq!(relocation_width(Arch::AArch64, R_AARCH64_COPY), None);
}

#[test]
fn riscv_instruction_patches() {
    // auipc + jalr pair: diff 0x1801 splits as hi 0x2000, lo -0x7ff
    let mut pair = 0x0000_0097u32.to_le_bytes().to_vec();
    pair.extend_from_slice(&0x0000_80e7u32.to_le_bytes());
    let mut m = mem_with(&pair);
    assert!(relocate(Arch::RiscV64, &mut m, R_RISCV_CALL, AT + 0x1801, 0, AT, Some(0), 0, 0, 0, 0, 16, None));
    assert_eq!(word32(&m, AT), 0x0000_2097);
    assert_eq!(word32(&m, AT + 4), 0x8010_80e7);
    let mut m = mem_with(&0x0000_0537u32.to_le_bytes());
    assert!(relocate(Arch::RiscV64, &mut m, R_RISCV_HI20, 0x1234_5fff, 0, AT, Some(0), 0, 0, 0, 0, 16, None));
    assert_eq!(word32(&m, AT), 0x1234_6537);
    let mut m = mem_with(&0x0005_0513u32.to_le_bytes());
    assert!(relocate(Arch::RiscV64, &mut m, R_RISCV_LO12_I, 0x1234_5678, 0, AT, Some(0), 0, 0, 0, 0, 16, None));
    assert_eq!(word32(&m, AT), 0x6785_0513);
    let mut m = mem_with(&0x0000_3023u32.to_le_bytes());
    assert!(relocate(Arch::RiscV64, &mut m, R_RISCV_LO12_S, 0x7e5, 0, AT, Some(0), 0, 0, 0, 0, 16, None));
    assert_eq!(word32(&m, AT), 0x7e00_32a3);
    let mut m = mem_with(&10u32.to_le_bytes());
    assert!(relocate(Arch::RiscV64, &mut m, R_RISCV_ADD32, 5, 0, AT, Some(2), 0, 0, 0, 0, 16, None));
    assert_eq!(word32(&m, AT), 17);
    let mut m = mem_with(&100u64.to_le_bytes());
    assert!(relocate(Arch::RiscV64, &mut m, R_RISCV_SUB64, 30, 0, AT, Some(20), 0, 0, 0, 0, 16, None));
    assert_eq!(m.read_u64(AT), Some(50));
    let mut m = mem_with(&[0xff; 4]);
    assert!(relocate(Arch::RiscV64, &mut m, R_RISCV_ALIGN, 0, 0, AT, Some(0), 0, 0, 0, 0, 16, None));
    assert_eq!(word32(&m, AT), 0xffff_ffff);
}

#[test]
fn riscv_compressed_patches() {
    // c.beqz with offset 0x1a: bits 4:3 = 3 at 11:10, bits 2:1 = 1 at 4:3
    let mut m = mem_with(&0xc001u16.to_le_bytes());
    assert!(relocate(Arch::RiscV64, &mut m, R_RISCV_RVC_BRANCH, AT + 0x1a, 0, AT, Some(0), 0, 0, 0, 0, 16, None));
    assert_eq!(word16(&m, AT), 0xc001 | (3 << 10) | (1 << 3));
    // c.j with offset 0x20: bit 5 at 2
    let mut m = mem_with(&0xa001u16.to_le_bytes());
    assert!(relocate(Arch::RiscV64, &mut m, R_RISCV_RVC_JUMP, AT + 0x20, 0, AT, Some(0), 0, 0, 0, 0, 16, None));
    assert_eq!(word16(&m, AT), 0xa001 | (1 << 2));
}

#[test]
fn copy_relocations() {
    let mut m = Memory::new(AT, 0x100);
    assert!(m.write_bytes(AT + 0x80, &vec![9, 8, 7, 6]));
    assert!(relocate_copy(Arch::X86_64, &mut m, R_X86_64_COPY, AT + 0x80, AT, 4));
    assert_eq!(m.read_bytes(AT, 4), Some(vec![9, 8, 7, 6]));
    assert!(!relocate_copy(Arch::X86_64, &mut m, R_X86_64_64, AT + 0x80, AT + 8, 4));
    assert_eq!(m.read_bytes(AT + 8, 4), Some(vec![0, 0, 0, 0]));
    assert!(relocate_copy(Arch::RiscV64, &mut m, R_RISCV_COPY, AT + 0x80, AT + 16, 2));
    assert_eq!(m.read_bytes(AT + 16, 2), Some(vec![9, 8]));
    assert!(relocate_copy(Arch::AArch64, &mut m, R_AARCH64_COPY, AT + 0x80, AT + 24, 1));
    assert_eq!(m.read_bytes(AT + 24, 1), Some(vec![9]));
}
