//! The relocation engine: applies one relocation record to the address space,
//! for x86-64, AArch64 and RISC-V64.

use vstd::prelude::*;
use crate::elf::{
    R_AARCH64_ABS64, R_AARCH64_ADD_ABS_LO12_NC, R_AARCH64_ADR_PREL_LO21, R_AARCH64_ADR_PREL_PG_HI21, R_AARCH64_CALL26, R_AARCH64_COPY, R_AARCH64_GLOB_DAT, R_AARCH64_IRELATIVE, R_AARCH64_JUMP26, R_AARCH64_JUMP_SLOT, R_AARCH64_MOVW_UABS_G0_NC, R_AARCH64_MOVW_UABS_G1_NC, R_AARCH64_MOVW_UABS_G2_NC, R_AARCH64_MOVW_UABS_G3, R_AARCH64_RELATIVE, R_AARCH64_TLS_DTPMOD64, R_AARCH64_TLS_DTPREL64, R_AARCH64_TLS_TPREL64, R_RISCV_64, R_RISCV_ADD32, R_RISCV_ADD64, R_RISCV_ALIGN, R_RISCV_CALL, R_RISCV_CALL_PLT, R_RISCV_COPY, R_RISCV_GOT_HI20, R_RISCV_HI20, R_RISCV_IRELATIVE, R_RISCV_JUMP_SLOT, R_RISCV_LO12_I, R_RISCV_LO12_S, R_RISCV_PCREL_HI20, R_RISCV_PCREL_LO12_I, R_RISCV_PCREL_LO12_S, R_RISCV_RELATIVE, R_RISCV_RVC_BRANCH, R_RISCV_RVC_JUMP, R_RISCV_SUB32, R_RISCV_SUB64, R_RISCV_TLS_DTPMOD64, R_RISCV_TLS_DTPREL64, R_RISCV_TLS_TPREL64, R_X86_64_64, R_X86_64_COPY, R_X86_64_DTPMOD64, R_X86_64_DTPOFF64, R_X86_64_GLOB_DAT, R_X86_64_IRELATIVE, R_X86_64_JUMP_SLOT, R_X86_64_RELATIVE, R_X86_64_TPOFF64, bytes_u16, bytes_u32, bytes_u64, le_bytes_u16, le_bytes_u32, le_bytes_u64, le_u16, le_u32, le_u64, read_u16, read_u32, read_u64,
};
use crate::memory::{MemView, Memory};
use crate::tcb::TCB_SIZE;
use crate::tls::{align_up, lemma_align_up_bounds};

verus! {

/// The architecture whose relocation codes and TLS ABI apply.
#[derive(Debug, Clone, Copy, PartialEq, Eq)]
pub enum Arch {
    X86_64,
    AArch64,
    RiscV64,
}

/// The TCB size rounded up to the static TLS alignment `align`: where the
/// static TLS area starts above the TCB on AArch64 and RISC-V.
pub open spec fn tcb_span(align: u64) -> u64 {
    align_up(TCB_SIZE as int, align as int) as u64
}

/// `S + A` with wrap-around.
pub open spec fn sa(s: u64, a: u64) -> u64 {
    s.wrapping_add(a)
}

/// `S + A - P` with wrap-around.
pub open spec fn pcrel(s: u64, a: u64, p: u64) -> u64 {
    s.wrapping_add(a).wrapping_sub(p)
}

/// The high part of a RISC-V split immediate: `v + 0x800` with the low 12 bits cleared.
pub open spec fn hi20(v: u64) -> u32 {
    (v.wrapping_add(0x800) & 0xffff_f000u64) as u32
}

/// The 64-bit value stored by an x86-64 relocation, or `None` for a type
/// this path does not handle.
pub open spec fn x86_64_word(t: u32, s: u64, a: u64, b: u64, mid: u64, toff: u64, stls: u64, iv: u64) -> Option<u64> {
    if t == R_X86_64_64 || t == R_X86_64_DTPOFF64 {
        Some(sa(s, a))
    } else if t == R_X86_64_GLOB_DAT || t == R_X86_64_JUMP_SLOT {
        Some(s)
    } else if t == R_X86_64_RELATIVE {
        Some(sa(b, a))
    } else if t == R_X86_64_IRELATIVE {
        Some(iv)
    } else if t == R_X86_64_DTPMOD64 {
        Some(mid)
    } else if t == R_X86_64_TPOFF64 {
        Some(toff.wrapping_add(s).wrapping_add(a).wrapping_sub(stls))
    } else {
        None
    }
}

/// The 64-bit value stored by an AArch64 data relocation.
pub open spec fn aarch64_word(t: u32, s: u64, a: u64, b: u64, mid: u64, toff: u64, stla: u64, iv: u64) -> Option<u64> {
    if t == R_AARCH64_ABS64 || t == R_AARCH64_TLS_DTPREL64 {
        Some(sa(s, a))
    } else if t == R_AARCH64_GLOB_DAT || t == R_AARCH64_JUMP_SLOT {
        Some(s)
    } else if t == R_AARCH64_RELATIVE {
        Some(sa(b, a))
    } else if t == R_AARCH64_IRELATIVE {
        Some(iv)
    } else if t == R_AARCH64_TLS_DTPMOD64 {
        Some(mid)
    } else if t == R_AARCH64_TLS_TPREL64 {
        Some(tcb_span(stla).wrapping_add(toff).wrapping_add(s).wrapping_add(a))
    } else {
        None
    }
}

/// An AArch64 ADR/ADRP instruction with the 21-bit immediate `imm` inserted:
/// its low two bits at 29..31, the rest at 5..24.
pub open spec fn adr_insert(old: u32, imm: u64) -> u32 {
    ((old & 0x9f00_001fu32) | ((((imm & 3u64) << 29u64) | (((imm >> 2u64) & 0x7ffffu64) << 5u64)) as u32)) as u32
}

/// The instruction word produced by an AArch64 instruction relocation.
pub open spec fn aarch64_insn(t: u32, s: u64, a: u64, p: u64, old: u32) -> Option<u32> {
    if t == R_AARCH64_ADD_ABS_LO12_NC {
        Some(((old & 0xffc0_03ffu32) | (((sa(s, a) & 0xfffu64) << 10u64) as u32)) as u32)
    } else if t == R_AARCH64_ADR_PREL_LO21 {
        Some(adr_insert(old, pcrel(s, a, p)))
    } else if t == R_AARCH64_ADR_PREL_PG_HI21 {
        Some(adr_insert(old, ((sa(s, a) & !0xfffu64).wrapping_sub(p & !0xfffu64)) >> 12u64))
    } else if t == R_AARCH64_CALL26 || t == R_AARCH64_JUMP26 {
        Some(((old & 0xfc00_0000u32) | (((pcrel(s, a, p) >> 2u64) & 0x3ff_ffffu64) as u32)) as u32)
    } else if t == R_AARCH64_MOVW_UABS_G0_NC {
        Some(((old & 0xffe0_001fu32) | (((sa(s, a) & 0xffffu64) << 5u64) as u32)) as u32)
    } else if t == R_AARCH64_MOVW_UABS_G1_NC {
        Some(((old & 0xffe0_001fu32) | ((((sa(s, a) >> 16u64) & 0xffffu64) << 5u64) as u32)) as u32)
    } else if t == R_AARCH64_MOVW_UABS_G2_NC {
        Some(((old & 0xffe0_001fu32) | ((((sa(s, a) >> 32u64) & 0xffffu64) << 5u64) as u32)) as u32)
    } else if t == R_AARCH64_MOVW_UABS_G3 {
        Some(((old & 0xffe0_001fu32) | ((((sa(s, a) >> 48u64) & 0xffffu64) << 5u64) as u32)) as u32)
    } else {
        None
    }
}

/// The 64-bit value stored by a RISC-V data relocation; `old` is the word in place.
pub open spec fn riscv_word(t: u32, s: u64, a: u64, b: u64, mid: u64, toff: u64, stla: u64, iv: u64, old: u64) -> Option<u64> {
    if t == R_RISCV_64 || t == R_RISCV_TLS_DTPREL64 {
        Some(sa(s, a))
    } else if t == R_RISCV_JUMP_SLOT {
        Some(s)
    } else if t == R_RISCV_RELATIVE {
        Some(sa(b, a))
    } else if t == R_RISCV_IRELATIVE {
        Some(iv)
    } else if t == R_RISCV_ADD64 {
        Some(old.wrapping_add(s).wrapping_add(a))
    } else if t == R_RISCV_SUB64 {
        Some(old.wrapping_sub(s).wrapping_sub(a))
    } else if t == R_RISCV_TLS_DTPMOD64 {
        Some(mid)
    } else if t == R_RISCV_TLS_TPREL64 {
        Some(tcb_span(stla).wrapping_add(toff).wrapping_add(s).wrapping_add(a))
    } else {
        None
    }
}

/// The 32-bit word produced by a RISC-V relocation on one word.
pub open spec fn riscv_word32(t: u32, s: u64, a: u64, p: u64, old: u32) -> Option<u32> {
    if t == R_RISCV_ADD32 {
        Some(old.wrapping_add(s as u32).wrapping_add(a as u32))
    } else if t == R_RISCV_SUB32 {
        Some(old.wrapping_sub(s as u32).wrapping_sub(a as u32))
    } else if t == R_RISCV_GOT_HI20 || t == R_RISCV_PCREL_HI20 {
        Some(((old & 0xfffu32) | hi20(pcrel(s, a, p))) as u32)
    } else if t == R_RISCV_HI20 {
        Some(((old & 0xfffu32) | hi20(sa(s, a))) as u32)
    } else if t == R_RISCV_LO12_I {
        Some(((old & 0xfffffu32) | (((sa(s, a) & 0xfffu64) << 20u64) as u32)) as u32)
    } else if t == R_RISCV_PCREL_LO12_I {
        Some(((old & 0xfffffu32) | (((pcrel(s, a, p) & 0xfffu64) << 20u64) as u32)) as u32)
    } else if t == R_RISCV_LO12_S {
        Some(s_insert(old, sa(s, a)))
    } else if t == R_RISCV_PCREL_LO12_S {
        Some(s_insert(old, pcrel(s, a, p)))
    } else {
        None
    }
}

/// A RISC-V S-type instruction with the low 12 bits of `v` inserted:
/// bits 5..11 at 25..31, bits 0..4 at 7..11.
pub open spec fn s_insert(old: u32, v: u64) -> u32 {
    ((old & 0x01ff_f07fu32) | (((((v >> 5u64) & 0x7fu64) << 25u64) | ((v & 0x1fu64) << 7u64)) as u32)) as u32
}

/// A compressed branch (CB format) with the offset `d` inserted.
pub open spec fn rvc_branch(old: u16, d: u64) -> u16 {
    ((old & 0xe383u16) | ((((d >> 8u64) & 1u64) << 12u64 | ((d >> 3u64) & 3u64) << 10u64
        | ((d >> 6u64) & 3u64) << 5u64 | ((d >> 1u64) & 3u64) << 3u64 | ((d >> 5u64) & 1u64)
        << 2u64) as u16)) as u16
}

/// A compressed jump (CJ format) with the offset `d` inserted.
pub open spec fn rvc_jump(old: u16, d: u64) -> u16 {
    ((old & 0xe003u16) | ((((d >> 11u64) & 1u64) << 12u64 | ((d >> 4u64) & 1u64) << 11u64
        | ((d >> 8u64) & 3u64) << 9u64 | ((d >> 10u64) & 1u64) << 8u64 | ((d >> 6u64) & 1u64)
        << 7u64 | ((d >> 7u64) & 1u64) << 6u64 | ((d >> 1u64) & 7u64) << 3u64 | ((d >> 5u64)
        & 1u64) << 2u64) as u16)) as u16
}

/// Whether `t` is the copy relocation of `arch`.
pub open spec fn is_copy(arch: Arch, t: u32) -> bool {
    match arch {
        Arch::X86_64 => t == R_X86_64_COPY,
        Arch::AArch64 => t == R_AARCH64_COPY,
        Arch::RiscV64 => t == R_RISCV_COPY,
    }
}

/// How many bytes at the relocation address a handled type rewrites, or
/// `None` when `relocate` does not handle the type.
pub open spec fn reloc_width(arch: Arch, t: u32) -> Option<nat> {
    match arch {
        Arch::X86_64 => if x86_64_word(t, 0, 0, 0, 0, 0, 0, 0) is Some { Some(8) } else { None },
        Arch::AArch64 => if aarch64_word(t, 0, 0, 0, 0, 0, 0, 0) is Some {
            Some(8)
        } else if aarch64_insn(t, 0, 0, 0, 0) is Some {
            Some(4)
        } else {
            None
        },
        Arch::RiscV64 => if riscv_word(t, 0, 0, 0, 0, 0, 0, 0, 0) is Some {
            Some(8)
        } else if t == R_RISCV_CALL || t == R_RISCV_CALL_PLT {
            Some(8)
        } else if riscv_word32(t, 0, 0, 0, 0) is Some {
            Some(4)
        } else if t == R_RISCV_RVC_BRANCH || t == R_RISCV_RVC_JUMP {
            Some(2)
        } else if t == R_RISCV_ALIGN {
            Some(0)
        } else {
            None
        },
    }
}

/// The bytes a handled relocation leaves at `p`, given the bytes `old` in place there.
pub open spec fn reloc_bytes(
    arch: Arch,
    t: u32,
    s: u64,
    a: u64,
    b: u64,
    p: u64,
    mid: u64,
    toff: u64,
    stls: u64,
    stla: u64,
    iv: u64,
    old: Seq<u8>,
) -> Seq<u8> {
    match arch {
        Arch::X86_64 => le_bytes_u64(x86_64_word(t, s, a, b, mid, toff, stls, iv)->0),
        Arch::AArch64 => if aarch64_word(t, s, a, b, mid, toff, stla, iv) is Some {
            le_bytes_u64(aarch64_word(t, s, a, b, mid, toff, stla, iv)->0)
        } else {
            le_bytes_u32(aarch64_insn(t, s, a, p, le_u32(old, 0))->0)
        },
        Arch::RiscV64 => if riscv_word(t, s, a, b, mid, toff, stla, iv, le_u64(old, 0)) is Some {
            le_bytes_u64(riscv_word(t, s, a, b, mid, toff, stla, iv, le_u64(old, 0))->0)
        } else if t == R_RISCV_CALL || t == R_RISCV_CALL_PLT {
            le_bytes_u32(((le_u32(old, 0) & 0xfffu32) | hi20(pcrel(s, a, p))) as u32)
                + le_bytes_u32(((le_u32(old, 4) & 0xfffffu32) | (((pcrel(s, a, p) & 0xfffu64) << 20u64) as u32)) as u32)
        } else if riscv_word32(t, s, a, p, le_u32(old, 0)) is Some {
            le_bytes_u32(riscv_word32(t, s, a, p, le_u32(old, 0))->0)
        } else if t == R_RISCV_RVC_BRANCH {
            le_bytes_u16(rvc_branch(le_u16(old, 0), pcrel(s, a, p)))
        } else if t == R_RISCV_RVC_JUMP {
            le_bytes_u16(rvc_jump(le_u16(old, 0), pcrel(s, a, p)))
        } else {
            seq![]
        },
    }
}

fn x86_64_word_exec(t: u32, s: u64, a: u64, b: u64, mid: u64, toff: u64, stls: u64, iv: u64) -> (r: Option<u64>)
    ensures
        r == x86_64_word(t, s, a, b, mid, toff, stls, iv),
{
    if t == R_X86_64_64 || t == R_X86_64_DTPOFF64 {
        Some(s.wrapping_add(a))
    } else if t == R_X86_64_GLOB_DAT || t == R_X86_64_JUMP_SLOT {
        Some(s)
    } else if t == R_X86_64_RELATIVE {
        Some(b.wrapping_add(a))
    } else if t == R_X86_64_IRELATIVE {
        Some(iv)
    } else if t == R_X86_64_DTPMOD64 {
        Some(mid)
    } else if t == R_X86_64_TPOFF64 {
        Some(toff.wrapping_add(s).wrapping_add(a).wrapping_sub(stls))
    } else {
        None
    }
}

fn aarch64_word_exec(t: u32, s: u64, a: u64, b: u64, mid: u64, toff: u64, stla: u64, iv: u64) -> (r: Option<u64>)
    ensures
        r == aarch64_word(t, s, a, b, mid, toff, stla, iv),
{
    if t == R_AARCH64_ABS64 || t == R_AARCH64_TLS_DTPREL64 {
        Some(s.wrapping_add(a))
    } else if t == R_AARCH64_GLOB_DAT || t == R_AARCH64_JUMP_SLOT {
        Some(s)
    } else if t == R_AARCH64_RELATIVE {
        Some(b.wrapping_add(a))
    } else if t == R_AARCH64_IRELATIVE {
        Some(iv)
    } else if t == R_AARCH64_TLS_DTPMOD64 {
        Some(mid)
    } else if t == R_AARCH64_TLS_TPREL64 {
        Some(tcb_area(stla).wrapping_add(toff).wrapping_add(s).wrapping_add(a))
    } else {
        None
    }
}

fn adr_insert_exec(old: u32, imm: u64) -> (r: u32)
    ensures
        r == adr_insert(old, imm),
{
    (old & 0x9f00_001f) | (#[verifier::truncate] ((((imm & 3) << 29u64) | (((imm >> 2u64) & 0x7ffff) << 5u64)) as u32))
}

fn aarch64_insn_exec(t: u32, s: u64, a: u64, p: u64, old: u32) -> (r: Option<u32>)
    ensures
        r == aarch64_insn(t, s, a, p, old),
{
    let v = s.wrapping_add(a);
    let d = v.wrapping_sub(p);
    if t == R_AARCH64_ADD_ABS_LO12_NC {
        Some((old & 0xffc0_03ff) | (#[verifier::truncate] (((v & 0xfff) << 10u64) as u32)))
    } else if t == R_AARCH64_ADR_PREL_LO21 {
        Some(adr_insert_exec(old, d))
    } else if t == R_AARCH64_ADR_PREL_PG_HI21 {
        Some(adr_insert_exec(old, ((v & !0xfffu64).wrapping_sub(p & !0xfffu64)) >> 12u64))
    } else if t == R_AARCH64_CALL26 || t == R_AARCH64_JUMP26 {
        Some((old & 0xfc00_0000) | (#[verifier::truncate] (((d >> 2u64) & 0x3ff_ffff) as u32)))
    } else if t == R_AARCH64_MOVW_UABS_G0_NC {
        Some((old & 0xffe0_001f) | (#[verifier::truncate] (((v & 0xffff) << 5u64) as u32)))
    } else if t == R_AARCH64_MOVW_UABS_G1_NC {
        Some((old & 0xffe0_001f) | (#[verifier::truncate] ((((v >> 16u64) & 0xffff) << 5u64) as u32)))
    } else if t == R_AARCH64_MOVW_UABS_G2_NC {
        Some((old & 0xffe0_001f) | (#[verifier::truncate] ((((v >> 32u64) & 0xffff) << 5u64) as u32)))
    } else if t == R_AARCH64_MOVW_UABS_G3 {
        Some((old & 0xffe0_001f) | (#[verifier::truncate] ((((v >> 48u64) & 0xffff) << 5u64) as u32)))
    } else {
        None
    }
}

fn riscv_word_exec(t: u32, s: u64, a: u64, b: u64, mid: u64, toff: u64, stla: u64, iv: u64, old: u64) -> (r: Option<u64>)
    ensures
        r == riscv_word(t, s, a, b, mid, toff, stla, iv, old),
{
    if t == R_RISCV_64 || t == R_RISCV_TLS_DTPREL64 {
        Some(s.wrapping_add(a))
    } else if t == R_RISCV_JUMP_SLOT {
        Some(s)
    } else if t == R_RISCV_RELATIVE {
        Some(b.wrapping_add(a))
    } else if t == R_RISCV_IRELATIVE {
        Some(iv)
    } else if t == R_RISCV_ADD64 {
        Some(old.wrapping_add(s).wrapping_add(a))
    } else if t == R_RISCV_SUB64 {
        Some(old.wrapping_sub(s).wrapping_sub(a))
    } else if t == R_RISCV_TLS_DTPMOD64 {
        Some(mid)
    } else if t == R_RISCV_TLS_TPREL64 {
        Some(tcb_area(stla).wrapping_add(toff).wrapping_add(s).wrapping_add(a))
    } else {
        None
    }
}

fn hi20_exec(v: u64) -> (r: u32)
    ensures
        r == hi20(v),
{
    #[verifier::truncate] ((v.wrapping_add(0x800) & 0xffff_f000) as u32)
}

fn s_insert_exec(old: u32, v: u64) -> (r: u32)
    ensures
        r == s_insert(old, v),
{
    (old & 0x01ff_f07f) | (#[verifier::truncate] (((((v >> 5u64) & 0x7f) << 25u64) | ((v & 0x1f) << 7u64)) as u32))
}

fn riscv_word32_exec(t: u32, s: u64, a: u64, p: u64, old: u32) -> (r: Option<u32>)
    ensures
        r == riscv_word32(t, s, a, p, old),
{
    let v = s.wrapping_add(a);
    let d = v.wrapping_sub(p);
    if t == R_RISCV_ADD32 {
        Some(old.wrapping_add(#[verifier::truncate] (s as u32)).wrapping_add(#[verifier::truncate] (a as u32)))
    } else if t == R_RISCV_SUB32 {
        Some(old.wrapping_sub(#[verifier::truncate] (s as u32)).wrapping_sub(#[verifier::truncate] (a as u32)))
    } else if t == R_RISCV_GOT_HI20 || t == R_RISCV_PCREL_HI20 {
        Some((old & 0xfff) | hi20_exec(d))
    } else if t == R_RISCV_HI20 {
        Some((old & 0xfff) | hi20_exec(v))
    } else if t == R_RISCV_LO12_I {
        Some((old & 0xfffff) | (#[verifier::truncate] (((v & 0xfff) << 20u64) as u32)))
    } else if t == R_RISCV_PCREL_LO12_I {
        Some((old & 0xfffff) | (#[verifier::truncate] (((d & 0xfff) << 20u64) as u32)))
    } else if t == R_RISCV_LO12_S {
        Some(s_insert_exec(old, v))
    } else if t == R_RISCV_PCREL_LO12_S {
        Some(s_insert_exec(old, d))
    } else {
        None
    }
}

fn rvc_branch_exec(old: u16, d: u64) -> (r: u16)
    ensures
        r == rvc_branch(old, d),
{
    let bits: u64 = ((d >> 8u64) & 1) << 12u64 | ((d >> 3u64) & 3) << 10u64 | ((d >> 6u64) & 3) << 5u64
        | ((d >> 1u64) & 3) << 3u64 | ((d >> 5u64) & 1) << 2u64;
    (old & 0xe383) | (#[verifier::truncate] (bits as u16))
}

fn rvc_jump_exec(old: u16, d: u64) -> (r: u16)
    ensures
        r == rvc_jump(old, d),
{
    let bits: u64 = ((d >> 11u64) & 1) << 12u64 | ((d >> 4u64) & 1) << 11u64 | ((d >> 8u64) & 3) << 9u64
        | ((d >> 10u64) & 1) << 8u64 | ((d >> 6u64) & 1) << 7u64 | ((d >> 7u64) & 1) << 6u64
        | ((d >> 1u64) & 7) << 3u64 | ((d >> 5u64) & 1) << 2u64;
    (old & 0xe003) | (#[verifier::truncate] (bits as u16))
}

/// The number of bytes `relocate` rewrites for type `t`, or `None` when the
/// type is not handled there.
pub fn relocation_width(arch: Arch, t: u32) -> (r: Option<u64>)
    ensures
        r is Some <==> reloc_width(arch, t) is Some,
        r is Some ==> r->0 == reloc_width(arch, t)->0,
{
    match arch {
        Arch::X86_64 => if x86_64_word_exec(t, 0, 0, 0, 0, 0, 0, 0).is_some() { Some(8) } else { None },
        Arch::AArch64 => if aarch64_word_exec(t, 0, 0, 0, 0, 0, 0, 0).is_some() {
            Some(8)
        } else if aarch64_insn_exec(t, 0, 0, 0, 0).is_some() {
            Some(4)
        } else {
            None
        },
        Arch::RiscV64 => if riscv_word_exec(t, 0, 0, 0, 0, 0, 0, 0, 0).is_some() {
            Some(8)
        } else if t == R_RISCV_CALL || t == R_RISCV_CALL_PLT {
            Some(8)
        } else if riscv_word32_exec(t, 0, 0, 0, 0).is_some() {
            Some(4)
        } else if t == R_RISCV_RVC_BRANCH || t == R_RISCV_RVC_JUMP {
            Some(2)
        } else if t == R_RISCV_ALIGN {
            Some(0)
        } else {
            None
        },
    }
}

fn reloc_bytes_exec(
    arch: Arch,
    t: u32,
    s: u64,
    a: u64,
    b: u64,
    p: u64,
    mid: u64,
    toff: u64,
    stls: u64,
    stla: u64,
    iv: u64,
    old: &Vec<u8>,
) -> (r: Vec<u8>)
    requires
        reloc_width(arch, t) == Some(old@.len()),
    ensures
        r@ == reloc_bytes(arch, t, s, a, b, p, mid, toff, stls, stla, iv, old@),
        r@.len() == old@.len(),
{
    match arch {
        Arch::X86_64 => {
            let w = x86_64_word_exec(t, s, a, b, mid, toff, stls, iv);
            bytes_u64(w.unwrap())
        },
        Arch::AArch64 => {
            let w = aarch64_word_exec(t, s, a, b, mid, toff, stla, iv);
            if w.is_some() {
                bytes_u64(w.unwrap())
            } else {
                bytes_u32(aarch64_insn_exec(t, s, a, p, read_u32(old, 0)).unwrap())
            }
        },
        Arch::RiscV64 => {
            let d = s.wrapping_add(a).wrapping_sub(p);
            if riscv_word_exec(t, 0, 0, 0, 0, 0, 0, 0, 0).is_some() {
                bytes_u64(riscv_word_exec(t, s, a, b, mid, toff, stla, iv, read_u64(old, 0)).unwrap())
            } else if t == R_RISCV_CALL || t == R_RISCV_CALL_PLT {
                let mut r = bytes_u32((read_u32(old, 0) & 0xfff) | hi20_exec(d));
                let mut second = bytes_u32((read_u32(old, 4) & 0xfffff) | (#[verifier::truncate] (((d & 0xfff) << 20u64) as u32)));
                r.append(&mut second);
                r
            } else if riscv_word32_exec(t, 0, 0, 0, 0).is_some() {
                bytes_u32(riscv_word32_exec(t, s, a, p, read_u32(old, 0)).unwrap())
            } else if t == R_RISCV_RVC_BRANCH {
                bytes_u16(rvc_branch_exec(read_u16(old, 0), d))
            } else if t == R_RISCV_RVC_JUMP {
                bytes_u16(rvc_jump_exec(read_u16(old, 0), d))
            } else {
                Vec::new()
            }
        },
    }
}

/// Whether `t` is the IFUNC relocation of `arch`.
pub open spec fn is_irelative(arch: Arch, t: u32) -> bool {
    match arch {
        Arch::X86_64 => t == R_X86_64_IRELATIVE,
        Arch::AArch64 => t == R_AARCH64_IRELATIVE,
        Arch::RiscV64 => t == R_RISCV_IRELATIVE,
    }
}

fn is_irelative_exec(arch: Arch, t: u32) -> (r: bool)
    ensures
        r == is_irelative(arch, t),
{
    match arch {
        Arch::X86_64 => t == R_X86_64_IRELATIVE,
        Arch::AArch64 => t == R_AARCH64_IRELATIVE,
        Arch::RiscV64 => t == R_RISCV_IRELATIVE,
    }
}

/// The value recorded in `results` for the IFUNC resolver at `addr`: the
/// first entry `(resolver, value)` with that resolver.
pub open spec fn ifunc_lookup(results: Seq<(u64, u64)>, addr: u64) -> Option<u64>
    decreases results.len(),
{
    if results.len() == 0 {
        None
    } else if results[0].0 == addr {
        Some(results[0].1)
    } else {
        ifunc_lookup(results.drop_first(), addr)
    }
}

/// The value the IFUNC resolver at `addr` returned, as recorded in
/// `results` by whoever ran it; resolver code does not run here.
pub fn resolve_ifunc(results: &[(u64, u64)], addr: u64) -> (r: Option<u64>)
    ensures
        r == ifunc_lookup(results@, addr),
{
    let mut i: usize = 0;
    assert(results@.subrange(0, results@.len() as int) =~= results@);
    while i < results.len()
        invariant
            i <= results@.len(),
            ifunc_lookup(results@, addr) == ifunc_lookup(results@.subrange(i as int, results@.len() as int), addr),
        decreases results@.len() - i,
    {
        assert(results@.subrange(i as int, results@.len() as int).drop_first() =~= results@.subrange(i + 1, results@.len() as int));
        if results[i].0 == addr {
            return Some(results[i].1);
        }
        i = i + 1;
    }
    None
}

/// The TCB size rounded up to `align`, as a machine word.
pub fn tcb_area(align: u64) -> (r: u64)
    ensures
        r == tcb_span(align),
{
    if align <= 1 {
        return TCB_SIZE;
    }
    proof {
        lemma_align_up_bounds(TCB_SIZE as int, align as int);
    }
    let wide: u128 = ((TCB_SIZE as u128) + (align as u128) - 1) / (align as u128) * (align as u128);
    #[verifier::truncate] (wide as u64)
}

/// The window after `relocate` on `m`: when `t` is handled, the bytes at
/// `p` are replaced by `reloc_bytes` if they can be written.
pub open spec fn relocated(
    m: MemView,
    arch: Arch,
    t: u32,
    s: u64,
    a: u64,
    b: u64,
    p: u64,
    mid: u64,
    toff: u64,
    stls: u64,
    stla: u64,
    ifunc: Option<u64>,
) -> MemView {
    let w = reloc_width(arch, t)->0;
    if reloc_width(arch, t) is Some && !(is_irelative(arch, t) && ifunc is None) {
        m.store(p as int, reloc_bytes(arch, t, s, a, b, p, mid, toff, stls, stla, ifunc.unwrap_or(0),
            m.range(p as int, w as int)))
    } else {
        m
    }
}

/// Applies one relocation of type `r_type` at `reloc_addr`, with symbol value
/// `sym_val` and the owner's TLS data. Returns whether the type is handled
/// here; copy relocations and unknown types are left to the caller.
pub fn relocate(
    arch: Arch,
    mem: &mut Memory,
    r_type: u32,
    sym_val: u64,
    sym_size: u64,
    reloc_addr: u64,
    addend: Option<u64>,
    base_addr: u64,
    tls_module_id: u64,
    tls_offset: u64,
    static_tls_size: u64,
    static_tls_align: u64,
    ifunc_result: Option<u64>,
) -> (handled: bool)
    requires
        old(mem).wf(),
    ensures
        final(mem).wf(),
        handled == reloc_width(arch, r_type) is Some,
        final(mem)@ == relocated(old(mem)@, arch, r_type, sym_val, addend.unwrap_or(0), base_addr,
            reloc_addr, tls_module_id, tls_offset, static_tls_size, static_tls_align, ifunc_result),
{
    let a = match addend {
        Some(v) => v,
        None => 0,
    };
    let width = match relocation_width(arch, r_type) {
        Some(w) => w,
        None => return false,
    };
    let iv = match ifunc_result {
        Some(v) => v,
        None => {
            if is_irelative_exec(arch, r_type) {
                return true;
            }
            0
        },
    };
    if !mem.is_writable(reloc_addr, width) {
        return true;
    }
    let old = match mem.read_bytes(reloc_addr, width) {
        Some(v) => v,
        None => return true,
    };
    let new = reloc_bytes_exec(arch, r_type, sym_val, a, base_addr, reloc_addr, tls_module_id, tls_offset,
        static_tls_size, static_tls_align, iv, &old);
    let _ = mem.write_bytes(reloc_addr, &new);
    true
}

/// The window after `relocate_copy`: for the copy type, `size` bytes from
/// `src` stored at `dst` when the source is mapped; otherwise unchanged.
pub open spec fn copied(m: MemView, arch: Arch, t: u32, src: u64, dst: u64, size: u64) -> MemView {
    if is_copy(arch, t) && m.contains(src as int, size as int) {
        m.store(dst as int, m.range(src as int, size as int))
    } else {
        m
    }
}

/// Performs a copy relocation: when `r_type` is the copy type of `arch`,
/// copies `size` bytes from `src_addr` to `dst_addr` and returns `true`.
pub fn relocate_copy(arch: Arch, mem: &mut Memory, r_type: u32, src_addr: u64, dst_addr: u64, size: u64) -> (r: bool)
    requires
        old(mem).wf(),
    ensures
        final(mem).wf(),
        r == is_copy(arch, r_type),
        final(mem)@ == copied(old(mem)@, arch, r_type, src_addr, dst_addr, size),
{
    let is_copy = match arch {
        Arch::X86_64 => r_type == R_X86_64_COPY,
        Arch::AArch64 => r_type == R_AARCH64_COPY,
        Arch::RiscV64 => r_type == R_RISCV_COPY,
    };
    if is_copy {
        let _ = mem.copy(src_addr, dst_addr, size);
    }
    is_copy
}

/// The base-relative relocation type of `arch`.
pub open spec fn relative_type(arch: Arch) -> u32 {
    match arch {
        Arch::X86_64 => R_X86_64_RELATIVE,
        Arch::AArch64 => R_AARCH64_RELATIVE,
        Arch::RiscV64 => R_RISCV_RELATIVE,
    }
}

/// A base-relative relocation ignores the symbol value: applying it with any
/// `S` leaves the window that applying it with `S = 0` leaves.
pub proof fn lemma_relative_ignores_symbol(
    m: MemView,
    arch: Arch,
    s: u64,
    a: u64,
    b: u64,
    p: u64,
    mid: u64,
    toff: u64,
    stls: u64,
    stla: u64,
    ifunc: Option<u64>,
)
    ensures
        relocated(m, arch, relative_type(arch), s, a, b, p, mid, toff, stls, stla, ifunc)
            == relocated(m, arch, relative_type(arch), 0, a, b, p, mid, toff, stls, stla, ifunc),
{
}

} // verus!
