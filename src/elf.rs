//! ELF64 little-endian records and constants, with decoders from bytes.

use vstd::prelude::*;

verus! {

// Auxiliary vector entry types.
pub const AT_NULL: u64 = 0;
pub const AT_PHDR: u64 = 3;
pub const AT_PHNUM: u64 = 5;
pub const AT_ENTRY: u64 = 9;

// Program header types.
pub const PT_NULL: u32 = 0;
pub const PT_LOAD: u32 = 1;
pub const PT_DYNAMIC: u32 = 2;
pub const PT_PHDR: u32 = 6;
pub const PT_TLS: u32 = 7;
pub const PT_GNU_RELRO: u32 = 0x6474e552;

// Segment permission flags.
pub const PF_X: u32 = 1;
pub const PF_W: u32 = 2;
pub const PF_R: u32 = 4;

pub const PROT_READ: u32 = 1;

// Dynamic section tags.
pub const DT_NULL: i64 = 0;
pub const DT_NEEDED: i64 = 1;
pub const DT_PLTRELSZ: i64 = 2;
pub const DT_PLTGOT: i64 = 3;
pub const DT_HASH: i64 = 4;
pub const DT_STRTAB: i64 = 5;
pub const DT_SYMTAB: i64 = 6;
pub const DT_RELA: i64 = 7;
pub const DT_RELASZ: i64 = 8;
pub const DT_RELAENT: i64 = 9;
pub const DT_STRSZ: i64 = 10;
pub const DT_SYMENT: i64 = 11;
pub const DT_INIT: i64 = 12;
pub const DT_FINI: i64 = 13;
pub const DT_JMPREL: i64 = 23;
pub const DT_INIT_ARRAY: i64 = 25;
pub const DT_FINI_ARRAY: i64 = 26;
pub const DT_INIT_ARRAYSZ: i64 = 27;
pub const DT_FINI_ARRAYSZ: i64 = 28;
pub const DT_GNU_HASH: i64 = 0x6ffffef5;
pub const DT_VERSYM: i64 = 0x6ffffff0;
pub const DT_RELACOUNT: i64 = 0x6ffffff9;
pub const DT_VERDEF: i64 = 0x6ffffffc;
pub const DT_VERDEFNUM: i64 = 0x6ffffffd;
pub const DT_VERNEED: i64 = 0x6ffffffe;
pub const DT_VERNEEDNUM: i64 = 0x6fffffff;

// Symbols.
pub const STT_FILE: u8 = 4;
pub const SHN_UNDEF: u16 = 0;

// Machines.
pub const EM_X86_64: u16 = 62;
pub const EM_AARCH64: u16 = 183;
pub const EM_RISCV: u16 = 243;

// Sizes of the on-disk records.
pub const EHDR_SIZE: u64 = 64;
pub const PHDR_SIZE: u64 = 56;
pub const DYN_SIZE: u64 = 16;
pub const SYM_SIZE: u64 = 24;
pub const RELA_SIZE: u64 = 24;

// x86-64 relocation types.
pub const R_X86_64_64: u32 = 1;
pub const R_X86_64_COPY: u32 = 5;
pub const R_X86_64_GLOB_DAT: u32 = 6;
pub const R_X86_64_JUMP_SLOT: u32 = 7;
pub const R_X86_64_RELATIVE: u32 = 8;
pub const R_X86_64_DTPMOD64: u32 = 16;
pub const R_X86_64_DTPOFF64: u32 = 17;
pub const R_X86_64_TPOFF64: u32 = 18;
pub const R_X86_64_IRELATIVE: u32 = 37;

// AArch64 relocation types.
pub const R_AARCH64_ABS64: u32 = 257;
pub const R_AARCH64_MOVW_UABS_G0_NC: u32 = 264;
pub const R_AARCH64_MOVW_UABS_G1_NC: u32 = 266;
pub const R_AARCH64_MOVW_UABS_G2_NC: u32 = 268;
pub const R_AARCH64_MOVW_UABS_G3: u32 = 269;
pub const R_AARCH64_ADR_PREL_LO21: u32 = 274;
pub const R_AARCH64_ADR_PREL_PG_HI21: u32 = 275;
pub const R_AARCH64_ADD_ABS_LO12_NC: u32 = 277;
pub const R_AARCH64_JUMP26: u32 = 282;
pub const R_AARCH64_CALL26: u32 = 283;
pub const R_AARCH64_COPY: u32 = 1024;
pub const R_AARCH64_GLOB_DAT: u32 = 1025;
pub const R_AARCH64_JUMP_SLOT: u32 = 1026;
pub const R_AARCH64_RELATIVE: u32 = 1027;
pub const R_AARCH64_TLS_DTPMOD64: u32 = 1028;
pub const R_AARCH64_TLS_DTPREL64: u32 = 1029;
pub const R_AARCH64_TLS_TPREL64: u32 = 1030;
pub const R_AARCH64_IRELATIVE: u32 = 1032;

// RISC-V relocation types.
pub const R_RISCV_64: u32 = 2;
pub const R_RISCV_RELATIVE: u32 = 3;
pub const R_RISCV_COPY: u32 = 4;
pub const R_RISCV_JUMP_SLOT: u32 = 5;
pub const R_RISCV_TLS_DTPMOD64: u32 = 7;
pub const R_RISCV_TLS_DTPREL64: u32 = 9;
pub const R_RISCV_TLS_TPREL64: u32 = 11;
pub const R_RISCV_CALL: u32 = 18;
pub const R_RISCV_CALL_PLT: u32 = 19;
pub const R_RISCV_GOT_HI20: u32 = 20;
pub const R_RISCV_PCREL_HI20: u32 = 23;
pub const R_RISCV_PCREL_LO12_I: u32 = 24;
pub const R_RISCV_PCREL_LO12_S: u32 = 25;
pub const R_RISCV_HI20: u32 = 26;
pub const R_RISCV_LO12_I: u32 = 27;
pub const R_RISCV_LO12_S: u32 = 28;
pub const R_RISCV_ADD32: u32 = 35;
pub const R_RISCV_ADD64: u32 = 36;
pub const R_RISCV_SUB32: u32 = 39;
pub const R_RISCV_SUB64: u32 = 40;
pub const R_RISCV_ALIGN: u32 = 43;
pub const R_RISCV_RVC_BRANCH: u32 = 44;
pub const R_RISCV_RVC_JUMP: u32 = 45;
pub const R_RISCV_IRELATIVE: u32 = 58;

/// The little-endian `u16` at index `i` of `b`.
pub open spec fn le_u16(b: Seq<u8>, i: int) -> u16 {
    ((b[i] as u16) | ((b[i + 1] as u16) << 8u16)) as u16
}

/// The little-endian `u32` at index `i` of `b`.
pub open spec fn le_u32(b: Seq<u8>, i: int) -> u32 {
    ((b[i] as u32) | ((b[i + 1] as u32) << 8u32) | ((b[i + 2] as u32) << 16u32) | ((b[i + 3] as u32)
        << 24u32)) as u32
}

/// The little-endian `u64` at index `i` of `b`.
pub open spec fn le_u64(b: Seq<u8>, i: int) -> u64 {
    ((le_u32(b, i) as u64) | ((le_u32(b, i + 4) as u64) << 32u64)) as u64
}

/// Reads the little-endian `u16` at index `i`.
pub fn read_u16(b: &Vec<u8>, i: usize) -> (r: u16)
    requires
        i + 2 <= b@.len(),
    ensures
        r == le_u16(b@, i as int),
{
    let _n = b.len();
    (b[i] as u16) | ((b[i + 1] as u16) << 8u16)
}

/// Reads the little-endian `u32` at index `i`.
pub fn read_u32(b: &Vec<u8>, i: usize) -> (r: u32)
    requires
        i + 4 <= b@.len(),
    ensures
        r == le_u32(b@, i as int),
{
    let _n = b.len();
    (b[i] as u32) | ((b[i + 1] as u32) << 8u32) | ((b[i + 2] as u32) << 16u32) | ((b[i + 3] as u32)
        << 24u32)
}

/// Reads the little-endian `u64` at index `i`.
pub fn read_u64(b: &Vec<u8>, i: usize) -> (r: u64)
    requires
        i + 8 <= b@.len(),
    ensures
        r == le_u64(b@, i as int),
{
    let _n = b.len();
    (read_u32(b, i) as u64) | ((read_u32(b, i + 4) as u64) << 32u64)
}

/// The eight little-endian bytes of `v`.
pub open spec fn le_bytes_u64(v: u64) -> Seq<u8> {
    seq![v as u8, (v >> 8u64) as u8, (v >> 16u64) as u8, (v >> 24u64) as u8,
        (v >> 32u64) as u8, (v >> 40u64) as u8, (v >> 48u64) as u8, (v >> 56u64) as u8]
}

/// The four little-endian bytes of `v`.
pub open spec fn le_bytes_u32(v: u32) -> Seq<u8> {
    seq![v as u8, (v >> 8u32) as u8, (v >> 16u32) as u8, (v >> 24u32) as u8]
}

/// The two little-endian bytes of `v`.
pub open spec fn le_bytes_u16(v: u16) -> Seq<u8> {
    seq![v as u8, (v >> 8u16) as u8]
}

pub fn bytes_u64(v: u64) -> (r: Vec<u8>)
    ensures
        r@ == le_bytes_u64(v),
{
    let r = vec![v as u8, (v >> 8u64) as u8, (v >> 16u64) as u8, (v >> 24u64) as u8,
        (v >> 32u64) as u8, (v >> 40u64) as u8, (v >> 48u64) as u8, (v >> 56u64) as u8];
    assert(r@ =~= le_bytes_u64(v));
    r
}

pub fn bytes_u32(v: u32) -> (r: Vec<u8>)
    ensures
        r@ == le_bytes_u32(v),
{
    let r = vec![v as u8, (v >> 8u32) as u8, (v >> 16u32) as u8, (v >> 24u32) as u8];
    assert(r@ =~= le_bytes_u32(v));
    r
}

pub fn bytes_u16(v: u16) -> (r: Vec<u8>)
    ensures
        r@ == le_bytes_u16(v),
{
    let r = vec![v as u8, (v >> 8u16) as u8];
    assert(r@ =~= le_bytes_u16(v));
    r
}

/// The ELF file header.
#[derive(Debug, Clone, Copy, PartialEq, Eq)]
pub struct Ehdr {
    pub e_ident: [u8; 16],
    pub e_type: u16,
    pub e_machine: u16,
    pub e_version: u32,
    pub e_entry: u64,
    pub e_phoff: u64,
    pub e_shoff: u64,
    pub e_flags: u32,
    pub e_ehsize: u16,
    pub e_phentsize: u16,
    pub e_phnum: u16,
    pub e_shentsize: u16,
    pub e_shnum: u16,
    pub e_shstrndx: u16,
}

impl Ehdr {
    /// The identification starts with `0x7f 'E' 'L' 'F'`.
    pub open spec fn magic_ok(&self) -> bool {
        &&& self.e_ident@[0] == 0x7fu8
        &&& self.e_ident@[1] == 0x45u8
        &&& self.e_ident@[2] == 0x4cu8
        &&& self.e_ident@[3] == 0x46u8
    }

    pub fn check_magic(&self) -> (r: bool)
        ensures
            r == self.magic_ok(),
    {
        self.e_ident[0] == 0x7f && self.e_ident[1] == 0x45 && self.e_ident[2] == 0x4c
            && self.e_ident[3] == 0x46
    }

    pub open spec fn spec_decode(b: Seq<u8>) -> Ehdr {
        Ehdr {
            e_ident: arbitrary(),
            e_type: le_u16(b, 16),
            e_machine: le_u16(b, 18),
            e_version: le_u32(b, 20),
            e_entry: le_u64(b, 24),
            e_phoff: le_u64(b, 32),
            e_shoff: le_u64(b, 40),
            e_flags: le_u32(b, 48),
            e_ehsize: le_u16(b, 52),
            e_phentsize: le_u16(b, 54),
            e_phnum: le_u16(b, 56),
            e_shentsize: le_u16(b, 58),
            e_shnum: le_u16(b, 60),
            e_shstrndx: le_u16(b, 62),
        }
    }

    /// Decodes the header at the start of `b`.
    pub fn decode(b: &Vec<u8>) -> (r: Ehdr)
        requires
            b@.len() >= EHDR_SIZE,
        ensures
            r.e_ident@ == b@.subrange(0, 16),
            r == (Ehdr { e_ident: r.e_ident, ..Ehdr::spec_decode(b@) }),
    {
        let e_ident = [b[0], b[1], b[2], b[3], b[4], b[5], b[6], b[7], b[8], b[9], b[10], b[11],
            b[12], b[13], b[14], b[15]];
        assert(e_ident@ =~= b@.subrange(0, 16));
        Ehdr {
            e_ident,
            e_type: read_u16(b, 16),
            e_machine: read_u16(b, 18),
            e_version: read_u32(b, 20),
            e_entry: read_u64(b, 24),
            e_phoff: read_u64(b, 32),
            e_shoff: read_u64(b, 40),
            e_flags: read_u32(b, 48),
            e_ehsize: read_u16(b, 52),
            e_phentsize: read_u16(b, 54),
            e_phnum: read_u16(b, 56),
            e_shentsize: read_u16(b, 58),
            e_shnum: read_u16(b, 60),
            e_shstrndx: read_u16(b, 62),
        }
    }
}

/// An auxiliary vector entry.
#[derive(Debug, Clone, Copy, PartialEq, Eq)]
pub struct Auxv {
    pub a_type: u64,
    pub a_val: u64,
}

/// A program header.
#[derive(Debug, Clone, Copy, PartialEq, Eq)]
pub struct Phdr {
    pub p_type: u32,
    pub p_flags: u32,
    pub p_offset: u64,
    pub p_vaddr: u64,
    pub p_paddr: u64,
    pub p_filesz: u64,
    pub p_memsz: u64,
    pub p_align: u64,
}

impl Phdr {
    pub open spec fn spec_decode(b: Seq<u8>, i: int) -> Phdr {
        Phdr {
            p_type: le_u32(b, i),
            p_flags: le_u32(b, i + 4),
            p_offset: le_u64(b, i + 8),
            p_vaddr: le_u64(b, i + 16),
            p_paddr: le_u64(b, i + 24),
            p_filesz: le_u64(b, i + 32),
            p_memsz: le_u64(b, i + 40),
            p_align: le_u64(b, i + 48),
        }
    }

    /// Decodes the program header at index `i` of `b`.
    pub fn decode(b: &Vec<u8>, i: usize) -> (r: Phdr)
        requires
            i + PHDR_SIZE <= b@.len(),
        ensures
            r == Phdr::spec_decode(b@, i as int),
    {
    let _n = b.len();
        Phdr {
            p_type: read_u32(b, i),
            p_flags: read_u32(b, i + 4),
            p_offset: read_u64(b, i + 8),
            p_vaddr: read_u64(b, i + 16),
            p_paddr: read_u64(b, i + 24),
            p_filesz: read_u64(b, i + 32),
            p_memsz: read_u64(b, i + 40),
            p_align: read_u64(b, i + 48),
        }
    }
}

/// A dynamic section entry; `d_val` holds the value or the pointer.
#[derive(Debug, Clone, Copy, PartialEq, Eq)]
pub struct Dyn {
    pub d_tag: i64,
    pub d_val: u64,
}

impl Dyn {
    pub open spec fn spec_decode(b: Seq<u8>, i: int) -> Dyn {
        Dyn { d_tag: le_u64(b, i) as i64, d_val: le_u64(b, i + 8) }
    }

    pub fn decode(b: &Vec<u8>, i: usize) -> (r: Dyn)
        requires
            i + DYN_SIZE <= b@.len(),
        ensures
            r == Dyn::spec_decode(b@, i as int),
    {
    let _n = b.len();
        Dyn { d_tag: #[verifier::truncate] (read_u64(b, i) as i64), d_val: read_u64(b, i + 8) }
    }
}

/// A symbol table entry.
#[derive(Debug, Clone, Copy, PartialEq, Eq)]
pub struct Sym {
    pub st_name: u32,
    pub st_info: u8,
    pub st_other: u8,
    pub st_shndx: u16,
    pub st_value: u64,
    pub st_size: u64,
}

impl Sym {
    pub open spec fn spec_decode(b: Seq<u8>, i: int) -> Sym {
        Sym {
            st_name: le_u32(b, i),
            st_info: b[i + 4],
            st_other: b[i + 5],
            st_shndx: le_u16(b, i + 6),
            st_value: le_u64(b, i + 8),
            st_size: le_u64(b, i + 16),
        }
    }

    pub fn decode(b: &Vec<u8>, i: usize) -> (r: Sym)
        requires
            i + SYM_SIZE <= b@.len(),
        ensures
            r == Sym::spec_decode(b@, i as int),
    {
    let _n = b.len();
        Sym {
            st_name: read_u32(b, i),
            st_info: b[i + 4],
            st_other: b[i + 5],
            st_shndx: read_u16(b, i + 6),
            st_value: read_u64(b, i + 8),
            st_size: read_u64(b, i + 16),
        }
    }

    /// The symbol type, the low four bits of `st_info`.
    pub open spec fn kind(&self) -> u8 {
        self.st_info & 0xfu8
    }

    /// Whether the symbol is a definition that enters the global symbol map.
    pub open spec fn is_global_definition(&self) -> bool {
        self.st_name != 0 && self.kind() != STT_FILE && self.st_shndx != SHN_UNDEF
    }
}

/// A relocation record with an explicit addend.
#[derive(Debug, Clone, Copy, PartialEq, Eq)]
pub struct Rela {
    pub r_offset: u64,
    pub r_info: u64,
    pub r_addend: u64,
}

impl Rela {
    pub open spec fn spec_decode(b: Seq<u8>, i: int) -> Rela {
        Rela { r_offset: le_u64(b, i), r_info: le_u64(b, i + 8), r_addend: le_u64(b, i + 16) }
    }

    pub fn decode(b: &Vec<u8>, i: usize) -> (r: Rela)
        requires
            i + RELA_SIZE <= b@.len(),
        ensures
            r == Rela::spec_decode(b@, i as int),
    {
    let _n = b.len();
        Rela { r_offset: read_u64(b, i), r_info: read_u64(b, i + 8), r_addend: read_u64(b, i + 16) }
    }

    /// The relocation type, the low 32 bits of `r_info`.
    pub open spec fn kind(&self) -> u32 {
        (self.r_info & 0xffff_ffffu64) as u32
    }

    /// The symbol index, the high 32 bits of `r_info`.
    pub open spec fn sym(&self) -> u64 {
        self.r_info >> 32u64
    }
}

/// A version definition record.
#[derive(Debug, Clone, Copy, PartialEq, Eq)]
pub struct Verdef {
    pub vd_version: u16,
    pub vd_flags: u16,
    pub vd_ndx: u16,
    pub vd_cnt: u16,
    pub vd_hash: u32,
    pub vd_aux: u32,
    pub vd_next: u32,
}

/// A version requirement record.
#[derive(Debug, Clone, Copy, PartialEq, Eq)]
pub struct Verneed {
    pub vn_version: u16,
    pub vn_cnt: u16,
    pub vn_file: u32,
    pub vn_aux: u32,
    pub vn_next: u32,
}

} // verus!
