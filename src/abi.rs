//! Plain records of the surrounding C runtime's ABI.

#![allow(non_camel_case_types)]

use vstd::prelude::*;

verus! {

/// The x86-64 floating-point environment.
#[derive(Debug, Clone, Copy, PartialEq, Eq)]
pub struct fenv_t {
    pub control: u16,
    pub status: u16,
    pub reserved: [u32; 5],
}

/// The x86-64 floating-point exception flags.
#[derive(Debug, Clone, Copy, PartialEq, Eq)]
pub struct fexcept_t {
    pub except: u32,
}

/// The x87 register area of a traced process.
#[derive(Debug, Clone, Copy, PartialEq, Eq)]
pub struct user_fpregs_struct {
    pub cwd: i64,
    pub swd: i64,
    pub twd: i64,
    pub fip: i64,
    pub fcs: i64,
    pub foo: i64,
    pub fos: i64,
    pub st_space: [i64; 20],
}

/// The general registers of a traced process.
#[derive(Debug, Clone, Copy, PartialEq, Eq)]
pub struct user_regs_struct {
    pub ebx: i64,
    pub ecx: i64,
    pub edx: i64,
    pub esi: i64,
    pub edi: i64,
    pub ebp: i64,
    pub eax: i64,
    pub xds: i64,
    pub xes: i64,
    pub xfs: i64,
    pub xgs: i64,
    pub orig_eax: i64,
    pub eip: i64,
    pub xcs: i64,
    pub eflags: i64,
    pub esp: i64,
    pub xss: i64,
}

/// The user area of a traced process.
#[derive(Debug, Clone, Copy, PartialEq, Eq)]
pub struct user {
    pub regs: user_regs_struct,
}

/// The process identity the runtime keeps: group and user ids.
#[derive(Debug, Clone, Copy, PartialEq, Eq)]
pub struct DynamicProcInfo {
    pub pgid: u32,
    pub euid: u32,
    pub suid: u32,
    pub ruid: u32,
    pub egid: u32,
    pub rgid: u32,
    pub sgid: u32,
}

/// The length of a UTF-8 sequence that starts with `b`, or `None` when `b`
/// cannot start one.
pub open spec fn utf8_len(b: u8) -> Option<usize> {
    if b >> 7u8 == 0 {
        Some(1)
    } else if b >> 5u8 == 6 {
        Some(2)
    } else if b >> 4u8 == 0xe {
        Some(3)
    } else if b >> 3u8 == 0x1e {
        Some(4)
    } else {
        None
    }
}

/// The encoded length of a character whose first byte is `first_byte`.
pub fn get_char_encoded_length(first_byte: u8) -> (r: Option<usize>)
    ensures
        r == utf8_len(first_byte),
{
    if first_byte >> 7 == 0 {
        Some(1)
    } else if first_byte >> 5 == 6 {
        Some(2)
    } else if first_byte >> 4 == 0xe {
        Some(3)
    } else if first_byte >> 3 == 0x1e {
        Some(4)
    } else {
        None
    }
}

} // verus!
