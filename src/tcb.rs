//! The thread control block: its layout, the dynamic thread vector, and the
//! check on the thread register.

use vstd::prelude::*;
use crate::elf::{bytes_u64, le_bytes_u64, le_u64};
use crate::memory::{MemView, Memory};

verus! {

/// Size in bytes of the thread control block: sixteen machine words.
pub const TCB_SIZE: u64 = 128;

/// The TCB as it lies in memory, word by word: self pointer, length, end of
/// static TLS, DTV pointer and length, then the OS block, then the platform block.
#[derive(Debug, PartialEq, Eq)]
pub struct GenericTcb<Os, Platform> {
    pub tcb_ptr: u64,
    pub tcb_len: u64,
    pub tls_end: u64,
    pub dtv: u64,
    pub dtv_len: u64,
    pub os_specific: Os,
    pub platform_specific: Platform,
}

/// The OS block: the signal control word and the thread's handle.
#[derive(Debug, Clone, Copy, PartialEq, Eq)]
pub struct OsBlock {
    pub sig_control: u64,
    pub thread_fd: u64,
}

/// The platform block.
#[derive(Debug, Clone, Copy, PartialEq, Eq)]
pub struct TcbExtension {
    pub self_ptr: u64,
    pub stack_base: u64,
    pub stack_size: u64,
    pub tls_dtv: u64,
    pub tls_dtv_len: u64,
    pub tls_static_base: u64,
    pub my_thread_local: u64,
}

pub type Tcb = GenericTcb<OsBlock, TcbExtension>;

/// The sixteen words of `t` in memory order; the last two are reserved.
pub open spec fn tcb_words(t: Tcb) -> Seq<u64> {
    seq![t.tcb_ptr, t.tcb_len, t.tls_end, t.dtv, t.dtv_len, t.os_specific.sig_control,
        t.os_specific.thread_fd, t.platform_specific.self_ptr, t.platform_specific.stack_base,
        t.platform_specific.stack_size, t.platform_specific.tls_dtv, t.platform_specific.tls_dtv_len,
        t.platform_specific.tls_static_base, t.platform_specific.my_thread_local, 0u64, 0u64]
}

/// The little-endian bytes of the words `ws`.
pub open spec fn words_bytes(ws: Seq<u64>) -> Seq<u8>
    decreases ws.len(),
{
    if ws.len() == 0 {
        seq![]
    } else {
        words_bytes(ws.drop_last()) + le_bytes_u64(ws.last())
    }
}

pub proof fn lemma_words_bytes_len(ws: Seq<u64>)
    ensures
        words_bytes(ws).len() == 8 * ws.len(),
    decreases ws.len(),
{
    if ws.len() > 0 {
        lemma_words_bytes_len(ws.drop_last());
    }
}

/// The bytes of the words `ws`.
pub fn to_bytes(ws: &Vec<u64>) -> (r: Vec<u8>)
    ensures
        r@ == words_bytes(ws@),
{
    let mut out: Vec<u8> = Vec::new();
    let mut i: usize = 0;
    while i < ws.len()
        invariant
            i <= ws@.len(),
            out@ == words_bytes(ws@.subrange(0, i as int)),
        decreases ws@.len() - i,
    {
        let mut b = bytes_u64(ws[i]);
        let ghost before = out@;
        out.append(&mut b);
        assert(ws@.subrange(0, i + 1).drop_last() =~= ws@.subrange(0, i as int));
        i = i + 1;
    }
    assert(ws@.subrange(0, ws@.len() as int) =~= ws@);
    out
}

impl<Os, Platform> GenericTcb<Os, Platform> {
    /// The address of the current TCB when the thread register holds `reg`:
    /// absent when the register is 0, or when the length field of the
    /// structure it points at is unreadable or smaller than a TCB.
    pub fn current_ptr(reg: u64, mem: &Memory) -> (r: Option<u64>)
        requires
            mem.wf(),
        ensures
            r is Some <==> reg != 0 && reg <= u64::MAX - 8 && mem@.contains(reg + 8, 8)
                && le_u64(mem@.range(reg + 8, 8), 0) >= TCB_SIZE,
            r is Some ==> r->0 == reg,
    {
        if reg == 0 || reg > u64::MAX - 8 {
            return None;
        }
        match mem.read_u64(reg + 8) {
            Some(len) => if len >= TCB_SIZE {
                Some(reg)
            } else {
                None
            },
            None => None,
        }
    }

}

impl Tcb {
    /// Stores this TCB at `addr`.
    pub fn store(&self, addr: u64, mem: &mut Memory) -> (ok: bool)
        requires
            old(mem).wf(),
        ensures
            final(mem).wf(),
            ok == old(mem)@.writable(addr as int, TCB_SIZE as int),
            final(mem)@ == old(mem)@.store(addr as int, words_bytes(tcb_words(*self))),
    {
        let ws = vec![self.tcb_ptr, self.tcb_len, self.tls_end, self.dtv, self.dtv_len,
            self.os_specific.sig_control, self.os_specific.thread_fd, self.platform_specific.self_ptr,
            self.platform_specific.stack_base, self.platform_specific.stack_size, self.platform_specific.tls_dtv,
            self.platform_specific.tls_dtv_len, self.platform_specific.tls_static_base,
            self.platform_specific.my_thread_local, 0, 0];
        assert(ws@ =~= tcb_words(*self));
        let b = to_bytes(&ws);
        proof {
            lemma_words_bytes_len(ws@);
        }
        mem.write_bytes(addr, &b)
    }
}

} // verus!
