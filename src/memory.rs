//! A model of the process address space that the loader writes into.

use vstd::prelude::*;

verus! {

/// Bytes `d` written over `s` starting at index `i`.
pub open spec fn spliced(s: Seq<u8>, i: int, d: Seq<u8>) -> Seq<u8> {
    s.subrange(0, i) + d + s.subrange(i + d.len(), s.len() as int)
}

/// Whether the half-open range `[r.0, r.1)` meets `[addr, addr + len)`.
pub open spec fn overlaps(r: (u64, u64), addr: int, len: int) -> bool {
    addr < r.1 && r.0 < addr + len
}

/// The contents of an address-space window: `bytes` at `[start, start + bytes.len())`,
/// and the protected (read-only) ranges.
pub struct MemView {
    pub start: int,
    pub bytes: Seq<u8>,
    pub read_only: Seq<(u64, u64)>,
}

impl MemView {
    pub open spec fn end(self) -> int {
        self.start + self.bytes.len()
    }

    /// `[addr, addr + len)` lies inside the window.
    pub open spec fn contains(self, addr: int, len: int) -> bool {
        self.start <= addr && len >= 0 && addr + len <= self.end()
    }

    /// Whether address `a` lies in a protected range.
    pub open spec fn protected(self, a: int) -> bool {
        exists|k: int| 0 <= k < self.read_only.len() && overlaps(#[trigger] self.read_only[k], a, 1)
    }

    /// `[addr, addr + len)` lies inside the window and meets no protected range.
    pub open spec fn writable(self, addr: int, len: int) -> bool {
        &&& self.contains(addr, len)
        &&& forall|k: int| 0 <= k < self.read_only.len() ==> !overlaps(#[trigger] self.read_only[k], addr, len)
    }

    /// The byte at address `a`.
    pub open spec fn byte(self, a: int) -> u8 {
        self.bytes[a - self.start]
    }

    /// The `len` bytes starting at `addr`.
    pub open spec fn range(self, addr: int, len: int) -> Seq<u8> {
        self.bytes.subrange(addr - self.start, addr - self.start + len)
    }

    /// The window after storing `d` at `addr`: unchanged when the range is not writable.
    pub open spec fn store(self, addr: int, d: Seq<u8>) -> MemView {
        if self.writable(addr, d.len() as int) {
            MemView { bytes: spliced(self.bytes, addr - self.start, d), ..self }
        } else {
            self
        }
    }

    /// `new` differs from `self` at most on `[lo, hi)`; the layout and the protections are kept.
    pub open spec fn same_outside(self, new: MemView, lo: int, hi: int) -> bool {
        &&& new.start == self.start
        &&& new.bytes.len() == self.bytes.len()
        &&& new.read_only == self.read_only
        &&& forall|a: int| self.contains(a, 1) && !(lo <= a < hi) ==> #[trigger] new.byte(a) == self.byte(a)
    }
}

/// A window of the process address space: `bytes` are the contents of
/// `[start, start + bytes.len())`, and `read_only` lists the half-open ranges
/// that have been protected against writing.
pub struct Memory {
    pub start: u64,
    pub bytes: Vec<u8>,
    pub read_only: Vec<(u64, u64)>,
}

impl View for Memory {
    type V = MemView;

    open spec fn view(&self) -> MemView {
        MemView { start: self.start as int, bytes: self.bytes@, read_only: self.read_only@ }
    }
}

impl Memory {
    pub open spec fn wf(&self) -> bool {
        self.start + self.bytes@.len() <= u64::MAX
    }

    /// A zero-filled window of `size` bytes at `start`.
    pub fn new(start: u64, size: usize) -> (r: Memory)
        requires
            start + size <= u64::MAX,
        ensures
            r.wf(),
            r@.start == start,
            r@.bytes == Seq::new(size as nat, |i: int| 0u8),
            r@.read_only.len() == 0,
    {
        let mut bytes: Vec<u8> = Vec::new();
        let mut i: usize = 0;
        while i < size
            invariant
                i <= size,
                bytes@ == Seq::new(i as nat, |k: int| 0u8),
            decreases size - i,
        {
            bytes.push(0);
            i = i + 1;
            assert(bytes@ =~= Seq::new(i as nat, |k: int| 0u8));
        }
        Memory { start, bytes, read_only: Vec::new() }
    }

    pub fn start(&self) -> (r: u64)
        ensures
            r == self@.start,
    {
        self.start
    }

    pub fn len(&self) -> (r: usize)
        ensures
            r == self@.bytes.len(),
    {
        self.bytes.len()
    }

    /// Whether `[addr, addr + len)` lies inside the window.
    pub fn in_window(&self, addr: u64, len: u64) -> (r: bool)
        requires
            self.wf(),
        ensures
            r == self@.contains(addr as int, len as int),
    {
        addr >= self.start && len <= self.bytes.len() as u64 && addr - self.start <= self.bytes.len() as u64 - len
    }

    /// Whether a store to `[addr, addr + len)` would succeed.
    pub fn is_writable(&self, addr: u64, len: u64) -> (r: bool)
        requires
            self.wf(),
        ensures
            r == self@.writable(addr as int, len as int),
    {
        if !self.in_window(addr, len) {
            return false;
        }
        let mut k: usize = 0;
        while k < self.read_only.len()
            invariant
                k <= self.read_only@.len(),
                forall|j: int| 0 <= j < k ==> !overlaps(#[trigger] self.read_only@[j], addr as int, len as int),
            decreases self.read_only@.len() - k,
        {
            let (lo, hi) = self.read_only[k];
            if (addr as u128) < (hi as u128) && (lo as u128) < (addr as u128) + (len as u128) {
                assert(overlaps(self@.read_only[k as int], addr as int, len as int));
                return false;
            }
            k = k + 1;
        }
        true
    }

    /// Reads `len` bytes at `addr`, or `None` outside the window.
    pub fn read_bytes(&self, addr: u64, len: u64) -> (r: Option<Vec<u8>>)
        requires
            self.wf(),
        ensures
            r is Some <==> self@.contains(addr as int, len as int),
            r is Some ==> r->0@ == self@.range(addr as int, len as int),
    {
        if !self.in_window(addr, len) {
            return None;
        }
        let blen = self.bytes.len();
        let off = (addr - self.start) as usize;
        let n = len as usize;
        let mut out: Vec<u8> = Vec::new();
        let mut i: usize = 0;
        while i < n
            invariant
                self@.contains(addr as int, len as int),
                off == addr - self.start,
                n == len,
                off + n <= blen,
                blen == self.bytes@.len(),
                i <= n,
                out@ == self.bytes@.subrange(off as int, off + i),
            decreases n - i,
        {
            out.push(self.bytes[off + i]);
            i = i + 1;
            assert(out@ =~= self.bytes@.subrange(off as int, off + i));
        }
        Some(out)
    }

    /// Reads the little-endian `u64` at `addr`, or `None` outside the window.
    pub fn read_u64(&self, addr: u64) -> (r: Option<u64>)
        requires
            self.wf(),
        ensures
            r is Some <==> self@.contains(addr as int, 8),
            r is Some ==> r->0 == crate::elf::le_u64(self@.range(addr as int, 8), 0),
    {
        match self.read_bytes(addr, 8) {
            Some(b) => Some(crate::elf::read_u64(&b, 0)),
            None => None,
        }
    }

    /// Stores `data` at `addr`. Fails, leaving the window unchanged, when the
    /// range is outside the window or meets a protected range.
    pub fn write_bytes(&mut self, addr: u64, data: &Vec<u8>) -> (ok: bool)
        requires
            old(self).wf(),
        ensures
            final(self).wf(),
            ok == old(self)@.writable(addr as int, data@.len() as int),
            final(self)@ == old(self)@.store(addr as int, data@),
    {
        if data.len() as u128 > u64::MAX as u128 {
            return false;
        }
        if !self.is_writable(addr, data.len() as u64) {
            return false;
        }
        let blen = self.bytes.len();
        let off = (addr - self.start) as usize;
        let ghost orig = self.bytes@;
        let mut i: usize = 0;
        while i < data.len()
            invariant
                off + data@.len() <= orig.len(),
                blen == orig.len(),
                i <= data@.len(),
                self.start == old(self).start,
                self.read_only@ == old(self).read_only@,
                self.bytes@.len() == orig.len(),
                forall|j: int| 0 <= j < off || off + i <= j < orig.len() ==> #[trigger] self.bytes@[j] == orig[j],
                forall|j: int| off <= j < off + i ==> #[trigger] self.bytes@[j] == data@[j - off],
            decreases data@.len() - i,
        {
            self.bytes.set(off + i, data[i]);
            i = i + 1;
        }
        assert(self.bytes@ =~= spliced(orig, off as int, data@));
        true
    }

    /// Copies `len` bytes from `src` to `dst`; the ranges may overlap.
    pub fn copy(&mut self, src: u64, dst: u64, len: u64) -> (ok: bool)
        requires
            old(self).wf(),
        ensures
            final(self).wf(),
            ok == (old(self)@.contains(src as int, len as int) && old(self)@.writable(dst as int, len as int)),
            ok ==> final(self)@ == old(self)@.store(dst as int, old(self)@.range(src as int, len as int)),
            !ok ==> final(self)@ == old(self)@,
    {
        match self.read_bytes(src, len) {
            None => false,
            Some(data) => self.write_bytes(dst, &data),
        }
    }

    /// Stores `len` zero bytes at `dst`.
    pub fn zero(&mut self, dst: u64, len: u64) -> (ok: bool)
        requires
            old(self).wf(),
        ensures
            final(self).wf(),
            ok == old(self)@.writable(dst as int, len as int),
            final(self)@ == old(self)@.store(dst as int, Seq::new(len as nat, |i: int| 0u8)),
    {
        if !self.in_window(dst, len) {
            return false;
        }
        let blen = self.bytes.len();
        let n = len as usize;
        let mut data: Vec<u8> = Vec::new();
        let mut i: usize = 0;
        while i < n
            invariant
                i <= n,
                data@ == Seq::new(i as nat, |k: int| 0u8),
            decreases n - i,
        {
            data.push(0);
            i = i + 1;
            assert(data@ =~= Seq::new(i as nat, |k: int| 0u8));
        }
        assert(data@ =~= Seq::new(len as nat, |k: int| 0u8));
        self.write_bytes(dst, &data)
    }

    /// Marks `[addr, addr + len)` read-only: later stores that meet it fail.
    pub fn protect(&mut self, addr: u64, len: u64)
        requires
            old(self).wf(),
        ensures
            final(self).wf(),
            final(self)@ == (MemView { read_only: old(self)@.read_only.push((addr, addr.saturating_add(len))), ..old(self)@ }),
    {
        self.read_only.push((addr, addr.saturating_add(len)));
    }
}

/// Once a range is protected, no store that meets it changes the window.
pub proof fn lemma_protected_store_fails(m: MemView, k: int, addr: int, d: Seq<u8>)
    requires
        0 <= k < m.read_only.len(),
        overlaps(m.read_only[k], addr, d.len() as int),
    ensures
        !m.writable(addr, d.len() as int),
        m.store(addr, d) == m,
{
}

} // verus!
