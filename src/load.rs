//! Reading objects out of the address space: tables, the dynamic section,
//! hash-table sizing and the TLS header.

use vstd::prelude::*;
use crate::elf::{Dyn, Ehdr, EM_AARCH64, EM_RISCV, EM_X86_64, Phdr, Rela, Sym, AT_ENTRY, AT_NULL, AT_PHDR, AT_PHNUM, DYN_SIZE, DT_NULL, EHDR_SIZE, PHDR_SIZE,
    PT_DYNAMIC, PT_LOAD, PT_PHDR, PT_TLS, RELA_SIZE, SYM_SIZE, le_u16, le_u32, le_u64,
    read_u16, read_u32, read_u64};
use crate::dso::{DSO, cstr_at, cstr_slice};
use crate::versioning::{VersionDef, VersionNeed, VersionReq};
use crate::elf::{DT_FINI, DT_FINI_ARRAY, DT_FINI_ARRAYSZ, DT_GNU_HASH, DT_HASH, DT_INIT, DT_INIT_ARRAY,
    DT_INIT_ARRAYSZ, DT_JMPREL, DT_PLTGOT, DT_PLTRELSZ, DT_RELA, DT_RELACOUNT, DT_RELASZ, DT_STRSZ, DT_STRTAB,
    DT_SYMTAB, DT_VERDEF, DT_VERDEFNUM, DT_VERNEED, DT_VERNEEDNUM, DT_VERSYM};
use crate::gnu_hash::GnuHash;
use crate::memory::{MemView, Memory};
use crate::reloc::Arch;
use vstd::string::StringSliceAdditionalSpecFns;

verus! {

/// `n` records of `size` bytes at `addr`, decoded by `f`.
pub open spec fn records<T>(m: MemView, addr: int, n: int, size: int, f: spec_fn(Seq<u8>, int) -> T) -> Seq<T> {
    Seq::new(n as nat, |k: int| f(m.range(addr, n * size), k * size))
}

pub open spec fn sym_rec(b: Seq<u8>, i: int) -> Sym {
    Sym::spec_decode(b, i)
}

pub open spec fn rela_rec(b: Seq<u8>, i: int) -> Rela {
    Rela::spec_decode(b, i)
}

pub open spec fn u64_rec(b: Seq<u8>, i: int) -> u64 {
    le_u64(b, i)
}

pub open spec fn u32_rec(b: Seq<u8>, i: int) -> u32 {
    le_u32(b, i)
}

pub open spec fn u16_rec(b: Seq<u8>, i: int) -> u16 {
    le_u16(b, i)
}

/// `n` records decoded by `sym_rec` at `addr`.
pub open spec fn syms_at(m: MemView, addr: int, n: int) -> Seq<Sym> {
    records(m, addr, n, SYM_SIZE as int, |b: Seq<u8>, i: int| sym_rec(b, i))
}

/// `n` records decoded by `rela_rec` at `addr`.
pub open spec fn relas_at(m: MemView, addr: int, n: int) -> Seq<Rela> {
    records(m, addr, n, RELA_SIZE as int, |b: Seq<u8>, i: int| rela_rec(b, i))
}

/// `n` records decoded by `u64_rec` at `addr`.
pub open spec fn u64s_at(m: MemView, addr: int, n: int) -> Seq<u64> {
    records(m, addr, n, 8 as int, |b: Seq<u8>, i: int| u64_rec(b, i))
}

/// `n` records decoded by `u32_rec` at `addr`.
pub open spec fn u32s_at(m: MemView, addr: int, n: int) -> Seq<u32> {
    records(m, addr, n, 4 as int, |b: Seq<u8>, i: int| u32_rec(b, i))
}

/// `n` records decoded by `u16_rec` at `addr`.
pub open spec fn u16s_at(m: MemView, addr: int, n: int) -> Seq<u16> {
    records(m, addr, n, 2 as int, |b: Seq<u8>, i: int| u16_rec(b, i))
}

/// Reads `n` symbol records at `addr`; `None` unless all lie in the window.
pub fn read_syms(mem: &Memory, addr: u64, n: u64) -> (r: Option<Vec<Sym>>)
    requires
        mem.wf(),
    ensures
        r is Some <==> n * SYM_SIZE <= u64::MAX && mem@.contains(addr as int, n * SYM_SIZE),
        r is Some ==> r->0@ == syms_at(mem@, addr as int, n as int),
{
    if n > u64::MAX / SYM_SIZE {
        return None;
    }
    let b = match mem.read_bytes(addr, n * SYM_SIZE) {
        Some(b) => b,
        None => return None,
    };
    let blen = b.len();
    let mut out: Vec<Sym> = Vec::new();
    let mut k: u64 = 0;
    while k < n
        invariant
            k <= n,
            n * SYM_SIZE <= u64::MAX,
            b@ == mem@.range(addr as int, n * SYM_SIZE),
            blen == b@.len(),
            b@.len() == n * SYM_SIZE,
            forall|j: int| 0 <= j < k ==> #[trigger] out@[j] == sym_rec(b@, j * SYM_SIZE),
            out@.len() == k,
        decreases n - k,
    {
        assert((k + 1) * SYM_SIZE <= n * SYM_SIZE) by (nonlinear_arith)
            requires
                k < n,
        ;
        out.push(Sym::decode(&b, (k * SYM_SIZE) as usize));
        k = k + 1;
    }
    assert(out@ =~= syms_at(mem@, addr as int, n as int));
    Some(out)
}

/// Reads `n` relocation records at `addr`; `None` unless all lie in the window.
pub fn read_relas(mem: &Memory, addr: u64, n: u64) -> (r: Option<Vec<Rela>>)
    requires
        mem.wf(),
    ensures
        r is Some <==> n * RELA_SIZE <= u64::MAX && mem@.contains(addr as int, n * RELA_SIZE),
        r is Some ==> r->0@ == relas_at(mem@, addr as int, n as int),
{
    if n > u64::MAX / RELA_SIZE {
        return None;
    }
    let b = match mem.read_bytes(addr, n * RELA_SIZE) {
        Some(b) => b,
        None => return None,
    };
    let blen = b.len();
    let mut out: Vec<Rela> = Vec::new();
    let mut k: u64 = 0;
    while k < n
        invariant
            k <= n,
            n * RELA_SIZE <= u64::MAX,
            b@ == mem@.range(addr as int, n * RELA_SIZE),
            blen == b@.len(),
            b@.len() == n * RELA_SIZE,
            forall|j: int| 0 <= j < k ==> #[trigger] out@[j] == rela_rec(b@, j * RELA_SIZE),
            out@.len() == k,
        decreases n - k,
    {
        assert((k + 1) * RELA_SIZE <= n * RELA_SIZE) by (nonlinear_arith)
            requires
                k < n,
        ;
        out.push(Rela::decode(&b, (k * RELA_SIZE) as usize));
        k = k + 1;
    }
    assert(out@ =~= relas_at(mem@, addr as int, n as int));
    Some(out)
}

/// Reads `n` little-endian words at `addr`; `None` unless all lie in the window.
pub fn read_u64s(mem: &Memory, addr: u64, n: u64) -> (r: Option<Vec<u64>>)
    requires
        mem.wf(),
    ensures
        r is Some <==> n * 8 <= u64::MAX && mem@.contains(addr as int, n * 8),
        r is Some ==> r->0@ == u64s_at(mem@, addr as int, n as int),
{
    if n > u64::MAX / 8 {
        return None;
    }
    let b = match mem.read_bytes(addr, n * 8) {
        Some(b) => b,
        None => return None,
    };
    let blen = b.len();
    let mut out: Vec<u64> = Vec::new();
    let mut k: u64 = 0;
    while k < n
        invariant
            k <= n,
            n * 8 <= u64::MAX,
            b@ == mem@.range(addr as int, n * 8),
            blen == b@.len(),
            b@.len() == n * 8,
            forall|j: int| 0 <= j < k ==> #[trigger] out@[j] == u64_rec(b@, j * 8),
            out@.len() == k,
        decreases n - k,
    {
        assert((k + 1) * 8 <= n * 8) by (nonlinear_arith)
            requires
                k < n,
        ;
        out.push(read_u64(&b, (k * 8) as usize));
        k = k + 1;
    }
    assert(out@ =~= u64s_at(mem@, addr as int, n as int));
    Some(out)
}

/// Reads `n` little-endian 32-bit words at `addr`; `None` unless all lie in the window.
pub fn read_u32s(mem: &Memory, addr: u64, n: u64) -> (r: Option<Vec<u32>>)
    requires
        mem.wf(),
    ensures
        r is Some <==> n * 4 <= u64::MAX && mem@.contains(addr as int, n * 4),
        r is Some ==> r->0@ == u32s_at(mem@, addr as int, n as int),
{
    if n > u64::MAX / 4 {
        return None;
    }
    let b = match mem.read_bytes(addr, n * 4) {
        Some(b) => b,
        None => return None,
    };
    let blen = b.len();
    let mut out: Vec<u32> = Vec::new();
    let mut k: u64 = 0;
    while k < n
        invariant
            k <= n,
            n * 4 <= u64::MAX,
            b@ == mem@.range(addr as int, n * 4),
            blen == b@.len(),
            b@.len() == n * 4,
            forall|j: int| 0 <= j < k ==> #[trigger] out@[j] == u32_rec(b@, j * 4),
            out@.len() == k,
        decreases n - k,
    {
        assert((k + 1) * 4 <= n * 4) by (nonlinear_arith)
            requires
                k < n,
        ;
        out.push(read_u32(&b, (k * 4) as usize));
        k = k + 1;
    }
    assert(out@ =~= u32s_at(mem@, addr as int, n as int));
    Some(out)
}

/// Reads `n` little-endian 16-bit words at `addr`; `None` unless all lie in the window.
pub fn read_u16s(mem: &Memory, addr: u64, n: u64) -> (r: Option<Vec<u16>>)
    requires
        mem.wf(),
    ensures
        r is Some <==> n * 2 <= u64::MAX && mem@.contains(addr as int, n * 2),
        r is Some ==> r->0@ == u16s_at(mem@, addr as int, n as int),
{
    if n > u64::MAX / 2 {
        return None;
    }
    let b = match mem.read_bytes(addr, n * 2) {
        Some(b) => b,
        None => return None,
    };
    let blen = b.len();
    let mut out: Vec<u16> = Vec::new();
    let mut k: u64 = 0;
    while k < n
        invariant
            k <= n,
            n * 2 <= u64::MAX,
            b@ == mem@.range(addr as int, n * 2),
            blen == b@.len(),
            b@.len() == n * 2,
            forall|j: int| 0 <= j < k ==> #[trigger] out@[j] == u16_rec(b@, j * 2),
            out@.len() == k,
        decreases n - k,
    {
        assert((k + 1) * 2 <= n * 2) by (nonlinear_arith)
            requires
                k < n,
        ;
        out.push(read_u16(&b, (k * 2) as usize));
        k = k + 1;
    }
    assert(out@ =~= u16s_at(mem@, addr as int, n as int));
    Some(out)
}

/// The dynamic section at `addr`: the entries up to the first `DT_NULL`;
/// `None` when the window ends before one.
pub open spec fn dyn_list(m: MemView, addr: int) -> Option<Seq<Dyn>>
    decreases m.end() - addr,
{
    if !m.contains(addr, DYN_SIZE as int) {
        None
    } else {
        let e = Dyn::spec_decode(m.range(addr, DYN_SIZE as int), 0);
        if e.d_tag == DT_NULL {
            Some(seq![])
        } else {
            match dyn_list(m, addr + DYN_SIZE) {
                Some(rest) => Some(seq![e] + rest),
                None => None,
            }
        }
    }
}

/// Reads the dynamic section at `addr` (see `dyn_list`).
pub fn read_dynamic(mem: &Memory, addr: u64) -> (r: Option<Vec<Dyn>>)
    requires
        mem.wf(),
    ensures
        match r {
            Some(v) => dyn_list(mem@, addr as int) == Some(v@),
            None => dyn_list(mem@, addr as int) is None,
        },
{
    let mut out: Vec<Dyn> = Vec::new();
    let mut cur: u64 = addr;
    while mem.in_window(cur, DYN_SIZE)
        invariant
            mem.wf(),
            dyn_list(mem@, addr as int) == (match dyn_list(mem@, cur as int) {
                Some(rest) => Some(out@ + rest),
                None => None,
            }),
        decreases mem@.end() - cur,
    {
        let b = mem.read_bytes(cur, DYN_SIZE).unwrap();
        let e = Dyn::decode(&b, 0);
        if e.d_tag == DT_NULL {
            assert(out@ + seq![] =~= out@);
            return Some(out);
        }
        let ghost prev = out@;
        out.push(e);
        proof {
            match dyn_list(mem@, cur + DYN_SIZE) {
                Some(rest) => {
                    assert(prev + (seq![e] + rest) =~= out@ + rest);
                },
                None => {},
            }
        }
        cur = cur + DYN_SIZE;
    }
    None
}

/// The value of the first entry of `dyns` tagged `tag`.
pub open spec fn dyn_val(dyns: Seq<Dyn>, tag: i64) -> Option<u64>
    decreases dyns.len(),
{
    if dyns.len() == 0 {
        None
    } else if dyns[0].d_tag == tag {
        Some(dyns[0].d_val)
    } else {
        dyn_val(dyns.drop_first(), tag)
    }
}

/// The value of the first entry of `dyns` tagged `tag`.
pub fn find_dyn(dyns: &[Dyn], tag: i64) -> (r: Option<u64>)
    ensures
        r == dyn_val(dyns@, tag),
{
    let mut i: usize = 0;
    assert(dyns@.subrange(0, dyns@.len() as int) =~= dyns@);
    while i < dyns.len()
        invariant
            i <= dyns@.len(),
            dyn_val(dyns@, tag) == dyn_val(dyns@.subrange(i as int, dyns@.len() as int), tag),
        decreases dyns@.len() - i,
    {
        assert(dyns@.subrange(i as int, dyns@.len() as int).drop_first() =~= dyns@.subrange(i + 1, dyns@.len() as int));
        if dyns[i].d_tag == tag {
            return Some(dyns[i].d_val);
        }
        i = i + 1;
    }
    None
}

/// The largest of the first `n` words of `b`, or 0.
pub open spec fn max_word(b: Seq<u32>, n: int) -> u32
    decreases n,
{
    if n <= 0 {
        0
    } else if b[n - 1] > max_word(b, n - 1) {
        b[n - 1]
    } else {
        max_word(b, n - 1)
    }
}

/// Walking a GNU hash chain from symbol `idx`, the index of the last symbol
/// of the chain: the first whose chain word has its low bit set.
pub open spec fn chain_end(m: MemView, chain: int, symoff: int, idx: int) -> Option<int>
    decreases m.end() - (chain + 4 * (idx - symoff)),
{
    let at = chain + 4 * (idx - symoff);
    if idx < symoff || !m.contains(at, 4) {
        None
    } else if le_u32(m.range(at, 4), 0) & 1u32 == 1u32 {
        Some(idx)
    } else {
        chain_end(m, chain, symoff, idx + 1)
    }
}

/// The number of symbols a GNU hash table at `addr` covers: one past the
/// end of the chain of the highest bucket, or `symoffset` when every bucket
/// is empty.
pub open spec fn gnu_sym_count(m: MemView, addr: int) -> Option<u64> {
    if !m.contains(addr, 16) {
        None
    } else {
        let h = m.range(addr, 16);
        let nb = le_u32(h, 0);
        let symoff = le_u32(h, 4);
        let bloom = le_u32(h, 8);
        let buckets_at = addr + 16 + 8 * bloom;
        let chain_at = buckets_at + 4 * nb;
        if !m.contains(buckets_at, 4 * nb) {
            None
        } else {
            let top = max_word(u32s_at(m, buckets_at, nb as int), nb as int);
            if top < symoff {
                Some(symoff as u64)
            } else {
                match chain_end(m, chain_at, symoff as int, top as int) {
                    Some(e) => if e + 1 <= u64::MAX { Some((e + 1) as u64) } else { None },
                    None => None,
                }
            }
        }
    }
}

/// The number of symbols covered by the GNU hash table at `addr`.
pub fn gnu_hash_count(mem: &Memory, addr: u64) -> (r: Option<u64>)
    requires
        mem.wf(),
    ensures
        r == gnu_sym_count(mem@, addr as int),
{
    let h = match read_u32s(mem, addr, 4) {
        Some(h) => h,
        None => return None,
    };
    let nb = h[0];
    let symoff = h[1];
    let bloom = h[2];
    assert(mem@.range(addr as int, 16) == mem@.range(addr as int, (4 * 4) as int));
    let ghost hb = mem@.range(addr as int, 16);
    assert(nb == le_u32(hb, 0) && symoff == le_u32(hb, 4) && bloom == le_u32(hb, 8));
    if addr as u128 + 16 + 8 * (bloom as u128) > u64::MAX as u128 {
        return None;
    }
    let buckets_at = addr + 16 + 8 * (bloom as u64);
    let buckets = match read_u32s(mem, buckets_at, nb as u64) {
        Some(b) => b,
        None => return None,
    };
    let chain_at = buckets_at + 4 * (nb as u64);
    let mut top: u32 = 0;
    let mut k: usize = 0;
    while k < buckets.len()
        invariant
            k <= buckets@.len(),
            top == max_word(buckets@, k as int),
        decreases buckets@.len() - k,
    {
        if buckets[k] > top {
            top = buckets[k];
        }
        k = k + 1;
    }
    if top < symoff {
        return Some(symoff as u64);
    }
    let ghost expect = match chain_end(mem@, chain_at as int, symoff as int, top as int) {
        Some(e) => if e + 1 <= u64::MAX { Some((e + 1) as u64) } else { None },
        None => None,
    };
    assert(gnu_sym_count(mem@, addr as int) == expect);
    let mut idx: u64 = top as u64;
    while (idx - symoff as u64) <= (u64::MAX - chain_at) / 4 && mem.in_window(chain_at + 4 * (idx - symoff as u64), 4)
        invariant
            mem.wf(),
            symoff <= idx,
            gnu_sym_count(mem@, addr as int) == expect,
            expect == (match chain_end(mem@, chain_at as int, symoff as int, top as int) {
                Some(e) => if e + 1 <= u64::MAX { Some((e + 1) as u64) } else { None },
                None => None,
            }),
            chain_end(mem@, chain_at as int, symoff as int, top as int) == chain_end(mem@, chain_at as int, symoff as int, idx as int),
        decreases mem@.end() - (chain_at + 4 * (idx - symoff)),
    {
        let at = chain_at + 4 * (idx - symoff as u64);
        let w = read_u32s(mem, at, 1).unwrap();
        assert(mem@.range(at as int, 4) == mem@.range(at as int, (1 * 4) as int));
        assert(w@[0] == u32_rec(mem@.range(at as int, 4), 0));
        if w[0] & 1 == 1 {
            assert(chain_end(mem@, chain_at as int, symoff as int, idx as int) == Some(idx as int));
            if idx == u64::MAX {
                return None;
            }
            return Some(idx + 1);
        }
        idx = idx + 1;
    }
    None
}

/// The run-time address a dynamic tag of `d` points at: base plus value.
pub open spec fn addr_of(d: DSO, tag: i64) -> Option<u64> {
    match dyn_val(d.dyns(), tag) {
        Some(v) => Some(d.base_addr.wrapping_add(v)),
        None => None,
    }
}

/// The value of a dynamic tag of `d`, 0 when absent.
pub open spec fn val_or_zero(d: DSO, tag: i64) -> u64 {
    match dyn_val(d.dyns(), tag) {
        Some(v) => v,
        None => 0,
    }
}

/// The `nchain` field of the SysV hash table at `p`: its symbol count.
pub open spec fn sysv_count(m: MemView, p: int) -> Option<u64> {
    if m.contains(p, 8) {
        Some(le_u32(m.range(p, 8), 4) as u64)
    } else {
        None
    }
}

/// The number of dynamic symbols of `d`, sized by its hash tables.
pub open spec fn sym_count(m: MemView, d: DSO) -> u64 {
    match addr_of(d, DT_HASH) {
        Some(p) if sysv_count(m, p as int) is Some => sysv_count(m, p as int)->0,
        _ => match addr_of(d, DT_GNU_HASH) {
            Some(p) => match gnu_sym_count(m, p as int) {
                Some(c) => c,
                None => 0,
            },
            None => 0,
        },
    }
}

/// `n` records at the address of `tag`, when the tag is present and they are mapped.
pub open spec fn table<T>(at: Option<u64>, n: int, size: int, f: spec_fn(MemView, int, int) -> Seq<T>, m: MemView) -> Option<Seq<T>> {
    match at {
        Some(p) => if n * size <= u64::MAX && m.contains(p as int, n * size) {
            Some(f(m, p as int, n))
        } else {
            None
        },
        None => None,
    }
}

/// The views `parse_dynamic` gives `d` from its dynamic section and `m`.
pub open spec fn dynamic_parsed(old: DSO, new: DSO, m: MemView) -> bool {
    &&& new == (DSO {
        sym_table: new.sym_table,
        str_table: new.str_table,
        gnu_hash: new.gnu_hash,
        sysv_hash: new.sysv_hash,
        rela_dyn: new.rela_dyn,
        rela_plt: new.rela_plt,
        rela_count: new.rela_count,
        plt_got: new.plt_got,
        init: new.init,
        init_array: new.init_array,
        fini: new.fini,
        fini_array: new.fini_array,
        versym: new.versym,
        verdef: new.verdef,
        verneed: new.verneed,
        verneed_num: new.verneed_num,
        verdef_num: new.verdef_num,
        ..old
    })
    &&& dynamic_views(new, m)
}

/// The header of the GNU hash table at `p`, with the symbol count `n`.
pub open spec fn gnu_header(m: MemView, p: int, n: u64) -> GnuHash {
    let h = m.range(p, 16);
    GnuHash { nbuckets: le_u32(h, 0), symoffset: le_u32(h, 4), bloom_size: le_u32(h, 8), bloom_shift: le_u32(h, 12), nsyms: n }
}

/// The SysV hash table at `p`: `nbucket`, `nchain`, the buckets and the chains.
pub open spec fn sysv_table(m: MemView, p: int) -> Option<Seq<u32>> {
    if !m.contains(p, 8) {
        None
    } else {
        let total = 2 + le_u32(m.range(p, 8), 0) + le_u32(m.range(p, 8), 4);
        if m.contains(p, 4 * total) {
            Some(u32s_at(m, p, total))
        } else {
            None
        }
    }
}

/// The views of `d`'s dynamic section hold what `m` has at the addresses
/// its tags give, relative to its base: the symbol and version-symbol
/// tables sized by the hash tables, and absent where not mapped.
pub open spec fn dynamic_views(d: DSO, m: MemView) -> bool {
    let n = sym_count(m, d);
    &&& opt_view(d.sym_table) == table(addr_of(d, DT_SYMTAB), n as int, 24, |m: MemView, a: int, k: int| syms_at(m, a, k), m)
    &&& opt_view(d.str_table) == table(addr_of(d, DT_STRTAB), val_or_zero(d, DT_STRSZ) as int, 1, |m: MemView, a: int, k: int| m.range(a, k), m)
    &&& opt_view(d.rela_dyn) == table(addr_of(d, DT_RELA), (val_or_zero(d, DT_RELASZ) / 24) as int, 24, |m: MemView, a: int, k: int| relas_at(m, a, k), m)
    &&& opt_view(d.rela_plt) == table(addr_of(d, DT_JMPREL), (val_or_zero(d, DT_PLTRELSZ) / 24) as int, 24, |m: MemView, a: int, k: int| relas_at(m, a, k), m)
    &&& opt_view(d.versym) == table(addr_of(d, DT_VERSYM), n as int, 2, |m: MemView, a: int, k: int| u16s_at(m, a, k), m)
    &&& opt_view(d.sysv_hash) == (match addr_of(d, DT_HASH) {
        Some(p) => sysv_table(m, p as int),
        None => None,
    })
    &&& d.gnu_hash == (match addr_of(d, DT_GNU_HASH) {
        Some(p) => if m.contains(p as int, 16) { Some(gnu_header(m, p as int, n)) } else { None },
        None => None,
    })
    &&& d.rela_count == val_or_zero(d, DT_RELACOUNT)
    &&& d.plt_got == addr_of(d, DT_PLTGOT)
    &&& d.init == addr_of(d, DT_INIT)
    &&& d.fini == addr_of(d, DT_FINI)
    &&& d.init_array == (match addr_of(d, DT_INIT_ARRAY) {
        Some(p) => Some((p, val_or_zero(d, DT_INIT_ARRAYSZ) / 8)),
        None => None,
    })
    &&& d.fini_array == (match addr_of(d, DT_FINI_ARRAY) {
        Some(p) => Some((p, val_or_zero(d, DT_FINI_ARRAYSZ) / 8)),
        None => None,
    })
    &&& d.verdef == addr_of(d, DT_VERDEF)
    &&& d.verneed == addr_of(d, DT_VERNEED)
    &&& d.verdef_num == val_or_zero(d, DT_VERDEFNUM)
    &&& d.verneed_num == val_or_zero(d, DT_VERNEEDNUM)
}

/// The view of an optional vector.
pub open spec fn opt_view<T>(v: Option<Vec<T>>) -> Option<Seq<T>> {
    match v {
        Some(x) => Some(x@),
        None => None,
    }
}

fn addr_exec(dyns: &[Dyn], base: u64, tag: i64) -> (r: Option<u64>)
    ensures
        r == (match dyn_val(dyns@, tag) {
            Some(v) => Some(base.wrapping_add(v)),
            None => None,
        }),
{
    match find_dyn(dyns, tag) {
        Some(v) => Some(base.wrapping_add(v)),
        None => None,
    }
}

fn val_exec(dyns: &[Dyn], tag: i64) -> (r: u64)
    ensures
        r == (match dyn_val(dyns@, tag) {
            Some(v) => v,
            None => 0,
        }),
{
    match find_dyn(dyns, tag) {
        Some(v) => v,
        None => 0,
    }
}

/// The number of dynamic symbols, sized by the hash tables.
fn symbol_count(mem: &Memory, dyns: &[Dyn], base: u64) -> (r: u64)
    requires
        mem.wf(),
    ensures
        forall|d: DSO| d.dyns() == dyns@ && d.base_addr == base ==> r == sym_count(mem@, d),
{
    if let Some(p) = addr_exec(dyns, base, DT_HASH) {
        if let Some(h) = read_u32s(mem, p, 2) {
            assert(mem@.range(p as int, 8) == mem@.range(p as int, (2 * 4) as int));
            assert(h@[1] == u32_rec(mem@.range(p as int, 8), 4));
            return h[1] as u64;
        }
    }
    match addr_exec(dyns, base, DT_GNU_HASH) {
        Some(p) => match gnu_hash_count(mem, p) {
            Some(c) => c,
            None => 0,
        },
        None => 0,
    }
}

impl DSO {
    /// Fills the views of the dynamic section: tables are read from `mem` at
    /// base plus the tag's value; the symbol table and version-symbol table
    /// are sized by the hash tables; a table that is not mapped is absent.
    pub fn parse_dynamic(&mut self, mem: &Memory)
        requires
            mem.wf(),
        ensures
            dynamic_parsed(*old(self), *final(self), mem@),
    {
        let empty: Vec<Dyn> = Vec::new();
        let dyns: &[Dyn] = match &self.dynamic {
            Some(d) => d.as_slice(),
            None => empty.as_slice(),
        };
        let base = self.base_addr;
        let ghost d0 = *self;
        assert(dyns@ == d0.dyns());
        let n = symbol_count(mem, dyns, base);
        let sym_table = match addr_exec(dyns, base, DT_SYMTAB) {
            Some(p) => read_syms(mem, p, n),
            None => None,
        };
        let str_table = match addr_exec(dyns, base, DT_STRTAB) {
            Some(p) => mem.read_bytes(p, val_exec(dyns, DT_STRSZ)),
            None => None,
        };
        let rela_dyn = match addr_exec(dyns, base, DT_RELA) {
            Some(p) => read_relas(mem, p, val_exec(dyns, DT_RELASZ) / 24),
            None => None,
        };
        let rela_plt = match addr_exec(dyns, base, DT_JMPREL) {
            Some(p) => read_relas(mem, p, val_exec(dyns, DT_PLTRELSZ) / 24),
            None => None,
        };
        let versym = match addr_exec(dyns, base, DT_VERSYM) {
            Some(p) => read_u16s(mem, p, n),
            None => None,
        };
        let sysv_hash = match addr_exec(dyns, base, DT_HASH) {
            Some(p) => match read_u32s(mem, p, 2) {
                Some(h) => {
                    assert(mem@.range(p as int, 8) == mem@.range(p as int, (2 * 4) as int));
                    assert(h@[0] == le_u32(mem@.range(p as int, 8), 0) && h@[1] == le_u32(mem@.range(p as int, 8), 4));
                    let total = 2 + (h[0] as u64) + (h[1] as u64);
                    read_u32s(mem, p, total)
                },
                None => None,
            },
            None => None,
        };
        let gnu_hash = match addr_exec(dyns, base, DT_GNU_HASH) {
            Some(p) => match read_u32s(mem, p, 4) {
                Some(h) => {
                    assert(mem@.range(p as int, 16) == mem@.range(p as int, (4 * 4) as int));
                    let g = GnuHash { nbuckets: h[0], symoffset: h[1], bloom_size: h[2], bloom_shift: h[3], nsyms: n };
                    assert(g == gnu_header(mem@, p as int, n));
                    Some(g)
                },
                None => None,
            },
            None => None,
        };
        let rela_count = val_exec(dyns, DT_RELACOUNT);
        let plt_got = addr_exec(dyns, base, DT_PLTGOT);
        let init = addr_exec(dyns, base, DT_INIT);
        let fini = addr_exec(dyns, base, DT_FINI);
        let init_array = match addr_exec(dyns, base, DT_INIT_ARRAY) {
            Some(p) => Some((p, val_exec(dyns, DT_INIT_ARRAYSZ) / 8)),
            None => None,
        };
        let fini_array = match addr_exec(dyns, base, DT_FINI_ARRAY) {
            Some(p) => Some((p, val_exec(dyns, DT_FINI_ARRAYSZ) / 8)),
            None => None,
        };
        let verdef = addr_exec(dyns, base, DT_VERDEF);
        let verneed = addr_exec(dyns, base, DT_VERNEED);
        let verdef_num = val_exec(dyns, DT_VERDEFNUM);
        let verneed_num = val_exec(dyns, DT_VERNEEDNUM);
        self.sym_table = sym_table;
        self.str_table = str_table;
        self.rela_dyn = rela_dyn;
        self.rela_plt = rela_plt;
        self.versym = versym;
        self.sysv_hash = sysv_hash;
        self.gnu_hash = gnu_hash;
        self.rela_count = rela_count;
        self.plt_got = plt_got;
        self.init = init;
        self.fini = fini;
        self.init_array = init_array;
        self.fini_array = fini_array;
        self.verdef = verdef;
        self.verneed = verneed;
        self.verdef_num = verdef_num;
        self.verneed_num = verneed_num;
    }
}

/// `n` program headers at `addr`.
pub open spec fn phdrs_at(m: MemView, addr: int, n: int) -> Seq<Phdr> {
    Seq::new(n as nat, |k: int| Phdr::spec_decode(m.range(addr, n * PHDR_SIZE), k * PHDR_SIZE))
}

/// Reads `n` program headers at `addr`; `None` unless all lie in the window.
pub fn read_phdrs(mem: &Memory, addr: u64, n: u64) -> (r: Option<Vec<Phdr>>)
    requires
        mem.wf(),
    ensures
        r is Some <==> n * PHDR_SIZE <= u64::MAX && mem@.contains(addr as int, n * PHDR_SIZE),
        r is Some ==> r->0@ == phdrs_at(mem@, addr as int, n as int),
{
    if n > u64::MAX / PHDR_SIZE {
        return None;
    }
    let b = match mem.read_bytes(addr, n * PHDR_SIZE) {
        Some(b) => b,
        None => return None,
    };
    let blen = b.len();
    let mut out: Vec<Phdr> = Vec::new();
    let mut k: u64 = 0;
    while k < n
        invariant
            k <= n,
            n * PHDR_SIZE <= u64::MAX,
            b@ == mem@.range(addr as int, n * PHDR_SIZE),
            blen == b@.len(),
            b@.len() == n * PHDR_SIZE,
            forall|j: int| 0 <= j < k ==> #[trigger] out@[j] == Phdr::spec_decode(b@, j * PHDR_SIZE),
            out@.len() == k,
        decreases n - k,
    {
        assert((k + 1) * PHDR_SIZE <= n * PHDR_SIZE) by (nonlinear_arith)
            requires
                k < n,
        ;
        out.push(Phdr::decode(&b, (k * PHDR_SIZE) as usize));
        k = k + 1;
    }
    assert(out@ =~= phdrs_at(mem@, addr as int, n as int));
    Some(out)
}

/// The first header of `ps` of type `t`.
pub open spec fn first_phdr(ps: Seq<Phdr>, t: u32) -> Option<Phdr>
    decreases ps.len(),
{
    if ps.len() == 0 {
        None
    } else if ps[0].p_type == t {
        Some(ps[0])
    } else {
        first_phdr(ps.drop_first(), t)
    }
}

/// The first `PT_LOAD` header of `ps` mapped from file offset 0.
pub open spec fn first_load0(ps: Seq<Phdr>) -> Option<Phdr>
    decreases ps.len(),
{
    if ps.len() == 0 {
        None
    } else if ps[0].p_type == PT_LOAD && ps[0].p_offset == 0 {
        Some(ps[0])
    } else {
        first_load0(ps.drop_first())
    }
}

pub fn find_phdr(ps: &[Phdr], t: u32) -> (r: Option<Phdr>)
    ensures
        r == first_phdr(ps@, t),
{
    let mut i: usize = 0;
    assert(ps@.subrange(0, ps@.len() as int) =~= ps@);
    while i < ps.len()
        invariant
            i <= ps@.len(),
            first_phdr(ps@, t) == first_phdr(ps@.subrange(i as int, ps@.len() as int), t),
        decreases ps@.len() - i,
    {
        assert(ps@.subrange(i as int, ps@.len() as int).drop_first() =~= ps@.subrange(i + 1, ps@.len() as int));
        if ps[i].p_type == t {
            return Some(ps[i]);
        }
        i = i + 1;
    }
    None
}

pub fn find_load0(ps: &[Phdr]) -> (r: Option<Phdr>)
    ensures
        r == first_load0(ps@),
{
    let mut i: usize = 0;
    assert(ps@.subrange(0, ps@.len() as int) =~= ps@);
    while i < ps.len()
        invariant
            i <= ps@.len(),
            first_load0(ps@) == first_load0(ps@.subrange(i as int, ps@.len() as int)),
        decreases ps@.len() - i,
    {
        assert(ps@.subrange(i as int, ps@.len() as int).drop_first() =~= ps@.subrange(i + 1, ps@.len() as int));
        if ps[i].p_type == PT_LOAD && ps[i].p_offset == 0 {
            return Some(ps[i]);
        }
        i = i + 1;
    }
    None
}

/// The load delta of an executable whose program headers the kernel placed
/// at `at_phdr`: from `PT_PHDR` when present, else from the first segment
/// mapped from file offset 0, whose header table follows the ELF header.
/// 0 for a non-PIE executable.
pub open spec fn exec_base(ps: Seq<Phdr>, at_phdr: u64) -> u64 {
    match first_phdr(ps, PT_PHDR) {
        Some(ph) => at_phdr.wrapping_sub(ph.p_vaddr),
        None => match first_load0(ps) {
            Some(ph) => at_phdr.wrapping_sub(ph.p_vaddr.wrapping_add(EHDR_SIZE)),
            None => 0,
        },
    }
}

/// The TLS fields `parse_phdrs_for_tls` sets from the first `PT_TLS` header.
pub open spec fn tls_parsed(old: DSO, new: DSO, m: MemView) -> bool {
    match first_phdr(old.phdrs@, PT_TLS) {
        Some(ph) => {
            &&& new == (DSO { tls_image: new.tls_image, tls_size: ph.p_memsz, tls_align: ph.p_align, ..old })
            &&& opt_view(new.tls_image) == (if m.contains(old.base_addr.wrapping_add(ph.p_vaddr) as int, ph.p_filesz as int) {
                Some(m.range(old.base_addr.wrapping_add(ph.p_vaddr) as int, ph.p_filesz as int))
            } else {
                None
            })
        },
        None => new == old,
    }
}

/// The values the auxiliary vector gives the loader.
#[derive(Debug, Clone, Copy, PartialEq, Eq)]
pub struct AuxInfo {
    pub phdr: u64,
    pub phnum: u64,
    pub entry: u64,
}

/// What the loader reads from the initial stack: `argc`, where the
/// environment strings start and how many there are, and the auxiliary values.
#[derive(Debug, Clone, Copy, PartialEq, Eq)]
pub struct InitialStack {
    pub argc: u64,
    pub envp_index: u64,
    pub envc: u64,
    pub aux: AuxInfo,
}

/// The first zero word at or after `i`.
pub open spec fn zero_from(w: Seq<u64>, i: int) -> Option<int>
    decreases w.len() - i,
{
    if i < 0 || i >= w.len() {
        None
    } else if w[i] == 0 {
        Some(i)
    } else {
        zero_from(w, i + 1)
    }
}

/// The index of the `AT_NULL` pair of the auxiliary vector starting at `i`.
pub open spec fn auxv_end(w: Seq<u64>, i: int) -> Option<int>
    decreases w.len() - i,
{
    if i < 0 || i + 1 >= w.len() {
        None
    } else if w[i] == AT_NULL {
        Some(i)
    } else {
        auxv_end(w, i + 2)
    }
}

/// The value of the last pair of type `t` among the pairs in `[i, end)`, or 0.
pub open spec fn aux_last(w: Seq<u64>, i: int, end: int, t: u64) -> u64
    decreases end - i,
{
    if end - 2 < i {
        0
    } else if w[end - 2] == t {
        w[end - 1]
    } else {
        aux_last(w, i, end - 2, t)
    }
}

/// The layout of the initial stack `w`:
/// `[argc][argv...][0][envp...][0][auxv pairs...][AT_NULL, _]`.
pub open spec fn stack_layout(w: Seq<u64>) -> Option<InitialStack> {
    if w.len() == 0 || w[0] + 1 >= w.len() || w[w[0] + 1] != 0 {
        None
    } else {
        let e = w[0] + 2;
        match zero_from(w, e) {
            None => None,
            Some(z) => match auxv_end(w, z + 1) {
                None => None,
                Some(end) => Some(InitialStack {
                    argc: w[0],
                    envp_index: e as u64,
                    envc: (z - e) as u64,
                    aux: AuxInfo {
                        phdr: aux_last(w, z + 1, end, AT_PHDR),
                        phnum: aux_last(w, z + 1, end, AT_PHNUM),
                        entry: aux_last(w, z + 1, end, AT_ENTRY),
                    },
                }),
            },
        }
    }
}

/// Reads the initial stack the kernel hands the loader (see `stack_layout`);
/// `None` when the words end before a terminator.
pub fn parse_initial_stack(w: &[u64]) -> (r: Option<InitialStack>)
    ensures
        r == stack_layout(w@),
{
    let n = w.len();
    if n == 0 || w[0] >= (n - 1) as u64 || w[(w[0] + 1) as usize] != 0 {
        return None;
    }
    let e = (w[0] + 2) as usize;
    let mut z: usize = e;
    while z < n && w[z] != 0
        invariant
            e <= z <= n,
            n == w@.len(),
            zero_from(w@, e as int) == zero_from(w@, z as int),
        decreases n - z,
    {
        z = z + 1;
    }
    if z >= n {
        return None;
    }
    let start = z + 1;
    let mut k: usize = start;
    let mut phdr: u64 = 0;
    let mut phnum: u64 = 0;
    let mut entry: u64 = 0;
    while k < n - 1 && w[k] != AT_NULL
        invariant
            start <= k <= n,
            n >= 1,
            n == w@.len(),
            (k - start) % 2 == 0,
            auxv_end(w@, start as int) == auxv_end(w@, k as int),
            phdr == aux_last(w@, start as int, k as int, AT_PHDR),
            phnum == aux_last(w@, start as int, k as int, AT_PHNUM),
            entry == aux_last(w@, start as int, k as int, AT_ENTRY),
        decreases n - k,
    {
        if w[k] == AT_PHDR {
            phdr = w[k + 1];
        } else if w[k] == AT_PHNUM {
            phnum = w[k + 1];
        } else if w[k] == AT_ENTRY {
            entry = w[k + 1];
        }
        k = k + 2;
    }
    if k >= n - 1 {
        return None;
    }
    Some(InitialStack {
        argc: w[0],
        envp_index: e as u64,
        envc: (z - e) as u64,
        aux: AuxInfo { phdr, phnum, entry },
    })
}

/// The TLS fields of `d` come from its first `PT_TLS` header: the image
/// is the file-backed bytes at base plus `p_vaddr` (absent when not mapped),
/// the size and alignment those of the header; with no such header there is
/// no TLS.
pub open spec fn tls_views(d: DSO, m: MemView) -> bool {
    match first_phdr(d.phdrs@, PT_TLS) {
        Some(ph) => {
            &&& d.tls_size == ph.p_memsz
            &&& d.tls_align == ph.p_align
            &&& opt_view(d.tls_image) == (if m.contains(d.base_addr.wrapping_add(ph.p_vaddr) as int, ph.p_filesz as int) {
                Some(m.range(d.base_addr.wrapping_add(ph.p_vaddr) as int, ph.p_filesz as int))
            } else {
                None
            })
        },
        None => d.tls_size == 0 && d.tls_align == 0 && d.tls_image is None,
    }
}

/// The version requirements of `d` are those its `Verneed` chain lists in
/// `m` (none when the chain is absent or not mapped).
pub open spec fn needs_views(d: DSO, m: MemView) -> bool {
    match d.verneed {
        Some(a) => match need_records(m, d.strs(), a as int, d.verneed_num as int) {
            Some(recs) => need_view(d.version_needs@) == recs,
            None => d.version_needs@.len() == 0,
        },
        None => d.version_needs@.len() == 0,
    }
}

/// `new` is `old` with its dynamic-section views, version requirements and
/// TLS fields parsed from `m`.
pub open spec fn views_parsed(old: DSO, new: DSO, m: MemView) -> bool {
    &&& new == (DSO {
        sym_table: new.sym_table,
        str_table: new.str_table,
        gnu_hash: new.gnu_hash,
        sysv_hash: new.sysv_hash,
        rela_dyn: new.rela_dyn,
        rela_plt: new.rela_plt,
        rela_count: new.rela_count,
        plt_got: new.plt_got,
        init: new.init,
        init_array: new.init_array,
        fini: new.fini,
        fini_array: new.fini_array,
        versym: new.versym,
        verdef: new.verdef,
        verneed: new.verneed,
        verneed_num: new.verneed_num,
        verdef_num: new.verdef_num,
        version_needs: new.version_needs,
        version_defs: new.version_defs,
        tls_image: new.tls_image,
        tls_size: new.tls_size,
        tls_align: new.tls_align,
        ..old
    })
    &&& dynamic_views(new, m)
    &&& needs_views(new, m)
    &&& defs_views(new, m)
    &&& tls_views(new, m)
}

impl DSO {
    /// Parses the dynamic section, the version requirements and definitions,
    /// and the TLS header of an object that has no TLS fields yet.
    #[verifier::rlimit(50)]
    pub fn parse_views(&mut self, mem: &Memory)
        requires
            mem.wf(),
            old(self).tls_size == 0,
            old(self).tls_align == 0,
            old(self).tls_image is None,
        ensures
            views_parsed(*old(self), *final(self), mem@),
    {
        self.parse_dynamic(mem);
        let ghost d1 = *self;
        self.parse_version_needs(mem);
        let ghost d2 = *self;
        assert(dynamic_views(d2, mem@)) by {
            assert(d2.dynamic == d1.dynamic && d2.base_addr == d1.base_addr);
            assert(d2.dyns() == d1.dyns());
            assert(d2.strs() == d1.strs());
        }
        self.parse_version_defs(mem);
        let ghost d25 = *self;
        assert(d25.dyns() == d2.dyns() && d25.strs() == d2.strs());
        assert(dynamic_views(d25, mem@));
        assert(needs_views(d25, mem@));
        self.parse_phdrs_for_tls(mem);
        let ghost d3 = *self;
        assert(d3.dyns() == d25.dyns() && d3.strs() == d25.strs());
        assert(dynamic_views(d3, mem@));
        assert(needs_views(d3, mem@));
        assert(defs_views(d3, mem@));
    }

    /// Sets the TLS fields from the first `PT_TLS` header: the image is its
    /// file-backed bytes at base plus `p_vaddr` (absent when not mapped), the
    /// size its memory size and the alignment its alignment.
    pub fn parse_phdrs_for_tls(&mut self, mem: &Memory)
        requires
            mem.wf(),
        ensures
            tls_parsed(*old(self), *final(self), mem@),
    {
        match find_phdr(self.phdrs.as_slice(), PT_TLS) {
            Some(ph) => {
                self.tls_image = mem.read_bytes(self.base_addr.wrapping_add(ph.p_vaddr), ph.p_filesz);
                self.tls_size = ph.p_memsz;
                self.tls_align = ph.p_align;
            },
            None => {},
        }
    }

    /// The load delta and the dynamic section address of an executable
    /// whose program headers the kernel placed at `at_phdr`.
    pub fn parse_phdrs_for_dynamic(phdrs: &[Phdr], at_phdr: u64) -> (r: (Option<u64>, u64))
        ensures
            r.1 == exec_base(phdrs@, at_phdr),
            r.0 == (match first_phdr(phdrs@, PT_DYNAMIC) {
                Some(ph) => Some(exec_base(phdrs@, at_phdr).wrapping_add(ph.p_vaddr)),
                None => None,
            }),
    {
        let base = match find_phdr(phdrs, PT_PHDR) {
            Some(ph) => at_phdr.wrapping_sub(ph.p_vaddr),
            None => match find_load0(phdrs) {
                Some(ph) => at_phdr.wrapping_sub(ph.p_vaddr.wrapping_add(EHDR_SIZE)),
                None => 0,
            },
        };
        let dynamic = match find_phdr(phdrs, PT_DYNAMIC) {
            Some(ph) => Some(base.wrapping_add(ph.p_vaddr)),
            None => None,
        };
        (dynamic, base)
    }

    /// The executable as the kernel mapped it: program headers read at
    /// `aux.phdr`, named `main`, TLS module 1, entry point `aux.entry`, with
    /// its dynamic section and TLS header parsed. `None` when the program
    /// headers are not mapped.
    pub fn new_executable(mem: &Memory, aux: AuxInfo) -> (r: Option<DSO>)
        requires
            mem.wf(),
        ensures
            r is Some <==> aux.phnum * PHDR_SIZE <= u64::MAX && mem@.contains(aux.phdr as int, aux.phnum * PHDR_SIZE),
            r is Some ==> {
                let d = r->0;
                let ps = phdrs_at(mem@, aux.phdr as int, aux.phnum as int);
                &&& d.name@ == seq![0x6du8, 0x61u8, 0x69u8, 0x6eu8]
                &&& d.phdrs@ == ps
                &&& d.base_addr == exec_base(ps, aux.phdr)
                &&& d.entry_point == aux.entry
                &&& d.tls_module_id == 1
                &&& d.tls_offset == 0
                &&& opt_view(d.dynamic) == (match first_phdr(ps, PT_DYNAMIC) {
                    Some(ph) => dyn_list(mem@, exec_base(ps, aux.phdr).wrapping_add(ph.p_vaddr) as int),
                    None => None,
                })
                &&& dynamic_views(d, mem@)
                &&& needs_views(d, mem@)
                &&& defs_views(d, mem@)
                &&& tls_views(d, mem@)
            },
    {
        let phdrs = match read_phdrs(mem, aux.phdr, aux.phnum) {
            Some(p) => p,
            None => return None,
        };
        let (dyn_addr, base) = Self::parse_phdrs_for_dynamic(phdrs.as_slice(), aux.phdr);
        let dynamic = match dyn_addr {
            Some(a) => read_dynamic(mem, a),
            None => None,
        };
        let mut dso = DSO::empty();
        dso.name = vec![0x6d, 0x61, 0x69, 0x6e];
        dso.base_addr = base;
        dso.phdrs = phdrs;
        dso.entry_point = aux.entry;
        dso.dynamic = dynamic;
        dso.tls_module_id = 1;
        dso.parse_views(mem);
        Some(dso)
    }
}

/// Why an object could not be loaded.
#[derive(Debug, Clone, Copy, PartialEq, Eq)]
pub enum LoadError {
    /// Not a 64-bit little-endian ELF image, or its program headers lie outside it.
    BadElf,
    /// Built for another machine.
    WrongArch,
    /// No loadable segment.
    NoLoadSegment,
    /// A segment lies outside the image or cannot be written where it belongs.
    MapFailed,
}

/// The ELF machine code of `arch`.
pub open spec fn machine_of(arch: Arch) -> u16 {
    match arch {
        Arch::X86_64 => EM_X86_64,
        Arch::AArch64 => EM_AARCH64,
        Arch::RiscV64 => EM_RISCV,
    }
}

/// `image` starts with the identification of a 64-bit little-endian ELF file.
pub open spec fn elf_ident_ok(image: Seq<u8>) -> bool {
    &&& image.len() >= EHDR_SIZE
    &&& image[0] == 0x7fu8 && image[1] == 0x45u8 && image[2] == 0x4cu8 && image[3] == 0x46u8
    &&& image[4] == 2u8
    &&& image[5] == 1u8
}

/// The `n` program headers of `image` at offset `off`.
pub open spec fn file_phdrs(image: Seq<u8>, off: int, n: int) -> Seq<Phdr> {
    Seq::new(n as nat, |k: int| Phdr::spec_decode(image, off + k * PHDR_SIZE))
}

/// The window after mapping the `PT_LOAD` segments among the first `n`
/// headers of `ps` at `base + p_vaddr`: the file bytes, then zeros up to the
/// memory size. `None` when a segment lies outside the image, has more file
/// than memory bytes, or cannot be written.
pub open spec fn map_segments(m: MemView, image: Seq<u8>, base: u64, ps: Seq<Phdr>, n: int) -> Option<MemView>
    decreases n,
{
    if n <= 0 {
        Some(m)
    } else {
        match map_segments(m, image, base, ps, n - 1) {
            None => None,
            Some(m1) => {
                let ph = ps[n - 1];
                let at = base + ph.p_vaddr;
                if ph.p_type != PT_LOAD {
                    Some(m1)
                } else if ph.p_filesz > ph.p_memsz || ph.p_offset + ph.p_filesz > image.len()
                    || at + ph.p_memsz > u64::MAX || !m1.writable(at, ph.p_memsz as int) {
                    None
                } else {
                    Some(m1.store(at, image.subrange(ph.p_offset as int, ph.p_offset + ph.p_filesz)).store(
                        at + ph.p_filesz, Seq::new((ph.p_memsz - ph.p_filesz) as nat, |i: int| 0u8)))
                }
            },
        }
    }
}

/// The load delta for an image mapped at `load_addr`: `load_addr` minus the
/// first `PT_LOAD` segment's address.
pub open spec fn library_base(ps: Seq<Phdr>, load_addr: u64) -> Option<u64> {
    match first_phdr(ps, PT_LOAD) {
        Some(ph) => Some(load_addr.wrapping_sub(ph.p_vaddr)),
        None => None,
    }
}

fn decode_phdrs(image: &Vec<u8>, off: u64, n: u64) -> (r: Vec<Phdr>)
    requires
        off + n * PHDR_SIZE <= image@.len(),
    ensures
        r@ == file_phdrs(image@, off as int, n as int),
{
    let len = image.len();
    let mut out: Vec<Phdr> = Vec::new();
    let mut k: u64 = 0;
    while k < n
        invariant
            k <= n,
            len == image@.len(),
            off + n * PHDR_SIZE <= image@.len(),
            out@.len() == k,
            forall|j: int| 0 <= j < k ==> #[trigger] out@[j] == Phdr::spec_decode(image@, off + j * PHDR_SIZE),
        decreases n - k,
    {
        assert((k + 1) * PHDR_SIZE <= n * PHDR_SIZE) by (nonlinear_arith)
            requires
                k < n,
        ;
        out.push(Phdr::decode(image, (off + k * PHDR_SIZE) as usize));
        k = k + 1;
    }
    assert(out@ =~= file_phdrs(image@, off as int, n as int));
    out
}

fn map_load_segments(mem: &mut Memory, image: &Vec<u8>, base: u64, ps: &Vec<Phdr>) -> (ok: bool)
    requires
        old(mem).wf(),
    ensures
        final(mem).wf(),
        ok <==> map_segments(old(mem)@, image@, base, ps@, ps@.len() as int) is Some,
        ok ==> final(mem)@ == map_segments(old(mem)@, image@, base, ps@, ps@.len() as int)->0,
{
    let mut i: usize = 0;
    while i < ps.len()
        invariant
            mem.wf(),
            i <= ps@.len(),
            map_segments(old(mem)@, image@, base, ps@, i as int) == Some(mem@),
        decreases ps@.len() - i,
    {
        let ph = ps[i];
        if ph.p_type == PT_LOAD {
            if ph.p_filesz > ph.p_memsz || ph.p_offset > image.len() as u64
                || ph.p_filesz > image.len() as u64 - ph.p_offset || base as u128 + ph.p_vaddr as u128 + ph.p_memsz as u128 > u64::MAX as u128
                || !mem.is_writable(base + ph.p_vaddr, ph.p_memsz) {
                proof { lemma_map_fails_on(old(mem)@, image@, base, ps@, i as int + 1, ps@.len() as int); }
                return false;
            }
            let at = base + ph.p_vaddr;
            let ilen = image.len();
            let mut file_bytes: Vec<u8> = Vec::new();
            let mut k: u64 = 0;
            while k < ph.p_filesz
                invariant
                    ilen == image@.len(),
                    k <= ph.p_filesz,
                    ph.p_offset + ph.p_filesz <= image@.len(),
                    file_bytes@ == image@.subrange(ph.p_offset as int, ph.p_offset + k),
                decreases ph.p_filesz - k,
            {
                file_bytes.push(image[(ph.p_offset + k) as usize]);
                k = k + 1;
                assert(file_bytes@ =~= image@.subrange(ph.p_offset as int, ph.p_offset + k));
            }
            mem.write_bytes(at, &file_bytes);
            mem.zero(at + ph.p_filesz, ph.p_memsz - ph.p_filesz);
        }
        i = i + 1;
    }
    true
}

proof fn lemma_map_fails_on(m: MemView, image: Seq<u8>, base: u64, ps: Seq<Phdr>, i: int, n: int)
    requires
        0 < i <= n,
        map_segments(m, image, base, ps, i) is None,
    ensures
        map_segments(m, image, base, ps, n) is None,
    decreases n - i,
{
    if i < n {
        lemma_map_fails_on(m, image, base, ps, i, n - 1);
    }
}

impl DSO {
    /// Loads the library `name` from its file `image`, mapping it at
    /// `load_addr`: checks the ELF identification and the machine, maps each
    /// `PT_LOAD` segment (see `map_segments`) with the load delta of
    /// `library_base`, then parses its dynamic section and TLS header.
    pub fn new_library(name: &str, image: &Vec<u8>, load_addr: u64, arch: Arch, mem: &mut Memory)
        -> (r: Result<DSO, LoadError>)
        requires
            old(mem).wf(),
        ensures
            final(mem).wf(),
            ({
                let b = image@;
                let h = Ehdr::spec_decode(b);
                let ps = file_phdrs(b, h.e_phoff as int, h.e_phnum as int);
                let base = library_base(ps, load_addr)->0;
                &&& r == Err::<DSO, LoadError>(LoadError::BadElf) <==> !elf_ident_ok(b)
                    || (h.e_machine == machine_of(arch) && h.e_phoff + h.e_phnum * PHDR_SIZE > b.len())
                &&& r == Err::<DSO, LoadError>(LoadError::WrongArch) <==> elf_ident_ok(b) && h.e_machine != machine_of(arch)
                &&& r == Err::<DSO, LoadError>(LoadError::NoLoadSegment) <==> elf_ident_ok(b) && h.e_machine == machine_of(arch)
                    && h.e_phoff + h.e_phnum * PHDR_SIZE <= b.len() && library_base(ps, load_addr) is None
                &&& r == Err::<DSO, LoadError>(LoadError::MapFailed) <==> elf_ident_ok(b) && h.e_machine == machine_of(arch)
                    && h.e_phoff + h.e_phnum * PHDR_SIZE <= b.len() && library_base(ps, load_addr) is Some
                    && map_segments(old(mem)@, b, base, ps, ps.len() as int) is None
                &&& r is Ok ==> {
                    let d = r->Ok_0;
                    let mapped = map_segments(old(mem)@, b, base, ps, ps.len() as int)->0;
                    &&& final(mem)@ == mapped
                    &&& d.name@ == name.spec_bytes()
                    &&& d.base_addr == base
                    &&& d.phdrs@ == ps
                    &&& d.entry_point == base.wrapping_add(h.e_entry)
                    &&& d.tls_module_id == 0
                    &&& d.tls_offset == 0
                    &&& opt_view(d.dynamic) == (match first_phdr(ps, PT_DYNAMIC) {
                        Some(ph) => dyn_list(mapped, base.wrapping_add(ph.p_vaddr) as int),
                        None => None,
                    })
                    &&& dynamic_views(d, mapped)
                    &&& needs_views(d, mapped)
                    &&& defs_views(d, mapped)
                    &&& tls_views(d, mapped)
                }
            }),
    {
        if image.len() < 64 || image[0] != 0x7f || image[1] != 0x45 || image[2] != 0x4c || image[3] != 0x46
            || image[4] != 2 || image[5] != 1 {
            return Err(LoadError::BadElf);
        }
        let h = Ehdr::decode(image);
        let machine = match arch {
            Arch::X86_64 => EM_X86_64,
            Arch::AArch64 => EM_AARCH64,
            Arch::RiscV64 => EM_RISCV,
        };
        if h.e_machine != machine {
            return Err(LoadError::WrongArch);
        }
        let n = h.e_phnum as u64;
        if h.e_phoff > image.len() as u64 || n * PHDR_SIZE > image.len() as u64 - h.e_phoff {
            return Err(LoadError::BadElf);
        }
        let phdrs = decode_phdrs(image, h.e_phoff, n);
        let base = match find_phdr(phdrs.as_slice(), PT_LOAD) {
            Some(ph) => load_addr.wrapping_sub(ph.p_vaddr),
            None => return Err(LoadError::NoLoadSegment),
        };
        if !map_load_segments(mem, image, base, &phdrs) {
            return Err(LoadError::MapFailed);
        }
        let dynamic = match find_phdr(phdrs.as_slice(), PT_DYNAMIC) {
            Some(ph) => read_dynamic(mem, base.wrapping_add(ph.p_vaddr)),
            None => None,
        };
        let mut dso = DSO::empty();
        dso.name = vstd::slice::slice_to_vec(name.as_bytes());
        dso.base_addr = base;
        dso.phdrs = phdrs;
        dso.entry_point = base.wrapping_add(h.e_entry);
        dso.dynamic = dynamic;
        dso.parse_views(mem);
        Ok(dso)
    }
}

/// A version requirement as read: index, name and hash.
pub type NeedRec = (u16, Seq<u8>, u32);

/// The `cnt` `Vernaux` records of a chain starting at `b`, names read from `strs`.
pub open spec fn aux_records(m: MemView, strs: Seq<u8>, b: int, cnt: int) -> Option<Seq<NeedRec>>
    decreases cnt,
{
    if cnt <= 0 {
        Some(seq![])
    } else if !m.contains(b, 16) {
        None
    } else {
        let r = m.range(b, 16);
        match cstr_at(strs, le_u32(r, 8) as int) {
            None => None,
            Some(name) => match aux_records(m, strs, b + le_u32(r, 12), cnt - 1) {
                None => None,
                Some(rest) => Some(seq![(le_u16(r, 6), name, le_u32(r, 0))] + rest),
            },
        }
    }
}

/// The requirements of the `n` `Verneed` records of a chain starting at `a`.
pub open spec fn need_records(m: MemView, strs: Seq<u8>, a: int, n: int) -> Option<Seq<NeedRec>>
    decreases n,
{
    if n <= 0 {
        Some(seq![])
    } else if !m.contains(a, 16) {
        None
    } else {
        let r = m.range(a, 16);
        match aux_records(m, strs, a + le_u32(r, 8), le_u16(r, 2) as int) {
            None => None,
            Some(auxs) => match need_records(m, strs, a + le_u32(r, 12), n - 1) {
                None => None,
                Some(rest) => Some(auxs + rest),
            },
        }
    }
}

/// The view of version requirements as records.
pub open spec fn need_view(v: Seq<VersionNeed>) -> Seq<NeedRec> {
    Seq::new(v.len(), |k: int| (v[k].index, v[k].req.name@, v[k].req.hash))
}

fn read_aux_chain(mem: &Memory, strs: &[u8], b0: u64, cnt0: u16, out: &mut Vec<VersionNeed>) -> (ok: bool)
    requires
        mem.wf(),
    ensures
        ok <==> aux_records(mem@, strs@, b0 as int, cnt0 as int) is Some,
        ok ==> need_view(final(out)@) == need_view(old(out)@) + aux_records(mem@, strs@, b0 as int, cnt0 as int)->0,
{
    let mut b: u64 = b0;
    let mut cnt: u16 = cnt0;
    let ghost start = need_view(out@);
    while cnt > 0
        invariant
            mem.wf(),
            start == need_view(old(out)@),
            aux_records(mem@, strs@, b0 as int, cnt0 as int) == (match aux_records(mem@, strs@, b as int, cnt as int) {
                Some(rest) => Some(need_view(out@).subrange(start.len() as int, need_view(out@).len() as int) + rest),
                None => None,
            }),
            need_view(out@).subrange(0, start.len() as int) == start,
            need_view(out@).len() >= start.len(),
        decreases cnt,
    {
        let r = match mem.read_bytes(b, 16) {
            Some(r) => r,
            None => return false,
        };
        let name_off = read_u32(&r, 8);
        let name = match cstr_slice(strs, name_off as usize) {
            Some(n) => n,
            None => {
                assert(cstr_at(strs@, name_off as int) is None);
                return false;
            },
        };
        let ghost before = need_view(out@);
        let rec = VersionNeed { index: read_u16(&r, 6), req: VersionReq { name: vstd::slice::slice_to_vec(name), hash: read_u32(&r, 0) } };
        out.push(rec);
        assert(need_view(out@) =~= before.push((rec.index, rec.req.name@, rec.req.hash)));
        let next = read_u32(&r, 12) as u64;
        let ghost sub = need_view(out@).subrange(start.len() as int, need_view(out@).len() as int);
        proof {
            match aux_records(mem@, strs@, b + next, cnt - 1) {
                Some(rest) => {
                    assert(before.subrange(start.len() as int, before.len() as int) + (seq![(rec.index, rec.req.name@, rec.req.hash)] + rest)
                        =~= sub + rest);
                },
                None => {},
            }
            assert(need_view(out@).subrange(0, start.len() as int) =~= before.subrange(0, start.len() as int));
            assert(need_view(out@) =~= start + sub);
        }
        assert(aux_records(mem@, strs@, b0 as int, cnt0 as int) == (match aux_records(mem@, strs@, b + next, cnt - 1) {
            Some(rest) => Some(sub + rest),
            None => None,
        }));
        if next > u64::MAX - b {
            if cnt - 1 > 0 {
                assert(!mem@.contains(b + next, 16));
                return false;
            }
            assert(aux_records(mem@, strs@, b + next, cnt - 1) == Some(Seq::<NeedRec>::empty()));
            assert(sub + Seq::<NeedRec>::empty() =~= sub);
            assert(aux_records(mem@, strs@, b0 as int, cnt0 as int) == Some(sub));
            assert(need_view(out@) == start + sub);
            return true;
        }
        b = b + next;
        cnt = cnt - 1;
    }
    assert(need_view(out@).subrange(start.len() as int, need_view(out@).len() as int) + seq![]
        =~= need_view(out@).subrange(start.len() as int, need_view(out@).len() as int));
    assert(need_view(out@) =~= start + need_view(out@).subrange(start.len() as int, need_view(out@).len() as int));
    true
}

impl DSO {
    /// Reads the version requirements from the `Verneed` chain: for each of
    /// the `verneed_num` records, the `Vernaux` records it lists, with names
    /// from the string table. None are kept when a record is not mapped.
    pub fn parse_version_needs(&mut self, mem: &Memory)
        requires
            mem.wf(),
        ensures
            *final(self) == (DSO { version_needs: final(self).version_needs, ..*old(self) }),
            match old(self).verneed {
                Some(a) => match need_records(mem@, old(self).strs(), a as int, old(self).verneed_num as int) {
                    Some(recs) => need_view(final(self).version_needs@) == recs,
                    None => final(self).version_needs@.len() == 0,
                },
                None => final(self).version_needs@.len() == 0,
            },
    {
        let mut out: Vec<VersionNeed> = Vec::new();
        let a0 = match self.verneed {
            Some(a) => a,
            None => {
                self.version_needs = out;
                return;
            },
        };
        let empty: Vec<u8> = Vec::new();
        let strs: &[u8] = match &self.str_table {
            Some(t) => t.as_slice(),
            None => empty.as_slice(),
        };
        let ghost s0 = *self;
        assert(strs@ == s0.strs());
        let mut a: u64 = a0;
        let mut n: u64 = self.verneed_num;
        assert(need_view(out@) =~= Seq::<NeedRec>::empty());
        assert(Seq::<NeedRec>::empty() + need_records(mem@, strs@, a0 as int, s0.verneed_num as int).unwrap_or(seq![])
            =~= need_records(mem@, strs@, a0 as int, s0.verneed_num as int).unwrap_or(seq![]));
        while n > 0
            invariant
                mem.wf(),
                *self == *old(self),
                s0 == *old(self),
                strs@ == s0.strs(),
                s0.verneed == Some(a0),
                need_records(mem@, strs@, a0 as int, s0.verneed_num as int) == (match need_records(mem@, strs@, a as int, n as int) {
                    Some(rest) => Some(need_view(out@) + rest),
                    None => None,
                }),
            decreases n,
        {
            let r = match mem.read_bytes(a, 16) {
                Some(r) => r,
                None => {
                    self.version_needs = Vec::new();
                    return;
                },
            };
            let ghost before = need_view(out@);
            let aux = read_u32(&r, 8) as u64;
            let cnt = read_u16(&r, 2);
            if aux > u64::MAX - a {
                if cnt > 0 {
                    assert(!mem@.contains(a + aux, 16));
                    self.version_needs = Vec::new();
                    return;
                }
                assert(aux_records(mem@, strs@, a + aux, cnt as int) == Some(Seq::<NeedRec>::empty()));
                assert(before + seq![] =~= before);
            } else if !read_aux_chain(mem, strs, a + aux, cnt, &mut out) {
                self.version_needs = Vec::new();
                return;
            }
            let ghost auxs = aux_records(mem@, strs@, a + aux, cnt as int)->0;
            assert(need_view(out@) == before + auxs);
            let next = read_u32(&r, 12) as u64;
            let ghost nxt = a + next;
            proof {
                match need_records(mem@, strs@, nxt, n - 1) {
                    Some(rest) => {
                        assert(before + (auxs + rest) =~= need_view(out@) + rest);
                    },
                    None => {},
                }
            }
            if next > u64::MAX - a {
                if n - 1 > 0 {
                    assert(!mem@.contains(nxt, 16));
                    self.version_needs = Vec::new();
                    return;
                }
                assert(need_view(out@) + seq![] =~= need_view(out@));
                self.version_needs = out;
                return;
            }
            a = a + next;
            n = n - 1;
        }
        assert(need_view(out@) + seq![] =~= need_view(out@));
        self.version_needs = out;
    }
}

/// The definitions of the `n` `Verdef` records of a chain starting at `a`:
/// index, the name its first `Verdaux` record gives, and hash.
pub open spec fn def_records(m: MemView, strs: Seq<u8>, a: int, n: int) -> Option<Seq<NeedRec>>
    decreases n,
{
    if n <= 0 {
        Some(seq![])
    } else if !m.contains(a, 20) {
        None
    } else {
        let r = m.range(a, 20);
        let aux = a + le_u32(r, 12);
        if !m.contains(aux, 8) {
            None
        } else {
            match cstr_at(strs, le_u32(m.range(aux, 8), 0) as int) {
                None => None,
                Some(name) => match def_records(m, strs, a + le_u32(r, 16), n - 1) {
                    None => None,
                    Some(rest) => Some(seq![(le_u16(r, 4), name, le_u32(r, 8))] + rest),
                },
            }
        }
    }
}

/// The view of version definitions as records.
pub open spec fn def_view(v: Seq<VersionDef>) -> Seq<NeedRec> {
    Seq::new(v.len(), |k: int| (v[k].index, v[k].name@, v[k].hash))
}

/// The version definitions of `d` are those its `Verdef` chain lists in
/// `m` (none when the chain is absent or not mapped).
pub open spec fn defs_views(d: DSO, m: MemView) -> bool {
    match d.verdef {
        Some(a) => match def_records(m, d.strs(), a as int, d.verdef_num as int) {
            Some(recs) => def_view(d.version_defs@) == recs,
            None => d.version_defs@.len() == 0,
        },
        None => d.version_defs@.len() == 0,
    }
}

impl DSO {
    /// Reads the version definitions from the `Verdef` chain. None are kept
    /// when a record is not mapped.
    pub fn parse_version_defs(&mut self, mem: &Memory)
        requires
            mem.wf(),
        ensures
            *final(self) == (DSO { version_defs: final(self).version_defs, ..*old(self) }),
            defs_views(*final(self), mem@),
    {
        let mut out: Vec<VersionDef> = Vec::new();
        let a0 = match self.verdef {
            Some(a) => a,
            None => {
                self.version_defs = out;
                return;
            },
        };
        let empty: Vec<u8> = Vec::new();
        let strs: &[u8] = match &self.str_table {
            Some(t) => t.as_slice(),
            None => empty.as_slice(),
        };
        let ghost s0 = *self;
        let mut a: u64 = a0;
        let mut n: u64 = self.verdef_num;
        assert(def_view(out@) =~= Seq::<NeedRec>::empty());
        assert(Seq::<NeedRec>::empty() + def_records(mem@, strs@, a0 as int, s0.verdef_num as int).unwrap_or(seq![])
            =~= def_records(mem@, strs@, a0 as int, s0.verdef_num as int).unwrap_or(seq![]));
        while n > 0
            invariant
                mem.wf(),
                *self == *old(self),
                s0 == *old(self),
                strs@ == s0.strs(),
                s0.verdef == Some(a0),
                def_records(mem@, strs@, a0 as int, s0.verdef_num as int) == (match def_records(mem@, strs@, a as int, n as int) {
                    Some(rest) => Some(def_view(out@) + rest),
                    None => None,
                }),
            decreases n,
        {
            let r = match mem.read_bytes(a, 20) {
                Some(r) => r,
                None => {
                    self.version_defs = Vec::new();
                    return;
                },
            };
            let aux_off = read_u32(&r, 12) as u64;
            if aux_off > u64::MAX - a {
                assert(!mem@.contains(a + aux_off, 8));
                self.version_defs = Vec::new();
                return;
            }
            let x = match mem.read_bytes(a + aux_off, 8) {
                Some(x) => x,
                None => {
                    self.version_defs = Vec::new();
                    return;
                },
            };
            let name_off = read_u32(&x, 0);
            let name = match cstr_slice(strs, name_off as usize) {
                Some(b) => b,
                None => {
                    assert(cstr_at(strs@, name_off as int) is None);
                    self.version_defs = Vec::new();
                    return;
                },
            };
            let ghost before = def_view(out@);
            let rec = VersionDef { index: read_u16(&r, 4), name: vstd::slice::slice_to_vec(name), hash: read_u32(&r, 8) };
            out.push(rec);
            assert(def_view(out@) =~= before.push((rec.index, rec.name@, rec.hash)));
            let next = read_u32(&r, 16) as u64;
            let ghost nxt = a + next;
            proof {
                match def_records(mem@, strs@, nxt, n - 1) {
                    Some(rest) => {
                        assert(before + (seq![(rec.index, rec.name@, rec.hash)] + rest) =~= def_view(out@) + rest);
                    },
                    None => {},
                }
            }
            if next > u64::MAX - a {
                if n - 1 > 0 {
                    assert(!mem@.contains(nxt, 20));
                    self.version_defs = Vec::new();
                    return;
                }
                assert(def_view(out@) + seq![] =~= def_view(out@));
                self.version_defs = out;
                return;
            }
            a = a + next;
            n = n - 1;
        }
        assert(def_view(out@) + seq![] =~= def_view(out@));
        self.version_defs = out;
    }
}

} // verus!
