//! The dynamic shared object model: one loaded ELF object and the views of
//! its dynamic section.

use vstd::prelude::*;
use vstd::string::StringSliceAdditionalSpecFns;
use vstd::utf8::valid_utf8;
use crate::elf::{DT_NEEDED, Dyn, Phdr, Rela, Sym, PT_GNU_RELRO};
use crate::gnu_hash::GnuHash;
use crate::load::u64s_at;
use crate::memory::MemView;
use crate::versioning::{VersionData, VersionDef, VersionNeed, VersionReq};

verus! {

/// The NUL-terminated string starting at `start` in `tab` ends at `end`.
pub open spec fn cstr_ends_at(tab: Seq<u8>, start: int, end: int) -> bool {
    &&& 0 <= start <= end < tab.len()
    &&& tab[end] == 0
    &&& forall|k: int| start <= k < end ==> tab[k] != 0
}

/// The bytes of the NUL-terminated string at `start` in `tab`, without the
/// terminator; `None` when no terminator follows `start`.
pub open spec fn cstr_at(tab: Seq<u8>, start: int) -> Option<Seq<u8>> {
    if exists|end: int| cstr_ends_at(tab, start, end) {
        let end = choose|end: int| cstr_ends_at(tab, start, end);
        Some(tab.subrange(start, end))
    } else {
        None
    }
}

pub proof fn lemma_cstr_end_unique(tab: Seq<u8>, start: int, e1: int, e2: int)
    requires
        cstr_ends_at(tab, start, e1),
        cstr_ends_at(tab, start, e2),
    ensures
        e1 == e2,
{
}

/// The NUL-terminated string at `start` in `tab`, without its terminator.
pub fn cstr_slice(tab: &[u8], start: usize) -> (r: Option<&[u8]>)
    ensures
        match r {
            Some(b) => cstr_at(tab@, start as int) == Some(b@),
            None => cstr_at(tab@, start as int) is None,
        },
{
    if start >= tab.len() {
        assert(!exists|end: int| cstr_ends_at(tab@, start as int, end));
        return None;
    }
    let mut end: usize = start;
    while end < tab.len() && tab[end] != 0
        invariant
            start <= end <= tab@.len(),
            forall|k: int| start <= k < end ==> tab@[k] != 0,
        decreases tab@.len() - end,
    {
        end = end + 1;
    }
    if end >= tab.len() {
        assert forall|e: int| !cstr_ends_at(tab@, start as int, e) by {
            if cstr_ends_at(tab@, start as int, e) {
                assert(tab@[e] == 0);
            }
        }
        return None;
    }
    assert(cstr_ends_at(tab@, start as int, end as int));
    let ghost chosen = choose|e: int| cstr_ends_at(tab@, start as int, e);
    proof {
        lemma_cstr_end_unique(tab@, start as int, end as int, chosen);
    }
    Some(vstd::slice::slice_subrange(tab, start, end))
}

/// Relies on `core::str::from_utf8`: it succeeds exactly on valid UTF-8 and
/// then borrows the same bytes as a `str`.
#[verifier::external_body]
fn utf8_str(b: &[u8]) -> (r: Option<&str>)
    ensures
        r is Some <==> valid_utf8(b@),
        r is Some ==> r->0.spec_bytes() == b@,
{
    core::str::from_utf8(b).ok()
}

/// The first `PT_GNU_RELRO` header in `ps`.
pub open spec fn first_relro(ps: Seq<Phdr>) -> Option<Phdr>
    decreases ps.len(),
{
    if ps.len() == 0 {
        None
    } else if ps[0].p_type == PT_GNU_RELRO {
        Some(ps[0])
    } else {
        first_relro(ps.drop_first())
    }
}

/// A relocation as the driver consumes it: type, symbol index, offset, addend.
pub type RelocTuple = (u32, u64, u64, Option<u64>);

pub open spec fn rela_tuple(r: Rela) -> RelocTuple {
    (r.kind(), r.sym(), r.r_offset, Some(r.r_addend))
}

/// One loaded ELF object: where it lives and the views of its dynamic section.
pub struct DSO {
    pub name: Vec<u8>,
    pub base_addr: u64,
    pub phdrs: Vec<Phdr>,
    pub entry_point: u64,
    pub dynamic: Option<Vec<Dyn>>,
    pub sym_table: Option<Vec<Sym>>,
    pub str_table: Option<Vec<u8>>,
    pub gnu_hash: Option<GnuHash>,
    pub sysv_hash: Option<Vec<u32>>,
    pub rela_dyn: Option<Vec<Rela>>,
    pub rela_plt: Option<Vec<Rela>>,
    pub rela_count: u64,
    pub plt_got: Option<u64>,
    pub init: Option<u64>,
    pub init_array: Option<(u64, u64)>,
    pub fini: Option<u64>,
    pub fini_array: Option<(u64, u64)>,
    pub versym: Option<Vec<u16>>,
    pub verdef: Option<u64>,
    pub verneed: Option<u64>,
    pub verneed_num: u64,
    pub verdef_num: u64,
    pub tls_module_id: u64,
    pub tls_offset: u64,
    pub tls_size: u64,
    pub tls_align: u64,
    pub tls_image: Option<Vec<u8>>,
    pub version_needs: Vec<VersionNeed>,
    pub version_defs: Vec<VersionDef>,
}

impl DSO {
    /// The symbol table, empty when absent.
    pub open spec fn syms(&self) -> Seq<Sym> {
        match self.sym_table {
            Some(t) => t@,
            None => seq![],
        }
    }

    /// The string table, empty when absent.
    pub open spec fn strs(&self) -> Seq<u8> {
        match self.str_table {
            Some(t) => t@,
            None => seq![],
        }
    }

    /// The dynamic section, empty when absent.
    pub open spec fn dyns(&self) -> Seq<Dyn> {
        match self.dynamic {
            Some(v) => v@,
            None => seq![],
        }
    }

    /// The names of the `DT_NEEDED` entries among the first `n` dynamic entries.
    pub open spec fn needed_in(&self, n: int) -> Seq<Seq<u8>>
        decreases n,
    {
        if n <= 0 {
            seq![]
        } else {
            let e = self.dyns()[n - 1];
            let prev = self.needed_in(n - 1);
            if e.d_tag == DT_NEEDED && cstr_at(self.strs(), e.d_val as int) is Some {
                prev.push(cstr_at(self.strs(), e.d_val as int)->0)
            } else {
                prev
            }
        }
    }

    /// The dependency names depend on the dynamic section and the string table alone.
    pub proof fn lemma_needed_same(&self, other: DSO, n: int)
        requires
            self.dyns() == other.dyns(),
            self.strs() == other.strs(),
        ensures
            self.needed_in(n) == other.needed_in(n),
        decreases n,
    {
        if n > 0 {
            self.lemma_needed_same(other, n - 1);
        }
    }

    /// The names of the objects this one depends on, in `DT_NEEDED` order.
    pub open spec fn needed(&self) -> Seq<Seq<u8>> {
        self.needed_in(self.dyns().len() as int)
    }

    /// The TLS image, empty when absent.
    pub open spec fn image(&self) -> Seq<u8> {
        match self.tls_image {
            Some(t) => t@,
            None => seq![],
        }
    }

    /// The name bytes of symbol `idx`: absent when the index is out of range,
    /// when `st_name` is 0, when the string is unterminated or not UTF-8.
    pub open spec fn sym_name(&self, idx: int) -> Option<Seq<u8>> {
        if self.sym_table is None || self.str_table is None || !(0 <= idx < self.syms().len())
            || self.syms()[idx].st_name == 0 {
            None
        } else {
            match cstr_at(self.strs(), self.syms()[idx].st_name as int) {
                Some(n) => if valid_utf8(n) { Some(n) } else { None },
                None => None,
            }
        }
    }

    /// The relocation records, those of `rela.dyn` then those of `rela.plt`.
    pub open spec fn relas(&self) -> Seq<Rela> {
        (match self.rela_dyn {
            Some(v) => v@,
            None => seq![],
        }) + (match self.rela_plt {
            Some(v) => v@,
            None => seq![],
        })
    }

    /// The initializers in the order they run, as found in `m`: `DT_INIT`,
    /// then the entries of `DT_INIT_ARRAY` (none when the array is not mapped).
    pub open spec fn inits(&self, m: MemView) -> Seq<u64> {
        (match self.init {
            Some(f) => seq![f],
            None => seq![],
        }) + (match self.init_array {
            Some((addr, n)) => if n * 8 <= u64::MAX && m.contains(addr as int, n * 8) {
                u64s_at(m, addr as int, n as int)
            } else {
                seq![]
            },
            None => seq![],
        })
    }

    /// An object with no name, segments, tables or TLS.
    pub fn empty() -> (r: DSO)
        ensures
            r.name@ == Seq::<u8>::empty(),
            r.base_addr == 0,
            r.phdrs@ == Seq::<Phdr>::empty(),
            r.entry_point == 0,
            r.dynamic is None,
            r.sym_table is None,
            r.str_table is None,
            r.gnu_hash is None,
            r.sysv_hash is None,
            r.rela_dyn is None,
            r.rela_plt is None,
            r.rela_count == 0,
            r.plt_got is None,
            r.init is None,
            r.init_array is None,
            r.fini is None,
            r.fini_array is None,
            r.versym is None,
            r.verdef is None,
            r.verneed is None,
            r.verneed_num == 0,
            r.verdef_num == 0,
            r.tls_module_id == 0,
            r.tls_offset == 0,
            r.tls_size == 0,
            r.tls_align == 0,
            r.tls_image is None,
            r.version_needs@.len() == 0,
            r.version_defs@.len() == 0,
    {
        DSO {
            name: Vec::new(),
            base_addr: 0,
            phdrs: Vec::new(),
            entry_point: 0,
            dynamic: None,
            sym_table: None,
            str_table: None,
            gnu_hash: None,
            sysv_hash: None,
            rela_dyn: None,
            rela_plt: None,
            rela_count: 0,
            plt_got: None,
            init: None,
            init_array: None,
            fini: None,
            fini_array: None,
            versym: None,
            verdef: None,
            verneed: None,
            verneed_num: 0,
            verdef_num: 0,
            tls_module_id: 0,
            tls_offset: 0,
            tls_size: 0,
            tls_align: 0,
            tls_image: None,
            version_needs: Vec::new(),
            version_defs: Vec::new(),
        }
    }

    /// The first `PT_GNU_RELRO` program header, if any.
    pub fn relro_segment(&self) -> (r: Option<&Phdr>)
        ensures
            match r {
                Some(ph) => first_relro(self.phdrs@) == Some(*ph),
                None => first_relro(self.phdrs@) is None,
            },
    {
        assert(self.phdrs@.subrange(0, self.phdrs@.len() as int) =~= self.phdrs@);
        let mut i: usize = 0;
        while i < self.phdrs.len()
            invariant
                i <= self.phdrs@.len(),
                first_relro(self.phdrs@) == first_relro(self.phdrs@.subrange(i as int, self.phdrs@.len() as int)),
            decreases self.phdrs@.len() - i,
        {
            assert(self.phdrs@.subrange(i as int, self.phdrs@.len() as int).drop_first()
                =~= self.phdrs@.subrange(i + 1, self.phdrs@.len() as int));
            if self.phdrs[i].p_type == PT_GNU_RELRO {
                return Some(&self.phdrs[i]);
            }
            i = i + 1;
        }
        None
    }

    /// Every relocation as `(type, symbol index, offset, addend)`: those of
    /// `rela.dyn`, then those of `rela.plt`.
    pub fn relocations(&self) -> (r: Vec<RelocTuple>)
        ensures
            r@.len() == self.relas().len(),
            forall|i: int| 0 <= i < r@.len() ==> #[trigger] r@[i] == rela_tuple(self.relas()[i]),
    {
        let mut out: Vec<RelocTuple> = Vec::new();
        let empty: Vec<Rela> = Vec::new();
        let d = match &self.rela_dyn {
            Some(v) => v,
            None => &empty,
        };
        let p = match &self.rela_plt {
            Some(v) => v,
            None => &empty,
        };
        assert(self.relas() == d@ + p@);
        let mut i: usize = 0;
        while i < d.len()
            invariant
                i <= d@.len(),
                out@.len() == i,
                forall|k: int| 0 <= k < i ==> #[trigger] out@[k] == rela_tuple(d@[k]),
            decreases d@.len() - i,
        {
            let r = d[i];
            out.push(((r.r_info & 0xffff_ffff) as u32, r.r_info >> 32u64, r.r_offset, Some(r.r_addend)));
            i = i + 1;
        }
        let mut j: usize = 0;
        while j < p.len()
            invariant
                j <= p@.len(),
                out@.len() == d@.len() + j,
                forall|k: int| 0 <= k < d@.len() ==> #[trigger] out@[k] == rela_tuple(d@[k]),
                forall|k: int| 0 <= k < j ==> #[trigger] out@[d@.len() + k] == rela_tuple(p@[k]),
            decreases p@.len() - j,
        {
            let r = p[j];
            out.push(((r.r_info & 0xffff_ffff) as u32, r.r_info >> 32u64, r.r_offset, Some(r.r_addend)));
            j = j + 1;
        }
        assert forall|i: int| 0 <= i < out@.len() implies #[trigger] out@[i] == rela_tuple(self.relas()[i]) by {
            if i >= d@.len() {
                assert(out@[d@.len() + (i - d@.len())] == rela_tuple(p@[i - d@.len()]));
            }
        }
        out
    }

    /// The bytes of the name of symbol `index` (see `sym_name`).
    pub fn sym_name_bytes(&self, index: usize) -> (r: Option<&[u8]>)
        ensures
            match r {
                Some(b) => self.sym_name(index as int) == Some(b@),
                None => self.sym_name(index as int) is None,
            },
    {
        let syms = match &self.sym_table {
            Some(t) => t,
            None => return None,
        };
        let strs = match &self.str_table {
            Some(t) => t,
            None => return None,
        };
        if index >= syms.len() {
            return None;
        }
        let st_name = syms[index].st_name;
        if st_name == 0 {
            return None;
        }
        match cstr_slice(strs.as_slice(), st_name as usize) {
            Some(b) => if utf8_str(b).is_some() {
                Some(b)
            } else {
                None
            },
            None => None,
        }
    }

    /// The name of symbol `index`: absent when the index is out of range,
    /// when `st_name` is 0, or when the string table holds no valid
    /// NUL-terminated UTF-8 string there.
    pub fn get_sym_name(&self, index: usize) -> (r: Option<&str>)
        ensures
            match r {
                Some(s) => self.sym_name(index as int) == Some(s.spec_bytes()),
                None => self.sym_name(index as int) is None,
            },
    {
        match self.sym_name_bytes(index) {
            Some(b) => utf8_str(b),
            None => None,
        }
    }

    /// The names of the objects this one depends on, in `DT_NEEDED` order;
    /// entries whose name is not terminated inside the string table are skipped.
    pub fn needed_names(&self) -> (r: Vec<Vec<u8>>)
        ensures
            r@.len() == self.needed().len(),
            forall|i: int| 0 <= i < r@.len() ==> (#[trigger] r@[i])@ == self.needed()[i],
    {
        let mut out: Vec<Vec<u8>> = Vec::new();
        let dyns = match &self.dynamic {
            Some(d) => d.as_slice(),
            None => &[],
        };
        let strs = self.str_table();
        let mut i: usize = 0;
        while i < dyns.len()
            invariant
                dyns@ == self.dyns(),
                strs@ == self.strs(),
                i <= dyns@.len(),
                out@.len() == self.needed_in(i as int).len(),
                forall|k: int| 0 <= k < out@.len() ==> (#[trigger] out@[k])@ == self.needed_in(i as int)[k],
            decreases dyns@.len() - i,
        {
            let e = dyns[i];
            if e.d_tag == DT_NEEDED && e.d_val < strs.len() as u64 {
                match cstr_slice(strs, e.d_val as usize) {
                    Some(b) => {
                        out.push(vstd::slice::slice_to_vec(b));
                    },
                    None => {},
                }
            } else if e.d_tag == DT_NEEDED {
                assert(!exists|end: int| cstr_ends_at(strs@, e.d_val as int, end));
            }
            i = i + 1;
        }
        out
    }

    /// The version index symbol `idx` carries in the version-symbol table,
    /// without its hidden bit; `None` without a table entry.
    pub open spec fn version_index(&self, idx: int) -> Option<u16> {
        match self.versym {
            Some(v) => if 0 <= idx < v@.len() { Some((v@[idx] & 0x7fffu16) as u16) } else { None },
            None => None,
        }
    }

    /// Requirement `k` is the first with version index `v`.
    pub open spec fn is_first_need(&self, k: int, v: u16) -> bool {
        &&& 0 <= k < self.version_needs@.len()
        &&& self.version_needs@[k].index == v
        &&& forall|j: int| 0 <= j < k ==> self.version_needs@[j].index != v
    }

    /// The position of the first version requirement with index `v`.
    pub open spec fn need_position(&self, v: u16) -> Option<int> {
        if exists|k: int| #[trigger] self.is_first_need(k, v) {
            Some(choose|k: int| #[trigger] self.is_first_need(k, v))
        } else {
            None
        }
    }

    /// The version requirement of symbol `sym_idx`: the requirement whose
    /// index its version-symbol entry holds. Indices 0 and 1 (local and
    /// global) carry none; a symbol without a requirement matches any
    /// definition.
    pub fn get_version_req(&self, sym_idx: usize) -> (r: Option<VersionReq>)
        ensures
            match self.version_index(sym_idx as int) {
                Some(v) if v > 1 => match self.need_position(v) {
                    Some(k) => r is Some && r->0.name@ == self.version_needs@[k].req.name@
                        && r->0.hash == self.version_needs@[k].req.hash,
                    None => r is None,
                },
                _ => r is None,
            },
    {
        let v = match &self.versym {
            Some(t) => if sym_idx < t.len() {
                t[sym_idx] & 0x7fff
            } else {
                return None;
            },
            None => return None,
        };
        if v <= 1 {
            return None;
        }
        assert(self.version_index(sym_idx as int) == Some(v));
        let mut k: usize = 0;
        while k < self.version_needs.len()
            invariant
                self.version_index(sym_idx as int) == Some(v),
                v > 1,
                k <= self.version_needs@.len(),
                forall|j: int| 0 <= j < k ==> (#[trigger] self.version_needs@[j]).index != v,
            decreases self.version_needs@.len() - k,
        {
            if self.version_needs[k].index == v {
                let n = &self.version_needs[k];
                assert(self.is_first_need(k as int, v));
                let ghost chosen = self.need_position(v)->0;
                assert(chosen == k as int) by {
                    if chosen < k {
                        assert(self.version_needs@[chosen].index != v);
                    }
                    if chosen > k {
                        assert(self.version_needs@[k as int].index == v);
                    }
                }
                return Some(VersionReq { name: vstd::slice::slice_to_vec(n.req.name.as_slice()), hash: n.req.hash });
            }
            k = k + 1;
        }
        None
    }

    /// The symbol table, empty when absent.
    pub fn sym_table(&self) -> (r: &[Sym])
        ensures
            r@ == self.syms(),
    {
        match &self.sym_table {
            Some(t) => t.as_slice(),
            None => &[],
        }
    }

    /// The string table, empty when absent.
    pub fn str_table(&self) -> (r: &[u8])
        ensures
            r@ == self.strs(),
    {
        match &self.str_table {
            Some(t) => t.as_slice(),
            None => &[],
        }
    }

    pub fn gnu_hash(&self) -> (r: Option<&GnuHash>)
        ensures
            r is Some <==> self.gnu_hash is Some,
            r is Some ==> *r->0 == self.gnu_hash->0,
    {
        self.gnu_hash.as_ref()
    }

    pub fn sysv_hash(&self) -> (r: Option<&[u32]>)
        ensures
            r is Some <==> self.sysv_hash is Some,
            r is Some ==> r->0@ == self.sysv_hash->0@,
    {
        match &self.sysv_hash {
            Some(h) => Some(h.as_slice()),
            None => None,
        }
    }

    pub fn base_addr(&self) -> (r: u64)
        ensures
            r == self.base_addr,
    {
        self.base_addr
    }

    /// The symbol-versioning view: present when both the version-symbol
    /// table and the string table are.
    pub fn version_data(&self) -> (r: Option<VersionData<'_>>)
        ensures
            r is Some <==> (self.versym is Some && self.str_table is Some),
            r is Some ==> r->0.versym@ == self.versym->0@ && r->0.str_tab@ == self.str_table->0@
                && r->0.verneed == self.verneed.unwrap_or(0) && r->0.verneed_num == self.verneed_num
                && r->0.verdef == self.verdef.unwrap_or(0) && r->0.verdef_num == self.verdef_num,
    {
        match (&self.versym, &self.str_table) {
            (Some(versym), Some(str_tab)) => Some(VersionData {
                versym: versym.as_slice(),
                verneed: match self.verneed {
                    Some(a) => a,
                    None => 0,
                },
                verneed_num: self.verneed_num,
                verdef: match self.verdef {
                    Some(a) => a,
                    None => 0,
                },
                verdef_num: self.verdef_num,
                str_tab: str_tab.as_slice(),
            }),
            _ => None,
        }
    }
}

} // verus!
