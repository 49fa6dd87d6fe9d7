//! The link driver: object list, global symbol map, static TLS bookkeeping,
//! relocation, RELRO protection and initializer order.

use vstd::prelude::*;
use vstd::string::StringSliceAdditionalSpecFns;
use crate::dso::DSO;
use crate::linux_parity::LookupResult;
use crate::load::read_u64s;
use crate::dso::{RelocTuple, rela_tuple};
use crate::symbols::bytes_eq;
use crate::elf::{Phdr, PT_GNU_RELRO, PT_LOAD, R_AARCH64_TLS_DTPMOD64, R_RISCV_TLS_DTPMOD64, R_X86_64_DTPMOD64, le_bytes_u64, R_AARCH64_IRELATIVE, R_AARCH64_RELATIVE, R_RISCV_IRELATIVE, R_RISCV_RELATIVE,
    R_X86_64_IRELATIVE, R_X86_64_RELATIVE, SHN_UNDEF, STT_FILE};
use crate::memory::{MemView, Memory, lemma_protected_store_fails, overlaps};
use crate::tcb::{OsBlock, TCB_SIZE, Tcb, TcbExtension, lemma_words_bytes_len, tcb_words, to_bytes, words_bytes};
use crate::tls::lemma_tls_end_monotone;
use crate::reloc::{Arch, copied, ifunc_lookup, reloc_bytes, reloc_width, relocate, relocate_copy, relocated, relocation_width,
    resolve_ifunc, tcb_area, tcb_span};
use crate::symbols::{
    Def, GlobalSymbol, defs, defs_in, defs_valid, entry_for, find_global, first_def, has_name, is_def,
    lemma_defs_in_objects, lemma_first_def_is_first, lemma_first_def_push, names_unique, table_of, def_entry_ok,
};
use crate::tls::{
    align_up, align_up_checked, has_tls, lemma_align_up_bounds, lemma_tls_end_same, same_but_tls_slot,
    tls_end, tls_fits, tls_max_align, tls_slot,
};

verus! {

/// The TLS surplus reserved when no tunable says otherwise.
pub const DEFAULT_STATIC_TLS_SURPLUS: u64 = 2048;

/// The process-wide loader state.
pub struct Linker {
    pub arch: Arch,
    pub objects: Vec<DSO>,
    pub loaded_names: Vec<Vec<u8>>,
    pub global_symbols: Vec<GlobalSymbol>,
    pub static_tls_size: u64,
    pub static_tls_end_offset: u64,
    pub static_tls_align: u64,
    pub tls_offset: u64,
    pub surplus_remaining: u64,
    pub surplus_size: u64,
    pub dynamic_tls_modules: Vec<u64>,
    /// The values the IFUNC resolvers returned, keyed by resolver address.
    /// Resolvers are code: whoever runs them records their results here
    /// before relocation.
    pub ifunc_results: Vec<(u64, u64)>,
}

impl Linker {
    /// `loaded_names` runs parallel to `objects`, and the surplus still free
    /// lies inside the static TLS area.
    pub open spec fn wf(&self) -> bool {
        &&& self.loaded_names@.len() == self.objects@.len()
        &&& forall|i: int| 0 <= i < self.objects@.len() ==> #[trigger] self.loaded_names@[i]@ == self.objects@[i].name@
        &&& self.surplus_remaining <= self.static_tls_size
    }

    /// A loader for `arch` with no objects, reserving `surplus_size` bytes of
    /// static TLS for later loads.
    pub fn with_surplus(arch: Arch, surplus_size: u64) -> (r: Linker)
        ensures
            r.wf(),
            r.arch == arch,
            r.objects@.len() == 0,
            r.global_symbols@.len() == 0,
            r.static_tls_size == 0 && r.static_tls_end_offset == 0 && r.tls_offset == 0,
            r.loaded_names@.len() == 0,
            r.dynamic_tls_modules@.len() == 0,
            r.static_tls_align == 16,
            r.surplus_remaining == 0,
            r.surplus_size == surplus_size,
    {
        Linker {
            arch,
            objects: Vec::new(),
            loaded_names: Vec::new(),
            global_symbols: Vec::new(),
            static_tls_size: 0,
            static_tls_end_offset: 0,
            static_tls_align: 16,
            tls_offset: 0,
            surplus_remaining: 0,
            surplus_size,
            dynamic_tls_modules: Vec::new(),
            ifunc_results: Vec::new(),
        }
    }

    /// Appends `dso` to the object list and its name to `loaded_names`.
    pub fn add_object(&mut self, dso: DSO)
        requires
            old(self).wf(),
        ensures
            final(self).wf(),
            final(self).objects@ == old(self).objects@.push(dso),
            final(self).loaded_names@.len() == old(self).loaded_names@.len() + 1,
            forall|i: int| 0 <= i < old(self).loaded_names@.len() ==> #[trigger] final(self).loaded_names@[i] == old(self).loaded_names@[i],
            final(self).global_symbols@ == old(self).global_symbols@,
            final(self).arch == old(self).arch,
            final(self).static_tls_size == old(self).static_tls_size,
            final(self).surplus_remaining == old(self).surplus_remaining,
            final(self).surplus_size == old(self).surplus_size,
            final(self).static_tls_align == old(self).static_tls_align,
            final(self).static_tls_end_offset == old(self).static_tls_end_offset,
            final(self).tls_offset == old(self).tls_offset,
    {
        let name = dso.name.clone();
        self.loaded_names.push(name);
        self.objects.push(dso);
        assert(forall|i: int| 0 <= i < old(self).objects@.len() ==> self.objects@[i] == old(self).objects@[i]);
        assert(forall|i: int| 0 <= i < old(self).objects@.len() ==> self.loaded_names@[i] == old(self).loaded_names@[i]);
    }

    /// The executable's entry point: that of the first object, or 0.
    pub fn get_entry_point(&self) -> (r: u64)
        ensures
            self.objects@.len() == 0 ==> r == 0,
            self.objects@.len() > 0 ==> r == self.objects@[0].entry_point,
    {
        if self.objects.len() == 0 {
            0
        } else {
            self.objects[0].entry_point
        }
    }

    /// Lays out static TLS: in load order, each object with TLS gets module id
    /// `index + 1` and the next offset aligned to its alignment; then the
    /// surplus is reserved behind the last block. Fails, changing nothing
    /// that matters, when the layout does not fit in `u64`.
    pub fn layout_static_tls(&mut self) -> (ok: bool)
        requires
            old(self).wf(),
        ensures
            final(self).wf(),
            final(self).arch == old(self).arch,
            final(self).objects@.len() == old(self).objects@.len(),
            final(self).loaded_names@ == old(self).loaded_names@,
            final(self).global_symbols@ == old(self).global_symbols@,
            final(self).surplus_size == old(self).surplus_size,
            forall|i: int| 0 <= i < old(self).objects@.len() ==> same_but_tls_slot(old(self).objects@[i], #[trigger] final(self).objects@[i]),
            ok <==> tls_fits(old(self).objects@, old(self).objects@.len() as int)
                && tls_end(old(self).objects@, old(self).objects@.len() as int) + old(self).surplus_size <= u64::MAX,
            forall|i: int| 0 <= i < old(self).objects@.len() && !has_tls(old(self).objects@[i])
                ==> #[trigger] final(self).objects@[i] == old(self).objects@[i],
            ok ==> forall|i: int| 0 <= i < old(self).objects@.len() && has_tls(old(self).objects@[i]) ==>
                (#[trigger] final(self).objects@[i]).tls_module_id == i + 1
                && final(self).objects@[i].tls_offset == tls_slot(old(self).objects@, i),
            ok ==> final(self).static_tls_end_offset == tls_end(old(self).objects@, old(self).objects@.len() as int),
            ok ==> final(self).static_tls_size == final(self).static_tls_end_offset + final(self).surplus_size,
            ok ==> final(self).surplus_remaining == final(self).surplus_size,
            ok ==> final(self).static_tls_align == tls_max_align(old(self).objects@, old(self).objects@.len() as int),
    {
        let ghost objs0 = self.objects@;
        let n = self.objects.len();
        let mut off: u64 = 0;
        let mut max_align: u64 = 16;
        let mut i: usize = 0;
        while i < n
            invariant
                self.wf(),
                self.arch == old(self).arch,
                self.loaded_names@ == old(self).loaded_names@,
                self.global_symbols@ == old(self).global_symbols@,
                self.surplus_size == old(self).surplus_size,
                self.surplus_remaining == old(self).surplus_remaining,
                self.static_tls_size == old(self).static_tls_size,
                objs0 == old(self).objects@,
                n == objs0.len(),
                self.objects@.len() == n,
                i <= n,
                tls_fits(objs0, i as int),
                off == tls_end(objs0, i as int),
                max_align == tls_max_align(objs0, i as int),
                forall|k: int| 0 <= k < n ==> same_but_tls_slot(objs0[k], #[trigger] self.objects@[k]),
                forall|k: int| i <= k < n ==> self.objects@[k] == objs0[k],
                forall|k: int| 0 <= k < n && !has_tls(objs0[k]) ==> #[trigger] self.objects@[k] == objs0[k],
                forall|k: int| 0 <= k < i && has_tls(objs0[k]) ==> (#[trigger] self.objects@[k]).tls_module_id == k + 1
                    && self.objects@[k].tls_offset == tls_slot(objs0, k),
            decreases n - i,
        {
            let size = self.objects[i].tls_size;
            let align = self.objects[i].tls_align;
            if size != 0 {
                let start = match align_up_checked(off, align) {
                    Some(s) => s,
                    None => {
                        proof { self.lemma_fits_prefix(objs0, i as int + 1, n as int); }
                        return false;
                    },
                };
                if start > u64::MAX - size {
                    proof { self.lemma_fits_prefix(objs0, i as int + 1, n as int); }
                    return false;
                }
                self.objects[i].tls_module_id = (i as u64) + 1;
                self.objects[i].tls_offset = start;
                off = start + size;
                if align > max_align {
                    max_align = align;
                }
            }
            i = i + 1;
        }
        if off > u64::MAX - self.surplus_size {
            return false;
        }
        self.tls_offset = off;
        self.static_tls_align = max_align;
        self.static_tls_end_offset = off;
        self.surplus_remaining = self.surplus_size;
        self.static_tls_size = off + self.surplus_size;
        true
    }

    proof fn lemma_fits_prefix(&self, objs: Seq<DSO>, i: int, n: int)
        requires
            0 <= i <= n,
            !tls_fits(objs, i),
        ensures
            !tls_fits(objs, n),
        decreases n - i,
    {
        if i < n {
            self.lemma_fits_prefix(objs, i, n - 1);
        }
    }

    /// Tries to place a block of `size` bytes aligned to `align` in the
    /// remaining static TLS surplus. On success the surplus shrinks to what
    /// lies behind the block, and the block's offset is returned.
    pub fn try_allocate_static_tls(&mut self, size: u64, align: u64) -> (r: Option<u64>)
        requires
            old(self).wf(),
        ensures
            final(self).wf(),
            final(self).objects@ == old(self).objects@,
            final(self).loaded_names@ == old(self).loaded_names@,
            final(self).global_symbols@ == old(self).global_symbols@,
            final(self).arch == old(self).arch,
            final(self).static_tls_size == old(self).static_tls_size,
            final(self).surplus_size == old(self).surplus_size,
            final(self).static_tls_align == old(self).static_tls_align,
            final(self).static_tls_end_offset == old(self).static_tls_end_offset,
            final(self).tls_offset == old(self).tls_offset,
            final(self).dynamic_tls_modules@ == old(self).dynamic_tls_modules@,
            r is None ==> *final(self) == *old(self),
            ({
                let start = align_up(old(self).static_tls_size - old(self).surplus_remaining, align as int);
                &&& r is Some <==> start + size <= old(self).static_tls_size
                &&& r is Some ==> r->0 == start && final(self).surplus_remaining == old(self).static_tls_size - (start + size)
                &&& r is None ==> final(self).surplus_remaining == old(self).surplus_remaining
            }),
    {
        let current_end = self.static_tls_size - self.surplus_remaining;
        proof {
            lemma_align_up_bounds(current_end as int, align as int);
        }
        let start = match align_up_checked(current_end, align) {
            Some(s) => s,
            None => return None,
        };
        if start > self.static_tls_size || size > self.static_tls_size - start {
            return None;
        }
        self.surplus_remaining = self.static_tls_size - (start + size);
        Some(start)
    }

    /// The global symbol map holds, for every name defined by the objects,
    /// its first definition in load order.
    pub open spec fn symbols_built(&self) -> bool {
        &&& table_of(self.global_symbols@, self.objects@, defs(self.objects@, self.objects@.len() as int))
        &&& defs_valid(self.objects@, defs(self.objects@, self.objects@.len() as int))
    }

    /// The value `dlsym` finds for `name` in the global map.
    pub open spec fn lookup_value(&self, name: Seq<u8>) -> Option<u64> {
        if has_name(self.global_symbols@, name) {
            Some(entry_for(self.global_symbols@, name).result.value)
        } else {
            None
        }
    }

    /// Builds the global symbol map: for each object in load order, each
    /// named symbol that is not a file symbol and is defined enters the map
    /// unless its name is already there.
    pub fn build_global_sym_map(&mut self)
        requires
            old(self).wf(),
            old(self).global_symbols@.len() == 0,
        ensures
            final(self).wf(),
            final(self).objects@ == old(self).objects@,
            final(self).loaded_names@ == old(self).loaded_names@,
            final(self).arch == old(self).arch,
            final(self).static_tls_size == old(self).static_tls_size,
            final(self).static_tls_align == old(self).static_tls_align,
            final(self).static_tls_end_offset == old(self).static_tls_end_offset,
            final(self).tls_offset == old(self).tls_offset,
            final(self).surplus_remaining == old(self).surplus_remaining,
            final(self).surplus_size == old(self).surplus_size,
            final(self).dynamic_tls_modules@ == old(self).dynamic_tls_modules@,
            final(self).symbols_built(),
    {
        assert(defs(self.objects@, 0) =~= Seq::<Def>::empty());
        self.add_symbols(0);
    }

    /// Adds the definitions of objects `from..` to the global map, keeping
    /// every name that is already there.
    pub fn add_symbols(&mut self, from: usize)
        requires
            old(self).wf(),
            from <= old(self).objects@.len(),
            table_of(old(self).global_symbols@, old(self).objects@, defs(old(self).objects@, from as int)),
            defs_valid(old(self).objects@, defs(old(self).objects@, from as int)),
        ensures
            final(self).wf(),
            final(self).objects@ == old(self).objects@,
            final(self).loaded_names@ == old(self).loaded_names@,
            final(self).arch == old(self).arch,
            final(self).static_tls_size == old(self).static_tls_size,
            final(self).static_tls_align == old(self).static_tls_align,
            final(self).static_tls_end_offset == old(self).static_tls_end_offset,
            final(self).tls_offset == old(self).tls_offset,
            final(self).surplus_remaining == old(self).surplus_remaining,
            final(self).surplus_size == old(self).surplus_size,
            final(self).dynamic_tls_modules@ == old(self).dynamic_tls_modules@,
            final(self).symbols_built(),
    {
        let n = self.objects.len();
        let ghost objs = self.objects@;
        let mut i: usize = from;
        while i < n
            invariant
                self.wf(),
                self.objects@ == objs,
                self.loaded_names@ == old(self).loaded_names@,
                self.arch == old(self).arch,
                self.static_tls_size == old(self).static_tls_size,
                self.static_tls_align == old(self).static_tls_align,
                self.static_tls_end_offset == old(self).static_tls_end_offset,
                self.tls_offset == old(self).tls_offset,
                self.surplus_remaining == old(self).surplus_remaining,
                self.surplus_size == old(self).surplus_size,
                self.dynamic_tls_modules@ == old(self).dynamic_tls_modules@,
                n == objs.len(),
                from <= i <= n,
                table_of(self.global_symbols@, objs, defs(objs, i as int)),
                defs_valid(objs, defs(objs, i as int)),
            decreases n - i,
        {
            let syms = self.objects[i].sym_table();
            let m = syms.len();
            let ghost d = objs[i as int];
            let ghost prefix = defs(objs, i as int);
            let mut j: usize = 0;
            while j < m
                invariant
                    self.wf(),
                    self.objects@ == objs,
                    self.loaded_names@ == old(self).loaded_names@,
                    self.arch == old(self).arch,
                    self.static_tls_size == old(self).static_tls_size,
                    self.static_tls_align == old(self).static_tls_align,
                    self.static_tls_end_offset == old(self).static_tls_end_offset,
                    self.tls_offset == old(self).tls_offset,
                    self.surplus_remaining == old(self).surplus_remaining,
                    self.surplus_size == old(self).surplus_size,
                    self.dynamic_tls_modules@ == old(self).dynamic_tls_modules@,
                    n == objs.len(),
                    i < n,
                    d == objs[i as int],
                    syms@ == d.syms(),
                    m == syms@.len(),
                    j <= m,
                    prefix == defs(objs, i as int),
                    table_of(self.global_symbols@, objs, prefix + defs_in(d, i as int, j as int)),
                    defs_valid(objs, prefix + defs_in(d, i as int, j as int)),
                decreases m - j,
            {
                let sym = syms[j];
                let ghost before = prefix + defs_in(d, i as int, j as int);
                if sym.st_name != 0 && (sym.st_info & 0xf) != STT_FILE && sym.st_shndx != SHN_UNDEF {
                    match self.objects[i].sym_name_bytes(j) {
                        Some(name) => {
                            let ghost def: Def = (name@, i as int, j as int);
                            assert(is_def(d, j as int));
                            assert(defs_in(d, i as int, j + 1) == defs_in(d, i as int, j as int).push(def));
                            assert(prefix + defs_in(d, i as int, j + 1) =~= before.push(def));
                            proof {
                                assert forall|nm: Seq<u8>| true implies first_def(before.push(def), nm) == (match first_def(before, nm) {
                                    Some(k) => Some(k),
                                    None => if def.0 == nm { Some(before.len() as int) } else { None },
                                }) by {
                                    lemma_first_def_push(before, def, nm);
                                }
                            }
                            if find_global(&self.global_symbols, name).is_none() {
                                let d_ref = &self.objects[i];
                                let entry = GlobalSymbol {
                                    name: vstd::slice::slice_to_vec(name),
                                    result: LookupResult { value: d_ref.base_addr.wrapping_add(sym.st_value), size: sym.st_size },
                                    module_id: d_ref.tls_module_id,
                                    tls_offset: d_ref.tls_offset,
                                };
                                let ghost g0 = self.global_symbols@;
                                assert(first_def(before, name@) is None);
                                self.global_symbols.push(entry);
                                assert(self.global_symbols@ == g0.push(entry));
                                assert forall|k: int| 0 <= k < g0.len() implies self.global_symbols@[k] == g0[k] by {}
                                assert(self.global_symbols@[g0.len() as int] == entry);
                                assert(names_unique(self.global_symbols@)) by {
                                    assert forall|a: int, b: int|
                                        0 <= a < self.global_symbols@.len() && 0 <= b < self.global_symbols@.len()
                                            && (#[trigger] self.global_symbols@[a]).name@ == (#[trigger] self.global_symbols@[b]).name@
                                        implies a == b by {
                                        if a < g0.len() && b == g0.len() {
                                            assert(g0[a].name@ == name@);
                                        }
                                        if b < g0.len() && a == g0.len() {
                                            assert(g0[b].name@ == name@);
                                        }
                                    }
                                }
                                assert forall|k: int| 0 <= k < self.global_symbols@.len() implies first_def(before.push(def), (#[trigger] self.global_symbols@[k]).name@) is Some
                                    && def_entry_ok(self.global_symbols@[k], objs, before.push(def)[first_def(before.push(def), self.global_symbols@[k].name@)->0]) by {
                                    let nm = self.global_symbols@[k].name@;
                                    lemma_first_def_is_first(before, nm);
                                    if k < g0.len() {
                                        assert(self.global_symbols@[k] == g0[k]);
                                        assert(first_def(before, nm) is Some);
                                        assert(before.push(def)[first_def(before, nm)->0] == before[first_def(before, nm)->0]);
                                    } else {
                                        assert(self.global_symbols@[k] == entry);
                                        assert(before.push(def)[before.len() as int] == def);
                                    }
                                }
                                assert forall|nm: Seq<u8>| #[trigger] first_def(before.push(def), nm) is Some
                                    implies has_name(self.global_symbols@, nm) by {
                                    if first_def(before, nm) is Some {
                                        let k = choose|k: int| 0 <= k < g0.len() && (#[trigger] g0[k]).name@ == nm;
                                        assert(self.global_symbols@[k].name@ == nm);
                                    } else {
                                        assert(self.global_symbols@[g0.len() as int].name@ == nm);
                                    }
                                }
                            } else {
                                assert(first_def(before, name@) is Some);
                                let ghost g = self.global_symbols@;
                                assert forall|k: int| 0 <= k < g.len() implies first_def(before.push(def), (#[trigger] g[k]).name@) is Some
                                    && def_entry_ok(g[k], objs, before.push(def)[first_def(before.push(def), g[k].name@)->0]) by {
                                    let nm = g[k].name@;
                                    lemma_first_def_is_first(before, nm);
                                    assert(before.push(def)[first_def(before, nm)->0] == before[first_def(before, nm)->0]);
                                }
                            }
                        },
                        None => {
                            assert(!is_def(d, j as int));
                            assert(defs_in(d, i as int, j + 1) == defs_in(d, i as int, j as int));
                        },
                    }
                } else {
                    assert(!is_def(d, j as int));
                    assert(defs_in(d, i as int, j + 1) == defs_in(d, i as int, j as int));
                }
                j = j + 1;
            }
            assert(defs(objs, i + 1) == prefix + defs_in(d, i as int, m as int));
            i = i + 1;
        }
    }

    /// The global map's entry for `name`, if any.
    pub fn lookup_symbol(&self, name: &[u8]) -> (r: Option<&GlobalSymbol>)
        ensures
            r is Some <==> has_name(self.global_symbols@, name@),
            r is Some ==> r->0.name@ == name@,
            r is Some && names_unique(self.global_symbols@) ==> *r->0 == entry_for(self.global_symbols@, name@),
    {
        match find_global(&self.global_symbols, name) {
            Some(k) => Some(&self.global_symbols[k]),
            None => None,
        }
    }

    /// Looks `symbol` up: handle 0 searches the global map; another handle
    /// must name a loaded object (handle `i + 1` for object `i`) and also
    /// searches the global map.
    pub fn dlsym(&self, handle: u64, symbol: &str) -> (r: Option<u64>)
        requires
            self.symbols_built(),
        ensures
            handle != 0 && handle - 1 >= self.objects@.len() ==> r is None,
            !(handle != 0 && handle - 1 >= self.objects@.len()) ==> r == self.lookup_value(symbol.spec_bytes()),
    {
        if handle != 0 && handle - 1 >= self.objects.len() as u64 {
            return None;
        }
        match self.lookup_symbol(symbol.as_bytes()) {
            Some(e) => Some(e.result.value),
            None => None,
        }
    }

    /// How relocation `r` of object `oi` changes the window `m`. Relocations
    /// without a symbol, and base-relative ones, apply with `S = 0` and the
    /// object's own TLS data; the others resolve their symbol's name in the
    /// global map and apply with the definition's value and its owner's TLS
    /// data, falling back to a copy relocation for types `relocate` does not
    /// handle. Unresolved symbols, and targets that leave the object's image,
    /// leave the window unchanged.
    pub open spec fn reloc_step(&self, oi: int, m: MemView, r: RelocTuple) -> MemView {
        let d = self.objects@[oi];
        let (t, si, off, addend) = r;
        let a = addend.unwrap_or(0);
        let p = d.base_addr.wrapping_add(off);
        let w = reloc_width(self.arch, t);
        if si == 0 || is_base_relative(self.arch, t) {
            if w is Some && fits(d, off as int, w->0 as int) {
                relocated(m, self.arch, t, 0, a, d.base_addr, p, d.tls_module_id, d.tls_offset, self.static_tls_size,
                    self.static_tls_align, ifunc_lookup(self.ifunc_results@, d.base_addr.wrapping_add(a)))
            } else {
                m
            }
        } else {
            match d.sym_name(si as int) {
                None => m,
                Some(name) => if !has_name(self.global_symbols@, name) {
                    m
                } else {
                    let e = entry_for(self.global_symbols@, name);
                    if w is Some {
                        if fits(d, off as int, w->0 as int) {
                            relocated(m, self.arch, t, e.result.value, a, d.base_addr, p, e.module_id,
                                e.tls_offset, self.static_tls_size, self.static_tls_align,
                                ifunc_lookup(self.ifunc_results@, d.base_addr.wrapping_add(a)))
                        } else {
                            m
                        }
                    } else if fits(d, off as int, e.result.size as int) {
                        copied(m, self.arch, t, e.result.value, p, e.result.size)
                    } else {
                        m
                    }
                },
            }
        }
    }

    /// The window after the first `n` relocations of object `oi`.
    pub open spec fn relocs_applied(&self, oi: int, m: MemView, n: int) -> MemView
        decreases n,
    {
        if n <= 0 {
            m
        } else {
            self.reloc_step(oi, self.relocs_applied(oi, m, n - 1), rela_tuple(self.objects@[oi].relas()[n - 1]))
        }
    }

    fn apply_one(&self, obj_idx: usize, span: u128, mem: &mut Memory, r: RelocTuple)
        requires
            old(mem).wf(),
            obj_idx < self.objects@.len(),
            span == image_span_of(self.objects@[obj_idx as int]),
            names_unique(self.global_symbols@),
        ensures
            final(mem).wf(),
            final(mem)@ == self.reloc_step(obj_idx as int, old(mem)@, r),
    {
        let obj = &self.objects[obj_idx];
        let (t, si, off, addend) = r;
        let base = obj.base_addr;
        let p = base.wrapping_add(off);
        let a = match addend {
            Some(v) => v,
            None => 0,
        };
        let iv = resolve_ifunc(self.ifunc_results.as_slice(), base.wrapping_add(a));
        let width = relocation_width(self.arch, t);
        if si == 0 || is_base_relative_exec(self.arch, t) {
            if let Some(w) = width {
                if fits_exec(base, span, off, w) {
                    relocate(self.arch, mem, t, 0, 0, p, addend, base, obj.tls_module_id, obj.tls_offset,
                        self.static_tls_size, self.static_tls_align, iv);
                }
            }
            return;
        }
        if si >= obj.sym_table().len() as u64 {
            return;
        }
        let name = match obj.sym_name_bytes(si as usize) {
            Some(n) => n,
            None => return,
        };
        let e = match self.lookup_symbol(name) {
            Some(e) => e,
            None => return,
        };
        match width {
            Some(w) => {
                if fits_exec(base, span, off, w) {
                    relocate(self.arch, mem, t, e.result.value, e.result.size, p, addend, base, e.module_id,
                        e.tls_offset, self.static_tls_size, self.static_tls_align, iv);
                }
            },
            None => {
                if fits_exec(base, span, off, e.result.size) {
                    relocate_copy(self.arch, mem, t, e.result.value, p, e.result.size);
                }
            },
        }
    }

    /// Applies every relocation of object `obj_idx`, in order, to `mem`.
    pub fn relocate_single(&self, obj_idx: usize, mem: &mut Memory)
        requires
            old(mem).wf(),
            obj_idx < self.objects@.len(),
            names_unique(self.global_symbols@),
        ensures
            final(mem).wf(),
            final(mem)@ == self.relocs_applied(obj_idx as int, old(mem)@,
                self.objects@[obj_idx as int].relas().len() as int),
    {
        let relocs = self.objects[obj_idx].relocations();
        let span = image_span(&self.objects[obj_idx]);
        let mut k: usize = 0;
        while k < relocs.len()
            invariant
                mem.wf(),
                obj_idx < self.objects@.len(),
                names_unique(self.global_symbols@),
                span == image_span_of(self.objects@[obj_idx as int]),
                relocs@.len() == self.objects@[obj_idx as int].relas().len(),
                forall|i: int| 0 <= i < relocs@.len() ==> #[trigger] relocs@[i] == rela_tuple(self.objects@[obj_idx as int].relas()[i]),
                k <= relocs@.len(),
                mem@ == self.relocs_applied(obj_idx as int, old(mem)@, k as int),
            decreases relocs@.len() - k,
        {
            self.apply_one(obj_idx, span, mem, relocs[k]);
            k = k + 1;
        }
    }
}

/// Whether `t` is the base-relative or the IFUNC relocation of `arch`.
pub open spec fn is_base_relative(arch: Arch, t: u32) -> bool {
    match arch {
        Arch::X86_64 => t == R_X86_64_RELATIVE || t == R_X86_64_IRELATIVE,
        Arch::AArch64 => t == R_AARCH64_RELATIVE || t == R_AARCH64_IRELATIVE,
        Arch::RiscV64 => t == R_RISCV_RELATIVE || t == R_RISCV_IRELATIVE,
    }
}

fn is_base_relative_exec(arch: Arch, t: u32) -> (r: bool)
    ensures
        r == is_base_relative(arch, t),
{
    match arch {
        Arch::X86_64 => t == R_X86_64_RELATIVE || t == R_X86_64_IRELATIVE,
        Arch::AArch64 => t == R_AARCH64_RELATIVE || t == R_AARCH64_IRELATIVE,
        Arch::RiscV64 => t == R_RISCV_RELATIVE || t == R_RISCV_IRELATIVE,
    }
}

/// The highest `p_vaddr + p_memsz` among the first `n` `PT_LOAD` headers of `d`, or 0.
pub open spec fn load_end(d: DSO, n: int) -> int
    decreases n,
{
    if n <= 0 {
        0
    } else {
        let ph = d.phdrs@[n - 1];
        let prev = load_end(d, n - 1);
        if ph.p_type == PT_LOAD && ph.p_vaddr + ph.p_memsz > prev {
            ph.p_vaddr + ph.p_memsz
        } else {
            prev
        }
    }
}

/// The size of `d`'s image: its `max_vaddr`.
pub open spec fn image_span_of(d: DSO) -> int {
    load_end(d, d.phdrs@.len() as int)
}

/// `[off, off + w)` lies inside `d`'s image, and the image inside the address space.
pub open spec fn fits(d: DSO, off: int, w: int) -> bool {
    off + w <= image_span_of(d) && d.base_addr + image_span_of(d) <= u64::MAX
}

/// The size of `d`'s image.
pub fn image_span(d: &DSO) -> (r: u128)
    ensures
        r == image_span_of(*d),
{
    let mut best: u128 = 0;
    let mut i: usize = 0;
    while i < d.phdrs.len()
        invariant
            i <= d.phdrs@.len(),
            best == load_end(*d, i as int),
            best <= 2 * (u64::MAX as int),
        decreases d.phdrs@.len() - i,
    {
        let ph = d.phdrs[i];
        let end = ph.p_vaddr as u128 + ph.p_memsz as u128;
        if ph.p_type == PT_LOAD && end > best {
            best = end;
        }
        i = i + 1;
    }
    best
}

fn fits_exec(base: u64, span: u128, off: u64, w: u64) -> (r: bool)
    ensures
        r == (off + w <= span && base + span <= u64::MAX),
{
    span <= u64::MAX as u128 && (off as u128) + (w as u128) <= span && (base as u128) + span <= u64::MAX as u128
}

/// A store changes only the bytes it covers.
pub proof fn lemma_store_local(m: MemView, addr: int, d: Seq<u8>)
    ensures
        m.same_outside(m.store(addr, d), addr, addr + d.len()),
{
    let n = m.store(addr, d);
    if m.writable(addr, d.len() as int) {
        assert forall|a: int| m.contains(a, 1) && !(addr <= a < addr + d.len()) implies #[trigger] n.byte(a) == m.byte(a) by {
            let i = addr - m.start;
            let j = a - m.start;
            if j < i {
                assert(n.bytes[j] == m.bytes.subrange(0, i)[j]);
            } else {
                assert(n.bytes[j] == m.bytes.subrange(i + d.len(), m.bytes.len() as int)[j - i - d.len()]);
            }
        }
    }
}

pub proof fn lemma_same_outside_trans(a: MemView, b: MemView, c: MemView, lo: int, hi: int)
    requires
        a.same_outside(b, lo, hi),
        b.same_outside(c, lo, hi),
    ensures
        a.same_outside(c, lo, hi),
{
    assert forall|x: int| a.contains(x, 1) && !(lo <= x < hi) implies #[trigger] c.byte(x) == a.byte(x) by {
        assert(b.contains(x, 1));
        assert(c.byte(x) == b.byte(x));
    }
}

pub proof fn lemma_same_outside_widen(a: MemView, b: MemView, lo: int, hi: int, lo2: int, hi2: int)
    requires
        a.same_outside(b, lo, hi),
        lo2 <= lo,
        hi <= hi2,
    ensures
        a.same_outside(b, lo2, hi2),
{
    assert forall|x: int| a.contains(x, 1) && !(lo2 <= x < hi2) implies #[trigger] b.byte(x) == a.byte(x) by {
        assert(!(lo <= x < hi));
    }
}

pub proof fn lemma_reloc_bytes_len(arch: Arch, t: u32, s: u64, a: u64, b: u64, p: u64, mid: u64, toff: u64,
    stls: u64, stla: u64, iv: u64, old: Seq<u8>)
    requires
        reloc_width(arch, t) is Some,
    ensures
        reloc_bytes(arch, t, s, a, b, p, mid, toff, stls, stla, iv, old).len() == reloc_width(arch, t)->0,
{
}

impl Linker {
    /// One relocation of object `oi` writes only inside that object's image.
    pub proof fn lemma_step_in_image(&self, oi: int, m: MemView, r: RelocTuple)
        requires
            0 <= oi < self.objects@.len(),
        ensures
            m.same_outside(self.reloc_step(oi, m, r), self.objects@[oi].base_addr as int,
                self.objects@[oi].base_addr + image_span_of(self.objects@[oi])),
    {
        let d = self.objects@[oi];
        let (t, si, off, addend) = r;
        let a = addend.unwrap_or(0);
        let p = d.base_addr.wrapping_add(off);
        let w = reloc_width(self.arch, t);
        let lo = d.base_addr as int;
        let hi = d.base_addr + image_span_of(d);
        let n = self.reloc_step(oi, m, r);
        if n == m {
            assert forall|x: int| m.contains(x, 1) && !(lo <= x < hi) implies #[trigger] n.byte(x) == m.byte(x) by {}
        } else if w is Some && fits(d, off as int, w->0 as int) {
            assert(p == d.base_addr + off);
            let (sv, mid, toff) = if si == 0 || is_base_relative(self.arch, t) {
                (0u64, d.tls_module_id, d.tls_offset)
            } else {
                let e = entry_for(self.global_symbols@, d.sym_name(si as int)->0);
                (e.result.value, e.module_id, e.tls_offset)
            };
            let iv = ifunc_lookup(self.ifunc_results@, d.base_addr.wrapping_add(a)).unwrap_or(0);
            let bytes = reloc_bytes(self.arch, t, sv, a, d.base_addr, p, mid, toff, self.static_tls_size,
                self.static_tls_align, iv, m.range(p as int, w->0 as int));
            lemma_reloc_bytes_len(self.arch, t, sv, a, d.base_addr, p, mid, toff, self.static_tls_size,
                self.static_tls_align, iv, m.range(p as int, w->0 as int));
            lemma_store_local(m, p as int, bytes);
            lemma_same_outside_widen(m, m.store(p as int, bytes), p as int, p + bytes.len(), lo, hi);
        } else {
            let e = entry_for(self.global_symbols@, d.sym_name(si as int)->0);
            assert(fits(d, off as int, e.result.size as int));
            assert(p == d.base_addr + off);
            let src = m.range(e.result.value as int, e.result.size as int);
            assert(src.len() == e.result.size);
            lemma_store_local(m, p as int, src);
            lemma_same_outside_widen(m, m.store(p as int, src), p as int, p + src.len(), lo, hi);
        }
    }

    /// Relocating object `oi` never writes outside `[base_addr, base_addr + max_vaddr)`.
    pub proof fn lemma_relocation_stays_in_image(&self, oi: int, m: MemView, n: int)
        requires
            0 <= oi < self.objects@.len(),
        ensures
            m.same_outside(self.relocs_applied(oi, m, n), self.objects@[oi].base_addr as int,
                self.objects@[oi].base_addr + image_span_of(self.objects@[oi])),
        decreases n,
    {
        let lo = self.objects@[oi].base_addr as int;
        let hi = self.objects@[oi].base_addr + image_span_of(self.objects@[oi]);
        if n <= 0 {
            assert forall|x: int| m.contains(x, 1) && !(lo <= x < hi) implies #[trigger] m.byte(x) == m.byte(x) by {}
        } else {
            self.lemma_relocation_stays_in_image(oi, m, n - 1);
            let prev = self.relocs_applied(oi, m, n - 1);
            self.lemma_step_in_image(oi, prev, rela_tuple(self.objects@[oi].relas()[n - 1]));
            lemma_same_outside_trans(m, prev, self.relocs_applied(oi, m, n), lo, hi);
        }
    }
}

/// The run-time range of the segment `ph` of `d`.
pub open spec fn segment_range(d: DSO, ph: Phdr) -> (u64, u64) {
    (d.base_addr.wrapping_add(ph.p_vaddr), d.base_addr.wrapping_add(ph.p_vaddr).saturating_add(ph.p_memsz))
}

/// The ranges of the `PT_GNU_RELRO` segments among the first `n` headers of `d`.
pub open spec fn relro_of(d: DSO, n: int) -> Seq<(u64, u64)>
    decreases n,
{
    if n <= 0 {
        seq![]
    } else if d.phdrs@[n - 1].p_type == PT_GNU_RELRO {
        relro_of(d, n - 1).push(segment_range(d, d.phdrs@[n - 1]))
    } else {
        relro_of(d, n - 1)
    }
}

/// The ranges `finalize_relro` protects for object `d`: every
/// `PT_GNU_RELRO` segment at run time.
pub open spec fn relro_range(d: DSO) -> Seq<(u64, u64)> {
    relro_of(d, d.phdrs@.len() as int)
}

/// The RELRO ranges of objects `lo..hi`, in load order.
pub open spec fn relro_ranges(objs: Seq<DSO>, lo: int, hi: int) -> Seq<(u64, u64)>
    decreases hi - lo,
{
    if hi <= lo {
        seq![]
    } else {
        relro_ranges(objs, lo, hi - 1) + relro_range(objs[hi - 1])
    }
}

/// The initializers of objects `lo..hi` in the order they run: objects in
/// reverse load order, each with `DT_INIT` first, then `DT_INIT_ARRAY`.
pub open spec fn inits_rev(objs: Seq<DSO>, m: MemView, lo: int, hi: int) -> Seq<u64>
    decreases hi - lo,
{
    if hi <= lo {
        seq![]
    } else {
        inits_rev(objs, m, lo + 1, hi) + objs[lo].inits(m)
    }
}

/// Whether `name` is among the loaded names.
pub open spec fn is_loaded(names: Seq<Vec<u8>>, name: Seq<u8>) -> bool {
    exists|k: int| 0 <= k < names.len() && (#[trigger] names[k])@ == name
}

/// Whether some object of `libs` is called `name`.
pub open spec fn lib_has(libs: Seq<DSO>, name: Seq<u8>) -> bool {
    exists|k: int| 0 <= k < libs.len() && (#[trigger] libs[k]).name@ == name
}

/// No two loaded objects share a name.
pub open spec fn names_distinct(names: Seq<Vec<u8>>) -> bool {
    forall|a: int, b: int| 0 <= a < names.len() && 0 <= b < names.len() && (#[trigger] names[a])@ == (#[trigger] names[b])@ ==> a == b
}

/// The index of the name `name` in `names`, if any.
pub fn find_name(names: &Vec<Vec<u8>>, name: &[u8]) -> (r: Option<usize>)
    ensures
        r is Some <==> is_loaded(names@, name@),
        r is Some ==> r->0 < names@.len() && names@[r->0 as int]@ == name@,
{
    let mut k: usize = 0;
    while k < names.len()
        invariant
            k <= names@.len(),
            forall|j: int| 0 <= j < k ==> (#[trigger] names@[j])@ != name@,
        decreases names@.len() - k,
    {
        if bytes_eq(names[k].as_slice(), name) {
            return Some(k);
        }
        k = k + 1;
    }
    None
}

/// The index of the object of `libs` called `name`, if any.
pub fn find_library(libs: &Vec<DSO>, name: &[u8]) -> (r: Option<usize>)
    ensures
        r is Some <==> lib_has(libs@, name@),
        r is Some ==> r->0 < libs@.len() && libs@[r->0 as int].name@ == name@,
{
    let mut k: usize = 0;
    while k < libs.len()
        invariant
            k <= libs@.len(),
            forall|j: int| 0 <= j < k ==> (#[trigger] libs@[j]).name@ != name@,
        decreases libs@.len() - k,
    {
        if bytes_eq(libs[k].name.as_slice(), name) {
            return Some(k);
        }
        k = k + 1;
    }
    None
}

impl Linker {
    /// Protects every RELRO segment of each object from `from` on.
    pub fn protect_relro(&self, from: usize, mem: &mut Memory)
        requires
            old(mem).wf(),
            from <= self.objects@.len(),
        ensures
            final(mem).wf(),
            final(mem)@ == (MemView {
                read_only: old(mem)@.read_only + relro_ranges(self.objects@, from as int, self.objects@.len() as int),
                ..old(mem)@
            }),
    {
        let mut i: usize = from;
        while i < self.objects.len()
            invariant
                mem.wf(),
                from <= i <= self.objects@.len(),
                mem@ == (MemView { read_only: old(mem)@.read_only + relro_ranges(self.objects@, from as int, i as int), ..old(mem)@ }),
            decreases self.objects@.len() - i,
        {
            let dso = &self.objects[i];
            let ghost before = mem@.read_only;
            let mut j: usize = 0;
            while j < dso.phdrs.len()
                invariant
                    mem.wf(),
                    from <= i < self.objects@.len(),
                    *dso == self.objects@[i as int],
                    j <= dso.phdrs@.len(),
                    before == old(mem)@.read_only + relro_ranges(self.objects@, from as int, i as int),
                    mem@ == (MemView { read_only: before + relro_of(*dso, j as int), ..old(mem)@ }),
                decreases dso.phdrs@.len() - j,
            {
                let ph = dso.phdrs[j];
                if ph.p_type == PT_GNU_RELRO {
                    mem.protect(dso.base_addr.wrapping_add(ph.p_vaddr), ph.p_memsz);
                    assert(mem@.read_only =~= before + relro_of(*dso, j + 1));
                }
                j = j + 1;
            }
            assert(mem@.read_only =~= old(mem)@.read_only + relro_ranges(self.objects@, from as int, i + 1));
            i = i + 1;
        }
    }

    /// Re-protects every RELRO segment of every object as read-only.
    pub fn finalize_relro(&self, mem: &mut Memory)
        requires
            old(mem).wf(),
        ensures
            final(mem).wf(),
            final(mem)@ == (MemView {
                read_only: old(mem)@.read_only + relro_ranges(self.objects@, 0, self.objects@.len() as int),
                ..old(mem)@
            }),
    {
        self.protect_relro(0, mem);
    }

    /// The initializers of objects `from..` in the order they must run,
    /// reading each `DT_INIT_ARRAY` from `mem`.
    pub fn init_calls(&self, from: usize, mem: &Memory) -> (r: Vec<u64>)
        requires
            from <= self.objects@.len(),
            mem.wf(),
        ensures
            r@ == inits_rev(self.objects@, mem@, from as int, self.objects@.len() as int),
    {
        let mut out: Vec<u64> = Vec::new();
        let mut i: usize = self.objects.len();
        while i > from
            invariant
                from <= i <= self.objects@.len(),
                mem.wf(),
                out@ == inits_rev(self.objects@, mem@, i as int, self.objects@.len() as int),
            decreases i,
        {
            i = i - 1;
            let d = &self.objects[i];
            let ghost before = out@;
            if let Some(f) = d.init {
                out.push(f);
            }
            let ghost mid = out@;
            if let Some((addr, n)) = d.init_array {
                if let Some(arr) = read_u64s(mem, addr, n) {
                    let mut k: usize = 0;
                    while k < arr.len()
                        invariant
                            k <= arr@.len(),
                            out@ == mid + arr@.subrange(0, k as int),
                        decreases arr@.len() - k,
                    {
                        out.push(arr[k]);
                        k = k + 1;
                        assert(out@ =~= mid + arr@.subrange(0, k as int));
                    }
                    assert(arr@.subrange(0, arr@.len() as int) =~= arr@);
                } else {
                    assert(mid + seq![] =~= mid);
                }
            } else {
                assert(mid + seq![] =~= mid);
            }
            assert(out@ =~= before + d.inits(mem@));
        }
        out
    }

    /// Loads, breadth first, the dependencies of objects `from..`: each
    /// `DT_NEEDED` name not yet loaded is taken from `libraries` (the objects
    /// found in the library directory) and appended; a name with no such
    /// object is skipped.
    pub fn load_dependencies(&mut self, from: usize, libraries: &mut Vec<DSO>)
        requires
            old(self).wf(),
            from <= old(self).objects@.len(),
            names_distinct(old(self).loaded_names@),
        ensures
            final(self).wf(),
            names_distinct(final(self).loaded_names@),
            final(self).arch == old(self).arch,
            final(self).global_symbols@ == old(self).global_symbols@,
            final(self).static_tls_size == old(self).static_tls_size,
            final(self).static_tls_align == old(self).static_tls_align,
            final(self).static_tls_end_offset == old(self).static_tls_end_offset,
            final(self).tls_offset == old(self).tls_offset,
            final(self).surplus_remaining == old(self).surplus_remaining,
            final(self).surplus_size == old(self).surplus_size,
            final(self).objects@.len() >= old(self).objects@.len(),
            final(self).objects@.subrange(0, old(self).objects@.len() as int) == old(self).objects@,
            final(self).objects@.len() - old(self).objects@.len() == old(libraries)@.len() - final(libraries)@.len(),
            forall|i: int, j: int| from <= i < final(self).objects@.len() && 0 <= j < final(self).objects@[i].needed().len()
                ==> is_loaded(final(self).loaded_names@, #[trigger] final(self).objects@[i].needed()[j])
                    || !lib_has(final(libraries)@, final(self).objects@[i].needed()[j]),
    {
        let mut q: usize = from;
        while q < self.objects.len()
            invariant
                self.wf(),
                names_distinct(self.loaded_names@),
                self.arch == old(self).arch,
                self.global_symbols@ == old(self).global_symbols@,
                self.static_tls_size == old(self).static_tls_size,
                self.static_tls_align == old(self).static_tls_align,
                self.static_tls_end_offset == old(self).static_tls_end_offset,
                self.tls_offset == old(self).tls_offset,
                self.surplus_remaining == old(self).surplus_remaining,
                self.surplus_size == old(self).surplus_size,
                from <= q <= self.objects@.len(),
                self.objects@.len() >= old(self).objects@.len(),
                self.objects@.subrange(0, old(self).objects@.len() as int) == old(self).objects@,
                self.objects@.len() - old(self).objects@.len() == old(libraries)@.len() - libraries@.len(),
                forall|i: int, j: int| from <= i < q && 0 <= j < self.objects@[i].needed().len()
                    ==> is_loaded(self.loaded_names@, #[trigger] self.objects@[i].needed()[j])
                        || !lib_has(libraries@, self.objects@[i].needed()[j]),
            decreases libraries@.len() + self.objects@.len() - q,
        {
            let names = self.objects[q].needed_names();
            let ghost dq = self.objects@[q as int];
            let mut j: usize = 0;
            while j < names.len()
                invariant
                    self.wf(),
                    names_distinct(self.loaded_names@),
                    self.arch == old(self).arch,
                    self.global_symbols@ == old(self).global_symbols@,
                    self.static_tls_size == old(self).static_tls_size,
                    self.static_tls_align == old(self).static_tls_align,
                    self.static_tls_end_offset == old(self).static_tls_end_offset,
                    self.tls_offset == old(self).tls_offset,
                    self.surplus_remaining == old(self).surplus_remaining,
                    self.surplus_size == old(self).surplus_size,
                    from <= q < self.objects@.len(),
                    dq == self.objects@[q as int],
                    names@.len() == dq.needed().len(),
                    forall|k: int| 0 <= k < names@.len() ==> (#[trigger] names@[k])@ == dq.needed()[k],
                    j <= names@.len(),
                    self.objects@.len() >= old(self).objects@.len(),
                    self.objects@.subrange(0, old(self).objects@.len() as int) == old(self).objects@,
                    self.objects@.len() - old(self).objects@.len() == old(libraries)@.len() - libraries@.len(),
                    forall|i: int, jj: int| from <= i < q && 0 <= jj < self.objects@[i].needed().len()
                        ==> is_loaded(self.loaded_names@, #[trigger] self.objects@[i].needed()[jj])
                            || !lib_has(libraries@, self.objects@[i].needed()[jj]),
                    forall|jj: int| 0 <= jj < j ==> is_loaded(self.loaded_names@, #[trigger] dq.needed()[jj])
                        || !lib_has(libraries@, dq.needed()[jj]),
                decreases names@.len() - j,
            {
                let name = names[j].as_slice();
                if find_name(&self.loaded_names, name).is_none() {
                    match find_library(libraries, name) {
                        Some(k) => {
                            let ghost names0 = self.loaded_names@;
                            let ghost objs0 = self.objects@;
                            let ghost libs0 = libraries@;
                            let lib = libraries.remove(k);
                            self.add_object(lib);
                            assert(self.loaded_names@[names0.len() as int]@ == name@);
                            assert forall|x: int| 0 <= x < names0.len() implies self.loaded_names@[x] == names0[x] by {
                                assert(self.loaded_names@[x]@ == self.objects@[x].name@);
                            }
                            assert(self.objects@.subrange(0, old(self).objects@.len() as int) =~= old(self).objects@) by {
                                assert(objs0.subrange(0, old(self).objects@.len() as int) == old(self).objects@);
                            }
                            assert(names_distinct(self.loaded_names@)) by {
                                assert forall|a: int, b: int| 0 <= a < self.loaded_names@.len() && 0 <= b < self.loaded_names@.len()
                                    && (#[trigger] self.loaded_names@[a])@ == (#[trigger] self.loaded_names@[b])@ implies a == b by {
                                    if a < names0.len() && b == names0.len() {
                                        assert(names0[a]@ == name@);
                                    }
                                    if b < names0.len() && a == names0.len() {
                                        assert(names0[b]@ == name@);
                                    }
                                }
                            }
                            assert forall|n: Seq<u8>| is_loaded(names0, n) implies is_loaded(self.loaded_names@, n) by {
                                let x = choose|x: int| 0 <= x < names0.len() && (#[trigger] names0[x])@ == n;
                                assert(self.loaded_names@[x]@ == n);
                            }
                            assert forall|n: Seq<u8>| lib_has(libraries@, n) implies lib_has(libs0, n) by {
                                let x = choose|x: int| 0 <= x < libraries@.len() && (#[trigger] libraries@[x]).name@ == n;
                                if x < k {
                                    assert(libs0[x] == libraries@[x]);
                                } else {
                                    assert(libs0[x + 1] == libraries@[x]);
                                }
                            }
                            assert forall|i: int| 0 <= i < objs0.len() implies self.objects@[i] == objs0[i] by {}
                            assert(is_loaded(self.loaded_names@, dq.needed()[j as int]));
                        },
                        None => {},
                    }
                }
                j = j + 1;
            }
            q = q + 1;
        }
    }
}

/// Where the static TLS area of a thread starts, for a TCB at `tcb`: below
/// the TCB on x86-64, above the TCB rounded up to the area's alignment
/// elsewhere.
pub open spec fn block_start(arch: Arch, tcb: u64, static_tls_size: u64, static_tls_align: u64) -> u64 {
    match arch {
        Arch::X86_64 => tcb.wrapping_sub(static_tls_size),
        _ => tcb.wrapping_add(tcb_span(static_tls_align)),
    }
}


/// TLS blocks of objects loaded earlier end before those of objects loaded later.
pub open spec fn tls_ordered(objs: Seq<DSO>) -> bool {
    forall|i: int, j: int| 0 <= i < j < objs.len() && has_tls(objs[i]) && has_tls(objs[j])
        ==> objs[i].tls_offset + objs[i].tls_size <= #[trigger] objs[j].tls_offset && #[trigger] objs[i].tls_size > 0
}

/// The window after the TLS blocks of the first `n` objects of `objs` are
/// written at `bs`: each image, then zeros up to the block size.
pub open spec fn tls_written(objs: Seq<DSO>, m: MemView, bs: u64, n: int) -> MemView
    decreases n,
{
    if n <= 0 {
        m
    } else {
        let prev = tls_written(objs, m, bs, n - 1);
        let d = objs[n - 1];
        if has_tls(d) {
            let dest = bs + d.tls_offset;
            prev.store(dest, d.image()).store(dest + d.image().len(), Seq::new((d.tls_size - d.image().len()) as nat, |q: int| 0u8))
        } else {
            prev
        }
    }
}

/// Object `d`'s block at `bs + tls_offset` fits, holds its image and is writable in `m`.
pub open spec fn tls_block_ok(m: MemView, d: DSO, bs: u64) -> bool {
    &&& bs + d.tls_offset + d.tls_size <= u64::MAX
    &&& d.image().len() <= d.tls_size
    &&& m.writable(bs + d.tls_offset, d.tls_size as int)
}

/// Object `d`'s block at `bs` holds its image followed by zeros up to its size.
pub open spec fn tls_block_initialized(m: MemView, d: DSO, bs: u64) -> bool {
    &&& forall|k: int| 0 <= k < d.image().len() ==> #[trigger] m.byte(bs + d.tls_offset + k) == d.image()[k]
    &&& forall|k: int| d.image().len() <= k < d.tls_size ==> #[trigger] m.byte(bs + d.tls_offset + k) == 0
}

/// After RELRO finalization, a store that meets any RELRO segment of a
/// loaded object is refused and leaves memory unchanged.
pub proof fn lemma_relro_write_refused(m: MemView, before: Seq<(u64, u64)>, objs: Seq<DSO>, i: int, j: int, addr: int,
    d: Seq<u8>)
    requires
        m.read_only == before + relro_ranges(objs, 0, objs.len() as int),
        0 <= i < objs.len(),
        0 <= j < objs[i].phdrs@.len(),
        objs[i].phdrs@[j].p_type == PT_GNU_RELRO,
        overlaps(segment_range(objs[i], objs[i].phdrs@[j]), addr, d.len() as int),
    ensures
        !m.writable(addr, d.len() as int),
        m.store(addr, d) == m,
{
    let k = lemma_relro_range_in(objs, 0, objs.len() as int, i, j);
    assert(m.read_only[before.len() + k] == segment_range(objs[i], objs[i].phdrs@[j]));
    lemma_protected_store_fails(m, before.len() + k, addr, d);
}

pub proof fn lemma_relro_of_in(d: DSO, n: int, j: int) -> (k: int)
    requires
        0 <= j < n <= d.phdrs@.len(),
        d.phdrs@[j].p_type == PT_GNU_RELRO,
    ensures
        0 <= k < relro_of(d, n).len(),
        relro_of(d, n)[k] == segment_range(d, d.phdrs@[j]),
    decreases n,
{
    if j == n - 1 {
        relro_of(d, n - 1).len() as int
    } else {
        let k = lemma_relro_of_in(d, n - 1, j);
        if d.phdrs@[n - 1].p_type == PT_GNU_RELRO {
            assert(relro_of(d, n - 1).push(segment_range(d, d.phdrs@[n - 1]))[k] == relro_of(d, n - 1)[k]);
        }
        k
    }
}

pub proof fn lemma_relro_range_in(objs: Seq<DSO>, lo: int, hi: int, i: int, j: int) -> (k: int)
    requires
        lo <= i < hi,
        0 <= j < objs[i].phdrs@.len(),
        objs[i].phdrs@[j].p_type == PT_GNU_RELRO,
    ensures
        0 <= k < relro_ranges(objs, lo, hi).len(),
        relro_ranges(objs, lo, hi)[k] == segment_range(objs[i], objs[i].phdrs@[j]),
    decreases hi - lo,
{
    let prev = relro_ranges(objs, lo, hi - 1);
    if i == hi - 1 {
        let k = lemma_relro_of_in(objs[i], objs[i].phdrs@.len() as int, j);
        assert((prev + relro_range(objs[hi - 1]))[prev.len() + k] == relro_range(objs[i])[k]);
        prev.len() + k
    } else {
        let k = lemma_relro_range_in(objs, lo, hi - 1, i, j);
        assert((prev + relro_range(objs[hi - 1]))[k] == prev[k]);
        k
    }
}

impl Linker {
    /// Writes each TLS module's initial image into the static TLS area of the
    /// thread whose TCB is at `tcb_addr`, then zeroes the rest of its block.
    /// Succeeds exactly when every block fits, holds its image and is writable.
    pub fn initialize_static_tls(&self, mem: &mut Memory, tcb_addr: u64) -> (ok: bool)
        requires
            old(mem).wf(),
            tls_ordered(self.objects@),
        ensures
            final(mem).wf(),
            ({
                let bs = block_start(self.arch, tcb_addr, self.static_tls_size, self.static_tls_align);
                &&& ok <==> forall|i: int| 0 <= i < self.objects@.len() && has_tls(self.objects@[i])
                    ==> tls_block_ok(old(mem)@, #[trigger] self.objects@[i], bs)
                &&& ok ==> forall|i: int| 0 <= i < self.objects@.len() && has_tls(self.objects@[i])
                    ==> tls_block_initialized(final(mem)@, #[trigger] self.objects@[i], bs)
                &&& ok ==> final(mem)@ == tls_written(self.objects@, old(mem)@, bs, self.objects@.len() as int)
                &&& final(mem)@.start == old(mem)@.start
                &&& final(mem)@.bytes.len() == old(mem)@.bytes.len()
                &&& final(mem)@.read_only == old(mem)@.read_only
            }),
    {
        let bs = match self.arch {
            Arch::X86_64 => tcb_addr.wrapping_sub(self.static_tls_size),
            _ => tcb_addr.wrapping_add(tcb_area(self.static_tls_align)),
        };
        let ghost objs = self.objects@;
        let ghost m0 = mem@;
        let mut i: usize = 0;
        while i < self.objects.len()
            invariant
                mem.wf(),
                objs == self.objects@,
                m0 == old(mem)@,
                tls_ordered(objs),
                i <= objs.len(),
                mem@.start == m0.start,
                mem@.bytes.len() == m0.bytes.len(),
                mem@.read_only == m0.read_only,
                bs == block_start(self.arch, tcb_addr, self.static_tls_size, self.static_tls_align),
                forall|k: int| 0 <= k < i && has_tls(objs[k]) ==> tls_block_ok(m0, #[trigger] objs[k], bs),
                forall|k: int| 0 <= k < i && has_tls(objs[k]) ==> tls_block_initialized(mem@, #[trigger] objs[k], bs),
                mem@ == tls_written(objs, m0, bs, i as int),
            decreases objs.len() - i,
        {
            let obj = &self.objects[i];
            if obj.tls_size != 0 {
                let empty: Vec<u8> = Vec::new();
                let image = match &obj.tls_image {
                    Some(v) => v,
                    None => &empty,
                };
                assert(image@ == obj.image());
                if obj.tls_offset > u64::MAX - bs || obj.tls_size > u64::MAX - bs - obj.tls_offset
                    || image.len() as u64 > obj.tls_size {
                    assert(has_tls(objs[i as int]) && !tls_block_ok(m0, objs[i as int], bs));
                    return false;
                }
                let dest = bs + obj.tls_offset;
                if !mem.is_writable(dest, obj.tls_size) {
                    assert(mem@.writable(dest as int, obj.tls_size as int) == m0.writable(dest as int, obj.tls_size as int));
                    assert(has_tls(objs[i as int]) && !tls_block_ok(m0, objs[i as int], bs));
                    return false;
                }
                assert(mem@.writable(dest as int, obj.tls_size as int) == m0.writable(dest as int, obj.tls_size as int));
                assert(tls_block_ok(m0, objs[i as int], bs));
                let ghost mb = mem@;
                let len = image.len() as u64;
                mem.write_bytes(dest, image);
                let ghost mi = mem@;
                mem.zero(dest + len, obj.tls_size - len);
                proof {
                    lemma_store_local(mb, dest as int, image@);
                    lemma_store_local(mi, dest + len, Seq::new((obj.tls_size - len) as nat, |q: int| 0u8));
                    lemma_same_outside_widen(mb, mi, dest as int, dest + len, dest as int, dest + obj.tls_size);
                    lemma_same_outside_widen(mi, mem@, dest + len, dest + obj.tls_size, dest as int, dest + obj.tls_size);
                    lemma_same_outside_trans(mb, mi, mem@, dest as int, dest + obj.tls_size);
                    assert forall|k: int| 0 <= k < image@.len() implies #[trigger] mem@.byte(dest + k) == image@[k] by {
                        assert(mi.bytes[dest + k - mi.start] == image@[k]);
                    }
                    assert forall|k: int| len <= k < obj.tls_size implies #[trigger] mem@.byte(dest + k) == 0 by {
                        assert(mem@.bytes[dest + k - mi.start] == 0);
                    }
                    assert forall|k: int| 0 <= k < i && has_tls(objs[k]) implies tls_block_initialized(mem@, #[trigger] objs[k], bs) by {
                        assert(objs[k].tls_offset + objs[k].tls_size <= objs[i as int].tls_offset);
                        assert forall|q: int| 0 <= q < objs[k].image().len() implies #[trigger] mem@.byte(bs + objs[k].tls_offset + q) == objs[k].image()[q] by {
                            assert(mb.byte(bs + objs[k].tls_offset + q) == objs[k].image()[q]);
                            assert(tls_block_ok(m0, objs[k], bs));
                        }
                        assert forall|q: int| objs[k].image().len() <= q < objs[k].tls_size implies #[trigger] mem@.byte(bs + objs[k].tls_offset + q) == 0 by {
                            assert(mb.byte(bs + objs[k].tls_offset + q) == 0);
                            assert(tls_block_ok(m0, objs[k], bs));
                        }
                    }
                }
            }
            i = i + 1;
        }
        true
    }
}

/// Why `link` stopped.
#[derive(Debug, Clone, Copy, PartialEq, Eq)]
pub enum LinkError {
    /// The static TLS layout does not fit in the address space.
    TlsLayout,
    /// The TCB or its DTV cannot be written where the thread's TCB page is.
    Tcb,
    /// A static TLS block does not fit, is shorter than its image, or cannot be written.
    TlsBlock,
}

/// The result of a successful `dlopen`: the handle, and the initializers
/// that must now run, in order.
pub struct Opened {
    pub handle: u64,
    pub inits: Vec<u64>,
}

/// The layout `layout_static_tls` assigns keeps TLS blocks in load order.
pub proof fn lemma_layout_ordered(objs0: Seq<DSO>, objs: Seq<DSO>)
    requires
        objs0.len() == objs.len(),
        forall|i: int| 0 <= i < objs0.len() ==> same_but_tls_slot(objs0[i], #[trigger] objs[i]),
        forall|i: int| 0 <= i < objs0.len() && has_tls(objs0[i]) ==> (#[trigger] objs[i]).tls_offset == tls_slot(objs0, i),
    ensures
        tls_ordered(objs),
{
    assert forall|i: int, j: int| 0 <= i < j < objs.len() && has_tls(objs[i]) && has_tls(objs[j])
        implies objs[i].tls_offset + objs[i].tls_size <= #[trigger] objs[j].tls_offset && #[trigger] objs[i].tls_size > 0 by {
        assert(same_but_tls_slot(objs0[i], objs[i]));
        assert(same_but_tls_slot(objs0[j], objs[j]));
        lemma_tls_end_monotone(objs0, i + 1, j);
        lemma_align_up_bounds(tls_end(objs0, j), objs0[j].tls_align as int);
    }
}

/// `defs` of the first `n` objects depends on those objects alone.
pub proof fn lemma_defs_prefix(a: Seq<DSO>, b: Seq<DSO>, n: int)
    requires
        0 <= n <= a.len(),
        n <= b.len(),
        forall|k: int| 0 <= k < n ==> a[k] == b[k],
    ensures
        defs(a, n) == defs(b, n),
    decreases n,
{
    if n > 0 {
        lemma_defs_prefix(a, b, n - 1);
    }
}

/// A map built from the first `n` objects stays so when later objects change.
pub proof fn lemma_table_prefix(g: Seq<GlobalSymbol>, a: Seq<DSO>, b: Seq<DSO>, n: int)
    requires
        0 <= n <= a.len(),
        n <= b.len(),
        forall|k: int| 0 <= k < n ==> a[k] == b[k],
        table_of(g, a, defs(a, n)),
        defs_valid(a, defs(a, n)),
    ensures
        table_of(g, b, defs(b, n)),
        defs_valid(b, defs(b, n)),
{
    lemma_defs_prefix(a, b, n);
    lemma_defs_in_objects(a, n);
    let ds = defs(a, n);
    assert forall|k: int| 0 <= k < g.len() implies first_def(ds, (#[trigger] g[k]).name@) is Some
        && def_entry_ok(g[k], b, ds[first_def(ds, g[k].name@)->0]) by {
        let f = first_def(ds, g[k].name@)->0;
        lemma_first_def_is_first(ds, g[k].name@);
        assert(a[ds[f].1] == b[ds[f].1]);
    }
    assert forall|k: int| 0 <= k < ds.len() implies {
        let def = #[trigger] ds[k];
        &&& 0 <= def.1 < b.len()
        &&& is_def(b[def.1], def.2)
        &&& b[def.1].sym_name(def.2) == Some(def.0)
    } by {
        assert(a[ds[k].1] == b[ds[k].1]);
    }
}

impl Linker {
    /// The window after relocating objects `0..n` in load order.
    pub open spec fn all_relocated(&self, m: MemView, lo: int, n: int) -> MemView
        decreases n - lo,
    {
        if n <= lo {
            m
        } else {
            let prev = self.all_relocated(m, lo, n - 1);
            self.relocs_applied(n - 1, prev, self.objects@[n - 1].relas().len() as int)
        }
    }

    /// Relocation keeps the window's layout and protections.
    pub proof fn lemma_all_relocated_layout(&self, m: MemView, lo: int, n: int)
        requires
            0 <= lo,
            n <= self.objects@.len(),
        ensures
            self.all_relocated(m, lo, n).start == m.start,
            self.all_relocated(m, lo, n).bytes.len() == m.bytes.len(),
            self.all_relocated(m, lo, n).read_only == m.read_only,
        decreases n - lo,
    {
        if n > lo {
            self.lemma_all_relocated_layout(m, lo, n - 1);
            let prev = self.all_relocated(m, lo, n - 1);
            self.lemma_relocation_stays_in_image(n - 1, prev, self.objects@[n - 1].relas().len() as int);
        }
    }

    /// Whether address `a` lies in the image of one of objects `lo..n`.
    pub open spec fn in_images(&self, a: int, lo: int, n: int) -> bool {
        exists|i: int| lo <= i < n && (#[trigger] self.objects@[i]).base_addr <= a
            && a < self.objects@[i].base_addr + image_span_of(self.objects@[i])
    }

    /// Relocating objects `lo..n` writes only inside their images
    /// `[base_addr, base_addr + max_vaddr)`.
    pub proof fn lemma_link_writes_in_images(&self, m: MemView, lo: int, n: int)
        requires
            0 <= lo,
            n <= self.objects@.len(),
        ensures
            forall|a: int| m.contains(a, 1) && !self.in_images(a, lo, n)
                ==> #[trigger] self.all_relocated(m, lo, n).byte(a) == m.byte(a),
        decreases n - lo,
    {
        if n > lo {
            self.lemma_link_writes_in_images(m, lo, n - 1);
            self.lemma_all_relocated_layout(m, lo, n - 1);
            let prev = self.all_relocated(m, lo, n - 1);
            self.lemma_relocation_stays_in_image(n - 1, prev, self.objects@[n - 1].relas().len() as int);
            assert forall|a: int| m.contains(a, 1) && !self.in_images(a, lo, n)
                implies #[trigger] self.all_relocated(m, lo, n).byte(a) == m.byte(a) by {
                assert(!self.in_images(a, lo, n - 1)) by {
                    if self.in_images(a, lo, n - 1) {
                        let i = choose|i: int| lo <= i < n - 1 && (#[trigger] self.objects@[i]).base_addr <= a
                            && a < self.objects@[i].base_addr + image_span_of(self.objects@[i]);
                        assert(self.in_images(a, lo, n));
                    }
                }
                assert(!(self.objects@[n - 1].base_addr <= a
                    && a < self.objects@[n - 1].base_addr + image_span_of(self.objects@[n - 1])));
                assert(prev.contains(a, 1));
            }
        }
    }

    /// Relocates objects `from..` in load order.
    pub fn relocate_from(&self, from: usize, mem: &mut Memory)
        requires
            old(mem).wf(),
            from <= self.objects@.len(),
            names_unique(self.global_symbols@),
        ensures
            final(mem).wf(),
            final(mem)@ == self.all_relocated(old(mem)@, from as int, self.objects@.len() as int),
    {
        let mut i: usize = from;
        while i < self.objects.len()
            invariant
                mem.wf(),
                from <= i <= self.objects@.len(),
                names_unique(self.global_symbols@),
                mem@ == self.all_relocated(old(mem)@, from as int, i as int),
            decreases self.objects@.len() - i,
        {
            self.relocate_single(i, mem);
            i = i + 1;
        }
    }

    /// Links the executable `main_dso`: loads its dependencies from
    /// `libraries`, lays out static TLS, builds the global symbol map,
    /// installs the TCB of the calling thread at `tcb_addr` and initializes
    /// its static TLS, relocates every object, protects RELRO segments, and
    /// returns the initializers to run, in reverse load order.
    pub fn link(&mut self, main_dso: DSO, libraries: &mut Vec<DSO>, mem: &mut Memory, tcb_addr: u64)
        -> (r: Result<Vec<u64>, LinkError>)
        requires
            old(self).wf(),
            old(self).objects@.len() == 0,
            old(self).global_symbols@.len() == 0,
            old(mem).wf(),
        ensures
            final(self).wf(),
            final(mem).wf(),
            final(self).objects@.len() >= 1,
            same_but_tls_slot(main_dso, final(self).objects@[0]),
            names_distinct(final(self).loaded_names@),
            final(self).objects@.len() - 1 == old(libraries)@.len() - final(libraries)@.len(),
            forall|i: int, j: int| 0 <= i < final(self).objects@.len() && 0 <= j < final(self).objects@[i].needed().len()
                ==> is_loaded(final(self).loaded_names@, #[trigger] final(self).objects@[i].needed()[j])
                    || !lib_has(final(libraries)@, final(self).objects@[i].needed()[j]),
            r is Ok ==> final(self).symbols_built(),
            r is Ok ==> tls_ordered(final(self).objects@),
            r is Ok ==> r->Ok_0@ == inits_rev(final(self).objects@, final(mem)@, 0, final(self).objects@.len() as int),
            ({
                let objs = final(self).objects@;
                let n = objs.len() as int;
                let bs = block_start(final(self).arch, tcb_addr, final(self).static_tls_size, final(self).static_tls_align);
                let layout_ok = tls_fits(objs, n) && tls_end(objs, n) + final(self).surplus_size <= u64::MAX;
                let with_tcb = final(self).tcb_stored(old(mem)@, tcb_addr);
                let blocks_ok = forall|i: int| 0 <= i < n && has_tls(objs[i]) ==> tls_block_ok(with_tcb, #[trigger] objs[i], bs);
                let with_tls = tls_written(objs, with_tcb, bs, n);
                &&& r == Err::<Vec<u64>, LinkError>(LinkError::TlsLayout) <==> !layout_ok
                &&& r == Err::<Vec<u64>, LinkError>(LinkError::Tcb) <==> layout_ok && !final(self).tcb_fits(old(mem)@, tcb_addr)
                &&& r == Err::<Vec<u64>, LinkError>(LinkError::TlsBlock) <==> layout_ok
                    && final(self).tcb_fits(old(mem)@, tcb_addr) && !blocks_ok
                &&& r is Ok ==> forall|i: int| 0 <= i < n && has_tls(objs[i]) ==> tls_block_initialized(with_tls, #[trigger] objs[i], bs)
                &&& r is Ok ==> final(mem)@ == (MemView {
                    read_only: old(mem)@.read_only + relro_ranges(objs, 0, n),
                    ..final(self).all_relocated(with_tls, 0, n)
                })
            }),
    {
        self.add_object(main_dso);
        assert(names_distinct(self.loaded_names@));
        self.load_dependencies(0, libraries);
        assert(self.objects@[0] == self.objects@.subrange(0, 1)[0]);
        let ghost objs0 = self.objects@;
        let ok = self.layout_static_tls();
        assert(same_but_tls_slot(objs0[0], self.objects@[0]));
        proof {
            assert forall|k: int| 0 <= k < objs0.len() implies objs0[k].tls_size == self.objects@[k].tls_size
                && objs0[k].tls_align == self.objects@[k].tls_align by {
                assert(same_but_tls_slot(objs0[k], self.objects@[k]));
            }
            lemma_tls_end_same(objs0, self.objects@, objs0.len() as int);
        }
        assert forall|i: int| 0 <= i < objs0.len() implies (#[trigger] self.objects@[i]).needed() == objs0[i].needed() by {
            assert(same_but_tls_slot(objs0[i], self.objects@[i]));
            self.objects@[i].lemma_needed_same(objs0[i], self.objects@[i].dyns().len() as int);
        }
        if !ok {
            return Err(LinkError::TlsLayout);
        }
        proof {
            lemma_layout_ordered(objs0, self.objects@);
        }
        self.build_global_sym_map();
        if !self.setup_tcb(mem, tcb_addr) {
            return Err(LinkError::Tcb);
        }
        let ghost with_tcb = mem@;
        if !self.initialize_static_tls(mem, tcb_addr) {
            return Err(LinkError::TlsBlock);
        }
        let ghost m1 = mem@;
        self.relocate_from(0, mem);
        proof {
            self.lemma_all_relocated_layout(m1, 0, self.objects@.len() as int);
        }
        self.finalize_relro(mem);
        assert(mem@ == (MemView {
            read_only: old(mem)@.read_only + relro_ranges(self.objects@, 0, self.objects@.len() as int),
            ..self.all_relocated(m1, 0, self.objects@.len() as int)
        }));
        Ok(self.init_calls(0, mem))
    }

    /// Gives each object from `start` on with TLS its module id (index + 1)
    /// and, where the surplus has room, a static TLS offset; the others are
    /// recorded as dynamic TLS modules.
    fn assign_loaded_tls(&mut self, start: usize)
        requires
            old(self).wf(),
            start <= old(self).objects@.len(),
        ensures
            final(self).wf(),
            final(self).objects@.len() == old(self).objects@.len(),
            forall|i: int| 0 <= i < start ==> #[trigger] final(self).objects@[i] == old(self).objects@[i],
            forall|i: int| 0 <= i < old(self).objects@.len() ==> same_but_tls_slot(old(self).objects@[i], #[trigger] final(self).objects@[i]),
            final(self).loaded_names@ == old(self).loaded_names@,
            final(self).global_symbols@ == old(self).global_symbols@,
            final(self).arch == old(self).arch,
            final(self).static_tls_size == old(self).static_tls_size,
            final(self).static_tls_align == old(self).static_tls_align,
            forall|i: int| start <= i < old(self).objects@.len() && !has_tls(old(self).objects@[i])
                ==> #[trigger] final(self).objects@[i] == old(self).objects@[i],
            forall|i: int| start <= i < old(self).objects@.len() && has_tls(old(self).objects@[i])
                ==> (#[trigger] final(self).objects@[i]).tls_module_id == i + 1
                    && (final(self).objects@[i].tls_offset + final(self).objects@[i].tls_size <= final(self).static_tls_size
                        || final(self).dynamic_tls_modules@.contains((i + 1) as u64)),
    {
        let mut i: usize = start;
        while i < self.objects.len()
            invariant
                self.wf(),
                start <= i <= self.objects@.len(),
                self.objects@.len() == old(self).objects@.len(),
                forall|k: int| 0 <= k < start ==> #[trigger] self.objects@[k] == old(self).objects@[k],
                forall|k: int| 0 <= k < old(self).objects@.len() ==> same_but_tls_slot(old(self).objects@[k], #[trigger] self.objects@[k]),
                self.loaded_names@ == old(self).loaded_names@,
                self.global_symbols@ == old(self).global_symbols@,
                self.arch == old(self).arch,
                self.static_tls_size == old(self).static_tls_size,
                self.static_tls_align == old(self).static_tls_align,
                forall|k: int| i <= k < old(self).objects@.len() ==> #[trigger] self.objects@[k] == old(self).objects@[k],
                forall|k: int| start <= k < i && !has_tls(old(self).objects@[k])
                    ==> #[trigger] self.objects@[k] == old(self).objects@[k],
                forall|k: int| start <= k < i && has_tls(old(self).objects@[k])
                    ==> (#[trigger] self.objects@[k]).tls_module_id == k + 1
                        && (self.objects@[k].tls_offset + self.objects@[k].tls_size <= self.static_tls_size
                            || self.dynamic_tls_modules@.contains((k + 1) as u64)),
            decreases self.objects@.len() - i,
        {
            let ghost dm = self.dynamic_tls_modules@;
            let size = self.objects[i].tls_size;
            let align = self.objects[i].tls_align;
            if size > 0 {
                let id = (i as u64) + 1;
                match self.try_allocate_static_tls(size, align) {
                    Some(offset) => {
                        self.objects[i].tls_module_id = id;
                        self.objects[i].tls_offset = offset;
                    },
                    None => {
                        self.objects[i].tls_module_id = id;
                        self.dynamic_tls_modules.push(id);
                        assert(self.dynamic_tls_modules@[dm.len() as int] == id);
                        assert forall|k: int| start <= k < i && has_tls(old(self).objects@[k])
                            && dm.contains((k + 1) as u64) implies self.dynamic_tls_modules@.contains((k + 1) as u64) by {
                            let x = choose|x: int| 0 <= x < dm.len() && dm[x] == (k + 1) as u64;
                            assert(self.dynamic_tls_modules@[x] == dm[x]);
                        }
                    },
                }
            }
            i = i + 1;
        }
    }

    /// Opens the library `path`. An already loaded name gives its handle
    /// (index + 1) back with no initializers to run. Otherwise the library is
    /// taken from `libraries` with its dependencies, their TLS is placed,
    /// their symbols join the global map (existing names keep their
    /// definitions), they are relocated and their RELRO segments protected;
    /// the handle and the new objects' initializers are returned. `None`
    /// when no library of that name exists.
    pub fn dlopen(&mut self, path: &str, libraries: &mut Vec<DSO>, mem: &mut Memory) -> (r: Option<Opened>)
        requires
            old(self).wf(),
            names_distinct(old(self).loaded_names@),
            old(self).symbols_built(),
            old(mem).wf(),
        ensures
            final(self).wf(),
            names_distinct(final(self).loaded_names@),
            final(self).symbols_built(),
            final(mem).wf(),
            r is Some ==> 1 <= r->0.handle <= final(self).loaded_names@.len()
                && final(self).loaded_names@[r->0.handle - 1]@ == path.spec_bytes(),
            is_loaded(old(self).loaded_names@, path.spec_bytes()) ==> r is Some && r->0.inits@.len() == 0
                && final(self).objects@ == old(self).objects@ && final(self).loaded_names@ == old(self).loaded_names@
                && final(self).global_symbols@ == old(self).global_symbols@ && final(mem)@ == old(mem)@,
            !is_loaded(old(self).loaded_names@, path.spec_bytes()) && !lib_has(old(libraries)@, path.spec_bytes())
                ==> r is None && *final(self) == *old(self) && final(libraries)@ == old(libraries)@
                    && final(mem)@ == old(mem)@,
            !is_loaded(old(self).loaded_names@, path.spec_bytes()) && lib_has(old(libraries)@, path.spec_bytes())
                ==> r is Some && r->0.handle == old(self).objects@.len() + 1
                    && final(self).objects@.subrange(0, old(self).objects@.len() as int) == old(self).objects@
                    && r->0.inits@ == inits_rev(final(self).objects@, final(mem)@, old(self).objects@.len() as int, final(self).objects@.len() as int)
                    && final(mem)@ == (MemView {
                        read_only: old(mem)@.read_only + relro_ranges(final(self).objects@, old(self).objects@.len() as int,
                            final(self).objects@.len() as int),
                        ..final(self).all_relocated(old(mem)@, old(self).objects@.len() as int, final(self).objects@.len() as int)
                    })
                    && (forall|i: int, j: int| old(self).objects@.len() <= i < final(self).objects@.len()
                        && 0 <= j < final(self).objects@[i].needed().len()
                        ==> is_loaded(final(self).loaded_names@, #[trigger] final(self).objects@[i].needed()[j])
                            || !lib_has(final(libraries)@, final(self).objects@[i].needed()[j]))
                    && (forall|i: int| old(self).objects@.len() <= i < final(self).objects@.len()
                        && has_tls(#[trigger] final(self).objects@[i]) ==> final(self).objects@[i].tls_module_id == i + 1
                            && (final(self).objects@[i].tls_offset + final(self).objects@[i].tls_size <= final(self).static_tls_size
                                || final(self).dynamic_tls_modules@.contains((i + 1) as u64))),
    {
        let name = path.as_bytes();
        let loaded = self.loaded_names.len();
        match find_name(&self.loaded_names, name) {
            Some(k) => {
                assert(k < loaded);
                return Some(Opened { handle: (k + 1) as u64, inits: Vec::new() });
            },
            None => {},
        }
        let k = match find_library(libraries, name) {
            Some(k) => k,
            None => return None,
        };
        let start = self.objects.len();
        let ghost objs_old = self.objects@;
        let ghost names_old = self.loaded_names@;
        let lib = libraries.remove(k);
        self.add_object(lib);
        assert(names_distinct(self.loaded_names@)) by {
            assert forall|a: int, b: int| 0 <= a < self.loaded_names@.len() && 0 <= b < self.loaded_names@.len()
                && (#[trigger] self.loaded_names@[a])@ == (#[trigger] self.loaded_names@[b])@ implies a == b by {
                if a < names_old.len() && b == names_old.len() {
                    assert(names_old[a]@ == name@);
                }
                if b < names_old.len() && a == names_old.len() {
                    assert(names_old[b]@ == name@);
                }
            }
        }
        let ghost handle_name = self.loaded_names@[start as int];
        assert(handle_name@ == name@);
        self.load_dependencies(start, libraries);
        assert(self.loaded_names@[start as int]@ == self.objects@[start as int].name@);
        assert(self.objects@[start as int] == self.objects@.subrange(0, start + 1)[start as int]);
        let ghost objs1 = self.objects@;
        self.assign_loaded_tls(start);
        assert forall|i: int| 0 <= i < objs1.len() implies (#[trigger] self.objects@[i]).needed() == objs1[i].needed() by {
            assert(same_but_tls_slot(objs1[i], self.objects@[i]));
            self.objects@[i].lemma_needed_same(objs1[i], self.objects@[i].dyns().len() as int);
        }
        assert forall|i: int| start <= i < objs1.len() && has_tls(#[trigger] self.objects@[i]) implies has_tls(objs1[i]) by {
            assert(same_but_tls_slot(objs1[i], self.objects@[i]));
        }
        proof {
            assert forall|x: int| 0 <= x < start implies objs_old[x] == self.objects@[x] by {
                assert(objs1.subrange(0, start as int)[x] == objs1[x]);
            }
            lemma_table_prefix(self.global_symbols@, objs_old, self.objects@, start as int);
        }
        self.add_symbols(start);
        let ghost m0 = mem@;
        self.relocate_from(start, mem);
        proof {
            self.lemma_all_relocated_layout(m0, start as int, self.objects@.len() as int);
        }
        self.protect_relro(start, mem);
        let inits = self.init_calls(start, mem);
        let count = self.objects.len();
        assert(start < count);
        proof {
            assert(self.objects@.subrange(0, start as int) =~= objs_old) by {
                assert forall|x: int| 0 <= x < start implies self.objects@[x] == objs_old[x] by {
                    assert(objs1.subrange(0, start as int)[x] == objs1[x]);
                }
            }
        }
        Some(Opened { handle: (start + 1) as u64, inits })
    }
}

/// Opening the same name twice gives the same handle: a handle names the
/// object at index `handle - 1`, and loaded names are distinct.
pub proof fn lemma_dlopen_same_handle(names: Seq<Vec<u8>>, path: Seq<u8>, h1: u64, h2: u64)
    requires
        names_distinct(names),
        1 <= h1 <= names.len(),
        1 <= h2 <= names.len(),
        names[h1 - 1]@ == path,
        names[h2 - 1]@ == path,
    ensures
        h1 == h2,
{
}

/// The dynamic thread vector for the objects `objs` whose static blocks
/// start at `bs`: a header `{generation 1, module count}`, then
/// `{module id, block address}` for each object with TLS, in load order.
pub open spec fn dtv_words(objs: Seq<DSO>, bs: u64) -> Seq<u64> {
    seq![1u64, tls_count(objs, objs.len() as int) as u64] + dtv_entries(objs, bs, objs.len() as int)
}

/// The number of objects with TLS among the first `n`.
pub open spec fn tls_count(objs: Seq<DSO>, n: int) -> nat
    decreases n,
{
    if n <= 0 {
        0
    } else if has_tls(objs[n - 1]) {
        tls_count(objs, n - 1) + 1
    } else {
        tls_count(objs, n - 1)
    }
}

/// The DTV entries of the first `n` objects with TLS.
pub open spec fn dtv_entries(objs: Seq<DSO>, bs: u64, n: int) -> Seq<u64>
    decreases n,
{
    if n <= 0 {
        seq![]
    } else if has_tls(objs[n - 1]) {
        dtv_entries(objs, bs, n - 1) + seq![objs[n - 1].tls_module_id, bs.wrapping_add(objs[n - 1].tls_offset)]
    } else {
        dtv_entries(objs, bs, n - 1)
    }
}

/// The TCB `link` installs at `tcb` with its DTV at `dtv` for static TLS
/// blocks starting at `bs` and ending at `end`.
pub open spec fn initial_tcb(tcb: u64, dtv: u64, dtv_len: u64, bs: u64, end: u64) -> Tcb {
    Tcb {
        tcb_ptr: tcb,
        tcb_len: TCB_SIZE,
        tls_end: end,
        dtv: dtv,
        dtv_len: dtv_len,
        os_specific: OsBlock { sig_control: 0, thread_fd: 0 },
        platform_specific: TcbExtension {
            self_ptr: tcb,
            stack_base: 0,
            stack_size: 0,
            tls_dtv: dtv,
            tls_dtv_len: dtv_len,
            tls_static_base: bs,
            my_thread_local: 0,
        },
    }
}

impl Linker {
    /// The TCB `setup_tcb` installs at `tcb`.
    pub open spec fn tcb_at(&self, tcb: u64) -> Tcb {
        let bs = block_start(self.arch, tcb, self.static_tls_size, self.static_tls_align);
        let dtv = dtv_words(self.objects@, bs);
        let end = match self.arch {
            Arch::X86_64 => tcb,
            _ => bs.wrapping_add(self.static_tls_size),
        };
        initial_tcb(tcb, tcb.wrapping_add(TCB_SIZE), (dtv.len() / 2) as u64, bs, end)
    }

    /// The TCB at `tcb` and its DTV after it can be written in `m`.
    pub open spec fn tcb_fits(&self, m: MemView, tcb: u64) -> bool {
        let dtv = dtv_words(self.objects@, block_start(self.arch, tcb, self.static_tls_size, self.static_tls_align));
        &&& tcb + TCB_SIZE <= u64::MAX
        &&& m.writable(tcb as int, TCB_SIZE as int)
        &&& m.writable(tcb + TCB_SIZE, (8 * dtv.len()) as int)
    }

    /// `m` with the TCB stored at `tcb` and the DTV right after it.
    pub open spec fn tcb_stored(&self, m: MemView, tcb: u64) -> MemView {
        let dtv = dtv_words(self.objects@, block_start(self.arch, tcb, self.static_tls_size, self.static_tls_align));
        m.store(tcb as int, words_bytes(tcb_words(self.tcb_at(tcb)))).store(tcb + TCB_SIZE, words_bytes(dtv))
    }

    /// Builds the DTV words for the current objects.
    fn build_dtv(&self, bs: u64) -> (r: Vec<u64>)
        ensures
            r@ == dtv_words(self.objects@, bs),
    {
        let mut entries: Vec<u64> = Vec::new();
        let mut count: u64 = 0;
        let mut i: usize = 0;
        while i < self.objects.len()
            invariant
                i <= self.objects@.len(),
                count == tls_count(self.objects@, i as int),
                count <= i,
                entries@ == dtv_entries(self.objects@, bs, i as int),
            decreases self.objects@.len() - i,
        {
            let d = &self.objects[i];
            if d.tls_size != 0 {
                entries.push(d.tls_module_id);
                entries.push(bs.wrapping_add(d.tls_offset));
                count = count + 1;
                assert(entries@ =~= dtv_entries(self.objects@, bs, i + 1));
            }
            i = i + 1;
        }
        let mut r = vec![1u64, count];
        r.append(&mut entries);
        assert(r@ =~= dtv_words(self.objects@, bs));
        r
    }

    /// Installs the TCB of the initial thread at `tcb_addr`, with its DTV in
    /// the words that follow it: the self pointers, the end of static TLS,
    /// the DTV and the static TLS base.
    pub fn setup_tcb(&self, mem: &mut Memory, tcb_addr: u64) -> (ok: bool)
        requires
            old(mem).wf(),
        ensures
            final(mem).wf(),
            final(mem)@.start == old(mem)@.start,
            final(mem)@.bytes.len() == old(mem)@.bytes.len(),
            final(mem)@.read_only == old(mem)@.read_only,
            ok <==> self.tcb_fits(old(mem)@, tcb_addr),
            ok ==> final(mem)@ == self.tcb_stored(old(mem)@, tcb_addr),
    {
        if tcb_addr > u64::MAX - TCB_SIZE {
            return false;
        }
        let bs = match self.arch {
            Arch::X86_64 => tcb_addr.wrapping_sub(self.static_tls_size),
            _ => tcb_addr.wrapping_add(tcb_area(self.static_tls_align)),
        };
        let end = match self.arch {
            Arch::X86_64 => tcb_addr,
            _ => bs.wrapping_add(self.static_tls_size),
        };
        let dtv = self.build_dtv(bs);
        let dtv_addr = tcb_addr + TCB_SIZE;
        let dtv_bytes = to_bytes(&dtv);
        proof {
            lemma_words_bytes_len(dtv@);
        }
        if dtv_bytes.len() as u128 > u64::MAX as u128 || !mem.is_writable(tcb_addr, TCB_SIZE)
            || !mem.is_writable(dtv_addr, dtv_bytes.len() as u64) {
            return false;
        }
        let t = Tcb {
            tcb_ptr: tcb_addr,
            tcb_len: TCB_SIZE,
            tls_end: end,
            dtv: dtv_addr,
            dtv_len: (dtv.len() / 2) as u64,
            os_specific: OsBlock { sig_control: 0, thread_fd: 0 },
            platform_specific: TcbExtension {
                self_ptr: tcb_addr,
                stack_base: 0,
                stack_size: 0,
                tls_dtv: dtv_addr,
                tls_dtv_len: (dtv.len() / 2) as u64,
                tls_static_base: bs,
                my_thread_local: 0,
            },
        };
        let ghost m0 = mem@;
        t.store(tcb_addr, mem);
        assert(mem@.writable(dtv_addr as int, dtv_bytes@.len() as int) == m0.writable(dtv_addr as int, dtv_bytes@.len() as int));
        mem.write_bytes(dtv_addr, &dtv_bytes);
        true
    }
}

/// The TLS module-id relocation of `arch`.
pub open spec fn dtpmod_type(arch: Arch) -> u32 {
    match arch {
        Arch::X86_64 => R_X86_64_DTPMOD64,
        Arch::AArch64 => R_AARCH64_TLS_DTPMOD64,
        Arch::RiscV64 => R_RISCV_TLS_DTPMOD64,
    }
}

impl Linker {
    /// A module-id relocation against a symbol stores the module id of the
    /// object whose definition the global map holds for that symbol.
    pub proof fn lemma_dtpmod_writes_owner(&self, oi: int, m: MemView, r: RelocTuple)
        requires
            0 <= oi < self.objects@.len(),
            r.0 == dtpmod_type(self.arch),
            r.1 != 0,
            self.objects@[oi].sym_name(r.1 as int) is Some,
            has_name(self.global_symbols@, self.objects@[oi].sym_name(r.1 as int)->0),
            fits(self.objects@[oi], r.2 as int, 8),
            m.writable(self.objects@[oi].base_addr + r.2, 8),
        ensures
            self.reloc_step(oi, m, r).range(self.objects@[oi].base_addr + r.2, 8) == le_bytes_u64(
                entry_for(self.global_symbols@, self.objects@[oi].sym_name(r.1 as int)->0).module_id),
    {
        let d = self.objects@[oi];
        let p = d.base_addr + r.2;
        let e = entry_for(self.global_symbols@, d.sym_name(r.1 as int)->0);
        let bytes = le_bytes_u64(e.module_id);
        assert(d.base_addr.wrapping_add(r.2) == p);
        let n = self.reloc_step(oi, m, r);
        assert(n == m.store(p, bytes));
        assert(n.range(p, 8) =~= bytes);
    }
}

} // verus!
