//! Symbol lookup results and IFUNC resolution.

use vstd::prelude::*;
use vstd::string::StringSliceAdditionalSpecFns;
use crate::dso::{cstr_at, cstr_slice};
use crate::elf::{Sym, SHN_UNDEF, STT_FILE};
use crate::gnu_hash::GnuHash;
use crate::symbols::bytes_eq;
use crate::versioning::{VersionDef, VersionReq};

verus! {

/// Where a symbol definition lives at run time, and its size.
#[derive(Debug, Clone, Copy, PartialEq, Eq)]
pub struct LookupResult {
    pub value: u64,
    pub size: u64,
}

/// Whether symbol `i` satisfies the version requirement named `req`: any
/// symbol does when there is no requirement or no version information, or
/// when its version index is 0 or 1 (local, global); otherwise its version
/// must be a definition in `defs` with that name.
pub open spec fn version_accepts(req: Option<Seq<u8>>, vs: Option<Seq<u16>>, defs: Seq<VersionDef>, i: int) -> bool {
    match req {
        None => true,
        Some(want) => match vs {
            None => true,
            Some(v) => !(0 <= i < v.len()) || (v[i] & 0x7fffu16) <= 1 || exists|k: int|
                0 <= k < defs.len() && (#[trigger] defs[k]).index == (v[i] & 0x7fffu16) && defs[k].name@ == want,
        },
    }
}

/// The requirement's name, if any.
pub open spec fn req_name(r: Option<&VersionReq>) -> Option<Seq<u8>> {
    match r {
        Some(q) => Some(q.name@),
        None => None,
    }
}

/// The version-symbol table, if any.
pub open spec fn versym_view(v: Option<&[u16]>) -> Option<Seq<u16>> {
    match v {
        Some(t) => Some(t@),
        None => None,
    }
}

fn version_ok(ver_req: Option<&VersionReq>, versym: Option<&[u16]>, defs: &[VersionDef], i: usize) -> (r: bool)
    ensures
        r == version_accepts(req_name(ver_req), versym_view(versym), defs@, i as int),
{
    let want = match ver_req {
        Some(q) => q.name.as_slice(),
        None => return true,
    };
    let v = match versym {
        Some(t) => if i < t.len() {
            t[i] & 0x7fff
        } else {
            return true;
        },
        None => return true,
    };
    if v <= 1 {
        return true;
    }
    let mut k: usize = 0;
    while k < defs.len()
        invariant
            versym is Some && 0 <= i < versym_view(versym)->0.len(),
            v == (versym_view(versym)->0[i as int] & 0x7fffu16),
            v > 1,
            req_name(ver_req) == Some(want@),
            k <= defs@.len(),
            forall|j: int| 0 <= j < k ==> !((#[trigger] defs@[j]).index == v && defs@[j].name@ == want@),
        decreases defs@.len() - k,
    {
        if defs[k].index == v && bytes_eq(defs[k].name.as_slice(), want) {
            assert(defs@[k as int].index == v && defs@[k as int].name@ == want@);
            return true;
        }
        k = k + 1;
    }
    false
}

/// The index of the first definition among the first `n` symbols of
/// `symtab` whose name in `strtab` is `name` and whose version satisfies the
/// requirement.
pub open spec fn first_named(symtab: Seq<Sym>, strtab: Seq<u8>, name: Seq<u8>, req: Option<Seq<u8>>,
    vs: Option<Seq<u16>>, defs: Seq<VersionDef>, n: int) -> Option<int>
    decreases n,
{
    if n <= 0 {
        None
    } else {
        match first_named(symtab, strtab, name, req, vs, defs, n - 1) {
            Some(k) => Some(k),
            None => {
                let s = symtab[n - 1];
                if s.is_global_definition() && cstr_at(strtab, s.st_name as int) == Some(name)
                    && version_accepts(req, vs, defs, n - 1) {
                    Some(n - 1)
                } else {
                    None
                }
            },
        }
    }
}

/// Looks `name` up in one object's tables: the first named, non-file,
/// defined symbol called `name` whose version satisfies `ver_req` (see
/// `version_accepts`, with the object's `versym` and `version_defs`),
/// resolved against `base_addr`. The hash tables only index the same
/// symbols, so the search reads the symbol table itself.
pub fn find_symbol_linux_style(
    name: &str,
    ver_req: Option<&VersionReq>,
    symtab: &[Sym],
    strtab: &[u8],
    gnu_hash: Option<&GnuHash>,
    sysv_hash: Option<&[u32]>,
    versym: Option<&[u16]>,
    version_defs: &[VersionDef],
    base_addr: u64,
) -> (r: Option<LookupResult>)
    ensures
        match first_named(symtab@, strtab@, name.spec_bytes(), req_name(ver_req), versym_view(versym), version_defs@,
            symtab@.len() as int) {
            Some(k) => r == Some(LookupResult {
                value: base_addr.wrapping_add(symtab@[k].st_value),
                size: symtab@[k].st_size,
            }),
            None => r is None,
        },
{
    let want = name.as_bytes();
    let mut j: usize = 0;
    while j < symtab.len()
        invariant
            j <= symtab@.len(),
            want@ == name.spec_bytes(),
            first_named(symtab@, strtab@, want@, req_name(ver_req), versym_view(versym), version_defs@, j as int) is None,
        decreases symtab@.len() - j,
    {
        let s = symtab[j];
        if s.st_name != 0 && (s.st_info & 0xf) != STT_FILE && s.st_shndx != SHN_UNDEF {
            if let Some(b) = cstr_slice(strtab, s.st_name as usize) {
                if bytes_eq(b, want) && version_ok(ver_req, versym, version_defs, j) {
                    assert(first_named(symtab@, strtab@, want@, req_name(ver_req), versym_view(versym), version_defs@, j + 1)
                        == Some(j as int));
                    proof {
                        lemma_first_named_stable(symtab@, strtab@, want@, req_name(ver_req), versym_view(versym),
                            version_defs@, j + 1, symtab@.len() as int);
                    }
                    return Some(LookupResult { value: base_addr.wrapping_add(s.st_value), size: s.st_size });
                }
            }
        }
        j = j + 1;
    }
    None
}

proof fn lemma_first_named_stable(symtab: Seq<Sym>, strtab: Seq<u8>, name: Seq<u8>, req: Option<Seq<u8>>,
    vs: Option<Seq<u16>>, defs: Seq<VersionDef>, i: int, n: int)
    requires
        i <= n,
        first_named(symtab, strtab, name, req, vs, defs, i) is Some,
    ensures
        first_named(symtab, strtab, name, req, vs, defs, n) == first_named(symtab, strtab, name, req, vs, defs, i),
    decreases n - i,
{
    if i < n {
        lemma_first_named_stable(symtab, strtab, name, req, vs, defs, i, n - 1);
    }
}

} // verus!
