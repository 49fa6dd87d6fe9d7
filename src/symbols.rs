//! The global symbol map and the first-definition rule it obeys.

use vstd::prelude::*;
use crate::dso::DSO;
use crate::linux_parity::LookupResult;

verus! {

/// A definition that enters the global map: its name, the index of the
/// defining object and the index of the symbol in that object's table.
pub type Def = (Seq<u8>, int, int);

/// Symbol `j` of `d` is a named, non-file definition.
pub open spec fn is_def(d: DSO, j: int) -> bool {
    0 <= j < d.syms().len() && d.syms()[j].is_global_definition() && d.sym_name(j) is Some
}

/// The definitions among the first `n` symbols of object `d` (index `oi`), in table order.
pub open spec fn defs_in(d: DSO, oi: int, n: int) -> Seq<Def>
    decreases n,
{
    if n <= 0 {
        seq![]
    } else if is_def(d, n - 1) {
        defs_in(d, oi, n - 1).push((d.sym_name(n - 1)->0, oi, n - 1))
    } else {
        defs_in(d, oi, n - 1)
    }
}

/// The definitions of the first `i` objects, in load order then table order.
pub open spec fn defs(objs: Seq<DSO>, i: int) -> Seq<Def>
    decreases i,
{
    if i <= 0 {
        seq![]
    } else {
        defs(objs, i - 1) + defs_in(objs[i - 1], i - 1, objs[i - 1].syms().len() as int)
    }
}

/// The position of the first definition of `name` in `ds`.
pub open spec fn first_def(ds: Seq<Def>, name: Seq<u8>) -> Option<int>
    decreases ds.len(),
{
    if ds.len() == 0 {
        None
    } else {
        match first_def(ds.drop_last(), name) {
            Some(k) => Some(k),
            None => if ds.last().0 == name {
                Some(ds.len() - 1)
            } else {
                None
            },
        }
    }
}

/// The value a definition resolves to: the owner's base address plus the
/// symbol value, with the symbol's size and the owner's TLS module and offset.
pub open spec fn def_entry_ok(e: GlobalSymbol, objs: Seq<DSO>, def: Def) -> bool {
    let d = objs[def.1];
    let s = d.syms()[def.2];
    &&& e.name@ == def.0
    &&& e.result.value == d.base_addr.wrapping_add(s.st_value)
    &&& e.result.size == s.st_size
    &&& e.module_id == d.tls_module_id
    &&& e.tls_offset == d.tls_offset
}

/// Every definition in `ds` names a real definition of `objs`.
pub open spec fn defs_valid(objs: Seq<DSO>, ds: Seq<Def>) -> bool {
    forall|k: int| 0 <= k < ds.len() ==> {
        let def = #[trigger] ds[k];
        &&& 0 <= def.1 < objs.len()
        &&& is_def(objs[def.1], def.2)
        &&& objs[def.1].sym_name(def.2) == Some(def.0)
    }
}

/// Whether `g` holds an entry named `name`.
pub open spec fn has_name(g: Seq<GlobalSymbol>, name: Seq<u8>) -> bool {
    exists|k: int| 0 <= k < g.len() && (#[trigger] g[k]).name@ == name
}

/// The entry of `g` named `name` (meaningful when `has_name`).
pub open spec fn entry_for(g: Seq<GlobalSymbol>, name: Seq<u8>) -> GlobalSymbol {
    g[choose|k: int| 0 <= k < g.len() && (#[trigger] g[k]).name@ == name]
}

/// No two entries share a name.
pub open spec fn names_unique(g: Seq<GlobalSymbol>) -> bool {
    forall|a: int, b: int| 0 <= a < g.len() && 0 <= b < g.len() && (#[trigger] g[a]).name@ == (#[trigger] g[b]).name@ ==> a == b
}

/// `g` is the map built from the definitions `ds`: one entry per defined
/// name, holding that name's first definition.
pub open spec fn table_of(g: Seq<GlobalSymbol>, objs: Seq<DSO>, ds: Seq<Def>) -> bool {
    &&& names_unique(g)
    &&& forall|k: int| 0 <= k < g.len() ==> first_def(ds, (#[trigger] g[k]).name@) is Some
        && def_entry_ok(g[k], objs, ds[first_def(ds, g[k].name@)->0])
    &&& forall|name: Seq<u8>| #[trigger] first_def(ds, name) is Some ==> has_name(g, name)
}

pub proof fn lemma_first_def_push(ds: Seq<Def>, x: Def, name: Seq<u8>)
    ensures
        first_def(ds.push(x), name) == (match first_def(ds, name) {
            Some(k) => Some(k),
            None => if x.0 == name { Some(ds.len() as int) } else { None },
        }),
{
    assert(ds.push(x).drop_last() =~= ds);
}

/// `first_def` finds the earliest definition of the name.
pub proof fn lemma_first_def_is_first(ds: Seq<Def>, name: Seq<u8>)
    ensures
        first_def(ds, name) is Some <==> exists|m: int| 0 <= m < ds.len() && (#[trigger] ds[m]).0 == name,
        first_def(ds, name) is Some ==> {
            let k = first_def(ds, name)->0;
            &&& 0 <= k < ds.len()
            &&& ds[k].0 == name
            &&& forall|m: int| 0 <= m < k ==> (#[trigger] ds[m]).0 != name
        },
    decreases ds.len(),
{
    if ds.len() > 0 {
        lemma_first_def_is_first(ds.drop_last(), name);
        assert(forall|m: int| 0 <= m < ds.len() - 1 ==> ds.drop_last()[m] == ds[m]);
        if first_def(ds.drop_last(), name) is None && ds.last().0 == name {
            assert(ds[ds.len() - 1].0 == name);
        }
        if exists|m: int| 0 <= m < ds.len() && (#[trigger] ds[m]).0 == name {
            let m = choose|m: int| 0 <= m < ds.len() && (#[trigger] ds[m]).0 == name;
            if m < ds.len() - 1 {
                assert(ds.drop_last()[m].0 == name);
            }
        }
    }
}

pub proof fn lemma_defs_in_objects(objs: Seq<DSO>, i: int)
    requires
        0 <= i <= objs.len(),
    ensures
        forall|k: int| 0 <= k < defs(objs, i).len() ==> 0 <= (#[trigger] defs(objs, i)[k]).1 < i,
        forall|a: int, b: int| 0 <= a <= b < defs(objs, i).len() ==> (#[trigger] defs(objs, i)[a]).1 <= (#[trigger] defs(objs, i)[b]).1,
    decreases i,
{
    if i > 0 {
        lemma_defs_in_objects(objs, i - 1);
        let d = objs[i - 1];
        lemma_defs_in_owner(d, i - 1, d.syms().len() as int);
        let prev = defs(objs, i - 1);
        let tail = defs_in(d, i - 1, d.syms().len() as int);
        assert(defs(objs, i) == prev + tail);
        assert forall|k: int| 0 <= k < defs(objs, i).len() implies 0 <= (#[trigger] defs(objs, i)[k]).1 < i by {
            if k >= prev.len() {
                assert(defs(objs, i)[k] == tail[k - prev.len()]);
            }
        }
        assert forall|a: int, b: int| 0 <= a <= b < defs(objs, i).len() implies (#[trigger] defs(objs, i)[a]).1
            <= (#[trigger] defs(objs, i)[b]).1 by {
            if b >= prev.len() {
                assert(defs(objs, i)[b] == tail[b - prev.len()]);
                if a >= prev.len() {
                    assert(defs(objs, i)[a] == tail[a - prev.len()]);
                }
            }
        }
    }
}

pub proof fn lemma_defs_in_owner(d: DSO, oi: int, n: int)
    ensures
        forall|k: int| 0 <= k < defs_in(d, oi, n).len() ==> (#[trigger] defs_in(d, oi, n)[k]).1 == oi,
    decreases n,
{
    if n > 0 {
        lemma_defs_in_owner(d, oi, n - 1);
        let prev = defs_in(d, oi, n - 1);
        if is_def(d, n - 1) {
            let x = (d.sym_name(n - 1)->0, oi, n - 1);
            assert forall|k: int| 0 <= k < prev.push(x).len() implies (#[trigger] prev.push(x)[k]).1 == oi by {
                if k < prev.len() {
                    assert(prev.push(x)[k] == prev[k]);
                }
            }
        }
    }
}

/// The first-definition rule: when `g` is the map built from the objects
/// `objs`, the entry for any defined name comes from the lowest-indexed
/// object that defines it, and resolves to that object's base address plus
/// the symbol value.
pub proof fn lemma_first_definition_wins(g: Seq<GlobalSymbol>, objs: Seq<DSO>, name: Seq<u8>, m: int)
    requires
        table_of(g, objs, defs(objs, objs.len() as int)),
        0 <= m < defs(objs, objs.len() as int).len(),
        defs(objs, objs.len() as int)[m].0 == name,
    ensures
        has_name(g, name),
        ({
            let ds = defs(objs, objs.len() as int);
            let k = first_def(ds, name)->0;
            &&& def_entry_ok(entry_for(g, name), objs, ds[k])
            &&& ds[k].1 <= ds[m].1
        }),
{
    let ds = defs(objs, objs.len() as int);
    lemma_first_def_is_first(ds, name);
    lemma_defs_in_objects(objs, objs.len() as int);
    let k = first_def(ds, name)->0;
    assert(first_def(ds, name) is Some);
    assert(has_name(g, name));
    let e = choose|j: int| 0 <= j < g.len() && (#[trigger] g[j]).name@ == name;
    assert(g[e].name@ == name);
    if m < k {
        assert(ds[m].0 != name);
    }
}

/// An entry of the global symbol map.
pub struct GlobalSymbol {
    pub name: Vec<u8>,
    pub result: LookupResult,
    pub module_id: u64,
    pub tls_offset: u64,
}

/// The index of the entry named `name`, if any.
pub fn find_global(g: &Vec<GlobalSymbol>, name: &[u8]) -> (r: Option<usize>)
    ensures
        r is Some <==> has_name(g@, name@),
        r is Some ==> r->0 < g@.len() && g@[r->0 as int].name@ == name@,
{
    let mut k: usize = 0;
    while k < g.len()
        invariant
            k <= g@.len(),
            forall|j: int| 0 <= j < k ==> (#[trigger] g@[j]).name@ != name@,
        decreases g@.len() - k,
    {
        if bytes_eq(g[k].name.as_slice(), name) {
            return Some(k);
        }
        k = k + 1;
    }
    None
}

/// Whether two byte strings are equal.
pub fn bytes_eq(a: &[u8], b: &[u8]) -> (r: bool)
    ensures
        r == (a@ == b@),
{
    if a.len() != b.len() {
        return false;
    }
    let mut i: usize = 0;
    while i < a.len()
        invariant
            a@.len() == b@.len(),
            i <= a@.len(),
            forall|j: int| 0 <= j < i ==> a@[j] == b@[j],
        decreases a@.len() - i,
    {
        if a[i] != b[i] {
            return false;
        }
        i = i + 1;
    }
    assert(a@ =~= b@);
    true
}

} // verus!
