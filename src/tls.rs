//! Static TLS layout: where each module's block sits in the static TLS area.

use vstd::prelude::*;
use crate::dso::DSO;

verus! {

/// The smallest alignment of the static TLS area.
pub const MIN_TLS_ALIGN: u64 = 16;

/// `x` rounded up to a multiple of `a`; alignments 0 and 1 leave it as is.
pub open spec fn align_up(x: int, a: int) -> int {
    if a <= 1 {
        x
    } else {
        (x + a - 1) / a * a
    }
}

pub proof fn lemma_align_up_bounds(x: int, a: int)
    requires
        x >= 0,
    ensures
        x <= align_up(x, a),
        a > 1 ==> align_up(x, a) <= x + a - 1,
{
    if a > 1 {
        let y = x + a - 1;
        assert(y / a * a <= y) by (nonlinear_arith)
            requires
                a > 0,
                y >= 0,
        ;
        assert(y / a * a > y - a) by (nonlinear_arith)
            requires
                a > 0,
                y >= 0,
        ;
    }
}

/// Whether module `d` has a TLS block.
pub open spec fn has_tls(d: DSO) -> bool {
    d.tls_size != 0
}

/// The end of the static TLS blocks of the first `n` objects, in load order.
pub open spec fn tls_end(objs: Seq<DSO>, n: int) -> int
    decreases n,
{
    if n <= 0 {
        0
    } else if !has_tls(objs[n - 1]) {
        tls_end(objs, n - 1)
    } else {
        align_up(tls_end(objs, n - 1), objs[n - 1].tls_align as int) + objs[n - 1].tls_size
    }
}

/// The offset the layout gives object `i`'s TLS block.
pub open spec fn tls_slot(objs: Seq<DSO>, i: int) -> int {
    align_up(tls_end(objs, i), objs[i].tls_align as int)
}

/// Whether the layout of the first `n` objects stays within `u64`.
pub open spec fn tls_fits(objs: Seq<DSO>, n: int) -> bool
    decreases n,
{
    if n <= 0 {
        true
    } else {
        &&& tls_fits(objs, n - 1)
        &&& tls_end(objs, n) <= u64::MAX
    }
}

/// The largest alignment among the first `n` objects with TLS, at least 16.
pub open spec fn tls_max_align(objs: Seq<DSO>, n: int) -> u64
    decreases n,
{
    if n <= 0 {
        MIN_TLS_ALIGN
    } else if has_tls(objs[n - 1]) && objs[n - 1].tls_align > tls_max_align(objs, n - 1) {
        objs[n - 1].tls_align
    } else {
        tls_max_align(objs, n - 1)
    }
}

/// Objects agree except for the TLS module id and offset the layout assigns.
pub open spec fn same_but_tls_slot(a: DSO, b: DSO) -> bool {
    b == (DSO { tls_module_id: b.tls_module_id, tls_offset: b.tls_offset, ..a })
}

/// The layout depends on the sizes and alignments alone.
pub proof fn lemma_tls_end_same(a: Seq<DSO>, b: Seq<DSO>, n: int)
    requires
        0 <= n <= a.len(),
        a.len() == b.len(),
        forall|k: int| 0 <= k < a.len() ==> a[k].tls_size == b[k].tls_size && a[k].tls_align == b[k].tls_align,
    ensures
        tls_end(a, n) == tls_end(b, n),
        tls_fits(a, n) == tls_fits(b, n),
        tls_max_align(a, n) == tls_max_align(b, n),
    decreases n,
{
    if n > 0 {
        lemma_tls_end_same(a, b, n - 1);
    }
}

pub proof fn lemma_tls_end_nonneg(objs: Seq<DSO>, n: int)
    ensures
        0 <= tls_end(objs, n),
    decreases n,
{
    if n > 0 {
        lemma_tls_end_nonneg(objs, n - 1);
        if has_tls(objs[n - 1]) {
            lemma_align_up_bounds(tls_end(objs, n - 1), objs[n - 1].tls_align as int);
        }
    }
}

pub proof fn lemma_tls_end_monotone(objs: Seq<DSO>, i: int, j: int)
    requires
        0 <= i <= j <= objs.len(),
    ensures
        0 <= tls_end(objs, i) <= tls_end(objs, j),
    decreases j - i,
{
    lemma_tls_end_nonneg(objs, i);
    if i < j {
        lemma_tls_end_monotone(objs, i, j - 1);
        if has_tls(objs[j - 1]) {
            lemma_align_up_bounds(tls_end(objs, j - 1), objs[j - 1].tls_align as int);
        }
    }
}

/// Static TLS blocks do not overlap: for objects `i` loaded before `j`, both
/// with TLS, `i`'s block ends at or before `j`'s aligned start.
pub proof fn lemma_tls_blocks_ordered(objs: Seq<DSO>, i: int, j: int)
    requires
        0 <= i < j < objs.len(),
        has_tls(objs[i]),
        has_tls(objs[j]),
    ensures
        tls_slot(objs, i) + objs[i].tls_size <= align_up(tls_slot(objs, j), objs[j].tls_align as int),
        0 <= tls_slot(objs, i),
{
    lemma_tls_end_monotone(objs, 0, i);
    lemma_tls_end_monotone(objs, i + 1, j);
    lemma_align_up_bounds(tls_end(objs, i), objs[i].tls_align as int);
    lemma_align_up_bounds(tls_end(objs, j), objs[j].tls_align as int);
    lemma_align_up_bounds(tls_slot(objs, j), objs[j].tls_align as int);
}

/// `align_up` on machine integers; `None` when the result leaves `u64`.
pub fn align_up_checked(x: u64, a: u64) -> (r: Option<u64>)
    ensures
        r is Some <==> align_up(x as int, a as int) <= u64::MAX,
        r is Some ==> r->0 == align_up(x as int, a as int),
{
    if a <= 1 {
        return Some(x);
    }
    proof {
        lemma_align_up_bounds(x as int, a as int);
    }
    let wide: u128 = ((x as u128) + (a as u128) - 1) / (a as u128) * (a as u128);
    if wide > u64::MAX as u128 {
        None
    } else {
        Some(wide as u64)
    }
}

} // verus!
