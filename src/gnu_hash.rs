//! The header of a GNU-style symbol hash table.

use vstd::prelude::*;

verus! {

/// The header fields of a `DT_GNU_HASH` table and the symbol count it implies.
#[derive(Debug, Clone, Copy, PartialEq, Eq)]
pub struct GnuHash {
    pub nbuckets: u32,
    pub symoffset: u32,
    pub bloom_size: u32,
    pub bloom_shift: u32,
    pub nsyms: u64,
}

impl GnuHash {
    /// A table with no buckets and no symbols.
    pub fn new() -> (r: GnuHash)
        ensures
            r.nbuckets == 0 && r.symoffset == 0 && r.bloom_size == 0 && r.bloom_shift == 0 && r.nsyms == 0,
    {
        GnuHash { nbuckets: 0, symoffset: 0, bloom_size: 0, bloom_shift: 0, nsyms: 0 }
    }
}

} // verus!
