//! Symbol-versioning views.

use vstd::prelude::*;

verus! {

/// The version tables of one object: the version-symbol table, the
/// addresses and counts of the requirement and definition records, and the
/// string table they name into (0 where a record list is absent).
pub struct VersionData<'a> {
    pub versym: &'a [u16],
    pub verneed: u64,
    pub verneed_num: u64,
    pub verdef: u64,
    pub verdef_num: u64,
    pub str_tab: &'a [u8],
}

/// A version requirement attached to a symbol reference.
pub struct VersionReq {
    pub name: Vec<u8>,
    pub hash: u32,
}

/// One version definition of an object: the index its symbols carry in the
/// version-symbol table, the version's name and its hash.
pub struct VersionDef {
    pub index: u16,
    pub name: Vec<u8>,
    pub hash: u32,
}

/// One `Vernaux` record of the version-requirement lists: the version index
/// symbols refer to it by, its name and its hash.
pub struct VersionNeed {
    pub index: u16,
    pub req: VersionReq,
}

} // verus!
