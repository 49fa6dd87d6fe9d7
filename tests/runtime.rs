use ld_so::abi::{DynamicProcInfo, get_char_encoded_length};
use ld_so::elf::Sym;
use ld_so::linux_parity::{LookupResult, find_symbol_linux_style};
use ld_so::platform::{FileWriter, WriteError};
use ld_so::versioning::{VersionDef, VersionReq};

#[test]
fn file_writer_records_errors() {
    let mut w = FileWriter::new(2);
    assert_eq!(w.0, 2);
    assert_eq!(w.write(b"hello"), Ok(()));
    assert_eq!(w.1, None);
    assert_eq!(w.record(-9), Err(WriteError));
    assert_eq!(w.1, Some(9));
    assert_eq!(w.record(5), Ok(()));
    assert_eq!(w.1, Some(9));
    assert_eq!(w.record(isize::MIN), Err(WriteError));
    assert_eq!(w.1, Some(i32::MAX));
}

#[test]
fn find_symbol_in_tables() {
    let strtab = b"\0alpha\0beta\0".to_vec();
    let symtab = vec![
        Sym { st_name: 0, st_info: 0, st_other: 0, st_shndx: 0, st_value: 0, st_size: 0 },
        Sym { st_name: 1, st_info: 0x12, st_other: 0, st_shndx: 0, st_value: 0x10, st_size: 1 },
        Sym { st_name: 7, st_info: 0x11, st_other: 0, st_shndx: 4, st_value: 0x20, st_size: 8 },
        Sym { st_name: 1, st_info: 0x12, st_other: 0, st_shndx: 3, st_value: 0x30, st_size: 2 },
        Sym { st_name: 7, st_info: 0x04, st_other: 0, st_shndx: 4, st_value: 0x40, st_size: 8 },
    ];
    let found = |n: &str| find_symbol_linux_style(n, None, &symtab, &strtab, None, None, None, &[], 0x1000);
    assert_eq!(found("alpha"), Some(LookupResult { value: 0x1030, size: 2 }));
    assert_eq!(found("beta"), Some(LookupResult { value: 0x1020, size: 8 }));
    assert_eq!(found("gamma"), None);
    assert_eq!(found("alph"), None);
}

#[test]
fn utf8_lead_byte_lengths() {
    assert_eq!(get_char_encoded_length(b'a'), Some(1));
    assert_eq!(get_char_encoded_length(0xce), Some(2));
    assert_eq!(get_char_encoded_length(0xe2), Some(3));
    assert_eq!(get_char_encoded_length(0xf0), Some(4));
    assert_eq!(get_char_encoded_length(0x80), None);
    assert_eq!(get_char_encoded_length(0xf8), None);
}

#[test]
fn process_info_record() {
    let p = DynamicProcInfo { pgid: 1, euid: 2, suid: 3, ruid: 4, egid: 5, rgid: 6, sgid: 7 };
    assert_eq!(p, p.clone());
}

#[test]
fn find_symbol_by_version() {
    let strtab = b"\0f\0".to_vec();
    let def = |value: u64| Sym { st_name: 1, st_info: 0x12, st_other: 0, st_shndx: 1, st_value: value, st_size: 0 };
    let symtab = vec![def(0x10), def(0x20), def(0x30)];
    let versym: Vec<u16> = vec![2, 0x8003, 1];
    let defs = vec![
        VersionDef { index: 2, name: b"V1".to_vec(), hash: 1 },
        VersionDef { index: 3, name: b"V2".to_vec(), hash: 2 },
    ];
    let find = |req: Option<&VersionReq>, vs: Option<&[u16]>| {
        find_symbol_linux_style("f", req, &symtab, &strtab, None, None, vs, &defs, 0)
    };
    let v2 = VersionReq { name: b"V2".to_vec(), hash: 2 };
    let v9 = VersionReq { name: b"V9".to_vec(), hash: 9 };
    assert_eq!(find(None, Some(&versym)).map(|r| r.value), Some(0x10));
    assert_eq!(find(Some(&v2), Some(&versym)).map(|r| r.value), Some(0x20));
    assert_eq!(find(Some(&v9), Some(&versym)).map(|r| r.value), Some(0x30));
    assert_eq!(find(Some(&v9), Some(&versym[..2])).map(|r| r.value), Some(0x30));
    assert_eq!(find(Some(&v9), Some(&[2, 3, 2])), None);
    assert_eq!(find(Some(&v9), None).map(|r| r.value), Some(0x10));
}
