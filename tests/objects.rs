use ld_so::dso::DSO;
use ld_so::elf::{Ehdr, Phdr, Sym, Dyn, DT_GNU_HASH, DT_HASH, DT_INIT, DT_INIT_ARRAY, DT_INIT_ARRAYSZ, DT_NEEDED,
    DT_NULL, DT_RELA, DT_RELASZ, DT_STRSZ, DT_STRTAB, DT_SYMTAB, PT_DYNAMIC, PT_GNU_RELRO, PT_LOAD, PT_TLS,
    R_X86_64_RELATIVE};
use ld_so::gnu_hash::GnuHash;
use ld_so::linker::Linker;
use ld_so::load::{AuxInfo, LoadError, parse_initial_stack};
use ld_so::memory::Memory;
use ld_so::reloc::Arch;
use ld_so::tcb::{Tcb, TCB_SIZE};

fn ehdr_bytes(machine: u16, phoff: u64, phnum: u16, entry: u64) -> Vec<u8> {
    let mut b = vec![0x7f, b'E', b'L', b'F', 2, 1, 1, 0, 0, 0, 0, 0, 0, 0, 0, 0];
    b.extend_from_slice(&3u16.to_le_bytes());
    b.extend_from_slice(&machine.to_le_bytes());
    b.extend_from_slice(&1u32.to_le_bytes());
    b.extend_from_slice(&entry.to_le_bytes());
    b.extend_from_slice(&phoff.to_le_bytes());
    b.extend_from_slice(&0u64.to_le_bytes());
    b.extend_from_slice(&0u32.to_le_bytes());
    b.extend_from_slice(&64u16.to_le_bytes());
    b.extend_from_slice(&56u16.to_le_bytes());
    b.extend_from_slice(&phnum.to_le_bytes());
    b.extend_from_slice(&[0; 6]);
    b
}

fn phdr_bytes(p: &Phdr) -> Vec<u8> {
    let mut b = Vec::new();
    b.extend_from_slice(&p.p_type.to_le_bytes());
    b.extend_from_slice(&p.p_flags.to_le_bytes());
    for v in [p.p_offset, p.p_vaddr, p.p_paddr, p.p_filesz, p.p_memsz, p.p_align] {
        b.extend_from_slice(&v.to_le_bytes());
    }
    b
}

fn ph(t: u32, off: u64, vaddr: u64, filesz: u64, memsz: u64) -> Phdr {
    Phdr { p_type: t, p_flags: 6, p_offset: off, p_vaddr: vaddr, p_paddr: vaddr, p_filesz: filesz, p_memsz: memsz, p_align: 8 }
}

fn dyn_bytes(entries: &[(i64, u64)]) -> Vec<u8> {
    let mut b = Vec::new();
    for (t, v) in entries {
        b.extend_from_slice(&t.to_le_bytes());
        b.extend_from_slice(&v.to_le_bytes());
    }
    b
}

fn sym_bytes(s: &Sym) -> Vec<u8> {
    let mut b = Vec::new();
    b.extend_from_slice(&s.st_name.to_le_bytes());
    b.push(s.st_info);
    b.push(s.st_other);
    b.extend_from_slice(&s.st_shndx.to_le_bytes());
    b.extend_from_slice(&s.st_value.to_le_bytes());
    b.extend_from_slice(&s.st_size.to_le_bytes());
    b
}

fn put(image: &mut Vec<u8>, at: usize, bytes: &[u8]) {
    if image.len() < at + bytes.len() {
        image.resize(at + bytes.len(), 0);
    }
    image[at..at + bytes.len()].copy_from_slice(bytes);
}

/// A small shared object: a load segment of 0x800 bytes in a 0x1000-byte
/// mapping, a dynamic section, a SysV hash table, two symbols, one
/// relocation, and a TLS segment.
fn library_image() -> Vec<u8> {
    let phdrs = [
        ph(PT_LOAD, 0, 0, 0x800, 0x1000),
        ph(PT_DYNAMIC, 0x200, 0x200, 0xa0, 0xa0),
        ph(PT_TLS, 0x700, 0x700, 4, 16),
        ph(PT_GNU_RELRO, 0x600, 0x600, 0x10, 0x10),
    ];
    let mut image = ehdr_bytes(62, 64, 4, 0x100);
    for (i, p) in phdrs.iter().enumerate() {
        put(&mut image, 64 + 56 * i, &phdr_bytes(p));
    }
    put(&mut image, 0x200, &dyn_bytes(&[(DT_HASH, 0x300), (DT_SYMTAB, 0x400), (DT_STRTAB, 0x500), (DT_STRSZ, 9),
        (DT_RELA, 0x540), (DT_RELASZ, 24), (DT_NEEDED, 4), (DT_INIT, 0x120), (DT_NULL, 0)]));
    put(&mut image, 0x300, &[1, 0, 0, 0, 2, 0, 0, 0]);
    put(&mut image, 0x400, &sym_bytes(&Sym { st_name: 0, st_info: 0, st_other: 0, st_shndx: 0, st_value: 0, st_size: 0 }));
    put(&mut image, 0x418, &sym_bytes(&Sym { st_name: 1, st_info: 0x12, st_other: 0, st_shndx: 1, st_value: 0x180, st_size: 0 }));
    put(&mut image, 0x500, b"\0fn\0libc\0");
    let mut r = 0x600u64.to_le_bytes().to_vec();
    r.extend_from_slice(&(R_X86_64_RELATIVE as u64).to_le_bytes());
    r.extend_from_slice(&0x180u64.to_le_bytes());
    put(&mut image, 0x540, &r);
    put(&mut image, 0x700, &[1, 2, 3, 4]);
    image.resize(0x800, 0);
    image
}

#[test]
fn ehdr_magic() {
    let image = library_image();
    let mut bytes = image.clone();
    let h = Ehdr::decode(&bytes);
    assert!(h.check_magic());
    assert_eq!(h.e_machine, 62);
    assert_eq!(h.e_phnum, 4);
    bytes[1] = b'X';
    assert!(!Ehdr::decode(&bytes).check_magic());
}

#[test]
fn load_library_from_image() {
    let image = library_image();
    let mut mem = Memory::new(0x10000, 0x4000);
    assert!(mem.write_bytes(0x10800, &vec![0xee; 0x800]));
    let d = DSO::new_library("libfn.so", &image, 0x10000, Arch::X86_64, &mut mem).unwrap();
    assert_eq!(d.base_addr, 0x10000);
    assert_eq!(d.entry_point, 0x10100);
    assert_eq!(d.name, b"libfn.so".to_vec());
    assert_eq!(d.phdrs.len(), 4);
    assert_eq!(mem.read_bytes(0x10500, 9), Some(b"\0fn\0libc\0".to_vec()));
    assert_eq!(mem.read_bytes(0x10800, 4), Some(vec![0, 0, 0, 0]));
    assert_eq!(mem.read_bytes(0x10ffc, 4), Some(vec![0, 0, 0, 0]));
    assert_eq!(d.sym_table().len(), 2);
    assert_eq!(d.get_sym_name(1), Some("fn"));
    assert_eq!(d.get_sym_name(0), None);
    assert_eq!(d.get_sym_name(7), None);
    assert_eq!(d.needed_names(), vec![b"libc".to_vec()]);
    assert_eq!(d.sysv_hash().map(|h| h.to_vec()), Some(vec![1, 2, 0, 0, 0]));
    assert_eq!(d.relocations(), vec![(R_X86_64_RELATIVE, 0, 0x600, Some(0x180))]);
    assert_eq!(d.init, Some(0x10120));
    assert_eq!(d.tls_size, 16);
    assert_eq!(d.tls_align, 8);
    assert_eq!(d.tls_image, Some(vec![1, 2, 3, 4]));
    assert_eq!(d.relro_segment().map(|p| p.p_vaddr), Some(0x600));
    assert_eq!(d.str_table(), b"\0fn\0libc\0");
    assert!(d.version_data().is_none());
    assert!(d.get_version_req(1).is_none());
    assert!(d.gnu_hash().is_none());
    assert_eq!(d.base_addr(), 0x10000);
}

#[test]
fn load_library_errors() {
    let image = library_image();
    let mut mem = Memory::new(0x10000, 0x4000);
    let mut bad = image.clone();
    bad[0] = 0;
    assert_eq!(DSO::new_library("x", &bad, 0x10000, Arch::X86_64, &mut mem).err(), Some(LoadError::BadElf));
    assert_eq!(DSO::new_library("x", &image[..32].to_vec(), 0x10000, Arch::X86_64, &mut mem).err(), Some(LoadError::BadElf));
    assert_eq!(DSO::new_library("x", &image, 0x10000, Arch::AArch64, &mut mem).err(), Some(LoadError::WrongArch));
    let mut no_load = ehdr_bytes(62, 64, 1, 0);
    no_load.extend_from_slice(&phdr_bytes(&ph(PT_TLS, 0, 0, 0, 0)));
    assert_eq!(DSO::new_library("x", &no_load, 0x10000, Arch::X86_64, &mut mem).err(), Some(LoadError::NoLoadSegment));
    let mut short = ehdr_bytes(62, 64, 3, 0);
    short.extend_from_slice(&phdr_bytes(&ph(PT_LOAD, 0, 0, 0x40, 0x40)));
    assert_eq!(DSO::new_library("x", &short, 0x10000, Arch::X86_64, &mut mem).err(), Some(LoadError::BadElf));
    assert_eq!(DSO::new_library("x", &image, 0x13800, Arch::X86_64, &mut mem).err(), Some(LoadError::MapFailed));
}

#[test]
fn link_loaded_library_image() {
    let image = library_image();
    let mut mem = Memory::new(0x3f0000, 0x20000);
    let lib = DSO::new_library("libfn.so", &image, 0x400000, Arch::X86_64, &mut mem).unwrap();
    let mut main = DSO::empty();
    main.name = b"main".to_vec();
    main.str_table = Some(b"\0libfn.so\0".to_vec());
    main.dynamic = Some(vec![Dyn { d_tag: DT_NEEDED, d_val: 1 }]);
    let mut l = Linker::new(Arch::X86_64, &[]);
    let inits = l.link(main, &mut vec![lib], &mut mem, 0x3f8000).unwrap();
    assert_eq!(inits, vec![0x400120]);
    assert_eq!(mem.read_u64(0x400600), Some(0x400180));
    assert!(!mem.is_writable(0x400600, 8));
    assert_eq!(l.dlsym(0, "fn"), Some(0x400180));
    assert_eq!(l.objects[1].tls_module_id, 2);
}

#[test]
fn executable_from_auxv() {
    let mut mem = Memory::new(0x400000, 0x2000);
    let phdrs = [ph(PT_LOAD, 0, 0x400000, 0x1000, 0x1000), ph(PT_DYNAMIC, 0x300, 0x400300, 0x20, 0x20)];
    for (i, p) in phdrs.iter().enumerate() {
        assert!(mem.write_bytes(0x400040 + 56 * i as u64, &phdr_bytes(p)));
    }
    assert!(mem.write_bytes(0x400300, &dyn_bytes(&[(DT_INIT_ARRAY, 0x400800), (DT_INIT_ARRAYSZ, 16), (DT_NULL, 0)])));
    let d = DSO::new_executable(&mem, AuxInfo { phdr: 0x400040, phnum: 2, entry: 0x401000 }).unwrap();
    assert_eq!(d.base_addr, 0);
    assert_eq!(d.tls_size, 0);
    assert!(d.tls_image.is_none());
    assert_eq!(d.name, b"main".to_vec());
    assert_eq!(d.entry_point, 0x401000);
    assert_eq!(d.tls_module_id, 1);
    assert_eq!(d.init_array, Some((0x400800, 2)));
    assert_eq!(d.dynamic.as_ref().map(|v| v.len()), Some(2));
    assert!(DSO::new_executable(&mem, AuxInfo { phdr: 0x401ff0, phnum: 2, entry: 0 }).is_none());
    let (dynamic, base) = DSO::parse_phdrs_for_dynamic(&phdrs, 0x400040);
    assert_eq!((dynamic, base), (Some(0x400300), 0));
    let pie = [ph(PT_LOAD, 0, 0, 0x1000, 0x1000), ph(PT_DYNAMIC, 0x300, 0x300, 0x20, 0x20)];
    assert_eq!(DSO::parse_phdrs_for_dynamic(&pie, 0x555555554040), (Some(0x555555554300), 0x555555554000));
}

#[test]
fn gnu_hash_sizes_symbol_table() {
    let mut mem = Memory::new(0x1000, 0x1000);
    // 2 buckets, symoffset 1, 1 bloom word; buckets [1, 3]; chain for 1..=4 ends at 4
    let mut h = Vec::new();
    for w in [2u32, 1, 1, 6] {
        h.extend_from_slice(&w.to_le_bytes());
    }
    h.extend_from_slice(&0u64.to_le_bytes());
    for w in [1u32, 3, 0, 0, 2, 5] {
        h.extend_from_slice(&w.to_le_bytes());
    }
    assert!(mem.write_bytes(0x1100, &h));
    let mut d = DSO::empty();
    d.base_addr = 0x1000;
    d.dynamic = Some(vec![Dyn { d_tag: DT_GNU_HASH, d_val: 0x100 }, Dyn { d_tag: DT_SYMTAB, d_val: 0x200 }]);
    d.parse_dynamic(&mem);
    assert_eq!(d.gnu_hash().map(|g| g.nsyms), Some(5));
    assert_eq!(d.sym_table.as_ref().map(|t| t.len()), Some(5));
    assert_eq!(GnuHash::new().nsyms, 0);
}

#[test]
fn initial_stack_layout() {
    let stack = [2, 0x7000, 0x7008, 0, 0x7100, 0, 3, 0x400040, 5, 9, 9, 0x401000, 3, 0x400080, 0, 0];
    let s = parse_initial_stack(&stack).unwrap();
    assert_eq!(s.argc, 2);
    assert_eq!(s.envp_index, 4);
    assert_eq!(s.envc, 1);
    assert_eq!(s.aux, AuxInfo { phdr: 0x400080, phnum: 9, entry: 0x401000 });
    assert!(parse_initial_stack(&[2, 1, 2, 0, 5]).is_none());
    assert!(parse_initial_stack(&[]).is_none());
}

#[test]
fn tunables_parse() {
    assert_eq!(Linker::parse_surplus_from_tunable_string(b"glibc.rtld.optional_static_tls=4096"), Some(4096));
    assert_eq!(Linker::parse_surplus_from_tunable_string(b"a=b:glibc.rtld.optional_static_tls=12x:c=1"), Some(12));
    assert_eq!(Linker::parse_surplus_from_tunable_string(b"xglibc.rtld.optional_static_tls=5"), None);
    assert_eq!(Linker::parse_surplus_from_tunable_string(b"glibc.rtld.optional_static_tls=99999999999999999999999"), None);
    assert_eq!(Linker::parse_surplus_from_tunable_string(b""), None);
    assert_eq!(Linker::parse_tunables(&["HOME=/", "GLIBC_TUNABLES=glibc.rtld.optional_static_tls=64"]), Some(64));
    assert_eq!(Linker::new(Arch::X86_64, &["HOME=/"]).surplus_size, 2048);
    assert_eq!(Linker::new(Arch::X86_64, &["GLIBC_TUNABLES=glibc.rtld.optional_static_tls=0"]).surplus_size, 0);
}

#[test]
fn try_allocate_from_surplus() {
    let mut l = Linker::with_surplus(Arch::X86_64, 256);
    assert!(l.layout_static_tls());
    assert_eq!(l.static_tls_size, 256);
    assert_eq!(l.try_allocate_static_tls(10, 1), Some(0));
    assert_eq!(l.try_allocate_static_tls(16, 16), Some(16));
    assert_eq!(l.surplus_remaining, 256 - 32);
    assert_eq!(l.try_allocate_static_tls(300, 8), None);
    assert_eq!(l.surplus_remaining, 224);
}

#[test]
fn tcb_register_check() {
    let mut mem = Memory::new(0x1000, 0x1000);
    assert_eq!(Tcb::current_ptr(0, &mem), None);
    assert_eq!(Tcb::current_ptr(0x1100, &mem), None);
    assert!(mem.write_bytes(0x1108, &TCB_SIZE.to_le_bytes().to_vec()));
    assert_eq!(Tcb::current_ptr(0x1100, &mem), Some(0x1100));
    assert_eq!(Tcb::current_ptr(0x5000, &mem), None);
}

#[test]
fn symbol_name_not_utf8() {
    let mut d = DSO::empty();
    d.str_table = Some(vec![0, 0xff, 0xfe, 0, b'o', b'k']);
    d.sym_table = Some(vec![
        Sym { st_name: 1, st_info: 0, st_other: 0, st_shndx: 1, st_value: 0, st_size: 0 },
        Sym { st_name: 4, st_info: 0, st_other: 0, st_shndx: 1, st_value: 0, st_size: 0 },
    ]);
    assert_eq!(d.get_sym_name(0), None);
    assert_eq!(d.get_sym_name(1), None);
    d.str_table = Some(vec![0, 0xce, 0xbb, 0, b'o', b'k', 0]);
    assert_eq!(d.get_sym_name(0), Some("\u{3bb}"));
    assert_eq!(d.get_sym_name(1), Some("ok"));
}

#[test]
fn version_requirements() {
    let mut mem = Memory::new(0x1000, 0x1000);
    // Verneed: version 1, 2 aux records at +16, no next
    let mut need = Vec::new();
    need.extend_from_slice(&1u16.to_le_bytes());
    need.extend_from_slice(&2u16.to_le_bytes());
    need.extend_from_slice(&1u32.to_le_bytes());
    need.extend_from_slice(&16u32.to_le_bytes());
    need.extend_from_slice(&0u32.to_le_bytes());
    for (hash, other, name, next) in [(0x0d696910u32, 2u16, 6u32, 16u32), (0x0d696911, 3, 18, 0)] {
        need.extend_from_slice(&hash.to_le_bytes());
        need.extend_from_slice(&0u16.to_le_bytes());
        need.extend_from_slice(&other.to_le_bytes());
        need.extend_from_slice(&name.to_le_bytes());
        need.extend_from_slice(&next.to_le_bytes());
    }
    assert!(mem.write_bytes(0x1200, &need));
    let mut d = DSO::empty();
    d.str_table = Some(b"\0libc\0GLIBC_2.2.5\0GLIBC_2.34\0".to_vec());
    d.verneed = Some(0x1200);
    d.verneed_num = 1;
    d.versym = Some(vec![0, 1, 2, 0x8003, 7]);
    d.parse_version_needs(&mem);
    assert_eq!(d.version_needs.len(), 2);
    assert!(d.get_version_req(0).is_none());
    assert!(d.get_version_req(1).is_none());
    let r = d.get_version_req(2).unwrap();
    assert_eq!(r.name, b"GLIBC_2.2.5".to_vec());
    assert_eq!(r.hash, 0x0d696910);
    assert_eq!(d.get_version_req(3).unwrap().name, b"GLIBC_2.34".to_vec());
    assert!(d.get_version_req(4).is_none());
    assert!(d.get_version_req(9).is_none());
}

#[test]
fn executable_tls_header() {
    let mut mem = Memory::new(0x400000, 0x2000);
    let phdrs = [ph(PT_LOAD, 0, 0x400000, 0x1000, 0x1000), ph(PT_TLS, 0x900, 0x400900, 3, 32)];
    for (i, p) in phdrs.iter().enumerate() {
        assert!(mem.write_bytes(0x400040 + 56 * i as u64, &phdr_bytes(p)));
    }
    assert!(mem.write_bytes(0x400900, &vec![7, 8, 9]));
    let d = DSO::new_executable(&mem, AuxInfo { phdr: 0x400040, phnum: 2, entry: 0 }).unwrap();
    assert_eq!(d.tls_size, 32);
    assert_eq!(d.tls_align, 8);
    assert_eq!(d.tls_image, Some(vec![7, 8, 9]));
    assert_eq!(d.tls_module_id, 1);
}

#[test]
fn version_definitions() {
    let mut mem = Memory::new(0x1000, 0x1000);
    // two Verdef records, each with one Verdaux right after it
    let mut defs = Vec::new();
    for (ndx, hash, name, next) in [(1u16, 0x11u32, 1u32, 28u32), (2, 0x22, 5, 0)] {
        defs.extend_from_slice(&1u16.to_le_bytes());
        defs.extend_from_slice(&0u16.to_le_bytes());
        defs.extend_from_slice(&ndx.to_le_bytes());
        defs.extend_from_slice(&1u16.to_le_bytes());
        defs.extend_from_slice(&hash.to_le_bytes());
        defs.extend_from_slice(&20u32.to_le_bytes());
        defs.extend_from_slice(&next.to_le_bytes());
        defs.extend_from_slice(&name.to_le_bytes());
        defs.extend_from_slice(&0u32.to_le_bytes());
    }
    assert!(mem.write_bytes(0x1300, &defs));
    let mut d = DSO::empty();
    d.str_table = Some(b"\0lib\0V1\0".to_vec());
    d.verdef = Some(0x1300);
    d.verdef_num = 2;
    d.parse_version_defs(&mem);
    assert_eq!(d.version_defs.len(), 2);
    assert_eq!(d.version_defs[0].name, b"lib".to_vec());
    assert_eq!(d.version_defs[1].index, 2);
    assert_eq!(d.version_defs[1].name, b"V1".to_vec());
    assert_eq!(d.version_defs[1].hash, 0x22);
}
