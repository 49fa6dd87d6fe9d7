use ld_so::dso::DSO;
use ld_so::elf::{Dyn, Phdr, Rela, Sym, DT_NEEDED, PT_GNU_RELRO, PT_LOAD, R_X86_64_COPY, R_X86_64_GLOB_DAT,
    R_X86_64_RELATIVE};
use ld_so::linker::{LinkError, Linker};
use ld_so::memory::Memory;
use ld_so::reloc::Arch;

const TCB: u64 = 0x3f8000;

fn load(vaddr: u64, size: u64) -> Phdr {
    Phdr { p_type: PT_LOAD, p_flags: 6, p_offset: 0, p_vaddr: vaddr, p_paddr: vaddr, p_filesz: size, p_memsz: size, p_align: 0x1000 }
}

fn sym(name: u32, shndx: u16, value: u64, size: u64) -> Sym {
    Sym { st_name: name, st_info: 0x11, st_other: 0, st_shndx: shndx, st_value: value, st_size: size }
}

fn rela(offset: u64, kind: u32, sym: u64, addend: u64) -> Rela {
    Rela { r_offset: offset, r_info: (sym << 32) | kind as u64, r_addend: addend }
}

fn object(name: &str, base: u64, strs: &[u8], syms: Vec<Sym>, relas: Vec<Rela>, needed: &[u64]) -> DSO {
    let mut d = DSO::empty();
    d.name = name.as_bytes().to_vec();
    d.base_addr = base;
    d.phdrs = vec![load(0, 0x4000)];
    d.str_table = Some(strs.to_vec());
    d.sym_table = Some(syms);
    d.rela_dyn = Some(relas);
    d.dynamic = Some(needed.iter().map(|&off| Dyn { d_tag: DT_NEEDED, d_val: off }).collect());
    d
}

fn memory() -> Memory {
    Memory::new(0x3f0000, 0x401000)
}

#[test]
fn tiny_pie_relative() {
    let main = object("main", 0x400000, b"\0", vec![sym(0, 0, 0, 0)], vec![rela(0x3000, R_X86_64_RELATIVE, 0, 0x2000)], &[]);
    let mut mem = memory();
    let mut l = Linker::new(Arch::X86_64, &[]);
    let mut libs = Vec::new();
    let inits = l.link(main, &mut libs, &mut mem, TCB).unwrap();
    assert!(inits.is_empty());
    assert_eq!(mem.read_u64(0x403000), Some(0x402000));
}

#[test]
fn symbol_in_dependency() {
    let main = object("main", 0x400000, b"\0foo\0libfoo.so\0", vec![sym(0, 0, 0, 0), sym(1, 0, 0, 0)],
        vec![rela(0x3000, R_X86_64_GLOB_DAT, 1, 0)], &[5]);
    let libfoo = object("libfoo.so", 0x7f0000, b"\0foo\0", vec![sym(0, 0, 0, 0), sym(1, 1, 0x500, 8)], vec![], &[]);
    let mut mem = memory();
    let mut l = Linker::new(Arch::X86_64, &[]);
    let mut libs = vec![libfoo];
    l.link(main, &mut libs, &mut mem, TCB).unwrap();
    assert_eq!(mem.read_u64(0x403000), Some(0x7f0500));
    assert_eq!(l.dlsym(0, "foo"), Some(0x7f0500));
    assert!(libs.is_empty());
}

#[test]
fn copy_relocation() {
    let main = object("main", 0x400000, b"\0x\0libdata.so\0", vec![sym(0, 0, 0, 0), sym(1, 0, 0, 16)],
        vec![rela(0x3000, R_X86_64_COPY, 1, 0)], &[3]);
    let libdata = object("libdata.so", 0x7f0000, b"\0x\0", vec![sym(0, 0, 0, 0), sym(1, 1, 0x600, 16)], vec![], &[]);
    let mut mem = memory();
    let data: Vec<u8> = (1..=16).collect();
    assert!(mem.write_bytes(0x7f0600, &data));
    let mut l = Linker::new(Arch::X86_64, &[]);
    let mut libs = vec![libdata];
    l.link(main, &mut libs, &mut mem, TCB).unwrap();
    assert_eq!(mem.read_bytes(0x403000, 16), Some(data));
}

#[test]
fn first_writer_wins() {
    let main = object("main", 0x400000, b"\0liba.so\0libb.so\0", vec![sym(0, 0, 0, 0)], vec![], &[1, 9]);
    let liba = object("liba.so", 0x500000, b"\0bar\0", vec![sym(0, 0, 0, 0), sym(1, 1, 0x100, 4)], vec![], &[]);
    let libb = object("libb.so", 0x600000, b"\0bar\0", vec![sym(0, 0, 0, 0), sym(1, 1, 0x200, 4)],
        vec![rela(0x3000, R_X86_64_GLOB_DAT, 1, 0)], &[]);
    let mut mem = memory();
    let mut l = Linker::new(Arch::X86_64, &[]);
    let mut libs = vec![libb, liba];
    l.link(main, &mut libs, &mut mem, TCB).unwrap();
    assert_eq!(l.dlsym(0, "bar"), Some(0x500100));
    assert_eq!(mem.read_u64(0x603000), Some(0x500100));
    assert_eq!(l.objects[1].name, b"liba.so".to_vec());
    assert_eq!(l.objects[2].name, b"libb.so".to_vec());
}

#[test]
fn resolved_address_is_base_plus_value() {
    let main = object("main", 0x400000, b"\0f\0g\0", vec![sym(0, 0, 0, 0), sym(1, 1, 0x10, 0), sym(3, 0, 0x20, 0)], vec![], &[]);
    let mut mem = memory();
    let mut l = Linker::new(Arch::X86_64, &[]);
    l.link(main, &mut Vec::new(), &mut mem, TCB).unwrap();
    assert_eq!(l.dlsym(0, "f"), Some(0x400010));
    assert_eq!(l.dlsym(0, "g"), None);
    assert_eq!(l.dlsym(1, "f"), Some(0x400010));
    assert_eq!(l.dlsym(2, "f"), None);
}

#[test]
fn relocation_outside_image_skipped() {
    let main = object("main", 0x400000, b"\0", vec![sym(0, 0, 0, 0)],
        vec![rela(0x3ffc, R_X86_64_RELATIVE, 0, 7), rela(0x3ff8, R_X86_64_RELATIVE, 0, 9)], &[]);
    let mut mem = memory();
    let mut l = Linker::new(Arch::X86_64, &[]);
    l.link(main, &mut Vec::new(), &mut mem, TCB).unwrap();
    assert_eq!(mem.read_u64(0x403ffc), Some(0));
    assert_eq!(mem.read_u64(0x403ff8), Some(0x400009));
}

#[test]
fn unresolved_symbol_skipped() {
    let main = object("main", 0x400000, b"\0nope\0", vec![sym(0, 0, 0, 0), sym(1, 0, 0, 0)],
        vec![rela(0x3000, R_X86_64_GLOB_DAT, 1, 0)], &[]);
    let mut mem = memory();
    let mut l = Linker::new(Arch::X86_64, &[]);
    l.link(main, &mut Vec::new(), &mut mem, TCB).unwrap();
    assert_eq!(mem.read_u64(0x403000), Some(0));
}

#[test]
fn relro_is_read_only_after_link() {
    let mut main = object("main", 0x400000, b"\0", vec![sym(0, 0, 0, 0)], vec![rela(0x2000, R_X86_64_RELATIVE, 0, 0x10)], &[]);
    main.phdrs.push(Phdr { p_type: PT_GNU_RELRO, p_flags: 4, p_offset: 0, p_vaddr: 0x2000, p_paddr: 0, p_filesz: 0x1000, p_memsz: 0x1000, p_align: 1 });
    let mut mem = memory();
    let mut l = Linker::new(Arch::X86_64, &[]);
    l.link(main, &mut Vec::new(), &mut mem, TCB).unwrap();
    assert_eq!(mem.read_u64(0x402000), Some(0x400010));
    assert!(!mem.write_bytes(0x402800, &vec![1, 2, 3]));
    assert!(!mem.is_writable(0x402fff, 1));
    assert!(mem.is_writable(0x403000, 8));
    assert_eq!(mem.read_u64(0x402800), Some(0));
}

#[test]
fn initializers_reverse_load_order() {
    let mut main = object("main", 0x400000, b"\0liba.so\0", vec![sym(0, 0, 0, 0)], vec![], &[1]);
    main.init = Some(0x401000);
    main.init_array = Some((0x403000, 2));
    let mut liba = object("liba.so", 0x500000, b"\0", vec![sym(0, 0, 0, 0)], vec![], &[]);
    liba.init = Some(0x501000);
    let mut mem = memory();
    let mut arr = 0x401100u64.to_le_bytes().to_vec();
    arr.extend_from_slice(&0x401200u64.to_le_bytes());
    assert!(mem.write_bytes(0x403000, &arr));
    let mut l = Linker::new(Arch::X86_64, &[]);
    let inits = l.link(main, &mut vec![liba], &mut mem, TCB).unwrap();
    assert_eq!(inits, vec![0x501000, 0x401000, 0x401100, 0x401200]);
}

#[test]
fn tls_images_copied_and_zeroed() {
    let mut main = object("main", 0x400000, b"\0liba.so\0", vec![sym(0, 0, 0, 0)], vec![], &[1]);
    main.tls_size = 24;
    main.tls_align = 8;
    main.tls_image = Some(vec![0xaa; 10]);
    let mut liba = object("liba.so", 0x500000, b"\0", vec![sym(0, 0, 0, 0)], vec![], &[]);
    liba.tls_size = 16;
    liba.tls_align = 16;
    liba.tls_image = Some(vec![0xbb; 4]);
    let mut mem = memory();
    assert!(mem.write_bytes(TCB - 2048 - 64, &vec![0x55; 64]));
    let mut l = Linker::new(Arch::X86_64, &[]);
    l.link(main, &mut vec![liba], &mut mem, TCB).unwrap();
    assert_eq!(l.static_tls_end_offset, 48);
    assert_eq!(l.static_tls_size, 48 + 2048);
    assert_eq!(l.objects[0].tls_offset, 0);
    assert_eq!(l.objects[0].tls_module_id, 1);
    assert_eq!(l.objects[1].tls_offset, 32);
    assert_eq!(l.objects[1].tls_module_id, 2);
    let bs = TCB - (48 + 2048);
    let block = mem.read_bytes(bs, 48).unwrap();
    assert_eq!(&block[0..10], &[0xaa; 10]);
    assert_eq!(&block[10..24], &[0; 14]);
    assert_eq!(&block[32..36], &[0xbb; 4]);
    assert_eq!(&block[36..48], &[0; 12]);
    assert_eq!(mem.read_u64(TCB), Some(TCB));
    assert_eq!(mem.read_u64(TCB + 8), Some(128));
    assert_eq!(mem.read_u64(TCB + 128), Some(1));
    assert_eq!(mem.read_u64(TCB + 136), Some(2));
    assert_eq!(mem.read_u64(TCB + 144), Some(1));
    assert_eq!(mem.read_u64(TCB + 152), Some(bs));
    assert_eq!(mem.read_u64(TCB + 168), Some(bs + 32));
}

#[test]
fn link_error_tls_layout() {
    let mut main = object("main", 0x400000, b"\0", vec![sym(0, 0, 0, 0)], vec![], &[]);
    main.tls_size = u64::MAX - 10;
    main.tls_align = 1;
    let mut mem = memory();
    let mut l = Linker::new(Arch::X86_64, &[]);
    assert_eq!(l.link(main, &mut Vec::new(), &mut mem, TCB), Err(LinkError::TlsLayout));
}

#[test]
fn link_error_tcb() {
    let main = object("main", 0x400000, b"\0", vec![sym(0, 0, 0, 0)], vec![], &[]);
    let mut mem = memory();
    let mut l = Linker::new(Arch::X86_64, &[]);
    assert_eq!(l.link(main, &mut Vec::new(), &mut mem, 0x1000), Err(LinkError::Tcb));
}

#[test]
fn link_error_tls_block() {
    let mut main = object("main", 0x400000, b"\0", vec![sym(0, 0, 0, 0)], vec![], &[]);
    main.tls_size = 4;
    main.tls_align = 4;
    main.tls_image = Some(vec![1; 8]);
    let mut mem = memory();
    let mut l = Linker::new(Arch::X86_64, &[]);
    assert_eq!(l.link(main, &mut Vec::new(), &mut mem, TCB), Err(LinkError::TlsBlock));
}

#[test]
fn dlopen_twice_same_handle() {
    let main = object("main", 0x400000, b"\0", vec![sym(0, 0, 0, 0)], vec![], &[]);
    let mut libx = object("libx.so", 0x500000, b"\0libx_fn\0", vec![sym(0, 0, 0, 0), sym(1, 1, 0x40, 0)],
        vec![rela(0x3000, R_X86_64_RELATIVE, 0, 0x77)], &[]);
    libx.init = Some(0x501234);
    let mut mem = memory();
    let mut l = Linker::new(Arch::X86_64, &[]);
    let mut libs = vec![libx];
    l.link(main, &mut libs, &mut mem, TCB).unwrap();
    assert_eq!(libs.len(), 1);
    let first = l.dlopen("libx.so", &mut libs, &mut mem).unwrap();
    assert_eq!(first.handle, 2);
    assert_eq!(first.inits, vec![0x501234]);
    assert_eq!(mem.read_u64(0x503000), Some(0x500077));
    assert_eq!(l.dlsym(first.handle, "libx_fn"), Some(0x500040));
    let second = l.dlopen("libx.so", &mut libs, &mut mem).unwrap();
    assert_eq!(second.handle, 2);
    assert!(second.inits.is_empty());
    assert!(l.dlopen("libmissing.so", &mut libs, &mut mem).is_none());
}

#[test]
fn dlopen_tls_surplus() {
    let main = object("main", 0x400000, b"\0", vec![sym(0, 0, 0, 0)], vec![], &[]);
    let mut small = object("libsmall.so", 0x500000, b"\0", vec![sym(0, 0, 0, 0)], vec![], &[]);
    small.tls_size = 100;
    small.tls_align = 16;
    let mut big = object("libbig.so", 0x600000, b"\0", vec![sym(0, 0, 0, 0)], vec![], &[]);
    big.tls_size = 4096;
    big.tls_align = 16;
    let mut mem = memory();
    let mut l = Linker::new(Arch::X86_64, &["GLIBC_TUNABLES=glibc.rtld.optional_static_tls=512"]);
    assert_eq!(l.surplus_size, 512);
    let mut libs = vec![small, big];
    l.link(main, &mut libs, &mut mem, TCB).unwrap();
    let a = l.dlopen("libsmall.so", &mut libs, &mut mem).unwrap();
    assert_eq!(l.objects[(a.handle - 1) as usize].tls_offset, 0);
    assert_eq!(l.surplus_remaining, 412);
    let b = l.dlopen("libbig.so", &mut libs, &mut mem).unwrap();
    assert_eq!(l.dynamic_tls_modules, vec![b.handle]);
}

#[test]
fn get_entry_point_of_main() {
    let mut main = object("main", 0x400000, b"\0", vec![sym(0, 0, 0, 0)], vec![], &[]);
    main.entry_point = 0x401234;
    let mut l = Linker::new(Arch::X86_64, &[]);
    assert_eq!(l.get_entry_point(), 0);
    l.link(main, &mut Vec::new(), &mut memory(), TCB).unwrap();
    assert_eq!(l.get_entry_point(), 0x401234);
}

#[test]
fn tls_dtpmod_module_of_owner() {
    let main = object("main", 0x400000, b"\0tv\0liba.so\0libb.so\0", vec![sym(0, 0, 0, 0), sym(1, 0, 0, 0)],
        vec![rela(0x3000, ld_so::elf::R_X86_64_DTPMOD64, 1, 0)], &[4, 12]);
    let mut liba = object("liba.so", 0x500000, b"\0", vec![sym(0, 0, 0, 0)], vec![], &[]);
    liba.tls_size = 8;
    liba.tls_align = 8;
    let mut libb = object("libb.so", 0x600000, b"\0tv\0", vec![sym(0, 0, 0, 0), sym(1, 5, 0x10, 8)], vec![], &[]);
    libb.tls_size = 32;
    libb.tls_align = 16;
    let mut mem = memory();
    let mut l = Linker::new(Arch::X86_64, &[]);
    l.link(main, &mut vec![liba, libb], &mut mem, TCB).unwrap();
    assert_eq!(l.objects[2].tls_module_id, 3);
    assert_eq!(mem.read_u64(0x403000), Some(3));
}

#[test]
fn ifunc_uses_recorded_resolver_result() {
    let main = object("main", 0x400000, b"\0", vec![sym(0, 0, 0, 0)],
        vec![rela(0x3000, ld_so::elf::R_X86_64_IRELATIVE, 0, 0x100), rela(0x3008, ld_so::elf::R_X86_64_IRELATIVE, 0, 0x200)], &[]);
    let mut mem = memory();
    let mut l = Linker::new(Arch::X86_64, &[]);
    l.ifunc_results = vec![(0x400100, 0x401234)];
    l.link(main, &mut Vec::new(), &mut mem, TCB).unwrap();
    assert_eq!(mem.read_u64(0x403000), Some(0x401234));
    assert_eq!(mem.read_u64(0x403008), Some(0));
}

#[test]
fn every_relro_segment_protected() {
    let mut main = object("main", 0x400000, b"\0", vec![sym(0, 0, 0, 0)], vec![], &[]);
    main.phdrs.push(Phdr { p_type: PT_GNU_RELRO, p_flags: 4, p_offset: 0, p_vaddr: 0x1000, p_paddr: 0, p_filesz: 0x10, p_memsz: 0x10, p_align: 1 });
    main.phdrs.push(Phdr { p_type: PT_GNU_RELRO, p_flags: 4, p_offset: 0, p_vaddr: 0x2000, p_paddr: 0, p_filesz: 0x10, p_memsz: 0x10, p_align: 1 });
    let mut mem = memory();
    let mut l = Linker::new(Arch::X86_64, &[]);
    l.link(main, &mut Vec::new(), &mut mem, TCB).unwrap();
    assert!(!mem.is_writable(0x401008, 1));
    assert!(!mem.is_writable(0x402008, 1));
    assert!(mem.is_writable(0x401010, 1));
}
