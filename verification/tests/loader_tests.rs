use elf_loader::abi;
use elf_loader::arch::Arch;
use elf_loader::loader::Loader;
use elf_loader::object::ElfBinary;
use elf_loader::segment::load_span;
use elf_loader::arch::Phdr;
use elf_loader::dynamic::ElfRawDynamic;
use elf_loader::arch::Dyn;
use elf_loader::loader::decode_dyns;
use elf_loader::{Dylib, Error, UserData};

fn put16(b: &mut Vec<u8>, off: usize, v: u16) {
    b[off..off + 2].copy_from_slice(&v.to_le_bytes());
}

fn put32(b: &mut Vec<u8>, off: usize, v: u32) {
    b[off..off + 4].copy_from_slice(&v.to_le_bytes());
}

fn put64(b: &mut Vec<u8>, off: usize, v: u64) {
    b[off..off + 8].copy_from_slice(&v.to_le_bytes());
}

fn phdr(b: &mut Vec<u8>, off: usize, p_type: u32, p_offset: u64, p_vaddr: u64, filesz: u64, memsz: u64) {
    put32(b, off, p_type);
    put32(b, off + 4, 7);
    put64(b, off + 8, p_offset);
    put64(b, off + 16, p_vaddr);
    put64(b, off + 24, p_vaddr);
    put64(b, off + 32, filesz);
    put64(b, off + 40, memsz);
    put64(b, off + 48, 0x1000);
}

/// A minimal dynamic object: one LOAD segment mapping the whole file, a
/// dynamic table, a GNU hash table with one exported symbol "foo", and one
/// RELATIVE relocation.
fn tiny_elf() -> Vec<u8> {
    let mut b = vec![0u8; 0x1000];
    // ELF header
    b[0] = 0x7f;
    b[1] = 0x45;
    b[2] = 0x4c;
    b[3] = 0x46;
    b[4] = 2;
    b[5] = 1;
    put16(&mut b, 16, 3); // ET_DYN
    put16(&mut b, 18, 62); // EM_X86_64
    put64(&mut b, 24, 0x111); // e_entry
    put64(&mut b, 32, 64); // e_phoff
    put16(&mut b, 54, 56); // e_phentsize
    put16(&mut b, 56, 2); // e_phnum
    // program headers at 64: LOAD the whole file, DYNAMIC at 0x200
    phdr(&mut b, 64, abi::PT_LOAD, 0, 0, 0x1000, 0x1000);
    phdr(&mut b, 120, abi::PT_DYNAMIC, 0x200, 0x200, 0x70, 0x70);
    // dynamic table at 0x200
    let mut d: usize = 0x200;
    let mut tag = |b: &mut Vec<u8>, t: i64, v: u64| {
        put64(b, d, t as u64);
        put64(b, d + 8, v);
        d += 16;
    };
    tag(&mut b, abi::DT_GNU_HASH, 0x300);
    tag(&mut b, abi::DT_SYMTAB, 0x400);
    tag(&mut b, abi::DT_STRTAB, 0x500);
    tag(&mut b, abi::DT_STRSZ, 0x20);
    tag(&mut b, abi::DT_RELA, 0x600);
    tag(&mut b, abi::DT_RELASZ, 24);
    tag(&mut b, abi::DT_NULL, 0);
    // GNU hash at 0x300: nbucket 1, symndx 1, no bloom words
    put32(&mut b, 0x300, 1);
    put32(&mut b, 0x304, 1);
    put32(&mut b, 0x308, 0);
    put32(&mut b, 0x30c, 0);
    put32(&mut b, 0x310, 1); // bucket 0 -> symbol 1
    let h = elf_loader::symbol::gnu_hash(b"foo");
    put32(&mut b, 0x314, h | 1); // chain: end of chain at symbol 1
    // symbol table at 0x400: symbol 0 undefined, symbol 1 = "foo"
    put32(&mut b, 0x418, 1); // st_name
    b[0x41c] = 0x12; // GLOBAL FUNC
    put16(&mut b, 0x41e, 1); // defined
    put64(&mut b, 0x420, 0x700); // st_value
    // string table at 0x500: "\0foo\0"
    b[0x501] = b'f';
    b[0x502] = b'o';
    b[0x503] = b'o';
    // one RELATIVE relocation at 0x600: write base + 0x900 at 0x800
    put64(&mut b, 0x600, 0x800);
    put64(&mut b, 0x608, 8); // R_X86_64_RELATIVE
    put64(&mut b, 0x610, 0x900);
    b
}

/// The tiny object with version tables added: symbol "foo" carries the
/// version definition "V2".
fn versioned_elf() -> Vec<u8> {
    let mut b = tiny_elf();
    // grow the dynamic table: the entries sit at 0x200 and DT_NULL was the
    // seventh; overwrite it and append the version tags
    let mut d: usize = 0x200 + 6 * 16;
    let mut tag = |b: &mut Vec<u8>, t: i64, v: u64| {
        put64(b, d, t as u64);
        put64(b, d + 8, v);
        d += 16;
    };
    tag(&mut b, abi::DT_VERSYM, 0x700);
    tag(&mut b, abi::DT_VERDEF, 0x720);
    tag(&mut b, abi::DT_VERDEFNUM, 1);
    tag(&mut b, abi::DT_NEEDED, 1);
    tag(&mut b, abi::DT_NULL, 0);
    // the string table grows to "\0foo\0V2\0"
    put64(&mut b, 0x200 + 3 * 16 + 8, 8); // DT_STRSZ
    b[0x505] = b'V';
    b[0x506] = b'2';
    // VERSYM at 0x700: symbol 0 local, symbol 1 -> version index 2
    put16(&mut b, 0x700, 0);
    put16(&mut b, 0x702, 2);
    // one verdef record at 0x720 with index 2, one auxiliary entry
    put16(&mut b, 0x720, 1); // vd_version
    put16(&mut b, 0x724, 2); // vd_ndx
    put16(&mut b, 0x726, 1); // vd_cnt
    put32(&mut b, 0x72c, 20); // vd_aux
    put32(&mut b, 0x730, 0); // vd_next
    put32(&mut b, 0x734, 5); // vda_name -> "V2"
    b
}

#[test]
fn versioned_lookup_through_the_loader() {
    let base: u64 = 0x10_0000;
    let loader = Loader::new(ElfBinary::new(String::from("versioned"), versioned_elf()));
    let dylib = loader.load_dylib(Arch::X86_64, base, false).ok().expect("load failed");
    assert_eq!(dylib.needed_libs(), &vec![b"foo".to_vec()]);
    let dylib = dylib.relocate(Vec::new(), &Vec::new());
    let (lib, _) = dylib.finish().ok().expect("finish failed");
    let sym = lib.get_version("foo", "V2").ok().expect("versioned lookup failed");
    assert_eq!(sym.addr(), base + 0x700);
    assert!(lib.get_version("foo", "V3").is_err());
    let sym = lib.get("foo").ok().expect("unversioned lookup failed");
    assert_eq!(sym.addr(), base + 0x700);
}

#[test]
fn load_relocate_and_look_up() {
    let base: u64 = 0x7f00_0000;
    let object = ElfBinary::new(String::from("tiny"), tiny_elf());
    let loader = Loader::new(object);
    let dylib = loader.load_dylib(Arch::X86_64, base, false).ok().expect("load failed");
    assert_eq!(dylib.base(), base);
    assert_eq!(dylib.entry(), base + 0x111);
    assert_eq!(dylib.phdrs().len(), 2);
    let dylib = dylib.relocate(Vec::new(), &Vec::new());
    assert!(dylib.is_finished());
    assert_eq!(dylib.segments.read_word(0x800), base + 0x900);
    let (lib, init_calls) = dylib.finish().ok().expect("finish failed");
    assert!(init_calls.is_empty());
    let sym = lib.get("foo").ok().expect("lookup failed");
    assert_eq!(sym.addr(), base + 0x700);
    match lib.get("bar") {
        Err(Error::FindSymbolError { msg }) => {
            assert_eq!(msg, "can not find symbol:bar");
        },
        _ => panic!("lookup of an absent name should fail"),
    }
}

#[test]
fn bad_magic_is_rejected() {
    let mut bytes = tiny_elf();
    bytes[0] = 0;
    let loader = Loader::new(ElfBinary::new(String::from("bad"), bytes));
    match loader.load_dylib(Arch::X86_64, 0x1000, false) {
        Err(Error::ParseEhdrError { .. }) => {},
        _ => panic!("an object without the ELF magic should be rejected"),
    }
}

#[test]
fn wrong_machine_is_rejected() {
    let bytes = tiny_elf();
    let loader = Loader::new(ElfBinary::new(String::from("wrong_arch"), bytes));
    match loader.load_dylib(Arch::Riscv64, 0x1000, false) {
        Err(Error::ParseEhdrError { .. }) => {},
        _ => panic!("a wrong e_machine should be rejected"),
    }
}

#[test]
fn load_span_covers_all_load_segments() {
    let mk = |vaddr: u64, memsz: u64| Phdr {
        p_type: abi::PT_LOAD,
        p_flags: 0,
        p_offset: 0,
        p_vaddr: vaddr,
        p_paddr: 0,
        p_filesz: 0,
        p_memsz: memsz,
        p_align: 0x1000,
    };
    let phdrs = vec![mk(0x100, 0x200), mk(0x2000, 0x100)];
    let (lo, hi) = load_span(&phdrs).expect("span vanished");
    assert_eq!(lo, 0);
    assert_eq!(hi, 0x3000);
    for p in &phdrs {
        assert!(lo <= p.p_vaddr);
        assert!(p.p_vaddr + p.p_memsz <= hi);
    }
    let none = vec![Phdr { p_type: abi::PT_DYNAMIC, ..mk(0, 0) }];
    assert!(load_span(&none).is_none());
}

#[test]
fn dynamic_folding_is_linear() {
    let entries = vec![
        Dyn { d_tag: abi::DT_GNU_HASH, d_un: 0x300 },
        Dyn { d_tag: abi::DT_SYMTAB, d_un: 0x400 },
        Dyn { d_tag: abi::DT_STRTAB, d_un: 0x500 },
        Dyn { d_tag: abi::DT_STRSZ, d_un: 0x20 },
        Dyn { d_tag: abi::DT_RELA, d_un: 0x600 },
        Dyn { d_tag: abi::DT_RELASZ, d_un: 48 },
        Dyn { d_tag: abi::DT_INIT, d_un: 0x700 },
        Dyn { d_tag: abi::DT_INIT_ARRAY, d_un: 0x800 },
        Dyn { d_tag: abi::DT_INIT_ARRAYSZ, d_un: 16 },
        Dyn { d_tag: abi::DT_NULL, d_un: 0 },
    ];
    let raw = ElfRawDynamic::new(&entries).ok().expect("decode failed");
    assert_eq!(raw.hash_off, 0x300);
    let base: u64 = 0x7000_0000;
    let dynamic = raw.finish(base);
    // every resolved address is base + offset
    assert_eq!(dynamic.hashtab, base + 0x300);
    assert_eq!(dynamic.symtab, base + 0x400);
    assert_eq!(dynamic.strtab, base + 0x500);
    assert_eq!(dynamic.init_fn, Some(base + 0x700));
    assert_eq!(dynamic.dynrel, Some((base + 0x600, 2)));
    assert_eq!(dynamic.init_array, Some((base + 0x800, 2)));
}

#[test]
fn missing_required_tag_is_reported() {
    let entries = vec![
        Dyn { d_tag: abi::DT_SYMTAB, d_un: 0x400 },
        Dyn { d_tag: abi::DT_STRTAB, d_un: 0x500 },
        Dyn { d_tag: abi::DT_STRSZ, d_un: 0x20 },
        Dyn { d_tag: abi::DT_NULL, d_un: 0 },
    ];
    match ElfRawDynamic::new(&entries) {
        Err(Error::ParseDynamicError { msg }) => {
            assert_eq!(msg, "dynamic section does not have DT_GNU_HASH");
        },
        _ => panic!("a missing DT_GNU_HASH should be reported"),
    }
}

#[test]
fn later_dynamic_entry_overwrites_earlier() {
    let entries = vec![
        Dyn { d_tag: abi::DT_GNU_HASH, d_un: 0x100 },
        Dyn { d_tag: abi::DT_GNU_HASH, d_un: 0x300 },
        Dyn { d_tag: abi::DT_SYMTAB, d_un: 0x400 },
        Dyn { d_tag: abi::DT_STRTAB, d_un: 0x500 },
        Dyn { d_tag: abi::DT_STRSZ, d_un: 0x20 },
        Dyn { d_tag: abi::DT_NULL, d_un: 0 },
        Dyn { d_tag: abi::DT_GNU_HASH, d_un: 0x999 },
    ];
    let raw = ElfRawDynamic::new(&entries).ok().expect("decode failed");
    // the last entry before DT_NULL wins; entries past DT_NULL are ignored
    assert_eq!(raw.hash_off, 0x300);
}

#[test]
fn object_read_is_exact() {
    let object = ElfBinary::new(String::from("buf"), vec![1, 2, 3, 4, 5]);
    assert_eq!(object.read(1, 3).ok(), Some(vec![2, 3, 4]));
    assert_eq!(object.file_name(), "buf");
    match object.read(3, 4) {
        Err(Error::IOError { .. }) => {},
        _ => panic!("a short read should fail"),
    }
}

#[test]
fn gnu_hash_values() {
    assert_eq!(elf_loader::symbol::gnu_hash(b""), 5381);
    assert_eq!(elf_loader::symbol::gnu_hash(b"a"), 5381 * 33 + 97);
}

#[test]
fn from_raw_rebuilds_the_symbol_index() {
    let base: u64 = 0x2_0000;
    let loader = Loader::new(ElfBinary::new(String::from("tiny"), tiny_elf()));
    let dylib = loader.load_dylib(Arch::X86_64, base, false).ok().expect("load failed");
    let segments = dylib.segments;
    let dyns = decode_dyns(&segments.memory, 0x200);
    let raw = ElfRawDynamic::new(&dyns).ok().expect("dynamic decode failed");
    let dynamic = raw.finish(base);
    let lib = Dylib::from_raw(
        String::from("raw"),
        base,
        dynamic,
        None,
        segments,
        UserData::empty(),
    )
    .ok()
    .expect("from_raw failed");
    let sym = lib.get("foo").ok().expect("lookup failed");
    assert_eq!(sym.addr(), base + 0x700);
}
