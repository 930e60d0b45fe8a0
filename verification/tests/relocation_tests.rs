use elf_loader::arch::{Arch, ElfRela, ElfSymbol};
use elf_loader::relocation::ElfRelocation;
use elf_loader::segment::{ElfSegments, ELFRelro};
use elf_loader::symbol::{gnu_hash, SymbolData};
use elf_loader::{Dylib, ElfDylib, Error, RelocatedDylib, UserData};

fn rela(offset: u64, rtype: u32, sym: u32, addend: u64) -> ElfRela {
    ElfRela { r_offset: offset, r_info: ((sym as u64) << 32) | rtype as u64, r_addend: addend }
}

fn undef_sym() -> ElfSymbol {
    ElfSymbol { st_name: 0, st_info: 0, st_other: 0, st_shndx: 0, st_value: 0, st_size: 0 }
}

/// A symbol table whose named symbols all hang off one hash bucket, with a
/// consistent GNU hash chain.
fn symbol_data(named: Vec<(&str, u16, u64, u8)>, versions: Option<Vec<&str>>) -> SymbolData {
    let mut symbols = vec![undef_sym()];
    let mut strtab: Vec<u8> = vec![0];
    let mut chains: Vec<u32> = Vec::new();
    let n = named.len();
    for (i, (name, shndx, value, sttype)) in named.iter().enumerate() {
        let st_name = strtab.len() as u32;
        strtab.extend_from_slice(name.as_bytes());
        strtab.push(0);
        symbols.push(ElfSymbol {
            st_name,
            st_info: (1 << 4) | sttype,
            st_other: 0,
            st_shndx: *shndx,
            st_value: *value,
            st_size: 0,
        });
        let h = gnu_hash(name.as_bytes());
        let last = i + 1 == n;
        chains.push(if last { h | 1 } else { h & !1u32 });
    }
    let buckets = vec![if n == 0 { 0 } else { 1u32 }];
    let versions = versions.map(|vs| {
        let mut out: Vec<Vec<u8>> = vec![Vec::new()];
        for v in vs {
            out.push(v.as_bytes().to_vec());
        }
        out
    });
    SymbolData::new(symbols, strtab, 1, buckets, chains, versions)
}

fn image(
    named: Vec<(&str, u16, u64, u8)>,
    base: u64,
    memlen: usize,
    pltrel: Option<Vec<ElfRela>>,
    dynrel: Option<Vec<ElfRela>>,
    lazy: bool,
) -> ElfDylib {
    ElfDylib {
        name: String::from("test_object"),
        phdrs: Vec::new(),
        entry: 0,
        symbols: symbol_data(named, None),
        tls: None,
        segments: ElfSegments::new(base, vec![0u8; memlen]),
        fini_fn: None,
        fini_array: None,
        user_data: UserData::empty(),
        dep_libs: Vec::new(),
        relocation: ElfRelocation::new(pltrel, dynrel),
        relro: None,
        init_fn: None,
        init_array: None,
        needed_libs: Vec::new(),
        lazy,
        arch: Arch::X86_64,
    }
}

fn dep_lib(name: &str, named: Vec<(&str, u16, u64, u8)>, base: u64) -> RelocatedDylib {
    RelocatedDylib {
        inner: Dylib {
            name: String::from(name),
            symbols: symbol_data(named, None),
            tls: None,
            fini_fn: None,
            fini_array: None,
            user_data: UserData::empty(),
            dep_libs: Vec::new(),
            segments: ElfSegments::new(base, Vec::new()),
        },
    }
}

#[test]
fn relative_round_trip() {
    // three RELATIVE entries; after relocation each word reads base + addend
    let base: u64 = 0x7fff_0000_0000;
    let relative = Arch::X86_64.rel_relative();
    let dynrel = vec![
        rela(0x10, relative, 0, 0x200),
        rela(0x18, relative, 0, 0x208),
        rela(0x20, relative, 0, 0x210),
    ];
    let dylib = image(vec![], base, 0x1000, None, Some(dynrel), false);
    let dylib = dylib.relocate(Vec::new(), &Vec::new());
    assert!(dylib.is_finished());
    assert_eq!(dylib.segments.read_word(0x10), base + 0x200);
    assert_eq!(dylib.segments.read_word(0x18), base + 0x208);
    assert_eq!(dylib.segments.read_word(0x20), base + 0x210);
}

#[test]
fn missing_dependency() {
    let got = Arch::X86_64.rel_got();
    let dynrel = vec![rela(0x10, got, 1, 0)];
    let dylib = image(vec![("missing_sym", 0, 0, 2)], 0x1000, 0x100, None, Some(dynrel), false);
    let dylib = dylib.relocate(Vec::new(), &Vec::new());
    assert!(!dylib.is_finished());
    let err = dylib.finish();
    let (dylib, e) = match err {
        Err(p) => p,
        Ok(_) => panic!("finish succeeded on an unfinished image"),
    };
    match e {
        Error::RelocateError { msg } => {
            assert!(msg.contains("missing_sym"));
            assert_eq!(
                msg,
                "test_object: The symbols that have not been relocated:   [missing_sym] "
            );
        },
        _ => panic!("wrong error variant"),
    }
    // the failed entry's word is untouched
    assert_eq!(dylib.segments.read_word(0x10), 0);
    // a second relocate call with a dependency that defines the name lets
    // finish succeed
    let dep = dep_lib("libdep", vec![("missing_sym", 1, 0x500, 2)], 0x9000);
    let dylib = dylib.relocate(vec![dep], &Vec::new());
    assert!(dylib.is_finished());
    let (relocated, init_calls) = dylib.finish().ok().expect("finish failed");
    assert_eq!(init_calls.len(), 0);
    assert_eq!(relocated.inner.segments.read_word(0x10), 0x9000 + 0x500);
}

#[test]
fn lazy_plt_skipped() {
    let jump_slot = Arch::X86_64.rel_jump_slot();
    let pltrel = vec![rela(0x10, jump_slot, 1, 0)];
    let dylib = image(vec![("missing_sym", 0, 0, 2)], 0x1000, 0x100, Some(pltrel), None, true);
    let dylib = dylib.relocate(Vec::new(), &Vec::new());
    assert!(dylib.is_finished());
    let (relocated, _) = dylib.finish().ok().expect("lazy finish failed");
    // the PLT-target word is untouched
    assert_eq!(relocated.inner.segments.read_word(0x10), 0);
}

#[test]
fn ifunc_resolver_value() {
    // a defined IFUNC symbol: the engine writes what the resolver returns,
    // not the resolver's own address
    let got = Arch::X86_64.rel_got();
    let base: u64 = 0x2000;
    let dynrel = vec![rela(0x10, got, 1, 0)];
    let dylib = image(vec![("resolv", 1, 0x40, 10)], base, 0x100, None, Some(dynrel), false);
    let ifuncs = vec![(base + 0x40, 0xdead_beef_cafe_babe_u64)];
    let dylib = dylib.relocate(Vec::new(), &ifuncs);
    assert!(dylib.is_finished());
    assert_eq!(dylib.segments.read_word(0x10), 0xdead_beef_cafe_babe);
    assert_ne!(dylib.segments.read_word(0x10), base + 0x40);
}

#[test]
fn finalise_unfinished_never_mutates() {
    let got = Arch::X86_64.rel_got();
    let dynrel = vec![rela(0x10, got, 1, 7)];
    let dylib = image(vec![("missing_sym", 0, 0, 2)], 0x1000, 0x100, None, Some(dynrel), false);
    let dylib = dylib.relocate(Vec::new(), &Vec::new());
    let mem_before = dylib.segments.memory.clone();
    let finished_before = dylib.is_finished();
    let (dylib, _) = dylib.finish().err().expect("finish succeeded unexpectedly");
    assert_eq!(dylib.segments.memory, mem_before);
    assert_eq!(dylib.is_finished(), finished_before);
    assert!(dylib.relro.is_none());
}

#[test]
fn relocate_twice_same_deps_is_idempotent() {
    let got = Arch::X86_64.rel_got();
    let relative = Arch::X86_64.rel_relative();
    let dynrel = vec![rela(0x10, relative, 0, 0x30), rela(0x18, got, 1, 0)];
    let dylib = image(vec![("missing_sym", 0, 0, 2)], 0x1000, 0x100, None, Some(dynrel), false);
    let dylib = dylib.relocate(Vec::new(), &Vec::new());
    let mem_once = dylib.segments.memory.clone();
    let dylib = dylib.relocate(Vec::new(), &Vec::new());
    assert_eq!(dylib.segments.memory, mem_once);
    assert!(!dylib.is_finished());
}

#[test]
fn bitmap_cleared_until_entry_resolves() {
    // within one pass a failed entry's bit stays clear; it is set again only
    // by the pass in which the entry resolves
    let got = Arch::X86_64.rel_got();
    let dynrel = vec![rela(0x10, got, 1, 0)];
    let dylib = image(vec![("missing_sym", 0, 0, 2)], 0x1000, 0x100, None, Some(dynrel), false);
    let dylib = dylib.relocate(Vec::new(), &Vec::new());
    let arr = dylib.relocation.dynrel.as_ref().expect("dynamic array vanished");
    assert!(!arr.state.relocated.get(0));
    let dep = dep_lib("libdep", vec![("missing_sym", 1, 0x500, 2)], 0x9000);
    let dylib = dylib.relocate(vec![dep], &Vec::new());
    let arr = dylib.relocation.dynrel.as_ref().expect("dynamic array vanished");
    assert!(arr.state.relocated.get(0));
}

#[test]
fn fallback_resolver_consulted_last() {
    let got = Arch::X86_64.rel_got();
    let dynrel = vec![rela(0x10, got, 1, 0)];
    let dylib = image(vec![("missing_sym", 0, 0, 2)], 0x1000, 0x100, None, Some(dynrel), false);
    let fallback = vec![(b"missing_sym".to_vec(), 0x4242u64)];
    let dylib = dylib.relocate_with(Vec::new(), &fallback, &Vec::new());
    assert!(dylib.is_finished());
    assert_eq!(dylib.segments.read_word(0x10), 0x4242);
}

#[test]
fn symbolic_adds_addend() {
    let symbolic = Arch::X86_64.rel_symbolic();
    let dynrel = vec![rela(0x20, symbolic, 1, 0x8)];
    let dylib = image(vec![("local", 1, 0x100, 2)], 0x5000, 0x100, None, Some(dynrel), false);
    let dylib = dylib.relocate(Vec::new(), &Vec::new());
    assert!(dylib.is_finished());
    assert_eq!(dylib.segments.read_word(0x20), 0x5000 + 0x100 + 0x8);
}

#[test]
fn fini_runs_before_fini_array_in_order() {
    let base: u64 = 0x1000;
    let mut segments = ElfSegments::new(base, vec![0u8; 0x200]);
    segments.write_word(0x100, 0xBBBB);
    segments.write_word(0x108, 0xCCCC);
    let lib = Dylib {
        name: String::from("fini_object"),
        symbols: symbol_data(vec![], None),
        tls: None,
        fini_fn: Some(0xAAAA),
        fini_array: Some((base + 0x100, 2)),
        user_data: UserData::empty(),
        dep_libs: Vec::new(),
        segments,
    };
    assert_eq!(lib.fini_sequence(), vec![0xAAAA, 0xBBBB, 0xCCCC]);
}

#[test]
fn init_then_init_array_on_finish() {
    let base: u64 = 0x1000;
    let mut dylib = image(vec![], base, 0x200, None, None, false);
    dylib.segments.write_word(0x100, 0x2222);
    dylib.segments.write_word(0x108, 0x3333);
    dylib.init_fn = Some(0x1111);
    dylib.init_array = Some((base + 0x100, 2));
    assert!(dylib.is_finished());
    let (_, init_calls) = dylib.finish().ok().expect("finish failed");
    assert_eq!(init_calls, vec![0x1111, 0x2222, 0x3333]);
}

#[test]
fn versioned_lookup() {
    let inner = Dylib {
        name: String::from("versioned"),
        symbols: {
            let mut symbols = vec![undef_sym()];
            let mut strtab: Vec<u8> = vec![0];
            let mut chains: Vec<u32> = Vec::new();
            let defs = [("f", 0x100u64), ("f", 0x200u64)];
            for (i, (name, value)) in defs.iter().enumerate() {
                let st_name = strtab.len() as u32;
                strtab.extend_from_slice(name.as_bytes());
                strtab.push(0);
                symbols.push(ElfSymbol {
                    st_name,
                    st_info: (1 << 4) | 2,
                    st_other: 0,
                    st_shndx: 1,
                    st_value: *value,
                    st_size: 0,
                });
                let h = elf_loader::symbol::gnu_hash(name.as_bytes());
                let last = i + 1 == defs.len();
                chains.push(if last { h | 1 } else { h & !1u32 });
            }
            let versions = Some(vec![Vec::new(), b"V1".to_vec(), b"V2".to_vec()]);
            SymbolData::new(symbols, strtab, 1, vec![1u32], chains, versions)
        },
        tls: None,
        fini_fn: None,
        fini_array: None,
        user_data: UserData::empty(),
        dep_libs: Vec::new(),
        segments: ElfSegments::new(0x4000, Vec::new()),
    };
    let lib = RelocatedDylib { inner };
    let v2 = lib.get_version("f", "V2").ok().expect("V2 lookup failed");
    assert_eq!(v2.addr(), 0x4000 + 0x200);
    let v1 = lib.get_version("f", "V1").ok().expect("V1 lookup failed");
    assert_eq!(v1.addr(), 0x4000 + 0x100);
    match lib.get_version("f", "V3") {
        Err(Error::FindSymbolError { msg }) => assert!(msg.contains("f")),
        _ => panic!("V3 lookup should fail with FindSymbolError"),
    }
    // an unversioned lookup accepts any visible definition: the first in
    // chain order wins
    let any = lib.get("f").ok().expect("unversioned lookup failed");
    assert_eq!(any.addr(), 0x4000 + 0x100);
}

#[test]
fn lookup_total_over_defined_symbols() {
    // every defined symbol with a non-empty name is found by a lookup of
    // its own name
    let data = symbol_data(
        vec![("alpha", 1, 0x10, 2), ("beta", 1, 0x20, 2), ("gamma", 1, 0x30, 1)],
        None,
    );
    for (name, value) in [("alpha", 0x10u64), ("beta", 0x20), ("gamma", 0x30)] {
        let info = elf_loader::symbol::SymbolInfo::new(name.as_bytes());
        let sym = data.get_sym(&info).expect("defined symbol not found");
        assert_eq!(sym.st_value, value);
    }
    let info = elf_loader::symbol::SymbolInfo::new(b"delta");
    assert!(data.get_sym(&info).is_none());
}

#[test]
fn user_data_bag() {
    let mut bag = UserData::empty();
    assert_eq!(bag.data().len(), 0);
    bag.data_mut().push(7);
    assert_eq!(bag.data(), &vec![7u64]);
}

#[test]
fn dep_libs_and_names() {
    let dep = dep_lib("libdep", vec![], 0x9000);
    let dylib = image(vec![], 0x1000, 0x40, None, None, false);
    let dylib = dylib.relocate(vec![dep], &Vec::new());
    let (relocated, _) = dylib.finish().ok().expect("finish failed");
    assert_eq!(relocated.name(), "test_object");
    assert_eq!(relocated.base(), 0x1000);
    let deps = relocated.dep_libs().expect("dependency list vanished");
    assert_eq!(deps.len(), 1);
    assert_eq!(deps[0].name(), "libdep");
    assert_eq!(deps[0].base(), 0x9000);
    assert!(deps[0].user_data().data().is_empty());
}

#[test]
fn tls_module_id_and_offset() {
    // DTPMOD with no symbol writes the image's own module id; DTPOFF writes
    // the symbol's offset in the TLS block, biased by the DTV offset
    let dtpmod = Arch::Riscv64.rel_dtpmod();
    let dtpoff = Arch::Riscv64.rel_dtpoff();
    let dynrel = vec![rela(0x10, dtpmod, 0, 0), rela(0x18, dtpoff, 1, 0x8)];
    let mut dylib = image(vec![("tls_var", 1, 0x30, 6)], 0x1000, 0x100, None, Some(dynrel), false);
    dylib.arch = Arch::Riscv64;
    dylib.tls = Some(5);
    let dylib = dylib.relocate(Vec::new(), &Vec::new());
    assert!(dylib.is_finished());
    assert_eq!(dylib.segments.read_word(0x10), 5);
    assert_eq!(dylib.segments.read_word(0x18), (0x30u64 + 0x8).wrapping_sub(0x800));
}

#[test]
fn tls_relocation_without_module_fails() {
    let dtpmod = Arch::X86_64.rel_dtpmod();
    let dynrel = vec![rela(0x10, dtpmod, 0, 0)];
    let dylib = image(vec![], 0x1000, 0x100, None, Some(dynrel), false);
    let dylib = dylib.relocate(Vec::new(), &Vec::new());
    assert!(!dylib.is_finished());
}

#[test]
fn relro_applied_on_finish() {
    let mut dylib = image(vec![], 0x1000, 0x100, None, None, false);
    dylib.relro = Some(ELFRelro { addr: 0x1000, len: 0x40 });
    assert!(!dylib.segments.relro_applied);
    let (lib, _) = dylib.finish().ok().expect("finish failed");
    assert!(lib.inner.segments.relro_applied);
}

#[test]
fn relro_skipped_when_lazy() {
    let mut dylib = image(vec![], 0x1000, 0x100, None, None, true);
    dylib.relro = Some(ELFRelro { addr: 0x1000, len: 0x40 });
    let (lib, _) = dylib.finish().ok().expect("finish failed");
    assert!(!lib.inner.segments.relro_applied);
}

#[test]
fn tls_module_id_attached_to_user_data() {
    let mut dylib = image(vec![], 0x1000, 0x40, None, None, false);
    dylib.tls = Some(9);
    let (lib, _) = dylib.finish().ok().expect("finish failed");
    assert_eq!(lib.user_data().data(), &vec![9u64]);
}

#[test]
fn jump_slot_filled_from_dependency() {
    let jump_slot = Arch::X86_64.rel_jump_slot();
    let pltrel = vec![rela(0x10, jump_slot, 1, 0)];
    let dylib = image(vec![("puts", 0, 0, 2)], 0x1000, 0x100, Some(pltrel), None, false);
    let dep = dep_lib("libc_stub", vec![("puts", 1, 0x640, 2)], 0x7000);
    let dylib = dylib.relocate(vec![dep], &Vec::new());
    assert!(dylib.is_finished());
    // JUMP_SLOT writes S without an addend
    assert_eq!(dylib.segments.read_word(0x10), 0x7000 + 0x640);
}
