use elf_loader::abi;
use elf_loader::arch::{Arch, Dyn, ElfRela, Phdr};
use elf_loader::bootstrap::{apply_self_relocations, base_from_phdrs, drop_first_arg,
    find_rela_info, rewrite_auxv, Aux};
use elf_loader::segment::ElfSegments;

fn rela(offset: u64, rtype: u32, addend: u64) -> ElfRela {
    ElfRela { r_offset: offset, r_info: rtype as u64, r_addend: addend }
}

#[test]
fn self_reloc_only() {
    // a PIE with three RELATIVE entries, mapped at base 0x7fff_0000_0000
    let base: u64 = 0x7fff_0000_0000;
    let relative = Arch::X86_64.rel_relative();
    let relas = vec![
        rela(0x10, relative, 0x200),
        rela(0x18, relative, 0x208),
        rela(0x20, relative, 0x210),
    ];
    let mut segments = ElfSegments::new(base, vec![0u8; 0x1000]);
    apply_self_relocations(&mut segments, &relas, Arch::X86_64).expect("self-reloc failed");
    assert_eq!(segments.read_word(0x10), 0x7fff_0000_0200);
    assert_eq!(segments.read_word(0x18), 0x7fff_0000_0208);
    assert_eq!(segments.read_word(0x20), 0x7fff_0000_0210);
}

#[test]
fn self_reloc_rejects_unknown_type() {
    let relas = vec![rela(0x10, Arch::X86_64.rel_got(), 0x200)];
    let mut segments = ElfSegments::new(0x1000, vec![0u8; 0x100]);
    assert!(apply_self_relocations(&mut segments, &relas, Arch::X86_64).is_err());
    // nothing was written
    assert_eq!(segments.read_word(0x10), 0);
}

#[test]
fn rela_info_from_dynamic_walk() {
    let dyns = vec![
        Dyn { d_tag: abi::DT_RELA, d_un: 0x600 },
        Dyn { d_tag: abi::DT_RELACOUNT, d_un: 3 },
        Dyn { d_tag: abi::DT_NULL, d_un: 0 },
    ];
    assert_eq!(find_rela_info(&dyns), Some((0x600, 3)));
    let missing = vec![
        Dyn { d_tag: abi::DT_RELA, d_un: 0x600 },
        Dyn { d_tag: abi::DT_NULL, d_un: 0 },
    ];
    assert_eq!(find_rela_info(&missing), None);
}

#[test]
fn base_from_dynamic_phdr() {
    let mk = |p_type: u32, vaddr: u64| Phdr {
        p_type,
        p_flags: 0,
        p_offset: 0,
        p_vaddr: vaddr,
        p_paddr: 0,
        p_filesz: 0,
        p_memsz: 0,
        p_align: 0,
    };
    let phdrs = vec![mk(abi::PT_LOAD, 0), mk(abi::PT_DYNAMIC, 0x2e0)];
    assert_eq!(base_from_phdrs(&phdrs, 0x5555_02e0), Some(0x5555_0000));
    let none = vec![mk(abi::PT_LOAD, 0)];
    assert_eq!(base_from_phdrs(&none, 0x5555_02e0), None);
}

#[test]
fn bootstrap_auxv_rewrite() {
    let p0: u64 = 0x400040;
    let n0: u64 = 9;
    let e0: u64 = 0x401000;
    let mut auxv = vec![
        Aux { tag: abi::AT_PHDR, val: p0 },
        Aux { tag: abi::AT_PHNUM, val: n0 },
        Aux { tag: abi::AT_PHENT, val: 56 },
        Aux { tag: abi::AT_ENTRY, val: e0 },
        Aux { tag: abi::AT_BASE, val: 0x1234 },
        Aux { tag: abi::AT_EXECFN, val: 0x9999 },
        Aux { tag: 6, val: 4096 },
        Aux { tag: abi::AT_NULL, val: 0 },
        Aux { tag: abi::AT_PHDR, val: 0x7777 },
    ];
    let p1: u64 = 0x7f000040;
    let n1: u64 = 11;
    let e1: u64 = 0x7f001000;
    let execfn: u64 = 0x7ffe_0000;
    rewrite_auxv(&mut auxv, p1, n1, 56, e1, execfn);
    assert_eq!(auxv[0], Aux { tag: abi::AT_PHDR, val: p1 });
    assert_eq!(auxv[1], Aux { tag: abi::AT_PHNUM, val: n1 });
    assert_eq!(auxv[2], Aux { tag: abi::AT_PHENT, val: 56 });
    assert_eq!(auxv[3], Aux { tag: abi::AT_ENTRY, val: e1 });
    assert_eq!(auxv[4], Aux { tag: abi::AT_BASE, val: 0 });
    assert_eq!(auxv[5], Aux { tag: abi::AT_EXECFN, val: execfn });
    // an untouched key passes through
    assert_eq!(auxv[6], Aux { tag: 6, val: 4096 });
    // entries from AT_NULL on are untouched
    assert_eq!(auxv[7], Aux { tag: abi::AT_NULL, val: 0 });
    assert_eq!(auxv[8], Aux { tag: abi::AT_PHDR, val: 0x7777 });
}

#[test]
fn drop_first_argument_shifts_stack() {
    // argc, argv0, argv1, argv2, NULL, env0, NULL
    let mut stack: Vec<u64> = vec![3, 0xA0, 0xA1, 0xA2, 0, 0xE0, 0];
    drop_first_arg(&mut stack);
    // argc has decreased by one and argv shifted one slot down
    assert_eq!(stack[0], 2);
    assert_eq!(&stack[1..6], &[0xA1, 0xA2, 0, 0xE0, 0]);
}
