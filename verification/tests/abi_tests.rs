//! Hold the library's ABI constants and per-architecture relocation codes
//! against the `elf` crate's definitions.
use elf_loader::abi;
use elf_loader::arch::Arch;

#[test]
fn dynamic_tags_match_the_elf_crate() {
    assert_eq!(abi::DT_NULL, elf::abi::DT_NULL);
    assert_eq!(abi::DT_NEEDED, elf::abi::DT_NEEDED);
    assert_eq!(abi::DT_PLTRELSZ, elf::abi::DT_PLTRELSZ);
    assert_eq!(abi::DT_STRTAB, elf::abi::DT_STRTAB);
    assert_eq!(abi::DT_SYMTAB, elf::abi::DT_SYMTAB);
    assert_eq!(abi::DT_RELA, elf::abi::DT_RELA);
    assert_eq!(abi::DT_RELASZ, elf::abi::DT_RELASZ);
    assert_eq!(abi::DT_STRSZ, elf::abi::DT_STRSZ);
    assert_eq!(abi::DT_INIT, elf::abi::DT_INIT);
    assert_eq!(abi::DT_FINI, elf::abi::DT_FINI);
    assert_eq!(abi::DT_INIT_ARRAY, elf::abi::DT_INIT_ARRAY);
    assert_eq!(abi::DT_FINI_ARRAY, elf::abi::DT_FINI_ARRAY);
    assert_eq!(abi::DT_INIT_ARRAYSZ, elf::abi::DT_INIT_ARRAYSZ);
    assert_eq!(abi::DT_FINI_ARRAYSZ, elf::abi::DT_FINI_ARRAYSZ);
    assert_eq!(abi::DT_JMPREL, elf::abi::DT_JMPREL);
    assert_eq!(abi::DT_RELACOUNT, elf::abi::DT_RELACOUNT);
    assert_eq!(abi::DT_GNU_HASH, elf::abi::DT_GNU_HASH);
    assert_eq!(abi::DT_VERSYM, elf::abi::DT_VERSYM);
    assert_eq!(abi::DT_VERDEF, elf::abi::DT_VERDEF);
    assert_eq!(abi::DT_VERDEFNUM, elf::abi::DT_VERDEFNUM);
    assert_eq!(abi::DT_VERNEED, elf::abi::DT_VERNEED);
    assert_eq!(abi::DT_VERNEEDNUM, elf::abi::DT_VERNEEDNUM);
}

#[test]
fn header_and_phdr_constants_match_the_elf_crate() {
    assert_eq!(abi::PT_LOAD, elf::abi::PT_LOAD);
    assert_eq!(abi::PT_DYNAMIC, elf::abi::PT_DYNAMIC);
    assert_eq!(abi::PT_INTERP, elf::abi::PT_INTERP);
    assert_eq!(abi::PT_TLS, elf::abi::PT_TLS);
    assert_eq!(abi::PT_GNU_EH_FRAME, elf::abi::PT_GNU_EH_FRAME);
    assert_eq!(abi::PT_GNU_RELRO, elf::abi::PT_GNU_RELRO);
    assert_eq!(abi::ELFCLASS64, elf::abi::ELFCLASS64);
    assert_eq!(abi::ELFDATA2LSB, elf::abi::ELFDATA2LSB);
    assert_eq!(abi::ET_EXEC, elf::abi::ET_EXEC);
    assert_eq!(abi::ET_DYN, elf::abi::ET_DYN);
    assert_eq!(abi::EM_X86_64, elf::abi::EM_X86_64);
    assert_eq!(abi::EM_AARCH64, elf::abi::EM_AARCH64);
    assert_eq!(abi::EM_RISCV, elf::abi::EM_RISCV);
    assert_eq!(abi::SHN_UNDEF, elf::abi::SHN_UNDEF);
    assert_eq!(abi::STT_GNU_IFUNC, elf::abi::STT_GNU_IFUNC);
}

#[test]
fn relocation_codes_match_the_elf_crate() {
    let x = Arch::X86_64;
    assert_eq!(x.rel_relative(), elf::abi::R_X86_64_RELATIVE);
    assert_eq!(x.rel_got(), elf::abi::R_X86_64_GLOB_DAT);
    assert_eq!(x.rel_symbolic(), elf::abi::R_X86_64_64);
    assert_eq!(x.rel_jump_slot(), elf::abi::R_X86_64_JUMP_SLOT);
    assert_eq!(x.rel_dtpmod(), elf::abi::R_X86_64_DTPMOD64);
    assert_eq!(x.rel_dtpoff(), elf::abi::R_X86_64_DTPOFF64);
    assert_eq!(x.em_arch(), elf::abi::EM_X86_64);
    assert_eq!(x.tls_dtv_offset(), 0);

    let a = Arch::Aarch64;
    assert_eq!(a.rel_relative(), elf::abi::R_AARCH64_RELATIVE);
    assert_eq!(a.rel_got(), elf::abi::R_AARCH64_GLOB_DAT);
    assert_eq!(a.rel_symbolic(), elf::abi::R_AARCH64_ABS64);
    assert_eq!(a.rel_jump_slot(), elf::abi::R_AARCH64_JUMP_SLOT);
    assert_eq!(a.rel_dtpmod(), elf::abi::R_AARCH64_TLS_DTPMOD);
    assert_eq!(a.rel_dtpoff(), elf::abi::R_AARCH64_TLS_DTPREL);
    assert_eq!(a.em_arch(), elf::abi::EM_AARCH64);
    assert_eq!(a.tls_dtv_offset(), 0);

    let r = Arch::Riscv64;
    assert_eq!(r.rel_relative(), elf::abi::R_RISCV_RELATIVE);
    // riscv64 has no GOT class of its own: the sentinel matches no entry
    assert_eq!(r.rel_got(), u32::MAX);
    assert_eq!(r.rel_symbolic(), elf::abi::R_RISCV_64);
    assert_eq!(r.rel_jump_slot(), elf::abi::R_RISCV_JUMP_SLOT);
    assert_eq!(r.rel_dtpmod(), elf::abi::R_RISCV_TLS_DTPMOD64);
    assert_eq!(r.rel_dtpoff(), elf::abi::R_RISCV_TLS_DTPREL64);
    assert_eq!(r.em_arch(), elf::abi::EM_RISCV);
    assert_eq!(r.tls_dtv_offset(), 0x800);
}

#[test]
fn error_constructors_build_their_variants() {
    let e = elf_loader::relocate_error(String::from("r"));
    assert_eq!(e.message(), "r");
    match e {
        elf_loader::Error::RelocateError { msg } => assert_eq!(msg, "r"),
        _ => panic!("wrong variant"),
    }
    match elf_loader::find_symbol_error(String::from("f")) {
        elf_loader::Error::FindSymbolError { msg } => assert_eq!(msg, "f"),
        _ => panic!("wrong variant"),
    }
    match elf_loader::parse_dynamic_error("d") {
        elf_loader::Error::ParseDynamicError { msg } => assert_eq!(msg, "d"),
        _ => panic!("wrong variant"),
    }
    match elf_loader::parse_ehdr_error(String::from("e")) {
        elf_loader::Error::ParseEhdrError { msg } => assert_eq!(msg, "e"),
        _ => panic!("wrong variant"),
    }
}

#[test]
fn word_write_and_read_back() {
    let mut segments = elf_loader::segment::ElfSegments::new(0, vec![0u8; 32]);
    segments.write_word(8, 0x0102_0304_0506_0708);
    assert_eq!(segments.read_word(8), 0x0102_0304_0506_0708);
    // little-endian byte order, and the neighbours untouched
    assert_eq!(segments.memory[8], 0x08);
    assert_eq!(segments.memory[15], 0x01);
    assert_eq!(segments.memory[7], 0);
    assert_eq!(segments.memory[16], 0);
}
