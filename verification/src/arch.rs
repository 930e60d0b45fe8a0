//! Per-architecture relocation type codes, the TLS DTV offset and the
//! expected ELF machine. The engine matches relocation entries against the
//! codes of the architecture the image was built for.
//!
//! riscv64 has no GOT relocation class of its own; its code is a sentinel
//! that no well-formed entry carries, so the engine never matches on it.
use vstd::prelude::*;

verus! {

/// The architectures this loader understands. All are 64-bit little-endian.
#[derive(Clone, Copy, Debug, PartialEq, Eq, Structural)]
pub enum Arch {
    X86_64,
    Aarch64,
    Riscv64,
}

/// A sentinel relocation code that no well-formed entry carries.
pub const REL_ABSENT: u32 = 0xffff_ffff;

/// A program header: the descriptor of one segment of the ELF image.
#[derive(Clone, Copy, Debug, PartialEq, Eq, Structural)]
pub struct Phdr {
    pub p_type: u32,
    pub p_flags: u32,
    pub p_offset: u64,
    pub p_vaddr: u64,
    pub p_paddr: u64,
    pub p_filesz: u64,
    pub p_memsz: u64,
    pub p_align: u64,
}

/// One entry of the dynamic section: a tag and a value.
#[derive(Clone, Copy, Debug, PartialEq, Eq, Structural)]
pub struct Dyn {
    pub d_tag: i64,
    pub d_un: u64,
}

/// A relocation entry with an explicit addend.
#[derive(Clone, Copy, Debug, PartialEq, Eq, Structural)]
pub struct ElfRela {
    pub r_offset: u64,
    pub r_info: u64,
    pub r_addend: u64,
}

impl ElfRela {
    /// The relocation type: the low half of r_info.
    pub open spec fn spec_r_type(self) -> u32 {
        (self.r_info & 0xffff_ffff) as u32
    }

    /// The dynamic-symbol index: the high half of r_info.
    pub open spec fn spec_r_symbol(self) -> u64 {
        self.r_info >> 32
    }

    pub fn r_type(&self) -> (r: u32)
        ensures
            r == self.spec_r_type(),
    {
        (self.r_info & 0xffff_ffff) as u32
    }

    pub fn r_symbol(&self) -> (r: u64)
        ensures
            r == self.spec_r_symbol(),
    {
        self.r_info >> 32
    }

    pub fn r_offset(&self) -> (r: u64)
        ensures
            r == self.r_offset,
    {
        self.r_offset
    }

    pub fn r_addend(&self) -> (r: u64)
        ensures
            r == self.r_addend,
    {
        self.r_addend
    }
}

/// An entry of the ELF dynamic symbol table.
#[derive(Clone, Copy, Debug, PartialEq, Eq, Structural)]
pub struct ElfSymbol {
    pub st_name: u32,
    pub st_info: u8,
    pub st_other: u8,
    pub st_shndx: u16,
    pub st_value: u64,
    pub st_size: u64,
}

impl ElfSymbol {
    /// The symbol kind: the low nibble of st_info.
    pub open spec fn spec_st_type(self) -> u8 {
        (self.st_info & 0xf) as u8
    }

    pub fn st_type(&self) -> (r: u8)
        ensures
            r == self.spec_st_type(),
    {
        self.st_info & 0xf
    }
}

impl Arch {
    /// The code of the RELATIVE relocation class: write base + addend.
    pub open spec fn spec_rel_relative(self) -> u32 {
        match self {
            Arch::X86_64 => 8,
            Arch::Aarch64 => 1027,
            Arch::Riscv64 => 3,
        }
    }

    /// The code of the GOT relocation class: write the symbol value.
    pub open spec fn spec_rel_got(self) -> u32 {
        match self {
            Arch::X86_64 => 6,
            Arch::Aarch64 => 1025,
            Arch::Riscv64 => REL_ABSENT,
        }
    }

    /// The code of the SYMBOLIC relocation class: write symbol value + addend.
    pub open spec fn spec_rel_symbolic(self) -> u32 {
        match self {
            Arch::X86_64 => 1,
            Arch::Aarch64 => 257,
            Arch::Riscv64 => 2,
        }
    }

    /// The code of the JUMP_SLOT relocation class: write the symbol value.
    pub open spec fn spec_rel_jump_slot(self) -> u32 {
        match self {
            Arch::X86_64 => 7,
            Arch::Aarch64 => 1026,
            Arch::Riscv64 => 5,
        }
    }

    /// The code of the TLS DTPMOD relocation class: write the module id.
    pub open spec fn spec_rel_dtpmod(self) -> u32 {
        match self {
            Arch::X86_64 => 16,
            Arch::Aarch64 => 1028,
            Arch::Riscv64 => 7,
        }
    }

    /// The code of the TLS DTPOFF relocation class: write the offset in the
    /// TLS block, biased by the DTV offset.
    pub open spec fn spec_rel_dtpoff(self) -> u32 {
        match self {
            Arch::X86_64 => 17,
            Arch::Aarch64 => 1029,
            Arch::Riscv64 => 9,
        }
    }

    /// The bias between the DTV-visible TLS address and the block start.
    pub open spec fn spec_tls_dtv_offset(self) -> u64 {
        match self {
            Arch::X86_64 => 0,
            Arch::Aarch64 => 0,
            Arch::Riscv64 => 0x800,
        }
    }

    /// The e_machine value an object built for this architecture carries.
    pub open spec fn spec_em_arch(self) -> u16 {
        match self {
            Arch::X86_64 => 62,
            Arch::Aarch64 => 183,
            Arch::Riscv64 => 243,
        }
    }

    pub fn rel_relative(self) -> (r: u32)
        ensures
            r == self.spec_rel_relative(),
    {
        match self {
            Arch::X86_64 => 8,
            Arch::Aarch64 => 1027,
            Arch::Riscv64 => 3,
        }
    }

    pub fn rel_got(self) -> (r: u32)
        ensures
            r == self.spec_rel_got(),
    {
        match self {
            Arch::X86_64 => 6,
            Arch::Aarch64 => 1025,
            Arch::Riscv64 => REL_ABSENT,
        }
    }

    pub fn rel_symbolic(self) -> (r: u32)
        ensures
            r == self.spec_rel_symbolic(),
    {
        match self {
            Arch::X86_64 => 1,
            Arch::Aarch64 => 257,
            Arch::Riscv64 => 2,
        }
    }

    pub fn rel_jump_slot(self) -> (r: u32)
        ensures
            r == self.spec_rel_jump_slot(),
    {
        match self {
            Arch::X86_64 => 7,
            Arch::Aarch64 => 1026,
            Arch::Riscv64 => 5,
        }
    }

    pub fn rel_dtpmod(self) -> (r: u32)
        ensures
            r == self.spec_rel_dtpmod(),
    {
        match self {
            Arch::X86_64 => 16,
            Arch::Aarch64 => 1028,
            Arch::Riscv64 => 7,
        }
    }

    pub fn rel_dtpoff(self) -> (r: u32)
        ensures
            r == self.spec_rel_dtpoff(),
    {
        match self {
            Arch::X86_64 => 17,
            Arch::Aarch64 => 1029,
            Arch::Riscv64 => 9,
        }
    }

    pub fn tls_dtv_offset(self) -> (r: u64)
        ensures
            r == self.spec_tls_dtv_offset(),
    {
        match self {
            Arch::X86_64 => 0,
            Arch::Aarch64 => 0,
            Arch::Riscv64 => 0x800,
        }
    }

    pub fn em_arch(self) -> (r: u16)
        ensures
            r == self.spec_em_arch(),
    {
        match self {
            Arch::X86_64 => 62,
            Arch::Aarch64 => 183,
            Arch::Riscv64 => 243,
        }
    }
}

} // verus!
