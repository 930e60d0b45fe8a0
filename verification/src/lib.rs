//! A dynamic ELF loader library: it takes an ELF shared object, places its
//! segments at a runtime-chosen base address, interprets its dynamic section,
//! resolves and applies relocations against a set of already-loaded dependency
//! images, and yields a relocated image whose symbols can be looked up by name.
//!
//! The image memory is held as plain bytes owned by the segments record, so
//! every address computation and every relocation write is an operation on
//! values that the contracts can speak about.
use vstd::prelude::*;

pub mod abi;
pub mod arch;
pub mod bootstrap;
pub mod dynamic;
pub mod loader;
pub mod object;
pub mod relocation;
pub mod segment;
pub mod symbol;

use crate::arch::{Arch, Phdr};
use crate::relocation::ElfRelocation;
use crate::segment::{ElfSegments, ELFRelro};
use crate::symbol::{SymbolData, SymbolInfo};
use vstd::string::StringSliceAdditionalSpecFns;

verus! {

/// Error taxonomy of the loader. Every failure is returned, never thrown.
#[derive(Debug)]
pub enum Error {
    /// An error occurred while reading the ELF object.
    IOError { msg: String },
    /// An error occurred while placing segments in memory.
    MmapError { msg: String },
    /// An error occurred during dynamic library relocation.
    RelocateError { msg: String },
    /// An error occurred while looking for a symbol.
    FindSymbolError { msg: String },
    /// An error occurred while parsing the dynamic section.
    ParseDynamicError { msg: &'static str },
    /// An error occurred while parsing the ELF header.
    ParseEhdrError { msg: String },
}

impl Error {
    /// The human-readable message the error carries.
    pub fn message(&self) -> (r: &str)
        ensures
            match self {
                Error::IOError { msg } => r@ == msg@,
                Error::MmapError { msg } => r@ == msg@,
                Error::RelocateError { msg } => r@ == msg@,
                Error::FindSymbolError { msg } => r@ == msg@,
                Error::ParseDynamicError { msg } => r@ == msg@,
                Error::ParseEhdrError { msg } => r@ == msg@,
            },
    {
        match self {
            Error::IOError { msg } => msg.as_str(),
            Error::MmapError { msg } => msg.as_str(),
            Error::RelocateError { msg } => msg.as_str(),
            Error::FindSymbolError { msg } => msg.as_str(),
            Error::ParseDynamicError { msg } => msg,
            Error::ParseEhdrError { msg } => msg.as_str(),
        }
    }
}

/// Build a relocation error from a message.
pub fn relocate_error(msg: String) -> (r: Error)
    ensures
        r == (Error::RelocateError { msg }),
{
    Error::RelocateError { msg }
}

/// Build a symbol-lookup error from a message.
pub fn find_symbol_error(msg: String) -> (r: Error)
    ensures
        r == (Error::FindSymbolError { msg }),
{
    Error::FindSymbolError { msg }
}

/// Build a dynamic-section parse error from a message.
pub fn parse_dynamic_error(msg: &'static str) -> (r: Error)
    ensures
        r == (Error::ParseDynamicError { msg }),
{
    Error::ParseDynamicError { msg }
}

/// Build an ELF-header parse error from a message.
pub fn parse_ehdr_error(msg: String) -> (r: Error)
    ensures
        r == (Error::ParseEhdrError { msg }),
{
    Error::ParseEhdrError { msg }
}

/// Handles the part of the ELF file that carries unwind tables. The loader
/// treats it as an abstract capability supplied by its user.
pub trait Unwind: Sized {
    fn new(phdr: &Phdr, map_start: usize, map_len: usize) -> Option<Self>;
}

/// Handles the part of the ELF file that carries the thread-local template.
/// The loader treats it as an abstract capability supplied by its user; all
/// the relocation engine reads from it is the stable module id.
pub trait ThreadLocal: Sized {
    fn new(phdr: &Phdr, base: u64) -> Option<Self>;

    fn module_id(&self) -> u64;
}

/// User-defined data associated with the loaded ELF file.
pub struct UserData {
    data: Vec<u64>,
}

impl UserData {
    pub fn empty() -> (r: UserData)
        ensures
            r@ == Seq::<u64>::empty(),
    {
        UserData { data: Vec::new() }
    }

    pub closed spec fn view(self) -> Seq<u64> {
        self.data@
    }

    pub fn data_mut(&mut self) -> (r: &mut Vec<u64>)
        ensures
            r@ == old(self)@,
            final(self)@ == final(r)@,
    {
        &mut self.data
    }

    pub fn data(&self) -> (r: &Vec<u64>)
        ensures
            r@ == self@,
    {
        &self.data
    }
}

/// An unrelocated dynamic library: segments placed and tables decoded, the
/// relocation arrays not yet finished.
pub struct ElfDylib {
    /// The file name of the object.
    pub name: String,
    /// Its program headers.
    pub phdrs: Vec<Phdr>,
    /// The entry point, as an offset from the base.
    pub entry: u64,
    /// The symbol index.
    pub symbols: SymbolData,
    /// The TLS module id, when the image has a TLS block.
    pub tls: Option<u64>,
    /// The reservation and the chosen base.
    pub segments: ElfSegments,
    /// The FINI function address, absolute.
    pub fini_fn: Option<u64>,
    /// Address and element count of the FINI array.
    pub fini_array: Option<(u64, u64)>,
    /// The user-data bag.
    pub user_data: UserData,
    /// The images this one was relocated against.
    pub dep_libs: Vec<RelocatedDylib>,
    /// The two relocation arrays with their bookkeeping.
    pub relocation: ElfRelocation,
    /// The GNU_RELRO range, when present.
    pub relro: Option<ELFRelro>,
    /// The INIT function address, absolute.
    pub init_fn: Option<u64>,
    /// Address and element count of the INIT array.
    pub init_array: Option<(u64, u64)>,
    /// The names of the needed libraries, resolved against the string table.
    pub needed_libs: Vec<Vec<u8>>,
    /// Whether lazy binding was requested: the PLT array is then skipped.
    pub lazy: bool,
    /// The architecture the object was built for.
    pub arch: Arch,
}

impl ElfDylib {
    /// The entry point of the dynamic library, folded to an address.
    pub fn entry(&self) -> (r: u64)
        ensures
            r == vstd::wrapping::u64_specs::wrapping_add(self.entry, self.segments.base),
    {
        self.entry.wrapping_add(self.segments.base)
    }

    /// The program headers of the dynamic library.
    pub fn phdrs(&self) -> (r: &Vec<Phdr>)
        ensures
            r@ == self.phdrs@,
    {
        &self.phdrs
    }

    /// The name of the dynamic library.
    pub fn name(&self) -> (r: &str)
        ensures
            r@ == self.name@,
    {
        self.name.as_str()
    }

    /// The base address of the dynamic library.
    pub fn base(&self) -> (r: u64)
        ensures
            r == self.segments.base,
    {
        self.segments.get_base()
    }

    /// Get user-defined data.
    pub fn user_data_mut(&mut self) -> (r: &mut UserData)
        ensures
            *r == old(self).user_data,
            *final(self) == (ElfDylib { user_data: *final(r), ..*old(self) }),
    {
        &mut self.user_data
    }

    /// Get user-defined data.
    pub fn user_data(&self) -> (r: &UserData)
        ensures
            *r == self.user_data,
    {
        &self.user_data
    }
}

/// The relocated image behind a handle: immutable once constructed.
pub struct Dylib {
    pub name: String,
    pub symbols: SymbolData,
    pub tls: Option<u64>,
    pub fini_fn: Option<u64>,
    pub fini_array: Option<(u64, u64)>,
    pub user_data: UserData,
    pub dep_libs: Vec<RelocatedDylib>,
    pub segments: ElfSegments,
}

impl Dylib {
    /// Get the name of the dynamic library.
    pub fn name(&self) -> (r: &str)
        ensures
            r@ == self.name@,
    {
        self.name.as_str()
    }

    /// Get the base address of the dynamic library.
    pub fn base(&self) -> (r: u64)
        ensures
            r == self.segments.base,
    {
        self.segments.get_base()
    }

    /// Get the user data of the dynamic library.
    pub fn user_data(&self) -> (r: &UserData)
        ensures
            *r == self.user_data,
    {
        &self.user_data
    }

    /// The address a lookup of `name` yields: base + st_value of the found
    /// symbol.
    pub open spec fn spec_get(self, name: Seq<u8>, version: Option<Seq<u8>>) -> Option<u64> {
        match self.symbols.spec_get_sym(name, version) {
            Some(sym) => Some(
                vstd::wrapping::u64_specs::wrapping_add(self.segments.base, sym.st_value),
            ),
            None => None,
        }
    }

    /// Get a symbol handle by name: the handle types the address
    /// base + st_value of the first matching symbol.
    pub fn get(&self, name: &str) -> (r: Result<Symbol, Error>)
        ensures
            match self.spec_get(name.spec_bytes(), None) {
                Some(addr) => r matches Ok(s) && s.addr == addr,
                None => r matches Err(e) && (e matches Error::FindSymbolError { msg } && msg@
                    == "can not find symbol:"@ + name@),
            },
    {
        let info = SymbolInfo::new(name.as_bytes());
        match self.symbols.get_sym(&info) {
            Some(sym) => Ok(Symbol { addr: self.segments.get_base().wrapping_add(sym.st_value) }),
            None => {
                let mut msg = String::new();
                msg.append("can not find symbol:");
                msg.append(name);
                proof {
                    assert(msg@ =~= "can not find symbol:"@ + name@);
                }
                Err(find_symbol_error(msg))
            },
        }
    }

    /// Get a symbol handle by name and version: the version must compare
    /// equal to the found symbol's version-definition name.
    pub fn get_version(&self, name: &str, version: &str) -> (r: Result<Symbol, Error>)
        ensures
            match self.spec_get(name.spec_bytes(), Some(version.spec_bytes())) {
                Some(addr) => r matches Ok(s) && s.addr == addr,
                None => r matches Err(e) && (e matches Error::FindSymbolError { msg } && msg@
                    == "can not find symbol:"@ + name@),
            },
    {
        let info = SymbolInfo::new_with_version(name.as_bytes(), version.as_bytes());
        match self.symbols.get_sym(&info) {
            Some(sym) => Ok(Symbol { addr: self.segments.get_base().wrapping_add(sym.st_value) }),
            None => {
                let mut msg = String::new();
                msg.append("can not find symbol:");
                msg.append(name);
                proof {
                    assert(msg@ =~= "can not find symbol:"@ + name@);
                }
                Err(find_symbol_error(msg))
            },
        }
    }

    /// The addresses to call when the image is dropped: FINI first, then
    /// every FINI-array entry in increasing index order.
    pub fn fini_sequence(&self) -> (r: Vec<u64>)
        requires
            call_array_in_bounds(self.fini_array, self.segments),
        ensures
            r@ == spec_call_sequence(
                self.fini_fn,
                self.fini_array,
                self.segments.base,
                self.segments.memory@,
            ),
    {
        call_sequence(self.fini_fn, self.fini_array, &self.segments)
    }
}

/// A symbol from a dynamic library: the typed address of its definition in
/// the relocated image.
#[derive(Clone, Copy, Debug, PartialEq, Eq, Structural)]
pub struct Symbol {
    pub addr: u64,
}

impl Symbol {
    /// The address the handle stands for.
    pub fn addr(&self) -> (r: u64)
        ensures
            r == self.addr,
    {
        self.addr
    }
}

/// A dynamic library that has been relocated: a sharable, immutable handle.
pub struct RelocatedDylib {
    pub inner: Dylib,
}

impl RelocatedDylib {
    /// Get dependent libraries, or nothing when the image has none.
    pub fn dep_libs(&self) -> (r: Option<&Vec<RelocatedDylib>>)
        ensures
            self.inner.dep_libs@.len() == 0 ==> r is None,
            self.inner.dep_libs@.len() > 0 ==> (r matches Some(v) && v@ == self.inner.dep_libs@),
    {
        if self.inner.dep_libs.len() == 0 {
            None
        } else {
            Some(&self.inner.dep_libs)
        }
    }

    /// Get the name of the dynamic library.
    pub fn name(&self) -> (r: &str)
        ensures
            r@ == self.inner.name@,
    {
        self.inner.name()
    }

    /// Get the base address of the dynamic library.
    pub fn base(&self) -> (r: u64)
        ensures
            r == self.inner.segments.base,
    {
        self.inner.base()
    }

    /// Get the user data of the dynamic library.
    pub fn user_data(&self) -> (r: &UserData)
        ensures
            *r == self.inner.user_data,
    {
        self.inner.user_data()
    }

    /// Get a pointer to a function or static variable by symbol name.
    ///
    /// The symbol is interpreted as-is; no mangling is done.
    pub fn get(&self, name: &str) -> (r: Result<Symbol, Error>)
        ensures
            match self.inner.spec_get(name.spec_bytes(), None) {
                Some(addr) => r matches Ok(s) && s.addr == addr,
                None => r matches Err(e) && (e matches Error::FindSymbolError { msg } && msg@
                    == "can not find symbol:"@ + name@),
            },
    {
        self.inner.get(name)
    }

    /// Load a versioned symbol from the dynamic library.
    pub fn get_version(&self, name: &str, version: &str) -> (r: Result<Symbol, Error>)
        ensures
            match self.inner.spec_get(name.spec_bytes(), Some(version.spec_bytes())) {
                Some(addr) => r matches Ok(s) && s.addr == addr,
                None => r matches Err(e) && (e matches Error::FindSymbolError { msg } && msg@
                    == "can not find symbol:"@ + name@),
            },
    {
        self.inner.get_version(name, version)
    }
}

/// Whether a call array lies inside the reservation, so that its entries
/// can be read.
pub open spec fn call_array_in_bounds(arr: Option<(u64, u64)>, segments: ElfSegments) -> bool {
    match arr {
        Some(p) => {
            &&& segments.base <= p.0
            &&& p.0 - segments.base + 8 * p.1 <= segments.memory@.len()
        },
        None => true,
    }
}

/// The sequence of function addresses a hook pair yields: the single
/// function first, when present, then every array entry in increasing
/// index order. Array entries are the words stored in the image, read
/// after relocation has filled them.
pub open spec fn spec_call_sequence(
    func: Option<u64>,
    arr: Option<(u64, u64)>,
    base: u64,
    mem: Seq<u8>,
) -> Seq<u64> {
    let head: Seq<u64> = match func {
        Some(f) => seq![f],
        None => Seq::empty(),
    };
    let tail: Seq<u64> = match arr {
        Some(p) => Seq::new(p.1 as nat, |i: int| crate::segment::word_at(mem, p.0 - base + 8 * i)),
        None => Seq::empty(),
    };
    head + tail
}

/// Read a call sequence out of the image: the single hook first, then the
/// array entries in increasing index order.
pub fn call_sequence(func: Option<u64>, arr: Option<(u64, u64)>, segments: &ElfSegments) -> (r:
    Vec<u64>)
    requires
        call_array_in_bounds(arr, *segments),
    ensures
        r@ == spec_call_sequence(func, arr, segments.base, segments.memory@),
{
    let mut out: Vec<u64> = Vec::new();
    let ghost head: Seq<u64> = match func {
        Some(f) => seq![f],
        None => Seq::<u64>::empty(),
    };
    match func {
        Some(f) => {
            out.push(f);
        },
        None => {},
    }
    proof {
        assert(out@ =~= head);
    }
    match arr {
        Some(p) => {
            let memlen = segments.len();
            let start = (p.0 - segments.get_base()) as usize;
            proof {
                assert(8 * p.1 <= memlen);
            }
            let count = p.1 as usize;
            let ghost tail = Seq::new(
                p.1 as nat,
                |i: int| crate::segment::word_at(segments.memory@, p.0 - segments.base + 8 * i),
            );
            let mut i: usize = 0;
            while i < count
                invariant
                    0 <= i <= count,
                    count == p.1,
                    start == p.0 - segments.base,
                    start + 8 * count <= memlen,
                    memlen == segments.memory@.len(),
                    tail == Seq::new(
                        count as nat,
                        |j: int| crate::segment::word_at(segments.memory@, start + 8 * j),
                    ),
                    out@ == head + tail.take(i as int),
                decreases count - i,
            {
                let w = segments.read_word(start + 8 * i);
                out.push(w);
                proof {
                    assert(w == tail[i as int]);
                    assert(tail.take(i + 1) =~= tail.take(i as int).push(tail[i as int]));
                    assert(out@ =~= head + tail.take(i + 1));
                }
                i += 1;
            }
            proof {
                assert(tail.take(count as int) =~= tail);
                assert(out@ =~= spec_call_sequence(func, arr, segments.base, segments.memory@));
            }
        },
        None => {
            proof {
                assert(out@ =~= spec_call_sequence(func, arr, segments.base, segments.memory@));
            }
        },
    }
    out
}

} // verus!
