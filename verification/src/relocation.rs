//! The relocation engine: the two RELA arrays with their deferred-relocation
//! bookkeeping, the per-entry value computation, and the passes that fill
//! the image.
//!
//! The bitmap semantics are inverted on purpose: a set bit means "entry has
//! not been rejected yet", so the first pass can clear-on-fail and a later
//! pass walks only the still-clear bits.
use vstd::prelude::*;
use vstd::string::StringExecFns;
use crate::arch::{Arch, ElfRela, ElfSymbol};
use crate::abi::{SHN_UNDEF, STT_GNU_IFUNC};
use crate::segment::{ElfSegments, word_at, with_word};
use crate::symbol::{SymbolData, SymbolInfo, name_end, bytes_eq, bytes_as_str, lemma_encode_utf8_concat};
use crate::{ElfDylib, RelocatedDylib, Dylib, Error, relocate_error};
use vstd::slice::slice_subrange;

verus! {

/// A bitmap over relocation entries, one bit each, packed in 32-bit units.
/// All bits start set: set means "not rejected yet".
pub struct BitMap {
    pub bitmap: Vec<u32>,
}

impl BitMap {
    /// The value of bit `i`.
    pub open spec fn spec_bit(self, i: int) -> bool {
        (self.bitmap@[i / 32] >> ((i % 32) as u32)) & 1 == 1
    }

    pub open spec fn spec_unit_count(self) -> int {
        self.bitmap@.len() as int
    }

    /// A bitmap with `size` bits available, all set.
    pub fn new(size: usize) -> (r: BitMap)
        requires
            size + 31 <= usize::MAX,
        ensures
            r.spec_unit_count() == (size + 31) / 32,
            forall|i: int| 0 <= i < r.spec_unit_count() * 32 ==> r.spec_bit(i),
    {
        let bitmap_size = (size + 31) / 32;
        let mut bitmap: Vec<u32> = Vec::new();
        let mut k: usize = 0;
        while k < bitmap_size
            invariant
                0 <= k <= bitmap_size,
                bitmap@.len() == k,
                forall|j: int| 0 <= j < k ==> bitmap@[j] == 0xffff_ffffu32,
            decreases bitmap_size - k,
        {
            bitmap.push(0xffff_ffff);
            k += 1;
        }
        let r = BitMap { bitmap };
        proof {
            assert forall|i: int| 0 <= i < r.spec_unit_count() * 32 implies r.spec_bit(i) by {
                assert(0 <= i / 32 < r.spec_unit_count());
                assert(r.bitmap@[i / 32] == 0xffff_ffffu32);
                let k2 = (i % 32) as u32;
                assert(k2 < 32);
                assert((0xffff_ffffu32 >> k2) & 1 == 1) by (bit_vector)
                    requires
                        k2 < 32,
                ;
            }
        }
        r
    }

    pub fn unit(&self, index: usize) -> (r: u32)
        requires
            index < self.bitmap@.len(),
        ensures
            r == self.bitmap@[index as int],
    {
        self.bitmap[index]
    }

    pub fn unit_count(&self) -> (r: usize)
        ensures
            r == self.spec_unit_count(),
    {
        self.bitmap.len()
    }

    /// Read bit `bit_index`.
    pub fn get(&self, bit_index: usize) -> (r: bool)
        requires
            bit_index / 32 < self.bitmap@.len(),
        ensures
            r == self.spec_bit(bit_index as int),
    {
        let unit_index = bit_index / 32;
        let index = (bit_index % 32) as u32;
        (self.bitmap[unit_index] >> index) & 1 == 1
    }

    /// Set bit `bit_index`; every other bit keeps its value.
    pub fn set(&mut self, bit_index: usize)
        requires
            bit_index / 32 < old(self).bitmap@.len(),
        ensures
            final(self).bitmap@.len() == old(self).bitmap@.len(),
            final(self).spec_bit(bit_index as int),
            forall|j: int|
                0 <= j < final(self).spec_unit_count() * 32 && j != bit_index ==> final(self).spec_bit(j) == old(self).spec_bit(j),
    {
        let unit_index = bit_index / 32;
        let index = (bit_index % 32) as u32;
        let u = self.bitmap[unit_index];
        let nu = u | (1u32 << index);
        self.bitmap.set(unit_index, nu);
        proof {
            assert((nu >> index) & 1 == 1) by (bit_vector)
                requires
                    nu == u | (1u32 << index),
                    index < 32,
            ;
            assert(forall|j2: u32|
                j2 < 32 && j2 != index ==> ((nu >> j2) & 1 == (u >> j2) & 1)) by (bit_vector)
                requires
                    nu == u | (1u32 << index),
                    index < 32,
            ;
            assert forall|j: int|
                0 <= j < final(self).spec_unit_count() * 32 && j != bit_index implies final(self).spec_bit(j) == old(self).spec_bit(j) by {
                if j / 32 == bit_index as int / 32 {
                    assert(j % 32 != bit_index as int % 32) by {
                        if j % 32 == bit_index as int % 32 {
                            vstd::arithmetic::div_mod::lemma_fundamental_div_mod(j, 32);
                            vstd::arithmetic::div_mod::lemma_fundamental_div_mod(
                                bit_index as int,
                                32,
                            );
                        }
                    }
                    assert(((j % 32) as u32) < 32 && ((j % 32) as u32) != index);
                }
            }
        }
    }

    /// Clear bit `bit_index`; every other bit keeps its value.
    pub fn clear(&mut self, bit_index: usize)
        requires
            bit_index / 32 < old(self).bitmap@.len(),
        ensures
            final(self).bitmap@.len() == old(self).bitmap@.len(),
            !final(self).spec_bit(bit_index as int),
            forall|j: int|
                0 <= j < final(self).spec_unit_count() * 32 && j != bit_index ==> final(self).spec_bit(j) == old(self).spec_bit(j),
    {
        let unit_index = bit_index / 32;
        let index = (bit_index % 32) as u32;
        let u = self.bitmap[unit_index];
        let nu = u & !(1u32 << index);
        self.bitmap.set(unit_index, nu);
        proof {
            assert((nu >> index) & 1 == 0) by (bit_vector)
                requires
                    nu == u & !(1u32 << index),
                    index < 32,
            ;
            assert(forall|j2: u32|
                j2 < 32 && j2 != index ==> ((nu >> j2) & 1 == (u >> j2) & 1)) by (bit_vector)
                requires
                    nu == u & !(1u32 << index),
                    index < 32,
            ;
            assert forall|j: int|
                0 <= j < final(self).spec_unit_count() * 32 && j != bit_index implies final(self).spec_bit(j) == old(self).spec_bit(j) by {
                if j / 32 == bit_index as int / 32 {
                    assert(j % 32 != bit_index as int % 32) by {
                        if j % 32 == bit_index as int % 32 {
                            vstd::arithmetic::div_mod::lemma_fundamental_div_mod(j, 32);
                            vstd::arithmetic::div_mod::lemma_fundamental_div_mod(
                                bit_index as int,
                                32,
                            );
                        }
                    }
                    assert(((j % 32) as u32) < 32 && ((j % 32) as u32) != index);
                }
            }
        }
    }
}

/// Where an array stands: untouched, partly relocated, or finished.
#[derive(PartialEq, Eq, Structural, Clone, Copy, Debug)]
pub enum RelocateStage {
    Init,
    Relocating,
    Finish,
}

/// The bookkeeping of one relocation array: which entries still stand as
/// candidates, and the stage of the array.
pub struct RelocateState {
    pub relocated: BitMap,
    pub stage: RelocateStage,
}

/// One relocation array with its bookkeeping.
pub struct ElfRelaArray {
    pub array: Vec<ElfRela>,
    pub state: RelocateState,
}

impl ElfRelaArray {
    /// An array is finished exactly when its stage is Finish.
    pub open spec fn spec_is_finished(self) -> bool {
        self.state.stage == RelocateStage::Finish
    }

    pub fn is_finished(&self) -> (r: bool)
        ensures
            r == self.spec_is_finished(),
    {
        self.state.stage == RelocateStage::Finish
    }

    /// Every bitmap unit an entry index can touch exists.
    pub open spec fn bits_cover_entries(self) -> bool {
        self.array@.len() <= self.state.relocated.spec_unit_count() * 32
    }
}

/// The two relocation arrays of an image: the PLT array and the dynamic
/// array. Either may be absent.
pub struct ElfRelocation {
    pub pltrel: Option<ElfRelaArray>,
    pub dynrel: Option<ElfRelaArray>,
}

impl ElfRelocation {
    /// Fresh bookkeeping for the two arrays: every bit set, stage Init.
    pub fn new(pltrel: Option<Vec<ElfRela>>, dynrel: Option<Vec<ElfRela>>) -> (r: ElfRelocation)
        requires
            pltrel matches Some(v) ==> v@.len() + 31 <= usize::MAX,
            dynrel matches Some(v) ==> v@.len() + 31 <= usize::MAX,
        ensures
            r.pltrel is Some <==> pltrel is Some,
            r.dynrel is Some <==> dynrel is Some,
            r.pltrel matches Some(a) ==> {
                &&& a.array == pltrel.unwrap()
                &&& a.state.stage == RelocateStage::Init
                &&& a.bits_cover_entries()
                &&& a.state.relocated.spec_unit_count() == (a.array@.len() + 31) / 32
                &&& forall|i: int|
                    0 <= i < a.state.relocated.spec_unit_count() * 32
                        ==> a.state.relocated.spec_bit(i)
            },
            r.dynrel matches Some(a) ==> {
                &&& a.array == dynrel.unwrap()
                &&& a.state.stage == RelocateStage::Init
                &&& a.bits_cover_entries()
                &&& a.state.relocated.spec_unit_count() == (a.array@.len() + 31) / 32
                &&& forall|i: int|
                    0 <= i < a.state.relocated.spec_unit_count() * 32
                        ==> a.state.relocated.spec_bit(i)
            },
    {
        let pltrel = match pltrel {
            Some(array) => {
                let bits = BitMap::new(array.len());
                proof {
                    vstd::arithmetic::div_mod::lemma_fundamental_div_mod(
                        array@.len() as int + 31,
                        32,
                    );
                }
                Some(
                    ElfRelaArray {
                        array,
                        state: RelocateState { relocated: bits, stage: RelocateStage::Init },
                    },
                )
            },
            None => None,
        };
        let dynrel = match dynrel {
            Some(array) => {
                let bits = BitMap::new(array.len());
                proof {
                    vstd::arithmetic::div_mod::lemma_fundamental_div_mod(
                        array@.len() as int + 31,
                        32,
                    );
                }
                Some(
                    ElfRelaArray {
                        array,
                        state: RelocateState { relocated: bits, stage: RelocateStage::Init },
                    },
                )
            },
            None => None,
        };
        ElfRelocation { pltrel, dynrel }
    }

    /// Bookkeeping for an image without relocation arrays.
    pub fn empty() -> (r: ElfRelocation)
        ensures
            r.pltrel is None,
            r.dynrel is None,
    {
        ElfRelocation { pltrel: None, dynrel: None }
    }
}

/// Everything one relocate invocation resolves against: the image's own
/// base, length, symbols and TLS module id, the dependency images, the
/// fallback resolver table, and the table standing for IFUNC resolver runs.
pub ghost struct RelocCtx {
    pub arch: Arch,
    pub base: u64,
    pub memlen: int,
    pub symbols: SymbolData,
    pub tls: Option<u64>,
    pub libs: Seq<RelocatedDylib>,
    pub fallback: Seq<(Vec<u8>, u64)>,
    pub ifuncs: Seq<(u64, u64)>,
}

pub open spec fn wadd(a: u64, b: u64) -> u64 {
    vstd::wrapping::u64_specs::wrapping_add(a, b)
}

pub open spec fn wsub(a: u64, b: u64) -> u64 {
    vstd::wrapping::u64_specs::wrapping_sub(a, b)
}

/// What the fallback resolver answers for `name`: the value of the first
/// table entry whose key is `name`, if any.
pub open spec fn spec_fallback_find(fb: Seq<(Vec<u8>, u64)>, name: Seq<u8>) -> Option<u64>
    decreases fb.len(),
{
    if fb.len() == 0 {
        None
    } else if fb[0].0@ == name {
        Some(fb[0].1)
    } else {
        spec_fallback_find(fb.drop_first(), name)
    }
}

/// What running the IFUNC resolver at `addr` returns: the value the table
/// pairs with `addr`; an address the table does not know stands for a
/// resolver that returns its own address.
pub open spec fn spec_ifunc_result(ifuncs: Seq<(u64, u64)>, addr: u64) -> u64
    decreases ifuncs.len(),
{
    if ifuncs.len() == 0 {
        addr
    } else if ifuncs[0].0 == addr {
        ifuncs[0].1
    } else {
        spec_ifunc_result(ifuncs.drop_first(), addr)
    }
}

/// The version string a relocation entry's own symbol asks for, when the
/// image is versioned and the symbol carries a non-empty version name.
pub open spec fn spec_rel_version(d: SymbolData, i: int) -> Option<Seq<u8>> {
    match d.versions {
        Some(vs) => if 0 <= i < vs@.len() && vs@[i]@.len() > 0 {
            Some(vs@[i]@)
        } else {
            None
        },
        None => None,
    }
}

/// The first dependency image that defines `name` (with `version`, when
/// asked): its base, the symbol, and its TLS module id.
pub open spec fn spec_find_lib_sym(
    libs: Seq<RelocatedDylib>,
    name: Seq<u8>,
    version: Option<Seq<u8>>,
) -> Option<(u64, ElfSymbol, Option<u64>)>
    decreases libs.len(),
{
    if libs.len() == 0 {
        None
    } else {
        match libs[0].inner.symbols.spec_get_sym(name, version) {
            Some(sym) => Some((libs[0].inner.segments.base, sym, libs[0].inner.tls)),
            None => spec_find_lib_sym(libs.drop_first(), name, version),
        }
    }
}

/// The name the entry's symbol index refers to; indices outside the table,
/// and index zero, carry the empty name.
pub open spec fn spec_rel_name(ctx: RelocCtx, r_sym: int) -> Seq<u8> {
    if 0 < r_sym < ctx.symbols.symbols@.len() {
        ctx.symbols.spec_sym_name(r_sym)
    } else {
        Seq::empty()
    }
}

/// The defining image of the entry's symbol: the image itself when its own
/// symbol is defined (st_shndx is not SHN_UNDEF), else the first dependency
/// that defines the name.
pub open spec fn spec_find_symdef(ctx: RelocCtx, r_sym: int) -> Option<
    (u64, ElfSymbol, Option<u64>),
> {
    if r_sym <= 0 || r_sym >= ctx.symbols.symbols@.len() {
        None
    } else {
        let sym = ctx.symbols.symbols@[r_sym];
        if sym.st_shndx != SHN_UNDEF {
            Some((ctx.base, sym, ctx.tls))
        } else {
            spec_find_lib_sym(
                ctx.libs,
                ctx.symbols.spec_sym_name(r_sym),
                spec_rel_version(ctx.symbols, r_sym),
            )
        }
    }
}

/// The value S of a symbol definition: its base plus st_value; an IFUNC
/// symbol instead contributes what its resolver returns.
pub open spec fn spec_symdef_value(ctx: RelocCtx, def: (u64, ElfSymbol, Option<u64>)) -> u64 {
    if def.1.spec_st_type() == STT_GNU_IFUNC {
        spec_ifunc_result(ctx.ifuncs, wadd(def.0, def.1.st_value))
    } else {
        wadd(def.0, def.1.st_value)
    }
}

/// Resolution of the entry's symbol to a value S: the defining image first
/// (the image itself, then the dependencies in order), then the fallback
/// resolver.
pub open spec fn spec_resolve_s(ctx: RelocCtx, r_sym: int) -> Option<u64> {
    match spec_find_symdef(ctx, r_sym) {
        Some(def) => Some(spec_symdef_value(ctx, def)),
        None => spec_fallback_find(ctx.fallback, spec_rel_name(ctx, r_sym)),
    }
}

/// The word one relocation entry writes, or nothing when the entry cannot
/// be resolved. B is the base, A the addend, S the symbol value. An entry
/// whose target lies outside the reservation, whose type the architecture
/// does not know, or whose symbol cannot be resolved, yields nothing and
/// stays a candidate for a later pass.
#[verifier::opaque]
pub open spec fn spec_entry_value(ctx: RelocCtx, e: ElfRela, is_plt: bool) -> Option<u64> {
    let t = e.spec_r_type();
    let s = e.spec_r_symbol() as int;
    if e.r_offset + 8 > ctx.memlen {
        None
    } else if is_plt {
        if t == ctx.arch.spec_rel_jump_slot() && 0 < s < ctx.symbols.symbols@.len() {
            spec_resolve_s(ctx, s)
        } else {
            None
        }
    } else {
        if t == ctx.arch.spec_rel_relative() {
            Some(wadd(ctx.base, e.r_addend))
        } else if t != crate::arch::REL_ABSENT && (t == ctx.arch.spec_rel_got() || t
            == ctx.arch.spec_rel_symbolic()) {
            match spec_resolve_s(ctx, s) {
                Some(v) => Some(wadd(v, e.r_addend)),
                None => None,
            }
        } else if t == ctx.arch.spec_rel_dtpmod() {
            if s == 0 {
                ctx.tls
            } else {
                match spec_find_symdef(ctx, s) {
                    Some(def) => def.2,
                    None => None,
                }
            }
        } else if t == ctx.arch.spec_rel_dtpoff() {
            match spec_find_symdef(ctx, s) {
                Some(def) => Some(
                    wsub(wadd(def.1.st_value, e.r_addend), ctx.arch.spec_tls_dtv_offset()),
                ),
                None => None,
            }
        } else {
            None
        }
    }
}

/// The image memory after entries of one array are processed in index
/// order: each processed entry that resolves writes its word at its offset.
pub open spec fn spec_apply(
    ctx: RelocCtx,
    mem: Seq<u8>,
    entries: Seq<ElfRela>,
    process: Seq<bool>,
    is_plt: bool,
) -> Seq<u8>
    decreases entries.len(),
{
    if entries.len() == 0 {
        mem
    } else {
        let m1 = spec_apply(ctx, mem, entries.drop_last(), process.drop_last(), is_plt);
        let e = entries.last();
        if process.len() == entries.len() && process.last() && spec_entry_value(
            ctx,
            e,
            is_plt,
        ) is Some {
            with_word(m1, e.r_offset as int, spec_entry_value(ctx, e, is_plt).unwrap())
        } else {
            m1
        }
    }
}

impl ElfRelaArray {
    /// Which entries one pass processes: all of them at Init, the still
    /// clear ones at Relocating, none once finished.
    pub open spec fn spec_process(self) -> Seq<bool> {
        match self.state.stage {
            RelocateStage::Init => Seq::new(self.array@.len(), |i: int| true),
            RelocateStage::Relocating => Seq::new(
                self.array@.len(),
                |i: int| !self.state.relocated.spec_bit(i),
            ),
            RelocateStage::Finish => Seq::new(self.array@.len(), |i: int| false),
        }
    }

    /// The entry bits after one pass: a processed entry's bit becomes
    /// whether it resolved; an unprocessed entry keeps its bit.
    pub open spec fn spec_bits_after(self, ctx: RelocCtx, is_plt: bool) -> Seq<bool> {
        Seq::new(
            self.array@.len(),
            |i: int|
                match self.state.stage {
                    RelocateStage::Init => self.state.relocated.spec_bit(i) && spec_entry_value(
                        ctx,
                        self.array@[i],
                        is_plt,
                    ) is Some,
                    RelocateStage::Relocating => self.state.relocated.spec_bit(i)
                        || spec_entry_value(ctx, self.array@[i], is_plt) is Some,
                    RelocateStage::Finish => self.state.relocated.spec_bit(i),
                },
        )
    }

    /// The image memory after one pass over this array.
    pub open spec fn spec_mem_after(self, ctx: RelocCtx, mem: Seq<u8>, is_plt: bool) -> Seq<u8> {
        spec_apply(ctx, mem, self.array@, self.spec_process(), is_plt)
    }

    /// The stage after one pass: Finish when every processed entry
    /// resolved, else Relocating; a finished array is not touched again.
    pub open spec fn spec_stage_after(self, ctx: RelocCtx, is_plt: bool) -> RelocateStage {
        if self.state.stage == RelocateStage::Finish {
            RelocateStage::Finish
        } else if forall|i: int|
            0 <= i < self.array@.len() ==> (self.spec_process()[i] ==> spec_entry_value(
                ctx,
                self.array@[i],
                is_plt,
            ) is Some) {
            RelocateStage::Finish
        } else {
            RelocateStage::Relocating
        }
    }
}

/// A pass never changes the length of the memory.
pub proof fn lemma_apply_len(
    ctx: RelocCtx,
    mem: Seq<u8>,
    entries: Seq<ElfRela>,
    process: Seq<bool>,
    is_plt: bool,
)
    ensures
        spec_apply(ctx, mem, entries, process, is_plt).len() == mem.len(),
    decreases entries.len(),
{
    if entries.len() > 0 {
        lemma_apply_len(ctx, mem, entries.drop_last(), process.drop_last(), is_plt);
    }
}

/// A pass that processes nothing leaves the memory unchanged.
proof fn lemma_apply_all_skipped(
    ctx: RelocCtx,
    mem: Seq<u8>,
    entries: Seq<ElfRela>,
    process: Seq<bool>,
    is_plt: bool,
)
    requires
        process.len() == entries.len(),
        forall|i: int| 0 <= i < process.len() ==> !process[i],
    ensures
        spec_apply(ctx, mem, entries, process, is_plt) == mem,
    decreases entries.len(),
{
    if entries.len() > 0 {
        lemma_apply_all_skipped(ctx, mem, entries.drop_last(), process.drop_last(), is_plt);
    }
}

/// The context a relocate invocation of this image runs under.
pub open spec fn spec_make_ctx(
    arch: Arch,
    base: u64,
    memlen: int,
    symbols: SymbolData,
    tls: Option<u64>,
    libs: Seq<RelocatedDylib>,
    fallback: Seq<(Vec<u8>, u64)>,
    ifuncs: Seq<(u64, u64)>,
) -> RelocCtx {
    RelocCtx { arch, base, memlen, symbols, tls, libs, fallback, ifuncs }
}

/// Run one relocation pass over one array, as the stage directs: the Init
/// pass walks every entry, a Relocating pass walks only the entries whose
/// bit is still clear, a finished array is left alone. Every processed
/// entry that resolves has its word written; one that does not is left as
/// a candidate with its bit cleared.
pub fn relocate_array(
    arr: &mut ElfRelaArray,
    segments: &mut ElfSegments,
    arch: Arch,
    symbols: &SymbolData,
    tls: Option<u64>,
    libs: &Vec<RelocatedDylib>,
    fallback: &Vec<(Vec<u8>, u64)>,
    ifuncs: &Vec<(u64, u64)>,
    is_plt: bool,
)
    requires
        old(arr).bits_cover_entries(),
    ensures
        ({
            let ctx = spec_make_ctx(
                arch,
                old(segments).base,
                old(segments).memory@.len() as int,
                *symbols,
                tls,
                libs@,
                fallback@,
                ifuncs@,
            );
            &&& final(arr).array@ == old(arr).array@
            &&& final(arr).bits_cover_entries()
            &&& final(arr).state.relocated.spec_unit_count() == old(
                arr,
            ).state.relocated.spec_unit_count()
            &&& forall|i: int|
                0 <= i < final(arr).array@.len() ==> final(arr).state.relocated.spec_bit(i) == old(
                    arr,
                ).spec_bits_after(ctx, is_plt)[i]
            &&& final(arr).state.stage == old(arr).spec_stage_after(ctx, is_plt)
            &&& final(segments).memory@ == old(arr).spec_mem_after(
                ctx,
                old(segments).memory@,
                is_plt,
            )
            &&& final(segments).base == old(segments).base
            &&& final(segments).relro_applied == old(segments).relro_applied
        }),
{
    let ghost ctx = spec_make_ctx(
        arch,
        segments.base,
        segments.memory@.len() as int,
        *symbols,
        tls,
        libs@,
        fallback@,
        ifuncs@,
    );
    match arr.state.stage {
        RelocateStage::Finish => {
            proof {
                lemma_apply_all_skipped(
                    ctx,
                    segments.memory@,
                    arr.array@,
                    arr.spec_process(),
                    is_plt,
                );
            }
        },
        RelocateStage::Init => {
            relocate_pass(arr, segments, arch, symbols, tls, libs, fallback, ifuncs, is_plt);
        },
        RelocateStage::Relocating => {
            relocate_pass(arr, segments, arch, symbols, tls, libs, fallback, ifuncs, is_plt);
        },
    }
}

/// One working pass: every entry the stage selects is processed in index
/// order, and the stage ends at Finish exactly when no processed entry
/// failed.
#[verifier::rlimit(100)]
fn relocate_pass(
    arr: &mut ElfRelaArray,
    segments: &mut ElfSegments,
    arch: Arch,
    symbols: &SymbolData,
    tls: Option<u64>,
    libs: &Vec<RelocatedDylib>,
    fallback: &Vec<(Vec<u8>, u64)>,
    ifuncs: &Vec<(u64, u64)>,
    is_plt: bool,
)
    requires
        old(arr).bits_cover_entries(),
        old(arr).state.stage == RelocateStage::Init || old(arr).state.stage
            == RelocateStage::Relocating,
    ensures
        ({
            let ctx = spec_make_ctx(
                arch,
                old(segments).base,
                old(segments).memory@.len() as int,
                *symbols,
                tls,
                libs@,
                fallback@,
                ifuncs@,
            );
            &&& final(arr).array@ == old(arr).array@
            &&& final(arr).bits_cover_entries()
            &&& final(arr).state.relocated.spec_unit_count() == old(
                arr,
            ).state.relocated.spec_unit_count()
            &&& forall|i: int|
                0 <= i < final(arr).array@.len() ==> final(arr).state.relocated.spec_bit(i) == old(
                    arr,
                ).spec_bits_after(ctx, is_plt)[i]
            &&& final(arr).state.stage == old(arr).spec_stage_after(ctx, is_plt)
            &&& final(segments).memory@ == old(arr).spec_mem_after(
                ctx,
                old(segments).memory@,
                is_plt,
            )
            &&& final(segments).base == old(segments).base
            &&& final(segments).relro_applied == old(segments).relro_applied
        }),
{
    let ghost ctx = spec_make_ctx(
        arch,
        segments.base,
        segments.memory@.len() as int,
        *symbols,
        tls,
        libs@,
        fallback@,
        ifuncs@,
    );
    let ghost mem0 = segments.memory@;
    let ghost entries = arr.array@;
    let ghost proc = arr.spec_process();
    let ghost stage0 = arr.state.stage;
    let base = segments.get_base();
    let memlen = segments.len();
    let n = arr.array.len();
    let ghost units = arr.state.relocated.spec_unit_count();
    let init = arr.state.stage == RelocateStage::Init;
    let mut failed = false;
    let mut idx: usize = 0;
    proof {
        assert(entries.take(0) =~= Seq::<ElfRela>::empty());
        assert(spec_apply(ctx, mem0, entries.take(0), proc.take(0), is_plt) == mem0);
    }
    while idx < n
        invariant
            0 <= idx <= n,
            n == entries.len(),
            arr.array@ == entries,
            arr.state.stage == stage0,
            init == (stage0 == RelocateStage::Init),
            stage0 == RelocateStage::Init || stage0 == RelocateStage::Relocating,
            proc == (if init {
                Seq::new(entries.len(), |i: int| true)
            } else {
                Seq::new(entries.len(), |i: int| !old(arr).state.relocated.spec_bit(i))
            }),
            arr.state.relocated.spec_unit_count() == units,
            n <= units * 32,
            ctx == spec_make_ctx(
                arch,
                base,
                memlen as int,
                *symbols,
                tls,
                libs@,
                fallback@,
                ifuncs@,
            ),
            segments.base == base,
            segments.relro_applied == old(segments).relro_applied,
            segments.memory@.len() == memlen,
            memlen == mem0.len(),
            mem0 == old(segments).memory@,
            entries == old(arr).array@,
            units == old(arr).state.relocated.spec_unit_count(),
            forall|j: int|
                0 <= j < idx ==> arr.state.relocated.spec_bit(j) == (if init {
                    old(arr).state.relocated.spec_bit(j) && spec_entry_value(
                        ctx,
                        entries[j],
                        is_plt,
                    ) is Some
                } else {
                    old(arr).state.relocated.spec_bit(j) || spec_entry_value(
                        ctx,
                        entries[j],
                        is_plt,
                    ) is Some
                }),
            forall|j: int|
                idx <= j < units * 32 ==> arr.state.relocated.spec_bit(j) == old(
                    arr,
                ).state.relocated.spec_bit(j),
            segments.memory@ == spec_apply(
                ctx,
                mem0,
                entries.take(idx as int),
                proc.take(idx as int),
                is_plt,
            ),
            !failed <==> (forall|j: int|
                0 <= j < idx ==> (proc[j] ==> spec_entry_value(ctx, entries[j], is_plt) is Some)),
        decreases n - idx,
    {
        proof {
            assert(idx < units * 32);
            assert(idx as int / 32 < units) by (nonlinear_arith)
                requires
                    (idx as int) < units * 32,
                    0 <= idx,
            ;
        }
        let process_this = if init {
            true
        } else {
            let already = arr.state.relocated.get(idx);
            if !already {
                arr.state.relocated.set(idx);
            }
            !already
        };
        if process_this {
            let e = arr.array[idx];
            let v = entry_value(
                &e,
                is_plt,
                arch,
                base,
                memlen,
                symbols,
                tls,
                libs,
                fallback,
                ifuncs,
                Ghost(ctx),
            );
            match v {
                Some(val) => {
                    proof {
                        reveal(spec_entry_value);
                        assert(e.r_offset + 8 <= memlen);
                    }
                    segments.write_word(e.r_offset as usize, val);
                },
                None => {
                    arr.state.relocated.clear(idx);
                    failed = true;
                },
            }
        }
        proof {
            assert(entries.take(idx + 1).drop_last() =~= entries.take(idx as int));
            assert(proc.take(idx + 1).drop_last() =~= proc.take(idx as int));
            assert(entries.take(idx + 1).last() == entries[idx as int]);
            assert(proc.take(idx + 1).last() == proc[idx as int]);
            assert(segments.memory@ == spec_apply(
                ctx,
                mem0,
                entries.take(idx + 1),
                proc.take(idx + 1),
                is_plt,
            ));
        }
        idx += 1;
    }
    arr.state.stage = if failed {
        RelocateStage::Relocating
    } else {
        RelocateStage::Finish
    };
    proof {
        assert(entries.take(n as int) =~= entries);
        assert(proc.take(n as int) =~= proc);
        assert(proc =~= old(arr).spec_process());
        assert forall|i: int| 0 <= i < n implies arr.state.relocated.spec_bit(i) == old(
            arr,
        ).spec_bits_after(ctx, is_plt)[i] by {
            assert(old(arr).spec_bits_after(ctx, is_plt)[i] == (if init {
                old(arr).state.relocated.spec_bit(i) && spec_entry_value(
                    ctx,
                    entries[i],
                    is_plt,
                ) is Some
            } else {
                old(arr).state.relocated.spec_bit(i) || spec_entry_value(
                    ctx,
                    entries[i],
                    is_plt,
                ) is Some
            }));
        }
        if failed {
            let j = choose|j: int|
                0 <= j < n && proc[j] && !(spec_entry_value(ctx, entries[j], is_plt) is Some);
            assert(old(arr).spec_process()[j] && !(spec_entry_value(
                ctx,
                entries[j],
                is_plt,
            ) is Some));
            assert(arr.state.stage == old(arr).spec_stage_after(ctx, is_plt));
        } else {
            assert forall|i: int|
                0 <= i < n implies (old(arr).spec_process()[i] ==> spec_entry_value(
                ctx,
                entries[i],
                is_plt,
            ) is Some) by {
                assert(proc[i] == old(arr).spec_process()[i]);
            }
            assert(arr.state.stage == old(arr).spec_stage_after(ctx, is_plt));
        }
        assert(segments.memory@ == old(arr).spec_mem_after(ctx, mem0, is_plt));
    }
}
/// Whether one pass turned `pre` into `post`, against `ctx`.
pub open spec fn spec_arr_after(
    pre: ElfRelaArray,
    ctx: RelocCtx,
    is_plt: bool,
    post: ElfRelaArray,
) -> bool {
    &&& post.array@ == pre.array@
    &&& post.bits_cover_entries()
    &&& post.state.relocated.spec_unit_count() == pre.state.relocated.spec_unit_count()
    &&& forall|i: int|
        0 <= i < post.array@.len() ==> post.state.relocated.spec_bit(i) == pre.spec_bits_after(
            ctx,
            is_plt,
        )[i]
    &&& post.state.stage == pre.spec_stage_after(ctx, is_plt)
}

/// The names of the entries of `arr` up to index `i` that still stand
/// unresolved and refer to a symbol.
pub open spec fn spec_unresolved_upto(arr: ElfRelaArray, d: SymbolData, i: int) -> Seq<Seq<u8>>
    decreases i,
{
    if i <= 0 {
        Seq::empty()
    } else {
        let e = arr.array@[i - 1];
        let s = e.spec_r_symbol() as int;
        if !arr.state.relocated.spec_bit(i - 1) && 0 < s < d.symbols@.len() {
            spec_unresolved_upto(arr, d, i - 1).push(d.spec_sym_name(s))
        } else {
            spec_unresolved_upto(arr, d, i - 1)
        }
    }
}

/// The names of all still-unresolved entries of an optional array.
pub open spec fn spec_unresolved(arr: Option<ElfRelaArray>, d: SymbolData) -> Seq<Seq<u8>> {
    match arr {
        Some(a) => spec_unresolved_upto(a, d, a.array@.len() as int),
        None => Seq::empty(),
    }
}

impl ElfDylib {
    /// The names of the libraries this object asks for.
    pub fn needed_libs(&self) -> (r: &Vec<Vec<u8>>)
        ensures
            r@ == self.needed_libs@,
    {
        &self.needed_libs
    }

    /// Whether every PLT entry is a JUMP_SLOT that names a symbol of the
    /// table. A violation is an internal invariant breach the source meets
    /// with a panic; this library's verified functions do not panic, so
    /// such inputs are left out of `relocate` by `requires` instead.
    pub open spec fn plt_entries_wf(self) -> bool {
        self.relocation.pltrel is Some ==> (forall|i: int|
            0 <= i < self.relocation.pltrel.unwrap().array@.len() ==> (
            #[trigger] self.relocation.pltrel.unwrap().array@[i].spec_r_type()
                == self.arch.spec_rel_jump_slot() && 0
                < self.relocation.pltrel.unwrap().array@[i].spec_r_symbol()
                < self.symbols.symbols@.len()))
    }

    /// Whether the bitmaps of both arrays cover their entries. Every image
    /// built by this library satisfies it.
    pub open spec fn rel_wf(self) -> bool {
        &&& (self.relocation.pltrel matches Some(a) ==> a.bits_cover_entries())
        &&& (self.relocation.dynrel matches Some(a) ==> a.bits_cover_entries())
    }

    /// The context a relocate invocation of this image runs under.
    pub open spec fn spec_relocate_ctx(
        self,
        libs: Seq<RelocatedDylib>,
        fallback: Seq<(Vec<u8>, u64)>,
        ifuncs: Seq<(u64, u64)>,
    ) -> RelocCtx {
        spec_make_ctx(
            self.arch,
            self.segments.base,
            self.segments.memory@.len() as int,
            self.symbols,
            self.tls,
            libs,
            fallback,
            ifuncs,
        )
    }

    /// Whether `post` is `pre` after one relocate invocation: the PLT array
    /// passes first unless lazy binding skips it, then the dynamic array
    /// passes over the intermediate memory, and the dependency list grows
    /// by the given images.
    pub open spec fn spec_relocate_post(
        pre: ElfDylib,
        libs: Seq<RelocatedDylib>,
        fallback: Seq<(Vec<u8>, u64)>,
        ifuncs: Seq<(u64, u64)>,
        post: ElfDylib,
    ) -> bool {
        let ctx = pre.spec_relocate_ctx(libs, fallback, ifuncs);
        let plt_run = !pre.lazy && pre.relocation.pltrel is Some;
        let mem1 = if plt_run {
            pre.relocation.pltrel.unwrap().spec_mem_after(ctx, pre.segments.memory@, true)
        } else {
            pre.segments.memory@
        };
        let mem2 = if pre.relocation.dynrel is Some {
            pre.relocation.dynrel.unwrap().spec_mem_after(ctx, mem1, false)
        } else {
            mem1
        };
        &&& post.segments.memory@ == mem2
        &&& post.segments.base == pre.segments.base
        &&& post.segments.relro_applied == pre.segments.relro_applied
        &&& (post.relocation.pltrel is Some <==> pre.relocation.pltrel is Some)
        &&& (post.relocation.dynrel is Some <==> pre.relocation.dynrel is Some)
        &&& (plt_run ==> spec_arr_after(
            pre.relocation.pltrel.unwrap(),
            ctx,
            true,
            post.relocation.pltrel.unwrap(),
        ))
        &&& (!plt_run ==> post.relocation.pltrel == pre.relocation.pltrel)
        &&& (pre.relocation.dynrel is Some ==> spec_arr_after(
            pre.relocation.dynrel.unwrap(),
            ctx,
            false,
            post.relocation.dynrel.unwrap(),
        ))
        &&& post.dep_libs@ == pre.dep_libs@ + libs
        &&& post.name == pre.name
        &&& post.phdrs@ == pre.phdrs@
        &&& post.entry == pre.entry
        &&& post.symbols == pre.symbols
        &&& post.tls == pre.tls
        &&& post.fini_fn == pre.fini_fn
        &&& post.fini_array == pre.fini_array
        &&& post.user_data == pre.user_data
        &&& post.relro == pre.relro
        &&& post.init_fn == pre.init_fn
        &&& post.init_array == pre.init_array
        &&& post.needed_libs@ == pre.needed_libs@
        &&& post.lazy == pre.lazy
        &&& post.arch == pre.arch
    }

    /// Relocate the dynamic library against the given images. The IFUNC
    /// table stands for the resolver runs the caller performs: it maps a
    /// resolver address to the value the resolver returns.
    pub fn relocate(self, libs: Vec<RelocatedDylib>, ifuncs: &Vec<(u64, u64)>) -> (r: Self)
        requires
            self.rel_wf(),
            !self.lazy ==> self.plt_entries_wf(),
        ensures
            Self::spec_relocate_post(self, libs@, Seq::empty(), ifuncs@, r),
            r.rel_wf(),
    {
        let fallback: Vec<(Vec<u8>, u64)> = Vec::new();
        proof {
            assert(fallback@ =~= Seq::<(Vec<u8>, u64)>::empty());
        }
        self.relocate_with(libs, &fallback, ifuncs)
    }

    /// Relocate the dynamic library against the given images and a custom
    /// symbol-resolver table, consulted when neither the image itself nor a
    /// dependency defines a name.
    pub fn relocate_with(
        self,
        libs: Vec<RelocatedDylib>,
        fallback: &Vec<(Vec<u8>, u64)>,
        ifuncs: &Vec<(u64, u64)>,
    ) -> (r: Self)
        requires
            self.rel_wf(),
            !self.lazy ==> self.plt_entries_wf(),
        ensures
            Self::spec_relocate_post(self, libs@, fallback@, ifuncs@, r),
            r.rel_wf(),
    {
        let ghost pre = self;
        let ghost ctx = pre.spec_relocate_ctx(libs@, fallback@, ifuncs@);
        let ElfDylib {
            name,
            phdrs,
            entry,
            symbols,
            tls,
            mut segments,
            fini_fn,
            fini_array,
            user_data,
            mut dep_libs,
            relocation,
            relro,
            init_fn,
            init_array,
            needed_libs,
            lazy,
            arch,
        } = self;
        let ElfRelocation { pltrel, dynrel } = relocation;
        let pltrel = if !lazy {
            match pltrel {
                Some(mut arr) => {
                    relocate_array(
                        &mut arr,
                        &mut segments,
                        arch,
                        &symbols,
                        tls,
                        &libs,
                        fallback,
                        ifuncs,
                        true,
                    );
                    Some(arr)
                },
                None => None,
            }
        } else {
            pltrel
        };
        proof {
            if !pre.lazy && pre.relocation.pltrel is Some {
                lemma_apply_len(
                    ctx,
                    pre.segments.memory@,
                    pre.relocation.pltrel.unwrap().array@,
                    pre.relocation.pltrel.unwrap().spec_process(),
                    true,
                );
            }
            assert(segments.memory@.len() == pre.segments.memory@.len());
            assert(segments.base == pre.segments.base);
        }
        let dynrel = match dynrel {
            Some(mut arr) => {
                relocate_array(
                    &mut arr,
                    &mut segments,
                    arch,
                    &symbols,
                    tls,
                    &libs,
                    fallback,
                    ifuncs,
                    false,
                );
                Some(arr)
            },
            None => None,
        };
        let mut libs_in = libs;
        dep_libs.append(&mut libs_in);
        ElfDylib {
            name,
            phdrs,
            entry,
            symbols,
            tls,
            segments,
            fini_fn,
            fini_array,
            user_data,
            dep_libs,
            relocation: ElfRelocation { pltrel, dynrel },
            relro,
            init_fn,
            init_array,
            needed_libs,
            lazy,
            arch,
        }
    }

    /// Whether both arrays are finished: a lazy image does not count its
    /// PLT array, an absent array counts as finished.
    pub open spec fn spec_is_finished(self) -> bool {
        &&& (self.lazy || match self.relocation.pltrel {
            Some(a) => a.spec_is_finished(),
            None => true,
        })
        &&& (match self.relocation.dynrel {
            Some(a) => a.spec_is_finished(),
            None => true,
        })
    }

    /// Whether there are any entries that have not been relocated.
    pub fn is_finished(&self) -> (r: bool)
        ensures
            r == self.spec_is_finished(),
    {
        let mut finished = true;
        if !self.lazy {
            if let Some(arr) = &self.relocation.pltrel {
                if !arr.is_finished() {
                    finished = false;
                }
            }
        }
        if let Some(arr) = &self.relocation.dynrel {
            if !arr.is_finished() {
                finished = false;
            }
        }
        finished
    }

    /// The names of the symbols that have not been relocated: the PLT
    /// array's first, then the dynamic array's, each in entry order.
    pub fn not_relocated(&self) -> (r: Vec<Vec<u8>>)
        requires
            self.rel_wf(),
        ensures
            r@.map_values(|v: Vec<u8>| v@) == spec_unresolved(self.relocation.pltrel, self.symbols)
                + spec_unresolved(self.relocation.dynrel, self.symbols),
    {
        let mut out: Vec<Vec<u8>> = Vec::new();
        if let Some(arr) = &self.relocation.pltrel {
            unresolved_names(arr, &self.symbols, &mut out);
        }
        if let Some(arr) = &self.relocation.dynrel {
            unresolved_names(arr, &self.symbols, &mut out);
        }
        proof {
            assert(out@.map_values(|v: Vec<u8>| v@) =~= spec_unresolved(
                self.relocation.pltrel,
                self.symbols,
            ) + spec_unresolved(self.relocation.dynrel, self.symbols));
        }
        out
    }
}

/// The bytes of the rendered unresolved-name list: each name that is
/// valid UTF-8 appears in order between a bracket and a bracket-space;
/// a name that is not valid UTF-8 is left out.
pub open spec fn spec_rendered_names(names: Seq<Seq<u8>>) -> Seq<u8>
    decreases names.len(),
{
    if names.len() == 0 {
        Seq::empty()
    } else {
        spec_rendered_names(names.drop_last()) + (if vstd::utf8::valid_utf8(names.last()) {
            vstd::utf8::encode_utf8("["@) + names.last() + vstd::utf8::encode_utf8("] "@)
        } else {
            Seq::empty()
        })
    }
}

/// The bytes of the message a failed finalise carries: the image name, a
/// fixed heading, then the rendered unresolved-name list.
pub open spec fn spec_unresolved_message(name: Seq<char>, names: Seq<Seq<u8>>) -> Seq<u8> {
    vstd::utf8::encode_utf8(name) + vstd::utf8::encode_utf8(
        ": The symbols that have not been relocated:   "@,
    ) + spec_rendered_names(names)
}

impl ElfDylib {
    /// Finish relocation. When both arrays are done, the RELRO protection
    /// is applied unless lazy binding left the PLT open, the TLS module id
    /// is attached to the user-data bag, and the image is wrapped in a
    /// relocated handle; the second component lists the addresses the
    /// caller then runs, INIT first, then every INIT-array entry in
    /// increasing index order. An image that is not finished is handed
    /// back unchanged, together with an error that names every symbol
    /// still unresolved.
    pub fn finish(self) -> (r: Result<(RelocatedDylib, Vec<u64>), (ElfDylib, Error)>)
        requires
            self.rel_wf(),
            crate::call_array_in_bounds(self.init_array, self.segments),
        ensures
            self.spec_is_finished() <==> r is Ok,
            r matches Err(p) ==> p.0 == self && (p.1 matches Error::RelocateError { msg }
                && vstd::utf8::encode_utf8(msg@) == spec_unresolved_message(
                self.name@,
                spec_unresolved(self.relocation.pltrel, self.symbols) + spec_unresolved(
                    self.relocation.dynrel,
                    self.symbols,
                ),
            )),
            r matches Ok(p) ==> {
                &&& p.0.inner.name == self.name
                &&& p.0.inner.symbols == self.symbols
                &&& p.0.inner.tls == self.tls
                &&& p.0.inner.fini_fn == self.fini_fn
                &&& p.0.inner.fini_array == self.fini_array
                &&& p.0.inner.dep_libs@ == self.dep_libs@
                &&& p.0.inner.user_data@ == self.user_data@ + (match self.tls {
                    Some(m) => seq![m],
                    None => Seq::<u64>::empty(),
                })
                &&& p.0.inner.segments.base == self.segments.base
                &&& p.0.inner.segments.memory@ == self.segments.memory@
                &&& p.0.inner.segments.relro_applied == (self.segments.relro_applied || (!self.lazy
                    && self.relro is Some))
                &&& p.1@ == crate::spec_call_sequence(
                    self.init_fn,
                    self.init_array,
                    self.segments.base,
                    self.segments.memory@,
                )
            },
    {
        if !self.is_finished() {
            let names = self.not_relocated();
            let ghost list = names@.map_values(|v: Vec<u8>| v@);
            let mut msg = String::new();
            msg.append(self.name.as_str());
            msg.append(": The symbols that have not been relocated:   ");
            let ghost header = vstd::utf8::encode_utf8(self.name@) + vstd::utf8::encode_utf8(
                ": The symbols that have not been relocated:   "@,
            );
            proof {
                assert(Seq::<char>::empty() + self.name@ =~= self.name@);
                lemma_encode_utf8_concat(
                    self.name@,
                    ": The symbols that have not been relocated:   "@,
                );
                assert(vstd::utf8::encode_utf8(msg@) =~= header);
                assert(list.take(0) =~= Seq::<Seq<u8>>::empty());
            }
            let mut k: usize = 0;
            while k < names.len()
                invariant
                    0 <= k <= names@.len(),
                    list == names@.map_values(|v: Vec<u8>| v@),
                    vstd::utf8::encode_utf8(msg@) == header + spec_rendered_names(
                        list.take(k as int),
                    ),
                decreases names@.len() - k,
            {
                let nm: &Vec<u8> = &names[k];
                let ghost msg0 = msg@;
                match bytes_as_str(nm.as_slice()) {
                    Some(text) => {
                        msg.append("[");
                        msg.append(text);
                        msg.append("] ");
                        proof {
                            assert(vstd::utf8::valid_utf8(list[k as int]));
                            lemma_encode_utf8_concat(msg0, "["@);
                            lemma_encode_utf8_concat(msg0 + "["@, text@);
                            lemma_encode_utf8_concat(msg0 + "["@ + text@, "] "@);
                            assert(vstd::utf8::encode_utf8(text@) == list[k as int]);
                            assert(list.take(k + 1).drop_last() =~= list.take(k as int));
                            assert(list.take(k + 1).last() == list[k as int]);
                            assert(vstd::utf8::encode_utf8(msg@) =~= header + spec_rendered_names(
                                list.take(k + 1),
                            ));
                        }
                    },
                    None => {
                        proof {
                            assert(!vstd::utf8::valid_utf8(list[k as int]));
                            assert(list.take(k + 1).drop_last() =~= list.take(k as int));
                            assert(list.take(k + 1).last() == list[k as int]);
                            assert(vstd::utf8::encode_utf8(msg@) =~= header + spec_rendered_names(
                                list.take(k + 1),
                            ));
                        }
                    },
                }
                k += 1;
            }
            proof {
                assert(list.take(names@.len() as int) =~= list);
                assert(vstd::utf8::encode_utf8(msg@) == spec_unresolved_message(
                    self.name@,
                    spec_unresolved(self.relocation.pltrel, self.symbols) + spec_unresolved(
                        self.relocation.dynrel,
                        self.symbols,
                    ),
                ));
            }
            return Err((self, relocate_error(msg)));
        }
        let init_calls = crate::call_sequence(self.init_fn, self.init_array, &self.segments);
        let ElfDylib {
            name,
            symbols,
            tls,
            mut segments,
            fini_fn,
            fini_array,
            mut user_data,
            dep_libs,
            relro,
            lazy,
            ..
        } = self;
        if !lazy && relro.is_some() {
            segments.relro_applied = true;
        }
        match tls {
            Some(m) => {
                user_data.data_mut().push(m);
            },
            None => {},
        }
        Ok(
            (
                RelocatedDylib {
                    inner: Dylib {
                        name,
                        symbols,
                        tls,
                        fini_fn,
                        fini_array,
                        user_data,
                        dep_libs,
                        segments,
                    },
                },
                init_calls,
            ),
        )
    }
}

/// A pass whose processed entries all fail writes nothing.
proof fn lemma_apply_no_writes(
    ctx: RelocCtx,
    mem: Seq<u8>,
    entries: Seq<ElfRela>,
    process: Seq<bool>,
    is_plt: bool,
)
    requires
        process.len() == entries.len(),
        forall|i: int|
            0 <= i < entries.len() ==> (process[i] ==> !(spec_entry_value(
                ctx,
                #[trigger] entries[i],
                is_plt,
            ) is Some)),
    ensures
        spec_apply(ctx, mem, entries, process, is_plt) == mem,
    decreases entries.len(),
{
    if entries.len() > 0 {
        lemma_apply_no_writes(ctx, mem, entries.drop_last(), process.drop_last(), is_plt);
    }
}

/// After relocation, for every processed RELATIVE entry at offset o with
/// addend A, the word at o reads base + A, provided the entries of the
/// array write pairwise non-overlapping words.
pub proof fn lemma_relative_round_trip(
    ctx: RelocCtx,
    mem: Seq<u8>,
    entries: Seq<ElfRela>,
    process: Seq<bool>,
    k: int,
)
    requires
        process.len() == entries.len(),
        mem.len() == ctx.memlen,
        0 <= k < entries.len(),
        process[k],
        entries[k].spec_r_type() == ctx.arch.spec_rel_relative(),
        entries[k].r_offset + 8 <= ctx.memlen,
        forall|i: int, j: int|
            0 <= i < j < entries.len() ==> #[trigger] entries[i].r_offset + 8 <= #[trigger] entries[j].r_offset
                || entries[j].r_offset + 8 <= entries[i].r_offset,
    ensures
        word_at(spec_apply(ctx, mem, entries, process, false), entries[k].r_offset as int) == wadd(
            ctx.base,
            entries[k].r_addend,
        ),
    decreases entries.len(),
{
    reveal(spec_entry_value);
    let e = entries[k];
    let m1 = spec_apply(ctx, mem, entries.drop_last(), process.drop_last(), false);
    lemma_apply_len(ctx, mem, entries.drop_last(), process.drop_last(), false);
    if k == entries.len() - 1 {
        assert(spec_entry_value(ctx, e, false) == Some(wadd(ctx.base, e.r_addend)));
        crate::segment::lemma_with_word(m1, e.r_offset as int, wadd(ctx.base, e.r_addend));
    } else {
        assert(entries.drop_last()[k] == entries[k]);
        lemma_relative_round_trip(ctx, mem, entries.drop_last(), process.drop_last(), k);
        let last = entries.last();
        if process.last() && spec_entry_value(ctx, last, false) is Some {
            let v = spec_entry_value(ctx, last, false).unwrap();
            assert(last.r_offset + 8 <= ctx.memlen);
            assert(entries[k].r_offset + 8 <= last.r_offset || last.r_offset + 8 <= entries[
                k
            ].r_offset);
            crate::segment::lemma_with_word_frame(
                m1,
                last.r_offset as int,
                v,
                e.r_offset as int,
            );
        }
    }
}

/// Within a single relocate pass, a cleared bit is never re-set unless
/// the entry successfully relocates on that pass.
pub proof fn lemma_bitmap_monotone(arr: ElfRelaArray, ctx: RelocCtx, is_plt: bool, i: int)
    requires
        0 <= i < arr.array@.len(),
        !arr.state.relocated.spec_bit(i),
        arr.spec_bits_after(ctx, is_plt)[i],
    ensures
        spec_entry_value(ctx, arr.array@[i], is_plt) is Some,
{
}

/// Relocation is idempotent under reapplication: a second pass under the
/// same context writes nothing and leaves every bit as it stands, because
/// an entry whose bit is clear after a pass is exactly one that does not
/// resolve under that context.
pub proof fn lemma_relocate_idempotent(
    arr: ElfRelaArray,
    ctx: RelocCtx,
    is_plt: bool,
    mem: Seq<u8>,
)
    requires
        arr.state.stage == RelocateStage::Relocating || arr.state.stage == RelocateStage::Finish,
        forall|i: int|
            0 <= i < arr.array@.len() ==> (!arr.state.relocated.spec_bit(i) ==> !(
            spec_entry_value(ctx, #[trigger] arr.array@[i], is_plt) is Some)),
    ensures
        arr.spec_mem_after(ctx, mem, is_plt) == mem,
        forall|i: int|
            0 <= i < arr.array@.len() ==> arr.spec_bits_after(ctx, is_plt)[i]
                == arr.state.relocated.spec_bit(i),
        arr.spec_stage_after(ctx, is_plt) == arr.state.stage
            || arr.spec_stage_after(ctx, is_plt) == RelocateStage::Finish,
{
    if arr.state.stage == RelocateStage::Finish {
        lemma_apply_all_skipped(ctx, mem, arr.array@, arr.spec_process(), is_plt);
    } else {
        lemma_apply_no_writes(ctx, mem, arr.array@, arr.spec_process(), is_plt);
    }
}

/// Whether an array's bookkeeping could have come out of this library:
/// an array still at Init has every bit set, as fresh bookkeeping does.
pub open spec fn spec_canonical(arr: ElfRelaArray) -> bool {
    arr.state.stage == RelocateStage::Init ==> forall|i: int|
        0 <= i < arr.array@.len() ==> arr.state.relocated.spec_bit(i)
}

/// After a pass from a canonical array, a clear bit marks exactly an entry
/// that does not resolve under the pass's context.
proof fn lemma_pass_clear_bits_fail(arr: ElfRelaArray, ctx: RelocCtx, is_plt: bool, i: int)
    requires
        spec_canonical(arr),
        0 <= i < arr.array@.len(),
        !arr.spec_bits_after(ctx, is_plt)[i],
        arr.state.stage != RelocateStage::Finish,
    ensures
        !(spec_entry_value(ctx, arr.array@[i], is_plt) is Some),
{
}

/// Running relocate twice with the same dependency set, the same fallback
/// table and the same IFUNC table yields the same final memory image: the
/// second invocation writes nothing.
pub proof fn lemma_relocate_twice_same_memory(
    pre: ElfDylib,
    libs: Seq<RelocatedDylib>,
    fallback: Seq<(Vec<u8>, u64)>,
    ifuncs: Seq<(u64, u64)>,
    mid: ElfDylib,
    post: ElfDylib,
)
    requires
        pre.relocation.pltrel matches Some(a) ==> spec_canonical(a),
        pre.relocation.dynrel matches Some(a) ==> spec_canonical(a),
        ElfDylib::spec_relocate_post(pre, libs, fallback, ifuncs, mid),
        ElfDylib::spec_relocate_post(mid, libs, fallback, ifuncs, post),
    ensures
        post.segments.memory@ == mid.segments.memory@,
{
    let ctx1 = pre.spec_relocate_ctx(libs, fallback, ifuncs);
    let plt_run = !pre.lazy && pre.relocation.pltrel is Some;
    let mem1 = if plt_run {
        pre.relocation.pltrel.unwrap().spec_mem_after(ctx1, pre.segments.memory@, true)
    } else {
        pre.segments.memory@
    };
    if plt_run {
        lemma_apply_len(
            ctx1,
            pre.segments.memory@,
            pre.relocation.pltrel.unwrap().array@,
            pre.relocation.pltrel.unwrap().spec_process(),
            true,
        );
    }
    if pre.relocation.dynrel is Some {
        lemma_apply_len(
            ctx1,
            mem1,
            pre.relocation.dynrel.unwrap().array@,
            pre.relocation.dynrel.unwrap().spec_process(),
            false,
        );
    }
    let ctx2 = mid.spec_relocate_ctx(libs, fallback, ifuncs);
    assert(mid.segments.memory@.len() == pre.segments.memory@.len());
    assert(ctx2 == ctx1);
    let mid_plt_run = !mid.lazy && mid.relocation.pltrel is Some;
    if mid_plt_run {
        lemma_second_pass_writes_nothing(
            pre.relocation.pltrel.unwrap(),
            mid.relocation.pltrel.unwrap(),
            ctx1,
            true,
            mid.segments.memory@,
        );
    }
    let mem2 = if mid_plt_run {
        mid.relocation.pltrel.unwrap().spec_mem_after(ctx2, mid.segments.memory@, true)
    } else {
        mid.segments.memory@
    };
    assert(mem2 == mid.segments.memory@);
    if mid.relocation.dynrel is Some {
        lemma_second_pass_writes_nothing(
            pre.relocation.dynrel.unwrap(),
            mid.relocation.dynrel.unwrap(),
            ctx1,
            false,
            mem2,
        );
    }
}

/// An array that has already passed under a context writes nothing when it
/// passes under the same context again.
proof fn lemma_second_pass_writes_nothing(
    a1: ElfRelaArray,
    a2: ElfRelaArray,
    ctx: RelocCtx,
    is_plt: bool,
    mem: Seq<u8>,
)
    requires
        spec_canonical(a1),
        spec_arr_after(a1, ctx, is_plt, a2),
    ensures
        a2.spec_mem_after(ctx, mem, is_plt) == mem,
{
    if a2.state.stage == RelocateStage::Finish {
        lemma_apply_all_skipped(ctx, mem, a2.array@, a2.spec_process(), is_plt);
    } else {
        assert(a1.state.stage != RelocateStage::Finish);
        assert forall|i: int|
            0 <= i < a2.array@.len() implies (!a2.state.relocated.spec_bit(i) ==> !(
        spec_entry_value(ctx, #[trigger] a2.array@[i], is_plt) is Some)) by {
            assert(a2.state.relocated.spec_bit(i) == a1.spec_bits_after(ctx, is_plt)[i]);
            if !a2.state.relocated.spec_bit(i) {
                lemma_pass_clear_bits_fail(a1, ctx, is_plt, i);
            }
        }
        lemma_relocate_idempotent(a2, ctx, is_plt, mem);
    }
}

/// Collect the names of the still-unresolved entries of one array, in
/// entry order.
fn unresolved_names(arr: &ElfRelaArray, d: &SymbolData, out: &mut Vec<Vec<u8>>)
    requires
        arr.bits_cover_entries(),
    ensures
        final(out)@.map_values(|v: Vec<u8>| v@) == old(out)@.map_values(|v: Vec<u8>| v@)
            + spec_unresolved_upto(*arr, *d, arr.array@.len() as int),
{
    let n = arr.array.len();
    let mut i: usize = 0;
    while i < n
        invariant
            0 <= i <= n,
            n == arr.array@.len(),
            arr.bits_cover_entries(),
            out@.map_values(|v: Vec<u8>| v@) == old(out)@.map_values(|v: Vec<u8>| v@)
                + spec_unresolved_upto(*arr, *d, i as int),
        decreases n - i,
    {
        proof {
            assert(i < arr.state.relocated.spec_unit_count() * 32);
            assert(i as int / 32 < arr.state.relocated.spec_unit_count()) by (nonlinear_arith)
                requires
                    (i as int) < arr.state.relocated.spec_unit_count() * 32,
                    0 <= i,
            ;
        }
        let bit = arr.state.relocated.get(i);
        let e = arr.array[i];
        let r_sym64 = e.r_symbol();
        let ghost prev = out@;
        if !bit && r_sym64 != 0 && r_sym64 < d.symbols.len() as u64 {
            let name = sym_name_slice(d, r_sym64 as usize);
            let owned = vstd::slice::slice_to_vec(name);
            out.push(owned);
            proof {
                assert(spec_unresolved_upto(*arr, *d, i + 1) =~= spec_unresolved_upto(
                    *arr,
                    *d,
                    i as int,
                ).push(d.spec_sym_name(r_sym64 as int)));
                assert(out@ =~= prev.push(owned));
                assert(out@.map_values(|v: Vec<u8>| v@) =~= prev.map_values(
                    |v: Vec<u8>| v@,
                ).push(owned@));
                assert(out@.map_values(|v: Vec<u8>| v@) =~= old(out)@.map_values(|v: Vec<u8>| v@)
                    + spec_unresolved_upto(*arr, *d, i + 1));
            }
        } else {
            proof {
                assert(spec_unresolved_upto(*arr, *d, i + 1) =~= spec_unresolved_upto(
                    *arr,
                    *d,
                    i as int,
                ));
                assert(out@.map_values(|v: Vec<u8>| v@) =~= old(out)@.map_values(|v: Vec<u8>| v@)
                    + spec_unresolved_upto(*arr, *d, i + 1));
            }
        }
        i += 1;
    }
}

/// Answer a fallback-resolver query: the value of the first table entry
/// whose key is `name`.
fn fallback_find(fb: &Vec<(Vec<u8>, u64)>, name: &[u8]) -> (r: Option<u64>)
    ensures
        r == spec_fallback_find(fb@, name@),
{
    let n = fb.len();
    let mut k: usize = 0;
    proof {
        assert(fb@.skip(0) =~= fb@);
    }
    while k < n
        invariant
            0 <= k <= n,
            n == fb@.len(),
            spec_fallback_find(fb@, name@) == spec_fallback_find(fb@.skip(k as int), name@),
        decreases n - k,
    {
        proof {
            assert(fb@.skip(k as int)[0] == fb@[k as int]);
            assert(fb@.skip(k as int).drop_first() =~= fb@.skip(k + 1));
        }
        if bytes_eq(fb[k].0.as_slice(), name) {
            return Some(fb[k].1);
        }
        k += 1;
    }
    None
}

/// The value standing for a run of the IFUNC resolver at `addr`.
fn ifunc_result(ifuncs: &Vec<(u64, u64)>, addr: u64) -> (r: u64)
    ensures
        r == spec_ifunc_result(ifuncs@, addr),
{
    let n = ifuncs.len();
    let mut k: usize = 0;
    proof {
        assert(ifuncs@.skip(0) =~= ifuncs@);
    }
    while k < n
        invariant
            0 <= k <= n,
            n == ifuncs@.len(),
            spec_ifunc_result(ifuncs@, addr) == spec_ifunc_result(ifuncs@.skip(k as int), addr),
        decreases n - k,
    {
        proof {
            assert(ifuncs@.skip(k as int)[0] == ifuncs@[k as int]);
            assert(ifuncs@.skip(k as int).drop_first() =~= ifuncs@.skip(k + 1));
        }
        if ifuncs[k].0 == addr {
            return ifuncs[k].1;
        }
        k += 1;
    }
    addr
}

/// The name slice of symbol `idx` in the string table.
fn sym_name_slice(symbols: &SymbolData, idx: usize) -> (r: &[u8])
    requires
        idx < symbols.symbols@.len(),
    ensures
        r@ == symbols.spec_sym_name(idx as int),
{
    let st_name = symbols.symbols[idx].st_name as usize;
    let n = symbols.strtab.len();
    if st_name >= n {
        let r = slice_subrange(symbols.strtab.as_slice(), n, n);
        proof {
            assert(r@ =~= symbols.spec_sym_name(idx as int));
        }
        r
    } else {
        let e = name_end(&symbols.strtab, st_name);
        let r = slice_subrange(symbols.strtab.as_slice(), st_name, e);
        proof {
            assert(r@ =~= symbols.spec_sym_name(idx as int));
        }
        r
    }
}

/// Scan the dependency images in order for the first that defines the name.
fn find_lib_sym(
    libs: &Vec<RelocatedDylib>,
    name: &[u8],
    version: Option<&[u8]>,
) -> (r: Option<(u64, ElfSymbol, Option<u64>)>)
    ensures
        r == spec_find_lib_sym(
            libs@,
            name@,
            match version {
                Some(v) => Some(v@),
                None => None,
            },
        ),
{
    let ghost gversion: Option<Seq<u8>> = match version {
        Some(v) => Some(v@),
        None => None,
    };
    let n = libs.len();
    let mut k: usize = 0;
    proof {
        assert(libs@.skip(0) =~= libs@);
    }
    while k < n
        invariant
            0 <= k <= n,
            n == libs@.len(),
            gversion == (match version {
                Some(v) => Some(v@),
                None => None,
            }),
            spec_find_lib_sym(libs@, name@, gversion) == spec_find_lib_sym(
                libs@.skip(k as int),
                name@,
                gversion,
            ),
        decreases n - k,
    {
        proof {
            assert(libs@.skip(k as int)[0] == libs@[k as int]);
            assert(libs@.skip(k as int).drop_first() =~= libs@.skip(k + 1));
        }
        let lib = &libs[k];
        let info = SymbolInfo { name, version };
        match lib.inner.symbols.get_sym(&info) {
            Some(sym) => {
                return Some((lib.inner.segments.get_base(), sym, lib.inner.tls));
            },
            None => {},
        }
        k += 1;
    }
    None
}

/// Find the defining image of the symbol a relocation entry refers to.
fn find_symdef(
    r_sym: usize,
    base: u64,
    symbols: &SymbolData,
    tls: Option<u64>,
    libs: &Vec<RelocatedDylib>,
    Ghost(ctx): Ghost<RelocCtx>,
) -> (r: Option<(u64, ElfSymbol, Option<u64>)>)
    requires
        ctx.base == base,
        ctx.symbols == *symbols,
        ctx.tls == tls,
        ctx.libs == libs@,
    ensures
        r == spec_find_symdef(ctx, r_sym as int),
{
    if r_sym == 0 || r_sym >= symbols.symbols.len() {
        return None;
    }
    let sym = symbols.symbols[r_sym];
    if sym.st_shndx != SHN_UNDEF {
        return Some((base, sym, tls));
    }
    let name = sym_name_slice(symbols, r_sym);
    let version: Option<&[u8]> = match &symbols.versions {
        Some(vs) => {
            if r_sym < vs.len() && vs[r_sym].len() > 0 {
                Some(vs[r_sym].as_slice())
            } else {
                None
            }
        },
        None => None,
    };
    find_lib_sym(libs, name, version)
}

/// Compute the word one entry writes, or nothing when it cannot be
/// resolved.
fn entry_value(
    e: &ElfRela,
    is_plt: bool,
    arch: Arch,
    base: u64,
    memlen: usize,
    symbols: &SymbolData,
    tls: Option<u64>,
    libs: &Vec<RelocatedDylib>,
    fallback: &Vec<(Vec<u8>, u64)>,
    ifuncs: &Vec<(u64, u64)>,
    Ghost(ctx): Ghost<RelocCtx>,
) -> (r: Option<u64>)
    requires
        ctx == spec_make_ctx(arch, base, memlen as int, *symbols, tls, libs@, fallback@, ifuncs@),
    ensures
        r == spec_entry_value(ctx, *e, is_plt),
{
    proof {
        reveal(spec_entry_value);
    }
    let t = e.r_type();
    let r_sym64 = e.r_symbol();
    if e.r_offset() > memlen as u64 || memlen as u64 - e.r_offset() < 8 {
        return None;
    }
    if is_plt {
        if t == arch.rel_jump_slot() && r_sym64 != 0 && r_sym64 < symbols.symbols.len() as u64 {
            resolve_s(r_sym64 as usize, base, symbols, tls, libs, fallback, ifuncs, Ghost(ctx))
        } else {
            None
        }
    } else {
        if t == arch.rel_relative() {
            Some(base.wrapping_add(e.r_addend()))
        } else if t != crate::arch::REL_ABSENT && (t == arch.rel_got() || t
            == arch.rel_symbolic()) {
            let s = if r_sym64 < symbols.symbols.len() as u64 {
                r_sym64 as usize
            } else {
                proof {
                    assert(spec_find_symdef(ctx, r_sym64 as int) is None);
                    assert(spec_rel_name(ctx, r_sym64 as int) =~= spec_rel_name(
                        ctx,
                        ctx.symbols.symbols@.len() as int,
                    ));
                }
                symbols.symbols.len()
            };
            match resolve_s(s, base, symbols, tls, libs, fallback, ifuncs, Ghost(ctx)) {
                Some(v) => Some(v.wrapping_add(e.r_addend())),
                None => None,
            }
        } else if t == arch.rel_dtpmod() {
            if r_sym64 == 0 {
                tls
            } else {
                let s = if r_sym64 < symbols.symbols.len() as u64 {
                    r_sym64 as usize
                } else {
                    symbols.symbols.len()
                };
                match find_symdef(s, base, symbols, tls, libs, Ghost(ctx)) {
                    Some(def) => def.2,
                    None => None,
                }
            }
        } else if t == arch.rel_dtpoff() {
            let s = if r_sym64 < symbols.symbols.len() as u64 {
                r_sym64 as usize
            } else {
                symbols.symbols.len()
            };
            match find_symdef(s, base, symbols, tls, libs, Ghost(ctx)) {
                Some(def) => Some(
                    def.1.st_value.wrapping_add(e.r_addend()).wrapping_sub(arch.tls_dtv_offset()),
                ),
                None => None,
            }
        } else {
            None
        }
    }
}

/// Resolve the entry's symbol to a value S: own definition, then the
/// dependencies in order, then the fallback resolver.
fn resolve_s(
    r_sym: usize,
    base: u64,
    symbols: &SymbolData,
    tls: Option<u64>,
    libs: &Vec<RelocatedDylib>,
    fallback: &Vec<(Vec<u8>, u64)>,
    ifuncs: &Vec<(u64, u64)>,
    Ghost(ctx): Ghost<RelocCtx>,
) -> (r: Option<u64>)
    requires
        ctx.base == base,
        ctx.symbols == *symbols,
        ctx.tls == tls,
        ctx.libs == libs@,
        ctx.fallback == fallback@,
        ctx.ifuncs == ifuncs@,
        r_sym as int >= ctx.symbols.symbols@.len() ==> r_sym == ctx.symbols.symbols@.len(),
    ensures
        r == spec_resolve_s(ctx, r_sym as int),
{
    match find_symdef(r_sym, base, symbols, tls, libs, Ghost(ctx)) {
        Some(def) => {
            let s_addr = def.0.wrapping_add(def.1.st_value);
            if def.1.st_type() == STT_GNU_IFUNC {
                Some(ifunc_result(ifuncs, s_addr))
            } else {
                Some(s_addr)
            }
        },
        None => {
            if r_sym > 0 && r_sym < symbols.symbols.len() {
                let name = sym_name_slice(symbols, r_sym);
                fallback_find(fallback, name)
            } else {
                let empty: Vec<u8> = Vec::new();
                proof {
                    assert(spec_rel_name(ctx, r_sym as int) =~= Seq::<u8>::empty());
                }
                fallback_find(fallback, empty.as_slice())
            }
        },
    }
}

} // verus!
