//! The segments record: it owns the chosen base address and the bytes of the
//! contiguous virtual-address reservation that holds every LOAD segment. A
//! file virtual address `v` lives at byte index `v` of the reservation, so
//! the machine address of `v` is `base + v`.
use vstd::prelude::*;
use vstd::bytes::{spec_u64_from_le_bytes, spec_u64_to_le_bytes, lemma_auto_spec_u64_to_from_le_bytes, u64_from_le_bytes, u64_to_le_bytes};
use vstd::slice::slice_subrange;
use crate::arch::Phdr;
use crate::abi::PT_LOAD;

verus! {

pub const PAGE_SIZE: u64 = 4096;

/// The 64-bit little-endian word stored at byte offset `off` of `m`.
pub open spec fn word_at(m: Seq<u8>, off: int) -> u64 {
    spec_u64_from_le_bytes(m.subrange(off, off + 8))
}

/// `m` with the 64-bit little-endian encoding of `v` written at offset `off`.
pub open spec fn with_word(m: Seq<u8>, off: int, v: u64) -> Seq<u8> {
    Seq::new(
        m.len(),
        |i: int|
            if off <= i < off + 8 {
                spec_u64_to_le_bytes(v)[i - off]
            } else {
                m[i]
            },
    )
}

/// Writing a word and reading it back yields the word, and bytes outside the
/// written range keep their value.
pub proof fn lemma_with_word(m: Seq<u8>, off: int, v: u64)
    requires
        0 <= off,
        off + 8 <= m.len(),
    ensures
        word_at(with_word(m, off, v), off) == v,
        forall|j: int| 0 <= j < m.len() && !(off <= j < off + 8) ==> with_word(m, off, v)[j] == m[j],
        with_word(m, off, v).len() == m.len(),
{
    lemma_auto_spec_u64_to_from_le_bytes();
    assert(with_word(m, off, v).subrange(off, off + 8) =~= spec_u64_to_le_bytes(v));
}

/// A word read entirely outside a written range is unchanged.
pub proof fn lemma_with_word_frame(m: Seq<u8>, off: int, v: u64, other: int)
    requires
        0 <= off,
        off + 8 <= m.len(),
        0 <= other,
        other + 8 <= m.len(),
        other + 8 <= off || off + 8 <= other,
    ensures
        word_at(with_word(m, off, v), other) == word_at(m, other),
{
    assert(with_word(m, off, v).subrange(other, other + 8) =~= m.subrange(other, other + 8));
}

/// `x` rounded down to a multiple of the page size.
pub open spec fn spec_align_down(x: u64) -> u64 {
    (x / PAGE_SIZE * PAGE_SIZE) as u64
}

/// `x` rounded up to a multiple of the page size.
pub open spec fn spec_align_up(x: u64) -> u64 {
    spec_align_down((x + PAGE_SIZE - 1) as u64)
}

pub fn align_down(x: u64) -> (r: u64)
    ensures
        r == spec_align_down(x),
        r <= x,
{
    x / PAGE_SIZE * PAGE_SIZE
}

pub fn align_up(x: u64) -> (r: u64)
    requires
        x + PAGE_SIZE - 1 <= u64::MAX,
    ensures
        r == spec_align_up(x),
        x <= r,
{
    proof {
        assert(x <= (x + PAGE_SIZE - 1) as u64 / PAGE_SIZE * PAGE_SIZE) by (nonlinear_arith)
            requires x + PAGE_SIZE - 1 <= u64::MAX, PAGE_SIZE == 4096;
    }
    (x + (PAGE_SIZE - 1)) / PAGE_SIZE * PAGE_SIZE
}

/// The lowest page-aligned start among the LOAD headers of `phdrs`, or
/// `u64::MAX` if none is a LOAD header.
pub open spec fn spec_min_vaddr(phdrs: Seq<Phdr>) -> u64
    decreases phdrs.len(),
{
    if phdrs.len() == 0 {
        u64::MAX
    } else {
        let rest = spec_min_vaddr(phdrs.drop_last());
        let p = phdrs.last();
        if p.p_type == PT_LOAD && spec_align_down(p.p_vaddr) < rest {
            spec_align_down(p.p_vaddr)
        } else {
            rest
        }
    }
}

/// The highest page-aligned end among the LOAD headers of `phdrs`, or 0 if
/// none is a LOAD header. A header whose end does not fit in 64 bits is
/// ignored here; the span computation rejects it first.
pub open spec fn spec_max_vaddr(phdrs: Seq<Phdr>) -> u64
    decreases phdrs.len(),
{
    if phdrs.len() == 0 {
        0
    } else {
        let rest = spec_max_vaddr(phdrs.drop_last());
        let p = phdrs.last();
        if p.p_type == PT_LOAD && p.p_vaddr + p.p_memsz + PAGE_SIZE - 1 <= u64::MAX
            && spec_align_up((p.p_vaddr + p.p_memsz) as u64) > rest {
            spec_align_up((p.p_vaddr + p.p_memsz) as u64)
        } else {
            rest
        }
    }
}

/// Whether `phdrs` holds at least one LOAD header and every LOAD end fits.
pub open spec fn spec_has_load_span(phdrs: Seq<Phdr>) -> bool {
    (exists|i: int| 0 <= i < phdrs.len() && #[trigger] phdrs[i].p_type == PT_LOAD)
    && (forall|i: int| 0 <= i < phdrs.len() && #[trigger] phdrs[i].p_type == PT_LOAD
        ==> phdrs[i].p_vaddr + phdrs[i].p_memsz + PAGE_SIZE - 1 <= u64::MAX)
}

/// Compute the required virtual span of the LOAD headers: the minimum of the
/// page-aligned starts and the maximum of the page-aligned ends.
pub fn load_span(phdrs: &Vec<Phdr>) -> (r: Option<(u64, u64)>)
    ensures
        r is Some <==> spec_has_load_span(phdrs@),
        r matches Some(span) ==> span.0 == spec_min_vaddr(phdrs@) && span.1 == spec_max_vaddr(
            phdrs@,
        ),
{
    let mut lo: u64 = u64::MAX;
    let mut hi: u64 = 0;
    let mut seen = false;
    let mut i: usize = 0;
    while i < phdrs.len()
        invariant
            0 <= i <= phdrs@.len(),
            lo == spec_min_vaddr(phdrs@.take(i as int)),
            hi == spec_max_vaddr(phdrs@.take(i as int)),
            seen <==> exists|j: int|
                0 <= j < i && #[trigger] phdrs@[j].p_type == PT_LOAD,
            forall|j: int|
                0 <= j < i && #[trigger] phdrs@[j].p_type == PT_LOAD ==> phdrs@[j].p_vaddr
                    + phdrs@[j].p_memsz + PAGE_SIZE - 1 <= u64::MAX,
        decreases phdrs@.len() - i,
    {
        let p = phdrs[i];
        proof {
            assert(phdrs@.take(i + 1).drop_last() =~= phdrs@.take(i as int));
            assert(phdrs@.take(i + 1).last() == phdrs@[i as int]);
        }
        if p.p_type == PT_LOAD {
            if p.p_vaddr > u64::MAX - p.p_memsz {
                return None;
            }
            if p.p_vaddr + p.p_memsz > u64::MAX - (PAGE_SIZE - 1) {
                return None;
            }
            let start = align_down(p.p_vaddr);
            let end = align_up(p.p_vaddr + p.p_memsz);
            if start < lo {
                lo = start;
            }
            if end > hi {
                hi = end;
            }
            seen = true;
        }
        i += 1;
    }
    proof {
        assert(phdrs@.take(phdrs@.len() as int) =~= phdrs@);
    }
    if seen {
        Some((lo, hi))
    } else {
        None
    }
}

/// The reservation computed by `load_span` covers the mapped range of every
/// LOAD header: the page-aligned start of each is no lower than the span's
/// start, and each end is no higher than the span's end.
pub proof fn lemma_reservation_covers_loads(phdrs: Seq<Phdr>, k: int)
    requires
        0 <= k < phdrs.len(),
        phdrs[k].p_type == PT_LOAD,
        phdrs[k].p_vaddr + phdrs[k].p_memsz + PAGE_SIZE - 1 <= u64::MAX,
    ensures
        spec_min_vaddr(phdrs) <= spec_align_down(phdrs[k].p_vaddr),
        spec_align_down(phdrs[k].p_vaddr) <= phdrs[k].p_vaddr,
        phdrs[k].p_vaddr + phdrs[k].p_memsz <= spec_max_vaddr(phdrs),
    decreases phdrs.len(),
{
    let p = phdrs[k];
    assert(p.p_vaddr / PAGE_SIZE * PAGE_SIZE <= p.p_vaddr) by (nonlinear_arith)
        requires PAGE_SIZE == 4096;
    assert((p.p_vaddr + p.p_memsz) as u64 <= spec_align_up((p.p_vaddr + p.p_memsz) as u64))
        by (nonlinear_arith)
        requires
            PAGE_SIZE == 4096,
            p.p_vaddr + p.p_memsz + PAGE_SIZE - 1 <= u64::MAX,
    ;
    if k < phdrs.len() - 1 {
        lemma_reservation_covers_loads(phdrs.drop_last(), k);
        assert(phdrs.drop_last()[k] == phdrs[k]);
    }
}

/// The post-relocation read-only range recorded from a GNU_RELRO header.
#[derive(Clone, Copy, Debug, PartialEq, Eq, Structural)]
pub struct ELFRelro {
    pub addr: u64,
    pub len: u64,
}

impl ELFRelro {
    pub fn new(phdr: &Phdr) -> (r: ELFRelro)
        ensures
            r.addr == phdr.p_vaddr,
            r.len == phdr.p_memsz,
    {
        ELFRelro { addr: phdr.p_vaddr, len: phdr.p_memsz }
    }
}

/// The segments record: the chosen base address and the reservation bytes.
/// Byte index `v` of `memory` holds the byte at machine address `base + v`.
pub struct ElfSegments {
    pub base: u64,
    pub memory: Vec<u8>,
    /// The range of the reservation that is mapped read-only once relocation
    /// is finished, if a GNU_RELRO header asked for it.
    pub relro_applied: bool,
}

impl ElfSegments {
    pub fn new(base: u64, memory: Vec<u8>) -> (r: ElfSegments)
        ensures
            r.base == base,
            r.memory == memory,
            r.relro_applied == false,
    {
        ElfSegments { base, memory, relro_applied: false }
    }

    /// The base address chosen for the image.
    pub fn get_base(&self) -> (r: u64)
        ensures
            r == self.base,
    {
        self.base
    }

    pub fn len(&self) -> (r: usize)
        ensures
            r == self.memory@.len(),
    {
        self.memory.len()
    }

    /// Read the 64-bit word at file virtual address `offset`.
    pub fn read_word(&self, offset: usize) -> (r: u64)
        requires
            offset + 8 <= self.memory@.len(),
        ensures
            r == word_at(self.memory@, offset as int),
    {
        let _n = self.memory.len();
        proof {
            assert(offset + 8 <= _n);
        }
        let s = slice_subrange(self.memory.as_slice(), offset, offset + 8);
        u64_from_le_bytes(s)
    }

    /// Write `val` as a 64-bit little-endian word at file virtual address
    /// `offset`; every byte outside the word keeps its value.
    pub fn write_word(&mut self, offset: usize, val: u64)
        requires
            offset + 8 <= old(self).memory@.len(),
        ensures
            final(self).memory@ == with_word(old(self).memory@, offset as int, val),
            final(self).base == old(self).base,
            final(self).relro_applied == old(self).relro_applied,
    {
        let bytes = u64_to_le_bytes(val);
        let mut i: usize = 0;
        while i < 8
            invariant
                0 <= i <= 8,
                offset + 8 <= self.memory@.len(),
                bytes@ == spec_u64_to_le_bytes(val),
                bytes@.len() == 8,
                self.base == old(self).base,
                self.relro_applied == old(self).relro_applied,
                self.memory@.len() == old(self).memory@.len(),
                forall|j: int|
                    0 <= j < self.memory@.len() && !(offset <= j < offset + i) ==> self.memory@[j]
                        == old(self).memory@[j],
                forall|j: int|
                    offset <= j < offset + i ==> self.memory@[j] == spec_u64_to_le_bytes(val)[j
                        - offset],
            decreases 8 - i,
        {
            let b = bytes[i];
            let n = self.memory.len();
            proof {
                assert(offset + i < n);
            }
            self.memory.set(offset + i, b);
            i += 1;
        }
        proof {
            assert(self.memory@ =~= with_word(old(self).memory@, offset as int, val));
        }
    }
}

} // verus!
