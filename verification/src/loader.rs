//! Loader orchestration: validate the ELF header, decode the program
//! headers, place the LOAD segments in the reservation, decode the dynamic
//! table, build the symbol index, and produce an unrelocated image.
use vstd::prelude::*;
use vstd::bytes::{spec_u16_from_le_bytes, spec_u32_from_le_bytes, spec_u64_from_le_bytes,
    u16_from_le_bytes, u32_from_le_bytes, u64_from_le_bytes};
use vstd::slice::slice_subrange;
use vstd::string::StringExecFns;
use crate::arch::{Arch, Phdr, Dyn, ElfRela, ElfSymbol};
use crate::abi::{ET_DYN, ET_EXEC, PT_LOAD, PT_DYNAMIC, PT_GNU_RELRO, PHDR_SIZE,
    DYN_SIZE, RELA_SIZE, SYM_SIZE, EHDR_SIZE, WORD_SIZE};
use crate::segment::{ElfSegments, ELFRelro, load_span};
use crate::symbol::{SymbolData, name_end};
use crate::dynamic::{ElfRawDynamic, ElfDynamic, spec_upto_null, spec_last_tag, spec_needed};
use crate::object::ElfBinary;
use crate::{Error, parse_ehdr_error, parse_dynamic_error, ElfDylib, Dylib, UserData};

verus! {

/// The 16-bit little-endian value at offset `off`.
pub open spec fn spec_le16(m: Seq<u8>, off: int) -> u16 {
    spec_u16_from_le_bytes(m.subrange(off, off + 2))
}

/// The 32-bit little-endian value at offset `off`.
pub open spec fn spec_le32(m: Seq<u8>, off: int) -> u32 {
    spec_u32_from_le_bytes(m.subrange(off, off + 4))
}

/// The 64-bit little-endian value at offset `off`.
pub open spec fn spec_le64(m: Seq<u8>, off: int) -> u64 {
    spec_u64_from_le_bytes(m.subrange(off, off + 8))
}

pub fn le16(m: &Vec<u8>, off: usize) -> (r: u16)
    requires
        off + 2 <= m@.len(),
    ensures
        r == spec_le16(m@, off as int),
{
    let _n = m.len();
    u16_from_le_bytes(slice_subrange(m.as_slice(), off, off + 2))
}

pub fn le32(m: &Vec<u8>, off: usize) -> (r: u32)
    requires
        off + 4 <= m@.len(),
    ensures
        r == spec_le32(m@, off as int),
{
    let _n = m.len();
    u32_from_le_bytes(slice_subrange(m.as_slice(), off, off + 4))
}

pub fn le64(m: &Vec<u8>, off: usize) -> (r: u64)
    requires
        off + 8 <= m@.len(),
    ensures
        r == spec_le64(m@, off as int),
{
    let _n = m.len();
    u64_from_le_bytes(slice_subrange(m.as_slice(), off, off + 8))
}

/// Whether the first bytes of the object form a valid ELF header for this
/// loader: the magic, 64-bit class, little-endian data, the machine of the
/// given architecture, and a type of DYN or EXEC.
pub open spec fn spec_ehdr_valid(b: Seq<u8>, arch: Arch) -> bool {
    &&& b.len() >= EHDR_SIZE
    &&& b[0] == 0x7fu8
    &&& b[1] == 0x45u8
    &&& b[2] == 0x4cu8
    &&& b[3] == 0x46u8
    &&& b[4] == 2u8
    &&& b[5] == 1u8
    &&& spec_le16(b, 18) == arch.spec_em_arch()
    &&& (spec_le16(b, 16) == ET_DYN || spec_le16(b, 16) == ET_EXEC)
}

/// Validate the ELF header of `b` for `arch`.
pub fn ehdr_valid(b: &Vec<u8>, arch: Arch) -> (r: bool)
    ensures
        r == spec_ehdr_valid(b@, arch),
{
    if b.len() < EHDR_SIZE {
        return false;
    }
    b[0] == 0x7f && b[1] == 0x45 && b[2] == 0x4c && b[3] == 0x46 && b[4] == 2 && b[5] == 1 && le16(
        b,
        18,
    ) == arch.em_arch() && (le16(b, 16) == ET_DYN || le16(b, 16) == ET_EXEC)
}

/// The program header stored at offset `off`.
pub open spec fn spec_parse_phdr(b: Seq<u8>, off: int) -> Phdr {
    Phdr {
        p_type: spec_le32(b, off),
        p_flags: spec_le32(b, off + 4),
        p_offset: spec_le64(b, off + 8),
        p_vaddr: spec_le64(b, off + 16),
        p_paddr: spec_le64(b, off + 24),
        p_filesz: spec_le64(b, off + 32),
        p_memsz: spec_le64(b, off + 40),
        p_align: spec_le64(b, off + 48),
    }
}

/// Decode one program header.
pub fn parse_phdr(b: &Vec<u8>, off: usize) -> (r: Phdr)
    requires
        off + PHDR_SIZE <= b@.len(),
    ensures
        r == spec_parse_phdr(b@, off as int),
{
    let _n = b.len();
    Phdr {
        p_type: le32(b, off),
        p_flags: le32(b, off + 4),
        p_offset: le64(b, off + 8),
        p_vaddr: le64(b, off + 16),
        p_paddr: le64(b, off + 24),
        p_filesz: le64(b, off + 32),
        p_memsz: le64(b, off + 40),
        p_align: le64(b, off + 48),
    }
}

/// The dynamic entry stored at offset `off`.
pub open spec fn spec_parse_dyn(b: Seq<u8>, off: int) -> Dyn {
    Dyn { d_tag: spec_le64(b, off) as i64, d_un: spec_le64(b, off + 8) }
}

/// Decode one dynamic entry.
pub fn parse_dyn(b: &Vec<u8>, off: usize) -> (r: Dyn)
    requires
        off + DYN_SIZE <= b@.len(),
    ensures
        r == spec_parse_dyn(b@, off as int),
{
    let _n = b.len();
    Dyn { d_tag: #[verifier::truncate] (le64(b, off) as i64), d_un: le64(b, off + 8) }
}

/// The relocation entry stored at offset `off`.
pub open spec fn spec_parse_rela(b: Seq<u8>, off: int) -> ElfRela {
    ElfRela {
        r_offset: spec_le64(b, off),
        r_info: spec_le64(b, off + 8),
        r_addend: spec_le64(b, off + 16),
    }
}

/// Decode one relocation entry. The addend is carried as the raw word; the
/// engine folds it with wrapping arithmetic, as the machine does.
pub fn parse_rela(b: &Vec<u8>, off: usize) -> (r: ElfRela)
    requires
        off + RELA_SIZE <= b@.len(),
    ensures
        r == spec_parse_rela(b@, off as int),
{
    let _n = b.len();
    ElfRela {
        r_offset: le64(b, off),
        r_info: le64(b, off + 8),
        r_addend: le64(b, off + 16),
    }
}

/// The symbol stored at offset `off`.
pub open spec fn spec_parse_sym(b: Seq<u8>, off: int) -> ElfSymbol {
    ElfSymbol {
        st_name: spec_le32(b, off),
        st_info: b[off + 4],
        st_other: b[off + 5],
        st_shndx: spec_le16(b, off + 6),
        st_value: spec_le64(b, off + 8),
        st_size: spec_le64(b, off + 16),
    }
}

/// Decode one symbol-table entry.
pub fn parse_sym(b: &Vec<u8>, off: usize) -> (r: ElfSymbol)
    requires
        off + SYM_SIZE <= b@.len(),
    ensures
        r == spec_parse_sym(b@, off as int),
{
    let _n = b.len();
    ElfSymbol {
        st_name: le32(b, off),
        st_info: b[off + 4],
        st_other: b[off + 5],
        st_shndx: le16(b, off + 6),
        st_value: le64(b, off + 8),
        st_size: le64(b, off + 16),
    }
}

/// Copy `len` bytes of `src` starting at `src_off` into `dst` at `dst_off`;
/// every other byte of `dst` keeps its value.
pub fn copy_into(dst: &mut Vec<u8>, dst_off: usize, src: &Vec<u8>, src_off: usize, len: usize)
    requires
        dst_off + len <= old(dst)@.len(),
        src_off + len <= src@.len(),
    ensures
        final(dst)@.len() == old(dst)@.len(),
        forall|j: int|
            0 <= j < len ==> final(dst)@[dst_off + j] == #[trigger] src@[src_off + j],
        forall|j: int|
            0 <= j < old(dst)@.len() && !(dst_off <= j < dst_off + len) ==> final(dst)@[j] == old(
                dst,
            )@[j],
{
    let dn = dst.len();
    let sn = src.len();
    let mut k: usize = 0;
    while k < len
        invariant
            0 <= k <= len,
            dst_off + len <= dn,
            src_off + len <= sn,
            dn == dst@.len(),
            sn == src@.len(),
            dst@.len() == old(dst)@.len(),
            forall|j: int| 0 <= j < k ==> dst@[dst_off + j] == #[trigger] src@[src_off + j],
            forall|j: int|
                0 <= j < dst@.len() && !(dst_off <= j < dst_off + k) ==> dst@[j] == old(dst)@[j],
        decreases len - k,
    {
        let b = src[src_off + k];
        dst.set(dst_off + k, b);
        k += 1;
    }
}

/// A vector of `len` zero bytes.
pub fn zero_bytes(len: usize) -> (r: Vec<u8>)
    ensures
        r@.len() == len,
        forall|j: int| 0 <= j < len ==> r@[j] == 0u8,
{
    let mut v: Vec<u8> = Vec::new();
    let mut k: usize = 0;
    while k < len
        invariant
            0 <= k <= len,
            v@.len() == k,
            forall|j: int| 0 <= j < k ==> v@[j] == 0u8,
        decreases len - k,
    {
        v.push(0u8);
        k += 1;
    }
    v
}

/// Where the end-of-chain flag first stands, scanning chain words from
/// symbol `idx`: one past the first flagged word, or nothing when no word
/// up to `limit` carries the flag.
pub open spec fn spec_chain_scan_end(
    mem: Seq<u8>,
    chain_off: int,
    symndx: int,
    idx: int,
    limit: int,
) -> Option<int>
    decreases limit - idx,
{
    if idx >= limit {
        None
    } else if spec_le32(mem, chain_off + 4 * (idx - symndx)) & 1 == 1 {
        Some(idx + 1)
    } else {
        spec_chain_scan_end(mem, chain_off, symndx, idx + 1, limit)
    }
}

/// A found chain end lies within the scanned range.
proof fn lemma_scan_bound(mem: Seq<u8>, chain_off: int, symndx: int, idx: int, limit: int)
    requires
        spec_chain_scan_end(mem, chain_off, symndx, idx, limit) is Some,
    ensures
        idx < spec_chain_scan_end(mem, chain_off, symndx, idx, limit).unwrap() <= limit,
    decreases limit - idx,
{
    if idx < limit && spec_le32(mem, chain_off + 4 * (idx - symndx)) & 1 != 1 {
        lemma_scan_bound(mem, chain_off, symndx, idx + 1, limit);
    }
}

/// The largest value among the first `n` hash buckets stored at `boff`.
pub open spec fn spec_max_bucket(mem: Seq<u8>, boff: int, n: int) -> int
    decreases n,
{
    if n <= 0 {
        0
    } else {
        let rest = spec_max_bucket(mem, boff, n - 1);
        let b = spec_le32(mem, boff + 4 * (n - 1)) as int;
        if b > rest {
            b
        } else {
            rest
        }
    }
}

/// The number of chain entries of the GNU hash table at `hashtab`: the
/// chain of the highest bucket is walked to its end flag.
pub open spec fn spec_nchain(mem: Seq<u8>, base: u64, hashtab: u64) -> int {
    let memlen = mem.len() as int;
    let hoff = hashtab - base;
    let nbucket = spec_le32(mem, hoff) as int;
    let symndx = spec_le32(mem, hoff + 4) as int;
    let bloom = spec_le32(mem, hoff + 8) as int;
    let boff = hoff + 16 + 8 * bloom;
    let coff = boff + 4 * nbucket;
    let cavail = (memlen - coff) / 4;
    let maxb = spec_max_bucket(mem, boff, nbucket);
    if maxb < symndx {
        0
    } else {
        match spec_chain_scan_end(mem, coff, symndx, maxb, symndx + cavail) {
            Some(e) => e - symndx,
            None => 0,
        }
    }
}

/// The number of symbols the GNU hash table at `hashtab` covers.
pub open spec fn spec_nsyms(mem: Seq<u8>, base: u64, hashtab: u64) -> int {
    spec_le32(mem, hashtab - base + 4) + spec_nchain(mem, base, hashtab)
}

/// Whether the verdef walk stays inside the reservation until it finds
/// `target` or exhausts `num` records.
pub open spec fn spec_verdef_ok(mem: Seq<u8>, off: int, num: int, target: u16) -> bool
    decreases num,
{
    if num <= 0 {
        true
    } else {
        &&& off + 20 <= mem.len()
        &&& (if spec_le16(mem, off + 4) == target {
            off + spec_le32(mem, off + 12) + 4 <= mem.len()
        } else {
            let nxt = spec_le32(mem, off + 16) as int;
            nxt != 0 && off + nxt <= usize::MAX && spec_verdef_ok(mem, off + nxt, num - 1, target)
        })
    }
}

/// Whether the version tables, when present, lie inside the reservation
/// and every needed verdef walk succeeds.
pub open spec fn spec_versions_ok(
    mem: Seq<u8>,
    base: u64,
    version_idx: Option<u64>,
    verdef: Option<(u64, u64)>,
    nsyms: int,
) -> bool {
    match (version_idx, verdef) {
        (Some(vi), Some(vd)) => {
            &&& base <= vi
            &&& vi - base <= mem.len()
            &&& nsyms <= (mem.len() - (vi - base)) / 2
            &&& base <= vd.0
            &&& vd.0 - base <= mem.len()
            &&& forall|i: int|
                0 <= i < nsyms ==> ((#[trigger] spec_le16(mem, vi - base + 2 * i) & 0x7fff) <= 1
                    || spec_verdef_ok(
                    mem,
                    vd.0 - base,
                    vd.1 as int,
                    (spec_le16(mem, vi - base + 2 * i) & 0x7fff) as u16,
                ))
        },
        _ => true,
    }
}

/// Whether the tables the symbol index is decoded from all lie inside the
/// reservation: the GNU hash header, bloom filter, buckets and chains, the
/// chain-end scan, the symbol table, the string table, and the version
/// tables.
pub open spec fn spec_symdata_ok(
    mem: Seq<u8>,
    base: u64,
    hashtab: u64,
    symtab: u64,
    strtab: u64,
    strtab_size: u64,
    version_idx: Option<u64>,
    verdef: Option<(u64, u64)>,
) -> bool {
    let memlen = mem.len() as int;
    let hoff = hashtab - base;
    let nbucket = spec_le32(mem, hoff) as int;
    let symndx = spec_le32(mem, hoff + 4) as int;
    let bloom = spec_le32(mem, hoff + 8) as int;
    let boff = hoff + 16 + 8 * bloom;
    let coff = boff + 4 * nbucket;
    let cavail = (memlen - coff) / 4;
    let maxb = spec_max_bucket(mem, boff, nbucket);
    &&& base <= hashtab
    &&& hoff + 16 <= memlen
    &&& bloom <= ((u64::MAX - 16) as int - hoff) / 8
    &&& boff <= memlen
    &&& nbucket <= (memlen - boff) / 4
    &&& (maxb >= symndx ==> spec_chain_scan_end(mem, coff, symndx, maxb, symndx + cavail) is Some)
    &&& symndx + spec_nchain(mem, base, hashtab) <= usize::MAX
    &&& base <= symtab
    &&& symtab - base <= memlen
    &&& spec_nsyms(mem, base, hashtab) <= (memlen - (symtab - base)) / (SYM_SIZE as int)
    &&& base <= strtab
    &&& strtab - base <= memlen
    &&& strtab_size <= memlen - (strtab - base)
    &&& spec_versions_ok(mem, base, version_idx, verdef, spec_nsyms(mem, base, hashtab))
}

/// Whether a symbol index holds exactly the tables decoded from the
/// reservation: every field's contents and length are forced by the bytes.
pub open spec fn spec_symdata_matches(
    d: SymbolData,
    mem: Seq<u8>,
    base: u64,
    hashtab: u64,
    symtab: u64,
    strtab: u64,
    strtab_size: u64,
    version_idx: Option<u64>,
    verdef: Option<(u64, u64)>,
) -> bool {
    let hoff = hashtab - base;
    let nbucket = spec_le32(mem, hoff) as int;
    let bloom = spec_le32(mem, hoff + 8) as int;
    let boff = hoff + 16 + 8 * bloom;
    let coff = boff + 4 * nbucket;
    &&& d.symndx == spec_le32(mem, hoff + 4) as int
    &&& d.buckets@.len() == nbucket
    &&& (forall|i: int| 0 <= i < nbucket ==> d.buckets@[i] == spec_le32(mem, boff + 4 * i))
    &&& d.chains@.len() == spec_nchain(mem, base, hashtab)
    &&& (forall|i: int|
        0 <= i < d.chains@.len() ==> d.chains@[i] == spec_le32(mem, coff + 4 * i))
    &&& d.symbols@.len() == spec_nsyms(mem, base, hashtab)
    &&& (forall|i: int|
        0 <= i < d.symbols@.len() ==> d.symbols@[i] == spec_parse_sym(
            mem,
            symtab - base + SYM_SIZE * i,
        ))
    &&& d.strtab@ == mem.subrange(strtab - base, strtab - base + strtab_size)
    &&& (d.versions is Some <==> (version_idx is Some && verdef is Some))
    &&& (d.versions matches Some(vs) ==> vs@.len() == d.symbols@.len() && (forall|i: int|
        0 <= i < vs@.len() ==> #[trigger] vs@[i]@ == spec_version_name(
            mem,
            d.strtab@,
            version_idx.unwrap() - base,
            verdef.unwrap().0 - base,
            verdef.unwrap().1 as int,
            i,
        )))
}

/// Copy `len` bytes of `mem` starting at `off` into a fresh vector.
pub fn bytes_range(mem: &Vec<u8>, off: usize, len: usize) -> (r: Result<Vec<u8>, Error>)
    ensures
        off + len <= mem@.len() <==> r is Ok,
        r matches Ok(v) ==> v@ == mem@.subrange(off as int, off + len),
{
    if off > mem.len() || mem.len() - off < len {
        return Err(parse_dynamic_error("table range lies outside the reservation"));
    }
    let n = mem.len();
    let mut out: Vec<u8> = Vec::new();
    let mut k: usize = 0;
    while k < len
        invariant
            0 <= k <= len,
            off + len <= n,
            n == mem@.len(),
            out@.len() == k,
            forall|j: int| 0 <= j < k ==> out@[j] == mem@[off + j],
        decreases len - k,
    {
        let b = mem[off + k];
        out.push(b);
        k += 1;
    }
    proof {
        assert(out@ =~= mem@.subrange(off as int, off + len));
    }
    Ok(out)
}

/// Decode `count` relocation entries stored at absolute address `addr`.
pub fn decode_relas(mem: &Vec<u8>, base: u64, addr: u64, count: u64) -> (r: Result<
    Vec<ElfRela>,
    Error,
>)
    ensures
        r matches Ok(v) ==> {
            &&& base <= addr
            &&& addr - base + RELA_SIZE * count <= mem@.len()
            &&& v@.len() == count
            &&& forall|i: int|
                0 <= i < count ==> v@[i] == spec_parse_rela(mem@, addr - base + RELA_SIZE * i)
        },
        (base <= addr && addr - base + RELA_SIZE * count <= mem@.len()) ==> r is Ok,
{
    if addr < base {
        return Err(parse_dynamic_error("relocation array lies below the base"));
    }
    let off64 = addr - base;
    let memlen = mem.len();
    if off64 > memlen as u64 || count > (memlen as u64 - off64) / (RELA_SIZE as u64) {
        return Err(parse_dynamic_error("relocation array lies outside the reservation"));
    }
    let off = off64 as usize;
    let n = count as usize;
    let mut out: Vec<ElfRela> = Vec::new();
    let mut k: usize = 0;
    proof {
        assert(off + RELA_SIZE * n <= memlen) by (nonlinear_arith)
            requires
                off == off64,
                off64 <= memlen,
                n == count,
                count <= (memlen as u64 - off64) / 24,
                RELA_SIZE == 24,
        ;
    }
    while k < n
        invariant
            0 <= k <= n,
            n == count,
            off == addr - base,
            off + RELA_SIZE * n <= memlen,
            memlen == mem@.len(),
            out@.len() == k,
            forall|i: int|
                0 <= i < k ==> out@[i] == spec_parse_rela(mem@, off + RELA_SIZE * i),
        decreases n - k,
    {
        let e = parse_rela(mem, off + RELA_SIZE * k);
        out.push(e);
        k += 1;
    }
    Ok(out)
}

/// How many dynamic entries stand at offset `off`: the entries up to and
/// including the first DT_NULL, or as many whole records as fit.
pub open spec fn spec_dyn_count(mem: Seq<u8>, off: int) -> nat
    decreases mem.len() - off,
{
    if off < 0 || off + DYN_SIZE > mem.len() {
        0
    } else if spec_parse_dyn(mem, off).d_tag == crate::abi::DT_NULL {
        1
    } else {
        1 + spec_dyn_count(mem, off + DYN_SIZE)
    }
}

/// The dynamic entries stored at offset `off`, up to and including the
/// first DT_NULL, or up to the end of the reservation.
pub open spec fn spec_dyn_seq(mem: Seq<u8>, off: int) -> Seq<Dyn> {
    Seq::new(spec_dyn_count(mem, off), |i: int| spec_parse_dyn(mem, off + DYN_SIZE * i))
}

/// A run of non-NULL records ending in a NULL record counts to one past
/// the NULL.
proof fn lemma_dyn_count_at(mem: Seq<u8>, off: int, k: int)
    requires
        0 <= off,
        0 <= k,
        off + DYN_SIZE * (k + 1) <= mem.len(),
        forall|j: int|
            0 <= j < k ==> #[trigger] spec_parse_dyn(mem, off + DYN_SIZE * j).d_tag
                != crate::abi::DT_NULL,
        spec_parse_dyn(mem, off + DYN_SIZE * k).d_tag == crate::abi::DT_NULL,
    ensures
        spec_dyn_count(mem, off) == k + 1,
    decreases k,
{
    if k == 0 {
    } else {
        assert(spec_parse_dyn(mem, off + DYN_SIZE * 0).d_tag != crate::abi::DT_NULL);
        assert forall|j: int|
            0 <= j < k - 1 implies #[trigger] spec_parse_dyn(
            mem,
            (off + DYN_SIZE) + DYN_SIZE * j,
        ).d_tag != crate::abi::DT_NULL by {
            assert(spec_parse_dyn(mem, off + DYN_SIZE * (j + 1)).d_tag != crate::abi::DT_NULL);
            assert((off + DYN_SIZE) + DYN_SIZE * j == off + DYN_SIZE * (j + 1));
        }
        assert((off + DYN_SIZE) + DYN_SIZE * (k - 1) == off + DYN_SIZE * k);
        lemma_dyn_count_at(mem, off + DYN_SIZE, k - 1);
    }
}

/// A run of non-NULL records filling the whole available space counts to
/// the number of records that fit.
proof fn lemma_dyn_count_full(mem: Seq<u8>, off: int, avail: int)
    requires
        0 <= off <= mem.len(),
        avail == (mem.len() - off) / (DYN_SIZE as int),
        forall|j: int|
            0 <= j < avail ==> #[trigger] spec_parse_dyn(mem, off + DYN_SIZE * j).d_tag
                != crate::abi::DT_NULL,
    ensures
        spec_dyn_count(mem, off) == avail,
    decreases avail,
{
    vstd::arithmetic::div_mod::lemma_fundamental_div_mod(mem.len() - off, DYN_SIZE as int);
    if avail == 0 {
        assert(off + DYN_SIZE > mem.len());
    } else {
        assert(off + DYN_SIZE <= mem.len());
        assert(spec_parse_dyn(mem, off + DYN_SIZE * 0).d_tag != crate::abi::DT_NULL);
        assert((mem.len() - (off + DYN_SIZE)) / (DYN_SIZE as int) == avail - 1)
            by (nonlinear_arith)
            requires
                avail == (mem.len() - off) / (DYN_SIZE as int),
                0 <= off,
                off + DYN_SIZE <= mem.len(),
                DYN_SIZE == 16,
                avail >= 1,
        ;
        assert forall|j: int|
            0 <= j < avail - 1 implies #[trigger] spec_parse_dyn(
            mem,
            (off + DYN_SIZE) + DYN_SIZE * j,
        ).d_tag != crate::abi::DT_NULL by {
            assert(spec_parse_dyn(mem, off + DYN_SIZE * (j + 1)).d_tag != crate::abi::DT_NULL);
            assert((off + DYN_SIZE) + DYN_SIZE * j == off + DYN_SIZE * (j + 1));
        }
        lemma_dyn_count_full(mem, off + DYN_SIZE, avail - 1);
    }
}

/// Decode the dynamic table stored at offset `off` of the reservation:
/// entries up to and including the first DT_NULL, or up to the end of the
/// reservation.
pub fn decode_dyns(mem: &Vec<u8>, off: usize) -> (r: Vec<Dyn>)
    requires
        off <= mem@.len(),
    ensures
        r@ == spec_dyn_seq(mem@, off as int),
{
    let memlen = mem.len();
    let avail = (memlen - off) / DYN_SIZE;
    proof {
        assert(off + DYN_SIZE * avail <= memlen) by (nonlinear_arith)
            requires
                off <= memlen,
                avail == (memlen - off) / (DYN_SIZE as int),
                DYN_SIZE == 16,
        ;
    }
    let mut out: Vec<Dyn> = Vec::new();
    let mut k: usize = 0;
    while k < avail
        invariant
            0 <= k <= avail,
            avail == (memlen - off) / (DYN_SIZE as int),
            off + DYN_SIZE * avail <= memlen,
            memlen == mem@.len(),
            out@.len() == k,
            forall|i: int|
                0 <= i < k ==> out@[i] == spec_parse_dyn(mem@, off + DYN_SIZE * i),
            forall|i: int|
                0 <= i < k ==> #[trigger] spec_parse_dyn(mem@, off + DYN_SIZE * i).d_tag
                    != crate::abi::DT_NULL,
        decreases avail - k,
    {
        let pos = off + DYN_SIZE * k;
        let d = parse_dyn(mem, pos);
        out.push(d);
        if d.d_tag == crate::abi::DT_NULL {
            proof {
                lemma_dyn_count_at(mem@, off as int, k as int);
                assert(out@ =~= spec_dyn_seq(mem@, off as int));
            }
            return out;
        }
        k += 1;
    }
    proof {
        lemma_dyn_count_full(mem@, off as int, avail as int);
        assert(out@ =~= spec_dyn_seq(mem@, off as int));
    }
    out
}

/// The name of the version definition carrying index `target`, walking
/// `num` verdef records from offset `off` of the reservation: each record
/// holds its index at byte 4, the offset of its first auxiliary entry at
/// byte 12, and the offset of the next record at byte 16; the auxiliary
/// entry's first word names the version in the string table.
pub open spec fn spec_verdef_name(
    mem: Seq<u8>,
    strtab: Seq<u8>,
    off: int,
    num: int,
    target: u16,
) -> Seq<u8>
    decreases num,
{
    if num <= 0 {
        Seq::empty()
    } else if spec_le16(mem, off + 4) == target {
        crate::symbol::spec_name_at(strtab, spec_le32(mem, off + spec_le32(mem, off + 12)) as int)
    } else {
        spec_verdef_name(mem, strtab, off + spec_le32(mem, off + 16), num - 1, target)
    }
}

/// Walk the verdef records for the name of version index `target`.
fn verdef_name(
    mem: &Vec<u8>,
    strtab: &Vec<u8>,
    verdef_off: usize,
    num: u64,
    target: u16,
) -> (r: Result<Vec<u8>, Error>)
    ensures
        r is Ok <==> spec_verdef_ok(mem@, verdef_off as int, num as int, target),
        r matches Ok(v) ==> v@ == spec_verdef_name(
            mem@,
            strtab@,
            verdef_off as int,
            num as int,
            target,
        ),
{
    let memlen = mem.len();
    let mut off = verdef_off;
    let mut left = num;
    while left > 0
        invariant
            memlen == mem@.len(),
            spec_verdef_name(mem@, strtab@, verdef_off as int, num as int, target)
                == spec_verdef_name(mem@, strtab@, off as int, left as int, target),
            spec_verdef_ok(mem@, verdef_off as int, num as int, target) == spec_verdef_ok(
                mem@,
                off as int,
                left as int,
                target,
            ),
        decreases left,
    {
        if off > memlen || memlen - off < 20 {
            return Err(parse_dynamic_error("version definition lies outside the reservation"));
        }
        let vd_ndx = le16(mem, off + 4);
        if vd_ndx == target {
            let vd_aux = le32(mem, off + 12) as usize;
            if vd_aux > memlen || off > memlen - vd_aux || memlen - off - vd_aux < 4 {
                return Err(
                    parse_dynamic_error("version auxiliary entry lies outside the reservation"),
                );
            }
            let name_off64 = le32(mem, off + vd_aux) as u64;
            let stlen = strtab.len();
            let name_off = if name_off64 < stlen as u64 {
                name_off64 as usize
            } else {
                stlen
            };
            let e = name_end(strtab, name_off);
            let out = match bytes_range(strtab, name_off, e - name_off) {
                Ok(v) => v,
                Err(e) => {
                    return Err(e);
                },
            };
            proof {
                assert(out@ =~= crate::symbol::spec_name_at(
                    strtab@,
                    spec_le32(mem@, off + spec_le32(mem@, off + 12)) as int,
                ));
            }
            return Ok(out);
        }
        let vd_next = le32(mem, off + 16) as usize;
        if vd_next == 0 || off > usize::MAX - vd_next {
            return Err(parse_dynamic_error("version definition chain is malformed"));
        }
        off = off + vd_next;
        left = left - 1;
    }
    Ok(Vec::new())
}

/// The version name of symbol `i`: its VERSYM entry picks a version
/// definition, whose name stands in the string table; the reserved
/// indices 0 and 1 leave the symbol unversioned.
pub open spec fn spec_version_name(
    mem: Seq<u8>,
    strtab: Seq<u8>,
    versym_off: int,
    verdef_off: int,
    verdef_num: int,
    i: int,
) -> Seq<u8> {
    let ndx = (spec_le16(mem, versym_off + 2 * i) & 0x7fff) as u16;
    if ndx <= 1 {
        Seq::empty()
    } else {
        spec_verdef_name(mem, strtab, verdef_off, verdef_num, ndx)
    }
}

/// Decode the per-symbol version names, when the object carries version
/// tables: symbol `i`'s VERSYM entry picks a version definition, whose
/// name stands in the string table; the reserved indices 0 and 1 leave the
/// symbol unversioned.
fn decode_versions(
    mem: &Vec<u8>,
    base: u64,
    dynamic: &ElfDynamic,
    nsyms: usize,
    strtab: &Vec<u8>,
) -> (r: Result<Option<Vec<Vec<u8>>>, Error>)
    ensures
        r is Ok <==> spec_versions_ok(mem@, base, dynamic.version_idx, dynamic.verdef, nsyms as int),
        r matches Ok(v) ==> (v is Some <==> (dynamic.version_idx is Some
            && dynamic.verdef is Some)),
        (dynamic.version_idx is None || dynamic.verdef is None) ==> (r matches Ok(v)
            && v is None),
        r matches Ok(v) ==> (v matches Some(vs) ==> {
            &&& dynamic.version_idx is Some
            &&& dynamic.verdef is Some
            &&& vs@.len() == nsyms
            &&& forall|i: int|
                0 <= i < nsyms ==> #[trigger] vs@[i]@ == spec_version_name(
                    mem@,
                    strtab@,
                    dynamic.version_idx.unwrap() - base,
                    dynamic.verdef.unwrap().0 - base,
                    dynamic.verdef.unwrap().1 as int,
                    i,
                )
        }),
{
    let (vs_addr, vd) = match (dynamic.version_idx, dynamic.verdef) {
        (Some(a), Some(d)) => (a, d),
        _ => {
            return Ok(None);
        },
    };
    let memlen = mem.len();
    if vs_addr < base {
        return Err(parse_dynamic_error("version table lies below the base"));
    }
    let vsoff64 = vs_addr - base;
    if vsoff64 > memlen as u64 || (nsyms as u64) > (memlen as u64 - vsoff64) / 2 {
        return Err(parse_dynamic_error("version table lies outside the reservation"));
    }
    if vd.0 < base {
        return Err(parse_dynamic_error("version definitions lie below the base"));
    }
    let vdoff64 = vd.0 - base;
    if vdoff64 > memlen as u64 {
        return Err(parse_dynamic_error("version definitions lie outside the reservation"));
    }
    let vsoff = vsoff64 as usize;
    let vdoff = vdoff64 as usize;
    proof {
        assert(vsoff + 2 * nsyms <= memlen) by (nonlinear_arith)
            requires
                vsoff == vsoff64,
                vsoff64 <= memlen,
                nsyms <= (memlen as u64 - vsoff64) / 2,
        ;
    }
    let mut out: Vec<Vec<u8>> = Vec::new();
    let mut i: usize = 0;
    while i < nsyms
        invariant
            0 <= i <= nsyms,
            vsoff + 2 * nsyms <= memlen,
            memlen == mem@.len(),
            vsoff == vs_addr - base,
            vdoff == vd.0 - base,
            dynamic.version_idx == Some(vs_addr),
            dynamic.verdef == Some(vd),
            base <= vs_addr,
            nsyms <= (memlen as u64 - vsoff64) / 2,
            vsoff64 == vs_addr - base,
            vdoff64 == vd.0 - base,
            base <= vd.0,
            vdoff64 <= memlen,
            out@.len() == i,
            forall|j: int|
                0 <= j < i ==> ((#[trigger] spec_le16(mem@, vsoff + 2 * j) & 0x7fff) <= 1
                    || spec_verdef_ok(
                    mem@,
                    vdoff as int,
                    vd.1 as int,
                    (spec_le16(mem@, vsoff + 2 * j) & 0x7fff) as u16,
                )),
            forall|j: int|
                0 <= j < i ==> #[trigger] out@[j]@ == spec_version_name(
                    mem@,
                    strtab@,
                    vsoff as int,
                    vdoff as int,
                    vd.1 as int,
                    j,
                ),
        decreases nsyms - i,
    {
        let raw = le16(mem, vsoff + 2 * i);
        let ndx = raw & 0x7fff;
        if ndx <= 1 {
            out.push(Vec::new());
        } else {
            let name = match verdef_name(mem, strtab, vdoff, vd.1, ndx) {
                Ok(v) => v,
                Err(e) => {
                    proof {
                        assert(!spec_verdef_ok(mem@, vdoff as int, vd.1 as int, ndx));
                        assert((spec_le16(mem@, vsoff + 2 * (i as int)) & 0x7fff) == ndx);
                        assert(!spec_versions_ok(
                            mem@,
                            base,
                            dynamic.version_idx,
                            dynamic.verdef,
                            nsyms as int,
                        ));
                    }
                    return Err(e);
                },
            };
            out.push(name);
        }
        i += 1;
    }
    proof {
        assert(spec_versions_ok(mem@, base, dynamic.version_idx, dynamic.verdef, nsyms as int));
    }
    Ok(Some(out))
}

/// Decode the symbol index out of the reservation: the GNU hash header,
/// its buckets and chains, the symbol table, and the string table. The
/// number of symbols is recovered by walking the chain of the highest
/// bucket to its end flag.
pub fn decode_symbol_data(mem: &Vec<u8>, base: u64, dynamic: &ElfDynamic) -> (r: Result<
    SymbolData,
    Error,
>)
    ensures
        r is Ok <==> spec_symdata_ok(
            mem@,
            base,
            dynamic.hashtab,
            dynamic.symtab,
            dynamic.strtab,
            dynamic.strtab_size,
            dynamic.version_idx,
            dynamic.verdef,
        ),
        r matches Ok(d) ==> spec_symdata_matches(
            d,
            mem@,
            base,
            dynamic.hashtab,
            dynamic.symtab,
            dynamic.strtab,
            dynamic.strtab_size,
            dynamic.version_idx,
            dynamic.verdef,
        ),
        r matches Ok(d) ==> base <= dynamic.hashtab && base <= dynamic.symtab && base
            <= dynamic.strtab && d.symndx + d.chains@.len() == d.symbols@.len(),
{
    let memlen = mem.len();
    if dynamic.hashtab < base {
        return Err(parse_dynamic_error("hash table lies below the base"));
    }
    let hoff64 = dynamic.hashtab - base;
    if hoff64 > memlen as u64 || memlen as u64 - hoff64 < 16 {
        return Err(parse_dynamic_error("hash table lies outside the reservation"));
    }
    let hoff = hoff64 as usize;
    let nbucket = le32(mem, hoff) as usize;
    let symndx = le32(mem, hoff + 4) as usize;
    let bloom_size = le32(mem, hoff + 8) as usize;
    if (bloom_size as u64) > (u64::MAX - 16 - hoff64) / 8 {
        return Err(parse_dynamic_error("hash bloom filter lies outside the reservation"));
    }
    let buckets_off64 = hoff64 + 16 + 8 * (bloom_size as u64);
    if buckets_off64 > memlen as u64 || (nbucket as u64) > (memlen as u64 - buckets_off64) / 4 {
        return Err(parse_dynamic_error("hash buckets lie outside the reservation"));
    }
    let buckets_off = buckets_off64 as usize;
    proof {
        assert(buckets_off + 4 * nbucket <= memlen) by (nonlinear_arith)
            requires
                buckets_off == buckets_off64,
                buckets_off64 <= memlen,
                nbucket <= (memlen as u64 - buckets_off64) / 4,
        ;
    }
    let mut buckets: Vec<u32> = Vec::new();
    let mut k: usize = 0;
    let mut max_sym: usize = 0;
    while k < nbucket
        invariant
            0 <= k <= nbucket,
            buckets_off + 4 * nbucket <= memlen,
            memlen == mem@.len(),
            buckets@.len() == k,
            forall|i: int|
                0 <= i < k ==> buckets@[i] == spec_le32(mem@, buckets_off + 4 * i),
            forall|i: int| 0 <= i < k ==> buckets@[i] <= max_sym,
            max_sym == spec_max_bucket(mem@, buckets_off as int, k as int),
            max_sym <= u32::MAX,
        decreases nbucket - k,
    {
        let b = le32(mem, buckets_off + 4 * k);
        if b as usize > max_sym {
            max_sym = b as usize;
        }
        buckets.push(b);
        k += 1;
    }
    let chain_off64 = buckets_off64 + 4 * (nbucket as u64);
    let chain_off = chain_off64 as usize;
    let chain_avail = (memlen - chain_off) / 4;
    proof {
        assert(chain_off + 4 * chain_avail <= memlen) by (nonlinear_arith)
            requires
                chain_off <= memlen,
                chain_avail == (memlen - chain_off) / 4,
        ;
    }
    proof {
        assert(max_sym == spec_max_bucket(mem@, buckets_off as int, nbucket as int));
    }
    let ghost limit: int = symndx + chain_avail;
    let nchain: usize;
    if max_sym < symndx {
        nchain = 0;
    } else {
        let mut ci: usize = max_sym - symndx;
        let mut found: Option<usize> = None;
        while ci < chain_avail
            invariant_except_break
                found is None,
            invariant
                chain_off + 4 * chain_avail <= memlen,
                memlen == mem@.len(),
                limit == symndx + chain_avail,
                symndx <= max_sym,
                spec_chain_scan_end(
                    mem@,
                    chain_off as int,
                    symndx as int,
                    max_sym as int,
                    limit,
                ) == spec_chain_scan_end(
                    mem@,
                    chain_off as int,
                    symndx as int,
                    symndx + ci,
                    limit,
                ),
                found matches Some(c) ==> ci < chain_avail && c == ci + 1
                    && spec_chain_scan_end(
                    mem@,
                    chain_off as int,
                    symndx as int,
                    max_sym as int,
                    limit,
                ) == Some(symndx + ci + 1),
            ensures
                found is None ==> ci >= chain_avail,
            decreases chain_avail - ci,
        {
            let w = le32(mem, chain_off + 4 * ci);
            if w & 1 == 1 {
                proof {
                    assert(spec_chain_scan_end(
                        mem@,
                        chain_off as int,
                        symndx as int,
                        symndx + ci,
                        limit,
                    ) == Some(symndx + ci + 1));
                }
                found = Some(ci + 1);
                break;
            }
            proof {
                assert(spec_chain_scan_end(
                    mem@,
                    chain_off as int,
                    symndx as int,
                    symndx + ci,
                    limit,
                ) == spec_chain_scan_end(
                    mem@,
                    chain_off as int,
                    symndx as int,
                    symndx + ci + 1,
                    limit,
                ));
            }
            ci += 1;
        }
        nchain = match found {
            Some(c) => {
                proof {
                    lemma_scan_bound(
                        mem@,
                        chain_off as int,
                        symndx as int,
                        max_sym as int,
                        limit,
                    );
                }
                c
            },
            None => {
                proof {
                    assert(spec_chain_scan_end(
                        mem@,
                        chain_off as int,
                        symndx as int,
                        symndx + ci,
                        limit,
                    ) is None);
                }
                return Err(parse_dynamic_error("hash chain runs past the reservation"));
            },
        };
    }
    proof {
        assert(spec_nchain(mem@, base, dynamic.hashtab) == nchain as int);
        assert(nchain <= chain_avail);
        assert(chain_off + 4 * nchain <= memlen);
    }
    if (nchain as u64) > (memlen as u64 - chain_off64) / 4 {
        return Err(parse_dynamic_error("hash chains lie outside the reservation"));
    }
    let nsyms64 = symndx as u64 + nchain as u64;
    if nsyms64 > usize::MAX as u64 {
        return Err(parse_dynamic_error("symbol table count does not fit"));
    }
    let nsyms = symndx + nchain;
    proof {
        assert(nsyms as int == spec_nsyms(mem@, base, dynamic.hashtab));
    }
    let mut chains: Vec<u32> = Vec::new();
    let mut k2: usize = 0;
    while k2 < nchain
        invariant
            0 <= k2 <= nchain,
            chain_off + 4 * nchain <= memlen,
            memlen == mem@.len(),
            chains@.len() == k2,
            forall|i: int|
                0 <= i < k2 ==> chains@[i] == spec_le32(mem@, chain_off + 4 * i),
        decreases nchain - k2,
    {
        let w = le32(mem, chain_off + 4 * k2);
        chains.push(w);
        k2 += 1;
    }
    if dynamic.symtab < base {
        return Err(parse_dynamic_error("symbol table lies below the base"));
    }
    let soff64 = dynamic.symtab - base;
    if soff64 > memlen as u64 || (nsyms as u64) > (memlen as u64 - soff64) / (SYM_SIZE as u64) {
        return Err(parse_dynamic_error("symbol table lies outside the reservation"));
    }
    let soff = soff64 as usize;
    proof {
        assert(soff + SYM_SIZE * nsyms <= memlen) by (nonlinear_arith)
            requires
                soff == soff64,
                soff64 <= memlen,
                nsyms <= (memlen as u64 - soff64) / 24,
                SYM_SIZE == 24,
        ;
    }
    let mut symbols: Vec<ElfSymbol> = Vec::new();
    let mut k3: usize = 0;
    while k3 < nsyms
        invariant
            0 <= k3 <= nsyms,
            soff + SYM_SIZE * nsyms <= memlen,
            memlen == mem@.len(),
            symbols@.len() == k3,
            forall|i: int|
                0 <= i < k3 ==> symbols@[i] == spec_parse_sym(mem@, soff + SYM_SIZE * i),
        decreases nsyms - k3,
    {
        let sym = parse_sym(mem, soff + SYM_SIZE * k3);
        symbols.push(sym);
        k3 += 1;
    }
    if dynamic.strtab < base {
        return Err(parse_dynamic_error("string table lies below the base"));
    }
    let stoff64 = dynamic.strtab - base;
    if stoff64 > memlen as u64 || dynamic.strtab_size > memlen as u64 - stoff64 {
        return Err(parse_dynamic_error("string table lies outside the reservation"));
    }
    let strtab = match bytes_range(mem, stoff64 as usize, dynamic.strtab_size as usize) {
        Ok(v) => v,
        Err(e) => {
            return Err(e);
        },
    };
    let versions = match decode_versions(mem, base, dynamic, nsyms, &strtab) {
        Ok(v) => v,
        Err(e) => {
            return Err(e);
        },
    };
    Ok(SymbolData::new(symbols, strtab, symndx, buckets, chains, versions))
}

/// Whether the LOAD headers claim pairwise disjoint memory ranges.
pub open spec fn spec_loads_disjoint(phdrs: Seq<Phdr>) -> bool {
    forall|i: int, j: int|
        0 <= i < j < phdrs.len() && #[trigger] phdrs[i].p_type == PT_LOAD && #[trigger] phdrs[
            j
        ].p_type == PT_LOAD ==> (phdrs[i].p_vaddr + phdrs[i].p_memsz <= phdrs[j].p_vaddr
            || phdrs[j].p_vaddr + phdrs[j].p_memsz <= phdrs[i].p_vaddr)
}

/// Whether the file range of a LOAD header stands in the placed image at
/// its virtual address.
pub open spec fn spec_load_placed(mem: Seq<u8>, bytes: Seq<u8>, p: Phdr) -> bool {
    forall|k: int| 0 <= k < p.p_filesz ==> mem[p.p_vaddr + k] == #[trigger] bytes[p.p_offset + k]
}

/// The decoded program-header table of an object.
pub open spec fn spec_phdrs(b: Seq<u8>) -> Seq<Phdr> {
    Seq::new(
        spec_le16(b, 56) as nat,
        |i: int| spec_parse_phdr(b, spec_le64(b, 32) + PHDR_SIZE * i),
    )
}

/// `mem` with `len` bytes of `src` starting at `src_off` copied in at
/// `dst`.
pub open spec fn spec_copy(mem: Seq<u8>, dst: int, src: Seq<u8>, src_off: int, len: int) -> Seq<
    u8,
> {
    Seq::new(
        mem.len(),
        |i: int|
            if dst <= i < dst + len {
                src[src_off + (i - dst)]
            } else {
                mem[i]
            },
    )
}

/// The reservation after the first `k` program headers are placed: zeros,
/// with each LOAD header's file range copied in, in order.
pub open spec fn spec_place_upto(b: Seq<u8>, phdrs: Seq<Phdr>, hi: int, k: int) -> Seq<u8>
    decreases k,
{
    if k <= 0 {
        Seq::new(hi as nat, |i: int| 0u8)
    } else {
        let prev = spec_place_upto(b, phdrs, hi, k - 1);
        let p = phdrs[k - 1];
        if p.p_type == PT_LOAD {
            spec_copy(prev, p.p_vaddr as int, b, p.p_offset as int, p.p_filesz as int)
        } else {
            prev
        }
    }
}

/// The whole placed reservation.
pub open spec fn spec_place(b: Seq<u8>, phdrs: Seq<Phdr>, hi: int) -> Seq<u8> {
    spec_place_upto(b, phdrs, hi, phdrs.len() as int)
}

/// The first program header of the given kind.
pub open spec fn spec_first_of_type(phdrs: Seq<Phdr>, ptype: u32) -> Option<Phdr>
    decreases phdrs.len(),
{
    if phdrs.len() == 0 {
        None
    } else if phdrs[0].p_type == ptype {
        Some(phdrs[0])
    } else {
        spec_first_of_type(phdrs.drop_first(), ptype)
    }
}

/// Whether every offset the dynamic table records can be folded at `base`
/// without leaving the address space, with every paired size present.
pub open spec fn spec_tags_foldable(p: Seq<Dyn>, base: u64) -> bool {
    &&& base + spec_last_tag(p, crate::abi::DT_GNU_HASH).unwrap() <= u64::MAX
    &&& base + spec_last_tag(p, crate::abi::DT_SYMTAB).unwrap() <= u64::MAX
    &&& base + spec_last_tag(p, crate::abi::DT_STRTAB).unwrap() <= u64::MAX
    &&& (spec_last_tag(p, crate::abi::DT_JMPREL) is Some ==> spec_last_tag(
        p,
        crate::abi::DT_PLTRELSZ,
    ) is Some && base + spec_last_tag(p, crate::abi::DT_JMPREL).unwrap() <= u64::MAX)
    &&& (spec_last_tag(p, crate::abi::DT_RELA) is Some ==> spec_last_tag(
        p,
        crate::abi::DT_RELASZ,
    ) is Some && base + spec_last_tag(p, crate::abi::DT_RELA).unwrap() <= u64::MAX)
    &&& (spec_last_tag(p, crate::abi::DT_INIT) is Some ==> base + spec_last_tag(
        p,
        crate::abi::DT_INIT,
    ).unwrap() <= u64::MAX)
    &&& (spec_last_tag(p, crate::abi::DT_FINI) is Some ==> base + spec_last_tag(
        p,
        crate::abi::DT_FINI,
    ).unwrap() <= u64::MAX)
    &&& (spec_last_tag(p, crate::abi::DT_INIT_ARRAY) is Some ==> spec_last_tag(
        p,
        crate::abi::DT_INIT_ARRAYSZ,
    ) is Some && base + spec_last_tag(p, crate::abi::DT_INIT_ARRAY).unwrap() <= u64::MAX)
    &&& (spec_last_tag(p, crate::abi::DT_FINI_ARRAY) is Some ==> spec_last_tag(
        p,
        crate::abi::DT_FINI_ARRAYSZ,
    ) is Some && base + spec_last_tag(p, crate::abi::DT_FINI_ARRAY).unwrap() <= u64::MAX)
    &&& (spec_last_tag(p, crate::abi::DT_VERSYM) is Some ==> base + spec_last_tag(
        p,
        crate::abi::DT_VERSYM,
    ).unwrap() <= u64::MAX)
    &&& (spec_last_tag(p, crate::abi::DT_VERNEED) is Some ==> spec_last_tag(
        p,
        crate::abi::DT_VERNEEDNUM,
    ) is Some && base + spec_last_tag(p, crate::abi::DT_VERNEED).unwrap() <= u64::MAX)
    &&& (spec_last_tag(p, crate::abi::DT_VERDEF) is Some ==> spec_last_tag(
        p,
        crate::abi::DT_VERDEFNUM,
    ) is Some && base + spec_last_tag(p, crate::abi::DT_VERDEF).unwrap() <= u64::MAX)
}

/// When loading an object at `base` succeeds: the header is valid, the
/// program-header table lies inside the object, a LOAD span exists and
/// fits, every LOAD's file range lies inside the object, a DYNAMIC header
/// stands inside the reservation, the required tags stand before DT_NULL,
/// the offsets fold at `base`, the symbol-index tables lie inside the
/// placed reservation, and so do the relocation arrays.
pub open spec fn spec_load_ok(b: Seq<u8>, arch: Arch, base: u64) -> bool {
    let phdrs = spec_phdrs(b);
    let hi = crate::segment::spec_max_vaddr(phdrs) as int;
    let mem = spec_place(b, phdrs, hi);
    &&& spec_ehdr_valid(b, arch)
    &&& spec_le16(b, 54) == PHDR_SIZE as u16
    &&& spec_le64(b, 32) + PHDR_SIZE * (spec_le16(b, 56) as int) <= b.len()
    &&& crate::segment::spec_has_load_span(phdrs)
    &&& crate::segment::spec_max_vaddr(phdrs) <= usize::MAX
    &&& (forall|i: int|
        0 <= i < phdrs.len() && #[trigger] phdrs[i].p_type == PT_LOAD ==> (phdrs[i].p_filesz
            <= phdrs[i].p_memsz && phdrs[i].p_offset + phdrs[i].p_filesz <= b.len()))
    &&& spec_first_of_type(phdrs, PT_DYNAMIC) is Some
    &&& spec_first_of_type(phdrs, PT_DYNAMIC).unwrap().p_vaddr <= hi
    &&& ({
        let dv = spec_first_of_type(phdrs, PT_DYNAMIC).unwrap().p_vaddr;
        let p = spec_upto_null(spec_dyn_seq(mem, dv as int));
        &&& spec_last_tag(p, crate::abi::DT_GNU_HASH) is Some
        &&& spec_last_tag(p, crate::abi::DT_SYMTAB) is Some
        &&& spec_last_tag(p, crate::abi::DT_STRTAB) is Some
        &&& spec_last_tag(p, crate::abi::DT_STRSZ) is Some
        &&& spec_tags_foldable(p, base)
        &&& spec_symdata_ok(
            mem,
            base,
            (base + spec_last_tag(p, crate::abi::DT_GNU_HASH).unwrap()) as u64,
            (base + spec_last_tag(p, crate::abi::DT_SYMTAB).unwrap()) as u64,
            (base + spec_last_tag(p, crate::abi::DT_STRTAB).unwrap()) as u64,
            spec_last_tag(p, crate::abi::DT_STRSZ).unwrap(),
            match spec_last_tag(p, crate::abi::DT_VERSYM) {
                Some(v) => Some((base + v) as u64),
                None => None,
            },
            match spec_last_tag(p, crate::abi::DT_VERDEF) {
                Some(v) => Some(
                    ((base + v) as u64, spec_last_tag(p, crate::abi::DT_VERDEFNUM).unwrap()),
                ),
                None => None,
            },
        )
        &&& (spec_last_tag(p, crate::abi::DT_JMPREL) is Some ==> spec_last_tag(
            p,
            crate::abi::DT_JMPREL,
        ).unwrap() + RELA_SIZE * (spec_last_tag(p, crate::abi::DT_PLTRELSZ).unwrap() / (RELA_SIZE
            as u64)) <= mem.len())
        &&& (spec_last_tag(p, crate::abi::DT_RELA) is Some ==> spec_last_tag(
            p,
            crate::abi::DT_RELA,
        ).unwrap() + RELA_SIZE * (spec_last_tag(p, crate::abi::DT_RELASZ).unwrap() / (RELA_SIZE
            as u64)) <= mem.len())
    })
}

/// The loader: drives an ELF object source through header validation,
/// segment placement, dynamic decoding and symbol indexing.
pub struct Loader {
    pub object: ElfBinary,
}

impl Loader {
    pub fn new(object: ElfBinary) -> (r: Loader)
        ensures
            r.object == object,
    {
        Loader { object }
    }

    /// Load a dynamic library from the object: validate the header, decode
    /// the program headers, place the LOAD segments in a reservation at
    /// `base`, decode the dynamic table, fold it, build the symbol index,
    /// and produce an unrelocated image. The TLS capability, when the
    /// caller has one, is attached to the image afterwards.
    pub fn load_dylib(self, arch: Arch, base: u64, lazy: bool) -> (r: Result<ElfDylib, Error>)
        ensures
            r is Ok <==> spec_load_ok(self.object.bytes@, arch, base),
            !spec_ehdr_valid(self.object.bytes@, arch) ==> (r matches Err(e) && e matches
                Error::ParseEhdrError { .. }),
            r matches Ok(d) ==> {
                &&& spec_ehdr_valid(self.object.bytes@, arch)
                &&& d.arch == arch
                &&& d.lazy == lazy
                &&& d.name == self.object.name
                &&& d.segments.base == base
                &&& d.segments.relro_applied == false
                &&& d.entry == spec_le64(self.object.bytes@, 24)
                &&& d.phdrs@.len() == spec_le16(self.object.bytes@, 56) as int
                &&& (forall|i: int|
                    0 <= i < d.phdrs@.len() ==> d.phdrs@[i] == spec_parse_phdr(
                        self.object.bytes@,
                        spec_le64(self.object.bytes@, 32) + PHDR_SIZE * i,
                    ))
                &&& crate::segment::spec_has_load_span(d.phdrs@)
                &&& d.segments.memory@.len() == crate::segment::spec_max_vaddr(d.phdrs@)
                &&& spec_loads_disjoint(d.phdrs@) ==> (forall|t: int|
                    0 <= t < d.phdrs@.len() && #[trigger] d.phdrs@[t].p_type == PT_LOAD
                        ==> spec_load_placed(
                        d.segments.memory@,
                        self.object.bytes@,
                        d.phdrs@[t],
                    ))
                &&& d.rel_wf()
                &&& d.dep_libs@.len() == 0
                &&& d.user_data@.len() == 0
                &&& d.tls is None
                &&& d.phdrs@ == spec_phdrs(self.object.bytes@)
                &&& d.segments.memory@ == spec_place(
                    self.object.bytes@,
                    d.phdrs@,
                    crate::segment::spec_max_vaddr(d.phdrs@) as int,
                )
                &&& d.relro == (match spec_first_of_type(d.phdrs@, PT_GNU_RELRO) {
                    Some(q) => Some(ELFRelro { addr: q.p_vaddr, len: q.p_memsz }),
                    None => None,
                })
                &&& spec_first_of_type(d.phdrs@, PT_DYNAMIC) is Some
                &&& ({
                    let dv = spec_first_of_type(d.phdrs@, PT_DYNAMIC).unwrap().p_vaddr;
                    let p = spec_upto_null(spec_dyn_seq(d.segments.memory@, dv as int));
                    &&& spec_last_tag(p, crate::abi::DT_GNU_HASH) is Some
                    &&& spec_last_tag(p, crate::abi::DT_SYMTAB) is Some
                    &&& spec_last_tag(p, crate::abi::DT_STRTAB) is Some
                    &&& spec_last_tag(p, crate::abi::DT_STRSZ) is Some
                    &&& d.init_fn == (match spec_last_tag(p, crate::abi::DT_INIT) {
                        Some(v) => Some((base + v) as u64),
                        None => None,
                    })
                    &&& d.fini_fn == (match spec_last_tag(p, crate::abi::DT_FINI) {
                        Some(v) => Some((base + v) as u64),
                        None => None,
                    })
                    &&& d.init_array == (match spec_last_tag(p, crate::abi::DT_INIT_ARRAY) {
                        Some(v) => Some(
                            (
                                (base + v) as u64,
                                (spec_last_tag(p, crate::abi::DT_INIT_ARRAYSZ).unwrap() / (
                                WORD_SIZE as u64)) as u64,
                            ),
                        ),
                        None => None,
                    })
                    &&& d.fini_array == (match spec_last_tag(p, crate::abi::DT_FINI_ARRAY) {
                        Some(v) => Some(
                            (
                                (base + v) as u64,
                                (spec_last_tag(p, crate::abi::DT_FINI_ARRAYSZ).unwrap() / (
                                WORD_SIZE as u64)) as u64,
                            ),
                        ),
                        None => None,
                    })
                    &&& d.needed_libs@.len() == spec_needed(p).len()
                    &&& (forall|i: int|
                        0 <= i < spec_needed(p).len() ==> #[trigger] d.needed_libs@[i]@
                            == crate::symbol::spec_name_at(
                            d.symbols.strtab@,
                            spec_needed(p)[i] as int,
                        ))
                    &&& spec_symdata_matches(
                        d.symbols,
                        d.segments.memory@,
                        base,
                        (base + spec_last_tag(p, crate::abi::DT_GNU_HASH).unwrap()) as u64,
                        (base + spec_last_tag(p, crate::abi::DT_SYMTAB).unwrap()) as u64,
                        (base + spec_last_tag(p, crate::abi::DT_STRTAB).unwrap()) as u64,
                        spec_last_tag(p, crate::abi::DT_STRSZ).unwrap(),
                        match spec_last_tag(p, crate::abi::DT_VERSYM) {
                            Some(v) => Some((base + v) as u64),
                            None => None,
                        },
                        match spec_last_tag(p, crate::abi::DT_VERDEF) {
                            Some(v) => Some(
                                (
                                    (base + v) as u64,
                                    spec_last_tag(p, crate::abi::DT_VERDEFNUM).unwrap(),
                                ),
                            ),
                            None => None,
                        },
                    )
                    &&& (d.relocation.pltrel is Some <==> spec_last_tag(
                        p,
                        crate::abi::DT_JMPREL,
                    ) is Some)
                    &&& (d.relocation.pltrel matches Some(a) ==> {
                        let off = spec_last_tag(p, crate::abi::DT_JMPREL).unwrap();
                        let cnt = spec_last_tag(p, crate::abi::DT_PLTRELSZ).unwrap() / (RELA_SIZE
                            as u64);
                        &&& a.array@.len() == cnt
                        &&& (forall|i: int|
                            0 <= i < a.array@.len() ==> a.array@[i] == spec_parse_rela(
                                d.segments.memory@,
                                off + RELA_SIZE * i,
                            ))
                        &&& a.state.stage == crate::relocation::RelocateStage::Init
                        &&& a.state.relocated.spec_unit_count() == (a.array@.len() + 31) / 32
                        &&& (forall|i: int|
                            0 <= i < a.state.relocated.spec_unit_count() * 32
                                ==> a.state.relocated.spec_bit(i))
                    })
                    &&& (d.relocation.dynrel is Some <==> spec_last_tag(
                        p,
                        crate::abi::DT_RELA,
                    ) is Some)
                    &&& (d.relocation.dynrel matches Some(a) ==> {
                        let off = spec_last_tag(p, crate::abi::DT_RELA).unwrap();
                        let cnt = spec_last_tag(p, crate::abi::DT_RELASZ).unwrap() / (RELA_SIZE
                            as u64);
                        &&& a.array@.len() == cnt
                        &&& (forall|i: int|
                            0 <= i < a.array@.len() ==> a.array@[i] == spec_parse_rela(
                                d.segments.memory@,
                                off + RELA_SIZE * i,
                            ))
                        &&& a.state.stage == crate::relocation::RelocateStage::Init
                        &&& a.state.relocated.spec_unit_count() == (a.array@.len() + 31) / 32
                        &&& (forall|i: int|
                            0 <= i < a.state.relocated.spec_unit_count() * 32
                                ==> a.state.relocated.spec_bit(i))
                    })
                })
            },
    {
        let bytes = &self.object.bytes;
        if !ehdr_valid(bytes, arch) {
            return Err(parse_ehdr_error(String::from_str("invalid ELF header")));
        }
        let entry = le64(bytes, 24);
        let phoff64 = le64(bytes, 32);
        let phentsize = le16(bytes, 54);
        let phnum = le16(bytes, 56) as usize;
        if phentsize as usize != PHDR_SIZE {
            return Err(
                parse_ehdr_error(String::from_str("unexpected program header entry size")),
            );
        }
        let blen = bytes.len();
        if phoff64 > blen as u64 || (phnum as u64) > (blen as u64 - phoff64) / (PHDR_SIZE as u64) {
            return Err(
                parse_ehdr_error(
                    String::from_str("program header table lies outside the object"),
                ),
            );
        }
        let phoff = phoff64 as usize;
        proof {
            assert(phoff + PHDR_SIZE * phnum <= blen) by (nonlinear_arith)
                requires
                    phoff == phoff64,
                    phoff64 <= blen,
                    phnum <= (blen as u64 - phoff64) / 56,
                    PHDR_SIZE == 56,
            ;
        }
        let mut phdrs: Vec<Phdr> = Vec::new();
        let mut k: usize = 0;
        while k < phnum
            invariant
                0 <= k <= phnum,
                phoff + PHDR_SIZE * phnum <= blen,
                blen == bytes@.len(),
                phdrs@.len() == k,
                phoff == phoff64,
                forall|i: int|
                    0 <= i < k ==> phdrs@[i] == spec_parse_phdr(bytes@, phoff + PHDR_SIZE * i),
            decreases phnum - k,
        {
            let p = parse_phdr(bytes, phoff + PHDR_SIZE * k);
            phdrs.push(p);
            k += 1;
        }
        proof {
            assert(phdrs@ =~= spec_phdrs(bytes@));
        }
        let span = match load_span(&phdrs) {
            Some(s) => s,
            None => {
                return Err(
                    Error::MmapError { msg: String::from_str("object has no loadable segment") },
                );
            },
        };
        let hi = span.1;
        if hi > usize::MAX as u64 {
            return Err(
                Error::MmapError {
                    msg: String::from_str("reservation does not fit the address space"),
                },
            );
        }
        let mut memory = zero_bytes(hi as usize);
        proof {
            assert(memory@ =~= spec_place_upto(bytes@, phdrs@, hi as int, 0));
        }
        // place each LOAD segment: copy the file range, leave the tail zero
        let mut k2: usize = 0;
        while k2 < phdrs.len()
            invariant
                0 <= k2 <= phdrs@.len(),
                memory@.len() == hi,
                blen == bytes@.len(),
                bytes@ == self.object.bytes@,
                spec_ehdr_valid(self.object.bytes@, arch),
                crate::segment::spec_has_load_span(phdrs@),
                hi == crate::segment::spec_max_vaddr(phdrs@),
                forall|t: int|
                    0 <= t < k2 && #[trigger] phdrs@[t].p_type == PT_LOAD ==> (phdrs@[t].p_filesz
                        <= phdrs@[t].p_memsz && phdrs@[t].p_offset + phdrs@[t].p_filesz <= blen),
                hi <= usize::MAX,
                phdrs@ == spec_phdrs(bytes@),
                memory@ == spec_place_upto(bytes@, phdrs@, hi as int, k2 as int),
                spec_loads_disjoint(phdrs@) ==> forall|t: int|
                    0 <= t < k2 && #[trigger] phdrs@[t].p_type == PT_LOAD ==> spec_load_placed(
                        memory@,
                        bytes@,
                        phdrs@[t],
                    ),
            decreases phdrs@.len() - k2,
        {
            let p = phdrs[k2];
            if p.p_type == PT_LOAD {
                if p.p_filesz > p.p_memsz {
                    return Err(
                        Error::MmapError {
                            msg: String::from_str("segment file size exceeds its memory size"),
                        },
                    );
                }
                if p.p_offset > blen as u64 || p.p_filesz > blen as u64 - p.p_offset {
                    return Err(
                        Error::MmapError {
                            msg: String::from_str("segment file range lies outside the object"),
                        },
                    );
                }
                proof {
                    assert(phdrs@[k2 as int].p_type == PT_LOAD);
                    crate::segment::lemma_reservation_covers_loads(phdrs@, k2 as int);
                }
                let ghost before = memory@;
                copy_into(
                    &mut memory,
                    p.p_vaddr as usize,
                    bytes,
                    p.p_offset as usize,
                    p.p_filesz as usize,
                );
                proof {
                    assert(memory@ =~= spec_copy(
                        before,
                        p.p_vaddr as int,
                        bytes@,
                        p.p_offset as int,
                        p.p_filesz as int,
                    ));
                    assert(memory@ == spec_place_upto(bytes@, phdrs@, hi as int, k2 + 1));
                    assert(p == phdrs@[k2 as int]);
                    assert(p.p_vaddr <= hi);
                    assert((p.p_vaddr as usize) as int == p.p_vaddr as int);
                    assert(p.p_filesz <= blen);
                    assert((p.p_filesz as usize) as int == p.p_filesz as int);
                    assert((p.p_offset as usize) as int == p.p_offset as int);
                    if spec_loads_disjoint(phdrs@) {
                        assert forall|t: int|
                            0 <= t < k2 + 1 && #[trigger] phdrs@[t].p_type == PT_LOAD implies
                        spec_load_placed(memory@, bytes@, phdrs@[t]) by {
                            let q = phdrs@[t];
                            crate::segment::lemma_reservation_covers_loads(phdrs@, t);
                            if t < k2 {
                                // the fresh copy lies outside this earlier
                                // segment's range
                                assert(q.p_vaddr + q.p_memsz <= p.p_vaddr || p.p_vaddr
                                    + p.p_memsz <= q.p_vaddr);
                                assert(spec_load_placed(before, bytes@, q));
                                assert(q.p_filesz <= q.p_memsz);
                                assert forall|k: int| 0 <= k < q.p_filesz implies memory@[q.p_vaddr
                                    + k] == #[trigger] bytes@[q.p_offset + k] by {
                                    assert(before[q.p_vaddr + k] == bytes@[q.p_offset + k]);
                                    assert(q.p_vaddr + k < hi);
                                    assert(q.p_vaddr + k < q.p_vaddr + q.p_memsz);
                                    assert(!(p.p_vaddr <= q.p_vaddr + k < p.p_vaddr
                                        + p.p_filesz));
                                    assert(memory@[q.p_vaddr + k] == before[q.p_vaddr + k]);
                                }
                            } else {
                                assert(q == p);
                                assert forall|k: int| 0 <= k < q.p_filesz implies memory@[q.p_vaddr
                                    + k] == #[trigger] bytes@[q.p_offset + k] by {
                                    assert(bytes@[(p.p_offset as usize) + k] == bytes@[q.p_offset
                                        + k]);
                                    assert(memory@[(p.p_vaddr as usize) + k] == bytes@[(p.p_offset
                                        as usize) + k]);
                                }
                            }
                        }
                    }
                }
            } else {
                proof {
                    assert(memory@ == spec_place_upto(bytes@, phdrs@, hi as int, k2 + 1));
                }
            }
            k2 += 1;
        }
        proof {
            assert(memory@ == spec_place(bytes@, phdrs@, hi as int));
        }
        // locate the dynamic segment and decode the dynamic table
        let mut dyn_vaddr: Option<u64> = None;
        let mut relro: Option<ELFRelro> = None;
        let mut k3: usize = 0;
        proof {
            assert(phdrs@.skip(0) =~= phdrs@);
        }
        while k3 < phdrs.len()
            invariant
                0 <= k3 <= phdrs@.len(),
                dyn_vaddr matches Some(v) ==> (spec_first_of_type(phdrs@, PT_DYNAMIC) matches Some(
                    q,
                ) && q.p_vaddr == v),
                dyn_vaddr is None ==> spec_first_of_type(phdrs@, PT_DYNAMIC)
                    == spec_first_of_type(phdrs@.skip(k3 as int), PT_DYNAMIC),
                relro matches Some(rr) ==> (spec_first_of_type(phdrs@, PT_GNU_RELRO) matches Some(
                    q,
                ) && rr == (ELFRelro { addr: q.p_vaddr, len: q.p_memsz })),
                relro is None ==> spec_first_of_type(phdrs@, PT_GNU_RELRO) == spec_first_of_type(
                    phdrs@.skip(k3 as int),
                    PT_GNU_RELRO,
                ),
            decreases phdrs@.len() - k3,
        {
            let p = phdrs[k3];
            proof {
                assert(phdrs@.skip(k3 as int)[0] == phdrs@[k3 as int]);
                assert(phdrs@.skip(k3 as int).drop_first() =~= phdrs@.skip(k3 + 1));
            }
            if p.p_type == PT_DYNAMIC && dyn_vaddr.is_none() {
                dyn_vaddr = Some(p.p_vaddr);
            }
            if p.p_type == PT_GNU_RELRO && relro.is_none() {
                relro = Some(ELFRelro::new(&p));
            }
            k3 += 1;
        }
        proof {
            assert(phdrs@.skip(phdrs@.len() as int) =~= Seq::<Phdr>::empty());
        }
        let dyn_vaddr = match dyn_vaddr {
            Some(v) => v,
            None => {
                return Err(parse_dynamic_error("object has no dynamic segment"));
            },
        };
        if dyn_vaddr > memory.len() as u64 {
            return Err(parse_dynamic_error("dynamic segment lies outside the reservation"));
        }
        let dyns = decode_dyns(&memory, dyn_vaddr as usize);
        let raw = match ElfRawDynamic::new(&dyns) {
            Ok(raw) => raw,
            Err(e) => {
                return Err(e);
            },
        };
        if !check_foldable(&raw, base) {
            return Err(
                Error::MmapError {
                    msg: String::from_str("dynamic offsets do not fit the address space"),
                },
            );
        }
        let needed_offsets_len = raw.needed_libs.len();
        let dynamic = raw.finish(base);
        let symbols = match decode_symbol_data(&memory, base, &dynamic) {
            Ok(d) => d,
            Err(e) => {
                return Err(e);
            },
        };
        // resolve the needed-library names against the string table
        let mut needed_libs: Vec<Vec<u8>> = Vec::new();
        let mut k4: usize = 0;
        while k4 < dynamic.needed_libs.len()
            invariant
                0 <= k4 <= dynamic.needed_libs@.len(),
                needed_libs@.len() == k4,
                forall|j: int|
                    0 <= j < k4 ==> #[trigger] needed_libs@[j]@ == crate::symbol::spec_name_at(
                        symbols.strtab@,
                        dynamic.needed_libs@[j] as int,
                    ),
            decreases dynamic.needed_libs@.len() - k4,
        {
            let off64 = dynamic.needed_libs[k4];
            let stlen = symbols.strtab.len();
            let off = if off64 < stlen as u64 {
                off64 as usize
            } else {
                stlen
            };
            let e = name_end(&symbols.strtab, off);
            match bytes_range(&symbols.strtab, off, e - off) {
                Ok(v) => {
                    proof {
                        assert(v@ =~= crate::symbol::spec_name_at(
                            symbols.strtab@,
                            off64 as int,
                        ));
                    }
                    needed_libs.push(v);
                },
                Err(_) => {
                    proof {
                        assert(false);
                    }
                },
            }
            k4 += 1;
        }
        // decode the relocation arrays
        let pltrel = match dynamic.pltrel {
            Some(p) => {
                match decode_relas(&memory, base, p.0, p.1) {
                    Ok(v) => Some(v),
                    Err(e) => {
                        return Err(e);
                    },
                }
            },
            None => None,
        };
        let dynrel = match dynamic.dynrel {
            Some(p) => {
                match decode_relas(&memory, base, p.0, p.1) {
                    Ok(v) => Some(v),
                    Err(e) => {
                        return Err(e);
                    },
                }
            },
            None => None,
        };
        proof {
            if pltrel is Some {
                assert(pltrel.unwrap()@.len() + 31 <= usize::MAX);
            }
            if dynrel is Some {
                assert(dynrel.unwrap()@.len() + 31 <= usize::MAX);
            }
        }
        let relocation = crate::relocation::ElfRelocation::new(pltrel, dynrel);
        let segments = ElfSegments::new(base, memory);
        proof {
            let ghost gp = spec_upto_null(spec_dyn_seq(segments.memory@, dyn_vaddr as int));
            assert(dyns@ == spec_dyn_seq(segments.memory@, dyn_vaddr as int));
            assert(gp == spec_upto_null(dyns@));
            assert(raw.decodes(gp));
            assert(dynamic.hashtab == (base + spec_last_tag(gp, crate::abi::DT_GNU_HASH).unwrap())
                as u64);
            assert(dynamic.symtab == (base + spec_last_tag(gp, crate::abi::DT_SYMTAB).unwrap())
                as u64);
            assert(dynamic.strtab == (base + spec_last_tag(gp, crate::abi::DT_STRTAB).unwrap())
                as u64);
            assert(dynamic.strtab_size == spec_last_tag(gp, crate::abi::DT_STRSZ).unwrap());
            assert(dynamic.version_idx == (match spec_last_tag(gp, crate::abi::DT_VERSYM) {
                Some(v) => Some((base + v) as u64),
                None => None,
            }));
            assert(dynamic.verdef == (match spec_last_tag(gp, crate::abi::DT_VERDEF) {
                Some(v) => Some(
                    ((base + v) as u64, spec_last_tag(gp, crate::abi::DT_VERDEFNUM).unwrap()),
                ),
                None => None,
            }));
            assert(dynamic.init_fn == (match spec_last_tag(gp, crate::abi::DT_INIT) {
                Some(v) => Some((base + v) as u64),
                None => None,
            }));
            assert(dynamic.fini_fn == (match spec_last_tag(gp, crate::abi::DT_FINI) {
                Some(v) => Some((base + v) as u64),
                None => None,
            }));
            assert(dynamic.init_array == (match spec_last_tag(gp, crate::abi::DT_INIT_ARRAY) {
                Some(v) => Some(
                    (
                        (base + v) as u64,
                        (spec_last_tag(gp, crate::abi::DT_INIT_ARRAYSZ).unwrap() / (WORD_SIZE
                            as u64)) as u64,
                    ),
                ),
                None => None,
            }));
            assert(dynamic.fini_array == (match spec_last_tag(gp, crate::abi::DT_FINI_ARRAY) {
                Some(v) => Some(
                    (
                        (base + v) as u64,
                        (spec_last_tag(gp, crate::abi::DT_FINI_ARRAYSZ).unwrap() / (WORD_SIZE
                            as u64)) as u64,
                    ),
                ),
                None => None,
            }));
            assert(dynamic.needed_libs@ == spec_needed(gp));
            assert(spec_symdata_matches(
                symbols,
                segments.memory@,
                base,
                dynamic.hashtab,
                dynamic.symtab,
                dynamic.strtab,
                dynamic.strtab_size,
                dynamic.version_idx,
                dynamic.verdef,
            ));
        }
        Ok(
            ElfDylib {
                name: self.object.name,
                phdrs,
                entry,
                symbols,
                tls: None,
                segments,
                fini_fn: dynamic.fini_fn,
                fini_array: dynamic.fini_array,
                user_data: UserData::empty(),
                dep_libs: Vec::new(),
                relocation,
                relro,
                init_fn: dynamic.init_fn,
                init_array: dynamic.init_array,
                needed_libs,
                lazy,
                arch,
            },
        )
    }
}

impl Dylib {
    /// Build a relocated-image record from parts already placed in memory:
    /// the symbol index is decoded out of the reservation as the resolved
    /// dynamic record directs.
    pub fn from_raw(
        name: String,
        base: u64,
        dynamic: ElfDynamic,
        tls: Option<u64>,
        segments: ElfSegments,
        user_data: UserData,
    ) -> (r: Result<Dylib, Error>)
        requires
            segments.base == base,
        ensures
            r is Ok <==> spec_symdata_ok(
                segments.memory@,
                base,
                dynamic.hashtab,
                dynamic.symtab,
                dynamic.strtab,
                dynamic.strtab_size,
                dynamic.version_idx,
                dynamic.verdef,
            ),
            r matches Ok(d) ==> {
                &&& spec_symdata_matches(
                    d.symbols,
                    segments.memory@,
                    base,
                    dynamic.hashtab,
                    dynamic.symtab,
                    dynamic.strtab,
                    dynamic.strtab_size,
                    dynamic.version_idx,
                    dynamic.verdef,
                )
                &&& d.name == name
                &&& d.tls == tls
                &&& d.segments == segments
                &&& d.user_data == user_data
                &&& d.fini_fn is None
                &&& d.fini_array is None
                &&& d.dep_libs@.len() == 0
            },
    {
        let symbols = match decode_symbol_data(&segments.memory, base, &dynamic) {
            Ok(d) => d,
            Err(e) => {
                return Err(e);
            },
        };
        Ok(
            Dylib {
                name,
                symbols,
                tls,
                fini_fn: None,
                fini_array: None,
                user_data,
                dep_libs: Vec::new(),
                segments,
            },
        )
    }
}

/// Whether folding the raw dynamic at `base` stays in the address space.
fn check_foldable(raw: &ElfRawDynamic, base: u64) -> (r: bool)
    ensures
        r == raw.foldable(base),
{
    let lim = u64::MAX - base;
    let mut ok = raw.hash_off <= lim && raw.symtab_off <= lim && raw.strtab_off <= lim;
    ok = ok && (match raw.pltrel_off {
        Some(v) => v <= lim && raw.pltrel_size.is_some(),
        None => true,
    });
    ok = ok && (match raw.rela_off {
        Some(v) => v <= lim && raw.rela_size.is_some(),
        None => true,
    });
    ok = ok && (match raw.init_off {
        Some(v) => v <= lim,
        None => true,
    });
    ok = ok && (match raw.fini_off {
        Some(v) => v <= lim,
        None => true,
    });
    ok = ok && (match raw.init_array_off {
        Some(v) => v <= lim && raw.init_array_size.is_some(),
        None => true,
    });
    ok = ok && (match raw.fini_array_off {
        Some(v) => v <= lim && raw.fini_array_size.is_some(),
        None => true,
    });
    ok = ok && (match raw.version_ids_off {
        Some(v) => v <= lim,
        None => true,
    });
    ok = ok && (match raw.verneed_off {
        Some(v) => v <= lim && raw.verneed_num.is_some(),
        None => true,
    });
    ok = ok && (match raw.verdef_off {
        Some(v) => v <= lim && raw.verdef_num.is_some(),
        None => true,
    });
    ok
}

} // verus!
