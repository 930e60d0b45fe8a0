//! The symbol index: GNU-hash-driven name lookup over the decoded dynamic
//! symbol table, its string table and its hash table, with an optional
//! versioned variant.
use vstd::prelude::*;
use vstd::string::StringSliceAdditionalSpecFns;
use crate::arch::ElfSymbol;

verus! {

/// The GNU symbol hash of a name: h starts at 5381 and folds each byte in
/// as h * 33 + byte, wrapping at 32 bits.
pub open spec fn spec_gnu_hash(s: Seq<u8>) -> u32
    decreases s.len(),
{
    if s.len() == 0 {
        5381
    } else {
        vstd::wrapping::u32_specs::wrapping_add(
            vstd::wrapping::u32_specs::wrapping_mul(spec_gnu_hash(s.drop_last()), 33),
            s.last() as u32,
        )
    }
}

/// Compute the GNU symbol hash of a name.
pub fn gnu_hash(name: &[u8]) -> (r: u32)
    ensures
        r == spec_gnu_hash(name@),
{
    let mut h: u32 = 5381;
    let mut i: usize = 0;
    while i < name.len()
        invariant
            0 <= i <= name@.len(),
            h == spec_gnu_hash(name@.take(i as int)),
        decreases name@.len() - i,
    {
        let b = name[i];
        proof {
            assert(name@.take(i + 1).drop_last() =~= name@.take(i as int));
            assert(name@.take(i + 1).last() == name@[i as int]);
        }
        h = h.wrapping_mul(33).wrapping_add(b as u32);
        i += 1;
    }
    proof {
        assert(name@.take(name@.len() as int) =~= name@);
    }
    h
}

/// The NUL-terminated name stored at offset `off` of the string table: the
/// bytes from `off` up to the first NUL, or up to the end of the table.
pub open spec fn spec_name_at(strtab: Seq<u8>, off: int) -> Seq<u8>
    decreases strtab.len() - off,
{
    if off < 0 || off >= strtab.len() {
        Seq::empty()
    } else if strtab[off] == 0 {
        Seq::empty()
    } else {
        seq![strtab[off]] + spec_name_at(strtab, off + 1)
    }
}

/// Whether the name at offset `off` of the string table is exactly `q`.
pub fn name_matches(strtab: &Vec<u8>, off: usize, q: &[u8]) -> (r: bool)
    ensures
        r == (spec_name_at(strtab@, off as int) == q@),
{
    let n = strtab.len();
    let qn = q.len();
    let mut k: usize = 0;
    proof {
        assert(q@.skip(0) =~= q@);
    }
    loop
        invariant
            0 <= k <= qn,
            qn == q@.len(),
            n == strtab@.len(),
            off + k <= usize::MAX,
            (spec_name_at(strtab@, off as int) == q@) <==> (spec_name_at(
                strtab@,
                off + k,
            ) == q@.skip(k as int)),
        decreases qn - k + 1,
    {
        let so = off + k;
        if so >= n {
            proof {
                assert(spec_name_at(strtab@, off + k) =~= Seq::<u8>::empty());
                if k == qn {
                    assert(q@.skip(k as int) =~= Seq::<u8>::empty());
                } else {
                    assert(q@.skip(k as int).len() > 0);
                }
            }
            return k == qn;
        }
        let b = strtab[so];
        if b == 0 {
            proof {
                assert(spec_name_at(strtab@, off + k) =~= Seq::<u8>::empty());
                if k == qn {
                    assert(q@.skip(k as int) =~= Seq::<u8>::empty());
                } else {
                    assert(q@.skip(k as int).len() > 0);
                }
            }
            return k == qn;
        }
        proof {
            assert(spec_name_at(strtab@, off + k) =~= seq![strtab@[off + k]] + spec_name_at(
                strtab@,
                off + k + 1,
            ));
        }
        if k == qn {
            proof {
                assert(q@.skip(k as int) =~= Seq::<u8>::empty());
                assert(spec_name_at(strtab@, off + k).len() > 0);
            }
            return false;
        }
        let qb = q[k];
        if b != qb {
            proof {
                let lhs = spec_name_at(strtab@, off + k);
                let rhs = q@.skip(k as int);
                assert(rhs[0] == q@[k as int]);
                assert(lhs[0] == strtab@[off + k]);
            }
            return false;
        }
        proof {
            let rhs = q@.skip(k as int);
            assert(rhs[0] == q@[k as int]);
            assert(rhs.skip(1) =~= q@.skip(k + 1));
            let lhs = spec_name_at(strtab@, off + k);
            assert(lhs[0] == strtab@[off + k]);
            assert(lhs.skip(1) =~= spec_name_at(strtab@, off + k + 1));
            assert((lhs == rhs) <==> (spec_name_at(strtab@, off + k + 1) == q@.skip(k + 1))) by {
                if lhs == rhs {
                    assert(lhs.skip(1) == rhs.skip(1));
                } else {
                    if spec_name_at(strtab@, off + k + 1) == q@.skip(k + 1) {
                        assert(lhs =~= rhs);
                    }
                }
            }
        }
        k += 1;
    }
}

/// The length of the NUL-terminated name at offset `off`: scan forward to
/// the first NUL or the end of the table.
pub fn name_end(strtab: &Vec<u8>, off: usize) -> (r: usize)
    requires
        off <= strtab@.len(),
    ensures
        off <= r <= strtab@.len(),
        spec_name_at(strtab@, off as int) =~= strtab@.subrange(off as int, r as int),
        r < strtab@.len() ==> strtab@[r as int] == 0,
{
    let n = strtab.len();
    let mut j: usize = off;
    while j < n && strtab[j] != 0
        invariant
            off <= j <= n,
            n == strtab@.len(),
            spec_name_at(strtab@, off as int) =~= strtab@.subrange(off as int, j as int)
                + spec_name_at(strtab@, j as int),
        decreases n - j,
    {
        proof {
            assert(spec_name_at(strtab@, j as int) =~= seq![strtab@[j as int]] + spec_name_at(
                strtab@,
                j + 1,
            ));
            assert(strtab@.subrange(off as int, j + 1) =~= strtab@.subrange(off as int, j as int)
                + seq![strtab@[j as int]]);
        }
        j += 1;
    }
    proof {
        assert(spec_name_at(strtab@, j as int) =~= Seq::<u8>::empty());
        assert(spec_name_at(strtab@, off as int) =~= strtab@.subrange(off as int, j as int));
    }
    j
}

/// A symbol query: a name and an optional version, both plain bytes.
pub struct SymbolInfo<'a> {
    pub name: &'a [u8],
    pub version: Option<&'a [u8]>,
}

impl<'a> SymbolInfo<'a> {
    pub fn new(name: &'a [u8]) -> (r: SymbolInfo<'a>)
        ensures
            r.name@ == name@,
            r.version is None,
    {
        SymbolInfo { name, version: None }
    }

    pub fn new_with_version(name: &'a [u8], version: &'a [u8]) -> (r: SymbolInfo<'a>)
        ensures
            r.name@ == name@,
            r.version matches Some(v) && v@ == version@,
    {
        SymbolInfo { name, version: Some(version) }
    }
}

/// The symbol index: the decoded dynamic symbol table, string table and GNU
/// hash table, and, when the object is versioned, the version-definition
/// name of each symbol (empty when the symbol is unversioned).
pub struct SymbolData {
    pub symbols: Vec<ElfSymbol>,
    pub strtab: Vec<u8>,
    /// The index of the first symbol covered by the hash chains.
    pub symndx: usize,
    /// One entry per bucket: the index of the first symbol of the chain.
    pub buckets: Vec<u32>,
    /// One entry per symbol from `symndx` on: the symbol's hash, with the
    /// low bit replaced by an end-of-chain flag.
    pub chains: Vec<u32>,
    /// The version-definition name of each symbol, when version tables are
    /// available.
    pub versions: Option<Vec<Vec<u8>>>,
}

impl SymbolData {
    pub fn new(
        symbols: Vec<ElfSymbol>,
        strtab: Vec<u8>,
        symndx: usize,
        buckets: Vec<u32>,
        chains: Vec<u32>,
        versions: Option<Vec<Vec<u8>>>,
    ) -> (r: SymbolData)
        ensures
            r == (SymbolData { symbols, strtab, symndx, buckets, chains, versions }),
    {
        SymbolData { symbols, strtab, symndx, buckets, chains, versions }
    }

    /// The name of symbol `i`.
    pub open spec fn spec_sym_name(self, i: int) -> Seq<u8> {
        spec_name_at(self.strtab@, self.symbols@[i].st_name as int)
    }

    /// Whether symbol `i` satisfies the version constraint of a query: no
    /// constraint accepts any symbol, and so does an index without version
    /// tables.
    pub open spec fn spec_version_ok(self, i: int, version: Option<Seq<u8>>) -> bool {
        match version {
            None => true,
            Some(v) => match self.versions {
                None => true,
                Some(vs) => 0 <= i < vs@.len() && vs@[i]@ == v,
            },
        }
    }

    /// Whether the chain entry of symbol `i` half-matches hash `h` and the
    /// symbol's name and version match the query.
    pub open spec fn spec_chain_hit(
        self,
        h: u32,
        name: Seq<u8>,
        version: Option<Seq<u8>>,
        i: int,
    ) -> bool {
        &&& (self.chains@[i - self.symndx] >> 1) == (h >> 1)
        &&& self.spec_sym_name(i) == name
        &&& self.spec_version_ok(i, version)
    }

    /// The result of walking the hash chain from symbol index `idx`: the
    /// first hit, or nothing at the end of the chain or off the table.
    pub open spec fn spec_chain_lookup(
        self,
        h: u32,
        name: Seq<u8>,
        version: Option<Seq<u8>>,
        idx: int,
    ) -> Option<ElfSymbol>
        decreases self.symbols@.len() - idx,
    {
        if idx < self.symndx || idx >= self.symbols@.len() || idx - self.symndx
            >= self.chains@.len() {
            None
        } else if self.spec_chain_hit(h, name, version, idx) {
            Some(self.symbols@[idx])
        } else if self.chains@[idx - self.symndx] & 1 == 1 {
            None
        } else {
            self.spec_chain_lookup(h, name, version, idx + 1)
        }
    }

    /// The result of a lookup: hash the name, pick the bucket, walk its
    /// chain.
    pub open spec fn spec_get_sym(self, name: Seq<u8>, version: Option<Seq<u8>>) -> Option<
        ElfSymbol,
    > {
        if self.buckets@.len() == 0 {
            None
        } else {
            let h = spec_gnu_hash(name);
            let b = (h as int) % (self.buckets@.len() as int);
            if self.buckets@[b] == 0 {
                None
            } else {
                self.spec_chain_lookup(h, name, version, self.buckets@[b] as int)
            }
        }
    }

    /// Look a query up in the index: GNU hash bucket lookup, chain walk,
    /// name compare against the string table, and, when the caller supplied
    /// a version and version tables are available, a version-name compare.
    pub fn get_sym(&self, info: &SymbolInfo) -> (r: Option<ElfSymbol>)
        ensures
            r == self.spec_get_sym(
                info.name@,
                match info.version {
                    Some(v) => Some(v@),
                    None => None,
                },
            ),
    {
        let ghost gversion: Option<Seq<u8>> = match info.version {
            Some(v) => Some(v@),
            None => None,
        };
        if self.buckets.len() == 0 {
            return None;
        }
        let h = gnu_hash(info.name);
        let b = (h as usize) % self.buckets.len();
        let start = self.buckets[b];
        if start == 0 {
            return None;
        }
        let mut idx: usize = start as usize;
        loop
            invariant
                self.spec_get_sym(info.name@, gversion) == self.spec_chain_lookup(
                    h,
                    info.name@,
                    gversion,
                    idx as int,
                ),
                h == spec_gnu_hash(info.name@),
                gversion == (match info.version {
                    Some(v) => Some(v@),
                    None => None,
                }),
            decreases self.symbols@.len() - idx,
        {
            if idx < self.symndx || idx >= self.symbols.len() {
                return None;
            }
            let ci = idx - self.symndx;
            if ci >= self.chains.len() {
                return None;
            }
            let ch = self.chains[ci];
            let mut hit = (ch >> 1) == (h >> 1);
            if hit {
                let sym = self.symbols[idx];
                hit = name_matches(&self.strtab, sym.st_name as usize, info.name);
            }
            if hit {
                match info.version {
                    Some(v) => match &self.versions {
                        Some(vs) => {
                            if idx < vs.len() {
                                let vref: &Vec<u8> = &vs[idx];
                                hit = bytes_eq(vref.as_slice(), v);
                            } else {
                                hit = false;
                            }
                        },
                        None => {},
                    },
                    None => {},
                }
            }
            if hit {
                proof {
                    assert(self.spec_chain_hit(h, info.name@, gversion, idx as int));
                }
                return Some(self.symbols[idx]);
            }
            proof {
                assert(!self.spec_chain_hit(h, info.name@, gversion, idx as int));
            }
            if ch & 1 == 1 {
                return None;
            }
            idx += 1;
        }
    }

    /// The relocation-time variant: fetch the symbol a relocation entry
    /// refers to, with its name offset, without repeating hash work.
    pub fn rel_symbol(&self, idx: usize) -> (r: (ElfSymbol, usize))
        requires
            idx < self.symbols@.len(),
        ensures
            r.0 == self.symbols@[idx as int],
            r.1 == self.symbols@[idx as int].st_name as usize,
    {
        let sym = self.symbols[idx];
        (sym, sym.st_name as usize)
    }
}

/// Walking a chain whose entries up to `i` neither match nor end reaches
/// the hit at `i`.
proof fn lemma_chain_walk(d: SymbolData, h: u32, name: Seq<u8>, idx: int, i: int)
    requires
        d.symndx <= idx <= i,
        i < d.symbols@.len(),
        i - d.symndx < d.chains@.len(),
        d.spec_chain_hit(h, name, None, i),
        forall|j: int| idx <= j < i ==> (#[trigger] d.chains@[j - d.symndx] & 1) != 1,
        forall|j: int| idx <= j < i ==> !(#[trigger] d.spec_chain_hit(h, name, None, j)),
    ensures
        d.spec_chain_lookup(h, name, None, idx) == Some(d.symbols@[i]),
    decreases i - idx,
{
    if idx < i {
        lemma_chain_walk(d, h, name, idx + 1, i);
    }
}

impl SymbolData {
    /// A consistent GNU hash table: the chains cover the symbols from
    /// `symndx` on, and every defined symbol with a non-empty name hangs
    /// off the bucket its hash picks, with its chain entry half-carrying
    /// its hash and no earlier entry of its chain ending the chain.
    pub open spec fn hash_consistent(self) -> bool {
        &&& self.buckets@.len() > 0
        &&& self.symndx <= self.symbols@.len()
        &&& self.symndx + self.chains@.len() == self.symbols@.len()
        &&& (forall|i: int|
            #![trigger self.symbols@[i]]
            self.symndx <= i < self.symbols@.len() && self.symbols@[i].st_shndx
                != crate::abi::SHN_UNDEF && self.spec_sym_name(i).len() > 0 ==> {
                let h = spec_gnu_hash(self.spec_sym_name(i));
                let b = (h as int) % (self.buckets@.len() as int);
                let start = self.buckets@[b] as int;
                &&& self.buckets@[b] != 0
                &&& self.symndx <= start <= i
                &&& (self.chains@[i - self.symndx] >> 1) == (h >> 1)
                &&& (forall|j: int|
                    start <= j < i ==> (#[trigger] self.chains@[j - self.symndx] & 1) != 1)
            })
    }
}

/// GNU hash lookup is total over defined symbols: in a consistent hash
/// table, a symbol that is defined (st_shndx is not SHN_UNDEF), covered by
/// the chains, has a non-empty name, and is the first entry of its chain
/// to match that name, is returned by an unversioned lookup of the name.
/// The first-match hypothesis cannot be dropped: when two chain entries
/// carry the same name, the earlier one wins.
pub proof fn lemma_gnu_hash_lookup_total(d: SymbolData, i: int)
    requires
        d.hash_consistent(),
        d.symndx <= i < d.symbols@.len(),
        d.symbols@[i].st_shndx != crate::abi::SHN_UNDEF,
        d.spec_sym_name(i).len() > 0,
        ({
            let h = spec_gnu_hash(d.spec_sym_name(i));
            let b = (h as int) % (d.buckets@.len() as int);
            let start = d.buckets@[b] as int;
            forall|j: int|
                start <= j < i ==> !(#[trigger] d.spec_chain_hit(h, d.spec_sym_name(i), None, j))
        }),
    ensures
        d.spec_get_sym(d.spec_sym_name(i), None) == Some(d.symbols@[i]),
{
    let name = d.spec_sym_name(i);
    let h = spec_gnu_hash(name);
    let b = (h as int) % (d.buckets@.len() as int);
    let start = d.buckets@[b] as int;
    assert(d.symbols@[i] == d.symbols@[i]);
    assert(d.spec_chain_hit(h, name, None, i));
    lemma_chain_walk(d, h, name, start, i);
}

/// Whether two byte slices hold the same bytes.
pub fn bytes_eq(a: &[u8], b: &[u8]) -> (r: bool)
    ensures
        r == (a@ == b@),
{
    if a.len() != b.len() {
        proof {
            assert(a@.len() != b@.len());
        }
        return false;
    }
    let n = a.len();
    let mut i: usize = 0;
    while i < n
        invariant
            0 <= i <= n,
            n == a@.len(),
            n == b@.len(),
            forall|j: int| 0 <= j < i ==> a@[j] == b@[j],
        decreases n - i,
    {
        if a[i] != b[i] {
            return false;
        }
        i += 1;
    }
    proof {
        assert(a@ =~= b@);
    }
    true
}

/// Interpret bytes as UTF-8 text.
///
/// Relies on core::str::from_utf8: it succeeds exactly on valid UTF-8, and
/// the returned str's bytes are exactly the input bytes.
#[verifier::external_body]
pub fn bytes_as_str(b: &[u8]) -> (r: Option<&str>)
    ensures
        r is Some <==> vstd::utf8::valid_utf8(b@),
        r matches Some(s) ==> s.spec_bytes() == b@,
{
    core::str::from_utf8(b).ok()
}

/// UTF-8 encoding distributes over concatenation.
pub proof fn lemma_encode_utf8_concat(a: Seq<char>, b: Seq<char>)
    ensures
        vstd::utf8::encode_utf8(a + b) == vstd::utf8::encode_utf8(a) + vstd::utf8::encode_utf8(b),
    decreases a.len(),
{
    if a.len() == 0 {
        assert(a + b =~= b);
        assert(vstd::utf8::encode_utf8(a) + vstd::utf8::encode_utf8(b) =~= vstd::utf8::encode_utf8(
            b,
        ));
    } else {
        assert((a + b).len() > 0);
        assert((a + b)[0] == a[0]);
        assert((a + b).drop_first() =~= a.drop_first() + b);
        lemma_encode_utf8_concat(a.drop_first(), b);
        assert(vstd::utf8::encode_utf8(a + b) =~= vstd::utf8::encode_utf8(a)
            + vstd::utf8::encode_utf8(b));
    }
}

} // verus!
