//! Decoding of the PT_DYNAMIC table: walk the tag/value entries up to
//! DT_NULL, collect the offsets and sizes the loader consumes, then fold
//! every offset into an absolute address once the base is chosen.
use vstd::prelude::*;
use crate::arch::Dyn;
use crate::abi::{DT_NULL, DT_NEEDED, DT_GNU_HASH, DT_SYMTAB, DT_STRTAB, DT_STRSZ, DT_PLTRELSZ,
    DT_JMPREL, DT_RELA, DT_RELASZ, DT_INIT, DT_FINI, DT_INIT_ARRAY, DT_INIT_ARRAYSZ,
    DT_FINI_ARRAY, DT_FINI_ARRAYSZ, DT_VERSYM, DT_VERNEED, DT_VERNEEDNUM, DT_VERDEF,
    DT_VERDEFNUM, RELA_SIZE, WORD_SIZE};
use crate::{Error, parse_dynamic_error};

verus! {

/// The prefix of `s` before its first DT_NULL entry; entries past DT_NULL
/// are never read.
pub open spec fn spec_upto_null(s: Seq<Dyn>) -> Seq<Dyn>
    decreases s.len(),
{
    if s.len() == 0 {
        s
    } else if s[0].d_tag == DT_NULL {
        Seq::empty()
    } else {
        seq![s[0]] + spec_upto_null(s.drop_first())
    }
}

/// The value of the last entry of `p` carrying `tag`, if any; a later entry
/// overwrites an earlier one, as the walk does.
pub open spec fn spec_last_tag(p: Seq<Dyn>, tag: i64) -> Option<u64>
    decreases p.len(),
{
    if p.len() == 0 {
        None
    } else if p.last().d_tag == tag {
        Some(p.last().d_un)
    } else {
        spec_last_tag(p.drop_last(), tag)
    }
}

/// The values of the DT_NEEDED entries of `p`, in order of appearance.
pub open spec fn spec_needed(p: Seq<Dyn>) -> Seq<u64>
    decreases p.len(),
{
    if p.len() == 0 {
        Seq::empty()
    } else if p.last().d_tag == DT_NEEDED {
        spec_needed(p.drop_last()).push(p.last().d_un)
    } else {
        spec_needed(p.drop_last())
    }
}

/// The raw record of a decoded dynamic section: offsets relative to the
/// image base, and byte sizes, exactly as the table states them.
pub struct ElfRawDynamic {
    pub hash_off: u64,
    pub symtab_off: u64,
    pub strtab_off: u64,
    pub strtab_size: u64,
    pub pltrel_off: Option<u64>,
    pub pltrel_size: Option<u64>,
    pub rela_off: Option<u64>,
    pub rela_size: Option<u64>,
    pub init_off: Option<u64>,
    pub fini_off: Option<u64>,
    pub init_array_off: Option<u64>,
    pub init_array_size: Option<u64>,
    pub fini_array_off: Option<u64>,
    pub fini_array_size: Option<u64>,
    pub version_ids_off: Option<u64>,
    pub verneed_off: Option<u64>,
    pub verneed_num: Option<u64>,
    pub verdef_off: Option<u64>,
    pub verdef_num: Option<u64>,
    pub needed_libs: Vec<u64>,
}

impl ElfRawDynamic {
    /// Whether `self` records exactly what the walk of `p` collects.
    pub open spec fn decodes(self, p: Seq<Dyn>) -> bool {
        &&& Some(self.hash_off) == spec_last_tag(p, DT_GNU_HASH)
        &&& Some(self.symtab_off) == spec_last_tag(p, DT_SYMTAB)
        &&& Some(self.strtab_off) == spec_last_tag(p, DT_STRTAB)
        &&& Some(self.strtab_size) == spec_last_tag(p, DT_STRSZ)
        &&& self.pltrel_off == spec_last_tag(p, DT_JMPREL)
        &&& self.pltrel_size == spec_last_tag(p, DT_PLTRELSZ)
        &&& self.rela_off == spec_last_tag(p, DT_RELA)
        &&& self.rela_size == spec_last_tag(p, DT_RELASZ)
        &&& self.init_off == spec_last_tag(p, DT_INIT)
        &&& self.fini_off == spec_last_tag(p, DT_FINI)
        &&& self.init_array_off == spec_last_tag(p, DT_INIT_ARRAY)
        &&& self.init_array_size == spec_last_tag(p, DT_INIT_ARRAYSZ)
        &&& self.fini_array_off == spec_last_tag(p, DT_FINI_ARRAY)
        &&& self.fini_array_size == spec_last_tag(p, DT_FINI_ARRAYSZ)
        &&& self.version_ids_off == spec_last_tag(p, DT_VERSYM)
        &&& self.verneed_off == spec_last_tag(p, DT_VERNEED)
        &&& self.verneed_num == spec_last_tag(p, DT_VERNEEDNUM)
        &&& self.verdef_off == spec_last_tag(p, DT_VERDEF)
        &&& self.verdef_num == spec_last_tag(p, DT_VERDEFNUM)
        &&& self.needed_libs@ == spec_needed(p)
    }

    /// Decode the dynamic table. The walk stops at the first DT_NULL entry,
    /// or at the end of the given slice. Each of the four required tags that
    /// is missing is reported, the first in this order: GNU_HASH, SYMTAB,
    /// STRTAB, STRSZ.
    pub fn new(dyns: &Vec<Dyn>) -> (r: Result<ElfRawDynamic, Error>)
        ensures
            ({
                let p = spec_upto_null(dyns@);
                match r {
                    Ok(raw) => raw.decodes(p),
                    Err(e) => e matches Error::ParseDynamicError { msg } && msg@ == (
                    if spec_last_tag(p, DT_GNU_HASH) is None {
                        "dynamic section does not have DT_GNU_HASH"@
                    } else if spec_last_tag(p, DT_SYMTAB) is None {
                        "dynamic section does not have DT_SYMTAB"@
                    } else if spec_last_tag(p, DT_STRTAB) is None {
                        "dynamic section does not have DT_STRTAB"@
                    } else {
                        "dynamic section does not have DT_STRSZ"@
                    }) && (spec_last_tag(p, DT_GNU_HASH) is None || spec_last_tag(
                        p,
                        DT_SYMTAB,
                    ) is None || spec_last_tag(p, DT_STRTAB) is None || spec_last_tag(
                        p,
                        DT_STRSZ,
                    ) is None),
                }
            }),
            ({
                let p = spec_upto_null(dyns@);
                (spec_last_tag(p, DT_GNU_HASH) is Some && spec_last_tag(p, DT_SYMTAB) is Some
                    && spec_last_tag(p, DT_STRTAB) is Some && spec_last_tag(p, DT_STRSZ) is Some)
                    ==> r is Ok
            }),
    {
        let ghost p = spec_upto_null(dyns@);
        let mut hash_off: Option<u64> = None;
        let mut symtab_off: Option<u64> = None;
        let mut strtab_off: Option<u64> = None;
        let mut strtab_size: Option<u64> = None;
        let mut pltrel_off: Option<u64> = None;
        let mut pltrel_size: Option<u64> = None;
        let mut rela_off: Option<u64> = None;
        let mut rela_size: Option<u64> = None;
        let mut init_off: Option<u64> = None;
        let mut fini_off: Option<u64> = None;
        let mut init_array_off: Option<u64> = None;
        let mut init_array_size: Option<u64> = None;
        let mut fini_array_off: Option<u64> = None;
        let mut fini_array_size: Option<u64> = None;
        let mut version_ids_off: Option<u64> = None;
        let mut verneed_off: Option<u64> = None;
        let mut verneed_num: Option<u64> = None;
        let mut verdef_off: Option<u64> = None;
        let mut verdef_num: Option<u64> = None;
        let mut needed_libs: Vec<u64> = Vec::new();
        let mut i: usize = 0;
        let mut done = false;
        while !done && i < dyns.len()
            invariant
                0 <= i <= dyns@.len(),
                done ==> spec_upto_null(dyns@) == spec_upto_null(dyns@.take(i as int)),
                !done ==> spec_upto_null(dyns@.take(i as int)) == dyns@.take(i as int),
                ({
                    let q = spec_upto_null(dyns@.take(i as int));
                    &&& hash_off == spec_last_tag(q, DT_GNU_HASH)
                    &&& symtab_off == spec_last_tag(q, DT_SYMTAB)
                    &&& strtab_off == spec_last_tag(q, DT_STRTAB)
                    &&& strtab_size == spec_last_tag(q, DT_STRSZ)
                    &&& pltrel_off == spec_last_tag(q, DT_JMPREL)
                    &&& pltrel_size == spec_last_tag(q, DT_PLTRELSZ)
                    &&& rela_off == spec_last_tag(q, DT_RELA)
                    &&& rela_size == spec_last_tag(q, DT_RELASZ)
                    &&& init_off == spec_last_tag(q, DT_INIT)
                    &&& fini_off == spec_last_tag(q, DT_FINI)
                    &&& init_array_off == spec_last_tag(q, DT_INIT_ARRAY)
                    &&& init_array_size == spec_last_tag(q, DT_INIT_ARRAYSZ)
                    &&& fini_array_off == spec_last_tag(q, DT_FINI_ARRAY)
                    &&& fini_array_size == spec_last_tag(q, DT_FINI_ARRAYSZ)
                    &&& version_ids_off == spec_last_tag(q, DT_VERSYM)
                    &&& verneed_off == spec_last_tag(q, DT_VERNEED)
                    &&& verneed_num == spec_last_tag(q, DT_VERNEEDNUM)
                    &&& verdef_off == spec_last_tag(q, DT_VERDEF)
                    &&& verdef_num == spec_last_tag(q, DT_VERDEFNUM)
                    &&& needed_libs@ == spec_needed(q)
                }),
            decreases dyns@.len() - i + (if done { 0int } else { 1int }),
        {
            let d = dyns[i];
            proof {
                lemma_upto_null_step(dyns@, i as int);
            }
            if d.d_tag == DT_NULL {
                done = true;
            } else {
                proof {
                    let q = spec_upto_null(dyns@.take(i as int));
                    let q2 = spec_upto_null(dyns@.take(i + 1));
                    assert(q2 =~= q.push(d));
                    assert(q2.drop_last() =~= q);
                    lemma_last_tag_push(q, d);
                }
                if d.d_tag == DT_NEEDED {
                    needed_libs.push(d.d_un);
                } else if d.d_tag == DT_GNU_HASH {
                    hash_off = Some(d.d_un);
                } else if d.d_tag == DT_SYMTAB {
                    symtab_off = Some(d.d_un);
                } else if d.d_tag == DT_STRTAB {
                    strtab_off = Some(d.d_un);
                } else if d.d_tag == DT_STRSZ {
                    strtab_size = Some(d.d_un);
                } else if d.d_tag == DT_PLTRELSZ {
                    pltrel_size = Some(d.d_un);
                } else if d.d_tag == DT_JMPREL {
                    pltrel_off = Some(d.d_un);
                } else if d.d_tag == DT_RELA {
                    rela_off = Some(d.d_un);
                } else if d.d_tag == DT_RELASZ {
                    rela_size = Some(d.d_un);
                } else if d.d_tag == DT_INIT {
                    init_off = Some(d.d_un);
                } else if d.d_tag == DT_FINI {
                    fini_off = Some(d.d_un);
                } else if d.d_tag == DT_INIT_ARRAY {
                    init_array_off = Some(d.d_un);
                } else if d.d_tag == DT_INIT_ARRAYSZ {
                    init_array_size = Some(d.d_un);
                } else if d.d_tag == DT_FINI_ARRAY {
                    fini_array_off = Some(d.d_un);
                } else if d.d_tag == DT_FINI_ARRAYSZ {
                    fini_array_size = Some(d.d_un);
                } else if d.d_tag == DT_VERSYM {
                    version_ids_off = Some(d.d_un);
                } else if d.d_tag == DT_VERNEED {
                    verneed_off = Some(d.d_un);
                } else if d.d_tag == DT_VERNEEDNUM {
                    verneed_num = Some(d.d_un);
                } else if d.d_tag == DT_VERDEF {
                    verdef_off = Some(d.d_un);
                } else if d.d_tag == DT_VERDEFNUM {
                    verdef_num = Some(d.d_un);
                }
                i += 1;
            }
        }
        proof {
            if !done {
                assert(dyns@.take(dyns@.len() as int) =~= dyns@);
            }
        }
        let hash_off = match hash_off {
            Some(v) => v,
            None => {
                return Err(parse_dynamic_error("dynamic section does not have DT_GNU_HASH"));
            },
        };
        let symtab_off = match symtab_off {
            Some(v) => v,
            None => {
                return Err(parse_dynamic_error("dynamic section does not have DT_SYMTAB"));
            },
        };
        let strtab_off = match strtab_off {
            Some(v) => v,
            None => {
                return Err(parse_dynamic_error("dynamic section does not have DT_STRTAB"));
            },
        };
        let strtab_size = match strtab_size {
            Some(v) => v,
            None => {
                return Err(parse_dynamic_error("dynamic section does not have DT_STRSZ"));
            },
        };
        Ok(ElfRawDynamic {
            hash_off,
            symtab_off,
            strtab_off,
            strtab_size,
            pltrel_off,
            pltrel_size,
            rela_off,
            rela_size,
            init_off,
            fini_off,
            init_array_off,
            init_array_size,
            fini_array_off,
            fini_array_size,
            version_ids_off,
            verneed_off,
            verneed_num,
            verdef_off,
            verdef_num,
            needed_libs,
        })
    }

    /// Whether folding `self` at `base` stays within the address space: every
    /// recorded offset plus `base` fits, and every paired size is present.
    pub open spec fn foldable(self, base: u64) -> bool {
        &&& base + self.hash_off <= u64::MAX
        &&& base + self.symtab_off <= u64::MAX
        &&& base + self.strtab_off <= u64::MAX
        &&& self.pltrel_off is Some ==> self.pltrel_size is Some && base
            + self.pltrel_off.unwrap() <= u64::MAX
        &&& self.rela_off is Some ==> self.rela_size is Some && base + self.rela_off.unwrap()
            <= u64::MAX
        &&& self.init_off is Some ==> base + self.init_off.unwrap() <= u64::MAX
        &&& self.fini_off is Some ==> base + self.fini_off.unwrap() <= u64::MAX
        &&& self.init_array_off is Some ==> self.init_array_size is Some && base
            + self.init_array_off.unwrap() <= u64::MAX
        &&& self.fini_array_off is Some ==> self.fini_array_size is Some && base
            + self.fini_array_off.unwrap() <= u64::MAX
        &&& self.version_ids_off is Some ==> base + self.version_ids_off.unwrap() <= u64::MAX
        &&& self.verneed_off is Some ==> self.verneed_num is Some && base
            + self.verneed_off.unwrap() <= u64::MAX
        &&& self.verdef_off is Some ==> self.verdef_num is Some && base + self.verdef_off.unwrap()
            <= u64::MAX
    }

    /// Fold every recorded offset into an absolute address: each resolved
    /// address is exactly `base` plus the offset, and each relocation-array
    /// byte size becomes an entry count.
    pub fn finish(self, base: u64) -> (r: ElfDynamic)
        requires
            self.foldable(base),
        ensures
            r.hashtab == base + self.hash_off,
            r.symtab == base + self.symtab_off,
            r.strtab == base + self.strtab_off,
            r.strtab_size == self.strtab_size,
            r.pltrel matches Some(p) <==> self.pltrel_off is Some,
            r.pltrel matches Some(p) ==> p.0 == base + self.pltrel_off.unwrap() && p.1
                == self.pltrel_size.unwrap() / (RELA_SIZE as u64),
            r.dynrel matches Some(p) <==> self.rela_off is Some,
            r.dynrel matches Some(p) ==> p.0 == base + self.rela_off.unwrap() && p.1
                == self.rela_size.unwrap() / (RELA_SIZE as u64),
            r.init_fn matches Some(a) <==> self.init_off is Some,
            r.init_fn matches Some(a) ==> a == base + self.init_off.unwrap(),
            r.fini_fn matches Some(a) <==> self.fini_off is Some,
            r.fini_fn matches Some(a) ==> a == base + self.fini_off.unwrap(),
            r.init_array matches Some(p) <==> self.init_array_off is Some,
            r.init_array matches Some(p) ==> p.0 == base + self.init_array_off.unwrap() && p.1
                == self.init_array_size.unwrap() / (WORD_SIZE as u64),
            r.fini_array matches Some(p) <==> self.fini_array_off is Some,
            r.fini_array matches Some(p) ==> p.0 == base + self.fini_array_off.unwrap() && p.1
                == self.fini_array_size.unwrap() / (WORD_SIZE as u64),
            r.version_idx matches Some(a) <==> self.version_ids_off is Some,
            r.version_idx matches Some(a) ==> a == base + self.version_ids_off.unwrap(),
            r.verneed matches Some(p) <==> self.verneed_off is Some,
            r.verneed matches Some(p) ==> p.0 == base + self.verneed_off.unwrap() && p.1
                == self.verneed_num.unwrap(),
            r.verdef matches Some(p) <==> self.verdef_off is Some,
            r.verdef matches Some(p) ==> p.0 == base + self.verdef_off.unwrap() && p.1
                == self.verdef_num.unwrap(),
            r.needed_libs == self.needed_libs,
    {
        let pltrel = match self.pltrel_off {
            Some(off) => {
                let size = match self.pltrel_size {
                    Some(s) => s,
                    None => 0,
                };
                Some((base + off, size / (RELA_SIZE as u64)))
            },
            None => None,
        };
        let dynrel = match self.rela_off {
            Some(off) => {
                let size = match self.rela_size {
                    Some(s) => s,
                    None => 0,
                };
                Some((base + off, size / (RELA_SIZE as u64)))
            },
            None => None,
        };
        let init_array = match self.init_array_off {
            Some(off) => {
                let size = match self.init_array_size {
                    Some(s) => s,
                    None => 0,
                };
                Some((base + off, size / (WORD_SIZE as u64)))
            },
            None => None,
        };
        let fini_array = match self.fini_array_off {
            Some(off) => {
                let size = match self.fini_array_size {
                    Some(s) => s,
                    None => 0,
                };
                Some((base + off, size / (WORD_SIZE as u64)))
            },
            None => None,
        };
        let verneed = match self.verneed_off {
            Some(off) => {
                let num = match self.verneed_num {
                    Some(n) => n,
                    None => 0,
                };
                Some((base + off, num))
            },
            None => None,
        };
        let verdef = match self.verdef_off {
            Some(off) => {
                let num = match self.verdef_num {
                    Some(n) => n,
                    None => 0,
                };
                Some((base + off, num))
            },
            None => None,
        };
        let init_fn = match self.init_off {
            Some(off) => Some(base + off),
            None => None,
        };
        let fini_fn = match self.fini_off {
            Some(off) => Some(base + off),
            None => None,
        };
        let version_idx = match self.version_ids_off {
            Some(off) => Some(base + off),
            None => None,
        };
        ElfDynamic {
            hashtab: base + self.hash_off,
            symtab: base + self.symtab_off,
            strtab: base + self.strtab_off,
            strtab_size: self.strtab_size,
            init_fn,
            init_array,
            fini_fn,
            fini_array,
            pltrel,
            dynrel,
            needed_libs: self.needed_libs,
            version_idx,
            verneed,
            verdef,
        }
    }
}

/// The resolved dynamic record: every offset folded into an absolute
/// address, and relocation-array sizes converted to entry counts. Function
/// addresses stand as plain words; running them is the caller's work.
pub struct ElfDynamic {
    pub hashtab: u64,
    pub symtab: u64,
    pub strtab: u64,
    pub strtab_size: u64,
    pub init_fn: Option<u64>,
    /// Address and element count of the init-array.
    pub init_array: Option<(u64, u64)>,
    pub fini_fn: Option<u64>,
    /// Address and element count of the fini-array.
    pub fini_array: Option<(u64, u64)>,
    /// Address and entry count of the PLT relocation array.
    pub pltrel: Option<(u64, u64)>,
    /// Address and entry count of the dynamic relocation array.
    pub dynrel: Option<(u64, u64)>,
    pub needed_libs: Vec<u64>,
    pub version_idx: Option<u64>,
    pub verneed: Option<(u64, u64)>,
    pub verdef: Option<(u64, u64)>,
}

pub proof fn lemma_upto_null_step(s: Seq<Dyn>, i: int)
    requires
        0 <= i < s.len(),
        spec_upto_null(s.take(i)) == s.take(i),
    ensures
        s[i].d_tag == DT_NULL ==> spec_upto_null(s) == s.take(i),
        s[i].d_tag != DT_NULL ==> spec_upto_null(s.take(i + 1)) == s.take(i + 1),
        s[i].d_tag != DT_NULL && i + 1 == s.len() ==> spec_upto_null(s) == s.take(i + 1),
    decreases i,
{
    if i == 0 {
        if s[0].d_tag == DT_NULL {
            assert(spec_upto_null(s) =~= s.take(0));
        } else {
            assert(s.take(1)[0] == s[0]);
            assert(s.take(1).drop_first() =~= Seq::<Dyn>::empty());
            assert(spec_upto_null(s.take(1)) =~= seq![s.take(1)[0]] + spec_upto_null(
                s.take(1).drop_first(),
            ));
            assert(spec_upto_null(s.take(1)) =~= s.take(1));
            if s.len() == 1 {
                assert(spec_upto_null(s) =~= seq![s[0]] + spec_upto_null(s.drop_first()));
                assert(s.drop_first() =~= Seq::empty());
                assert(spec_upto_null(s) =~= s.take(1));
            }
        }
    } else {
        assert(s.take(i)[0] == s[0]);
        assert(s[0].d_tag != DT_NULL) by {
            if s[0].d_tag == DT_NULL {
                assert(spec_upto_null(s.take(i)) =~= Seq::<Dyn>::empty());
            }
        }
        let t = s.drop_first();
        assert(s.take(i).drop_first() =~= t.take(i - 1));
        assert(spec_upto_null(s.take(i)) =~= seq![s[0]] + spec_upto_null(t.take(i - 1)));
        assert(spec_upto_null(t.take(i - 1)) =~= t.take(i - 1));
        lemma_upto_null_step(t, i - 1);
        assert(t[i - 1] == s[i]);
        if s[i].d_tag == DT_NULL {
            assert(spec_upto_null(s) =~= seq![s[0]] + spec_upto_null(t));
            assert(spec_upto_null(t) =~= t.take(i - 1));
            assert(seq![s[0]] + t.take(i - 1) =~= s.take(i));
        } else {
            assert(s.take(i + 1).drop_first() =~= t.take(i));
            assert(s.take(i + 1)[0] == s[0]);
            assert(spec_upto_null(s.take(i + 1)) =~= seq![s[0]] + spec_upto_null(t.take(i)));
            assert(spec_upto_null(t.take(i)) =~= t.take(i));
            assert(seq![s[0]] + t.take(i) =~= s.take(i + 1));
            if i + 1 == s.len() {
                assert(t.take(i) =~= t);
                assert(spec_upto_null(s) =~= seq![s[0]] + spec_upto_null(t));
            }
        }
    }
}

pub proof fn lemma_last_tag_push(q: Seq<Dyn>, d: Dyn)
    ensures
        forall|tag: i64|
            spec_last_tag(#[trigger] q.push(d), tag) == if d.d_tag == tag {
                Some(d.d_un)
            } else {
                spec_last_tag(q, tag)
            },
        spec_needed(q.push(d)) == if d.d_tag == DT_NEEDED {
            spec_needed(q).push(d.d_un)
        } else {
            spec_needed(q)
        },
{
    assert forall|tag: i64|
        spec_last_tag(#[trigger] q.push(d), tag) == if d.d_tag == tag {
            Some(d.d_un)
        } else {
            spec_last_tag(q, tag)
        } by {
        assert(q.push(d).drop_last() =~= q);
        assert(q.push(d).last() == d);
    }
    assert(q.push(d).drop_last() =~= q);
}

} // verus!
