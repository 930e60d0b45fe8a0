//! The decisions of the bootstrap program, written over plain values: find
//! the self-relocation array in the dynamic table, compute the load base
//! from the dynamic table's address, apply the RELATIVE self-relocations,
//! rewrite the auxiliary vector for the loaded target, and drop the
//! loader's own argument. The stack walking, the syscalls and the final
//! jump stay outside; they hand these functions plain values and carry the
//! results back.
use vstd::prelude::*;
use vstd::string::StringExecFns;
use crate::arch::{Arch, Phdr, Dyn, ElfRela};
use crate::abi::{DT_RELA, DT_RELACOUNT, PT_DYNAMIC, AT_NULL, AT_PHDR, AT_PHENT, AT_PHNUM,
    AT_BASE, AT_ENTRY, AT_EXECFN};
use crate::dynamic::{spec_upto_null, spec_last_tag, lemma_upto_null_step, lemma_last_tag_push};
use crate::segment::{ElfSegments, with_word};
use crate::{Error, relocate_error};

verus! {

/// One auxiliary-vector entry: a key and a value.
#[derive(Clone, Copy, Debug, PartialEq, Eq, Structural)]
pub struct Aux {
    pub tag: u64,
    pub val: u64,
}

/// Walk the dynamic table for the self-relocation array: the values of the
/// last DT_RELA and DT_RELACOUNT entries before DT_NULL, when both stand.
pub fn find_rela_info(dyns: &Vec<Dyn>) -> (r: Option<(u64, u64)>)
    ensures
        ({
            let p = spec_upto_null(dyns@);
            match r {
                Some(pair) => Some(pair.0) == spec_last_tag(p, DT_RELA) && Some(pair.1)
                    == spec_last_tag(p, DT_RELACOUNT),
                None => spec_last_tag(p, DT_RELA) is None || spec_last_tag(
                    p,
                    DT_RELACOUNT,
                ) is None,
            }
        }),
{
    let mut rela: Option<u64> = None;
    let mut rela_count: Option<u64> = None;
    let mut i: usize = 0;
    let mut done = false;
    while !done && i < dyns.len()
        invariant
            0 <= i <= dyns@.len(),
            done ==> spec_upto_null(dyns@) == spec_upto_null(dyns@.take(i as int)),
            !done ==> spec_upto_null(dyns@.take(i as int)) == dyns@.take(i as int),
            ({
                let q = spec_upto_null(dyns@.take(i as int));
                rela == spec_last_tag(q, DT_RELA) && rela_count == spec_last_tag(q, DT_RELACOUNT)
            }),
        decreases dyns@.len() - i + (if done { 0int } else { 1int }),
    {
        let d = dyns[i];
        proof {
            lemma_upto_null_step(dyns@, i as int);
        }
        if d.d_tag == crate::abi::DT_NULL {
            done = true;
        } else {
            proof {
                let q = spec_upto_null(dyns@.take(i as int));
                let q2 = spec_upto_null(dyns@.take(i + 1));
                assert(q2 =~= q.push(d));
                lemma_last_tag_push(q, d);
            }
            if d.d_tag == DT_RELA {
                rela = Some(d.d_un);
            } else if d.d_tag == DT_RELACOUNT {
                rela_count = Some(d.d_un);
            }
            i += 1;
        }
    }
    proof {
        if !done {
            assert(dyns@.take(dyns@.len() as int) =~= dyns@);
        }
    }
    match (rela, rela_count) {
        (Some(a), Some(c)) => Some((a, c)),
        _ => None,
    }
}

/// Determine the load base of the running image: the address of the
/// dynamic table minus the PT_DYNAMIC header's virtual address, wrapping
/// as the machine does.
pub fn base_from_phdrs(phdrs: &Vec<Phdr>, dynv_addr: u64) -> (r: Option<u64>)
    ensures
        r is Some <==> (exists|i: int|
            0 <= i < phdrs@.len() && #[trigger] phdrs@[i].p_type == PT_DYNAMIC),
        r matches Some(b) ==> (exists|i: int|
            {
                &&& 0 <= i < phdrs@.len()
                &&& #[trigger] phdrs@[i].p_type == PT_DYNAMIC
                &&& b == vstd::wrapping::u64_specs::wrapping_sub(dynv_addr, phdrs@[i].p_vaddr)
                &&& forall|j: int| 0 <= j < i ==> #[trigger] phdrs@[j].p_type != PT_DYNAMIC
            }),
{
    let mut k: usize = 0;
    while k < phdrs.len()
        invariant
            0 <= k <= phdrs@.len(),
            forall|j: int| 0 <= j < k ==> #[trigger] phdrs@[j].p_type != PT_DYNAMIC,
        decreases phdrs@.len() - k,
    {
        let p = phdrs[k];
        if p.p_type == PT_DYNAMIC {
            return Some(dynv_addr.wrapping_sub(p.p_vaddr));
        }
        k += 1;
    }
    None
}

/// The memory after the self-relocations are applied in order: each entry
/// writes base + addend at its offset.
pub open spec fn spec_apply_relative(mem: Seq<u8>, base: u64, relas: Seq<ElfRela>) -> Seq<u8>
    decreases relas.len(),
{
    if relas.len() == 0 {
        mem
    } else {
        let m1 = spec_apply_relative(mem, base, relas.drop_last());
        let e = relas.last();
        with_word(
            m1,
            e.r_offset as int,
            vstd::wrapping::u64_specs::wrapping_add(base, e.r_addend),
        )
    }
}

/// Apply the self-relocations: each of the given entries must be RELATIVE
/// and lie inside the reservation, and then writes base + addend at its
/// offset. An entry of any other kind aborts before anything of it is
/// written, as does one that points outside the reservation.
pub fn apply_self_relocations(segments: &mut ElfSegments, relas: &Vec<ElfRela>, arch: Arch) -> (r:
    Result<(), Error>)
    ensures
        final(segments).base == old(segments).base,
        r is Ok <==> (forall|i: int|
            0 <= i < relas@.len() ==> (#[trigger] relas@[i].spec_r_type()
                == arch.spec_rel_relative() && relas@[i].r_offset + 8 <= old(
                segments,
            ).memory@.len())),
        r is Ok ==> final(segments).memory@ == spec_apply_relative(
            old(segments).memory@,
            old(segments).base,
            relas@,
        ),
        r is Err ==> final(segments).memory@ == old(segments).memory@,
        final(segments).relro_applied == old(segments).relro_applied,
        r matches Err(e) ==> e matches Error::RelocateError { .. },
{
    let base = segments.get_base();
    let memlen = segments.len();
    let n = relas.len();
    // abort before writing anything when an entry is not RELATIVE or lies
    // outside the reservation
    let mut k: usize = 0;
    while k < n
        invariant
            0 <= k <= n,
            n == relas@.len(),
            memlen == segments.memory@.len(),
            segments.memory@ == old(segments).memory@,
            segments.relro_applied == old(segments).relro_applied,
            segments.base == old(segments).base,
            forall|i: int|
                0 <= i < k ==> (#[trigger] relas@[i].spec_r_type() == arch.spec_rel_relative()
                    && relas@[i].r_offset + 8 <= memlen),
        decreases n - k,
    {
        let e = relas[k];
        if e.r_type() != arch.rel_relative() {
            return Err(
                relocate_error(
                    String::from_str("unknown relocation type in the self-relocation array"),
                ),
            );
        }
        if e.r_offset() > memlen as u64 || memlen as u64 - e.r_offset() < 8 {
            return Err(
                relocate_error(String::from_str("self-relocation lies outside the reservation")),
            );
        }
        proof {
            assert(relas@[k as int] == e);
            assert(e.spec_r_type() == arch.spec_rel_relative());
            assert(e.r_offset + 8 <= memlen);
            assert forall|i: int|
                0 <= i < k + 1 implies (#[trigger] relas@[i].spec_r_type()
                == arch.spec_rel_relative() && relas@[i].r_offset + 8 <= memlen) by {
                if i == k {
                    assert(relas@[i] == e);
                }
            }
        }
        k += 1;
    }
    let ghost mem0 = segments.memory@;
    let mut k2: usize = 0;
    proof {
        assert(relas@.take(0) =~= Seq::<ElfRela>::empty());
    }
    while k2 < n
        invariant
            0 <= k2 <= n,
            n == relas@.len(),
            segments.base == base,
            segments.relro_applied == old(segments).relro_applied,
            segments.memory@.len() == memlen,
            mem0 == old(segments).memory@,
            mem0.len() == memlen,
            base == old(segments).base,
            forall|i: int|
                0 <= i < n ==> (#[trigger] relas@[i].spec_r_type() == arch.spec_rel_relative()
                    && relas@[i].r_offset + 8 <= memlen),
            segments.memory@ == spec_apply_relative(mem0, base, relas@.take(k2 as int)),
        decreases n - k2,
    {
        let e = relas[k2];
        proof {
            assert(relas@[k2 as int].spec_r_type() == arch.spec_rel_relative() && relas@[k2
                as int].r_offset + 8 <= memlen);
        }
        segments.write_word(e.r_offset() as usize, base.wrapping_add(e.r_addend()));
        proof {
            assert(relas@.take(k2 + 1).drop_last() =~= relas@.take(k2 as int));
            assert(relas@.take(k2 + 1).last() == relas@[k2 as int]);
            assert(segments.memory@ == spec_apply_relative(mem0, base, relas@.take(k2 + 1)));
        }
        k2 += 1;
    }
    proof {
        assert(relas@.take(n as int) =~= relas@);
    }
    Ok(())
}

/// The index of the first AT_NULL entry of the auxiliary vector, or the
/// vector's length when none stands.
pub open spec fn spec_aux_limit(s: Seq<Aux>) -> int
    decreases s.len(),
{
    if s.len() == 0 {
        0
    } else if s[0].tag == AT_NULL {
        0
    } else {
        1 + spec_aux_limit(s.drop_first())
    }
}

/// The value an auxiliary entry carries after the rewrite: the touched
/// keys reflect the loaded target, AT_BASE becomes 0 because the loader is
/// exiting, and every other entry passes through.
pub open spec fn spec_rewrite_val(
    e: Aux,
    phdr_addr: u64,
    phnum: u64,
    phent: u64,
    entry: u64,
    execfn: u64,
) -> u64 {
    if e.tag == AT_PHDR {
        phdr_addr
    } else if e.tag == AT_PHNUM {
        phnum
    } else if e.tag == AT_PHENT {
        phent
    } else if e.tag == AT_ENTRY {
        entry
    } else if e.tag == AT_EXECFN {
        execfn
    } else if e.tag == AT_BASE {
        0
    } else {
        e.val
    }
}

/// Rewrite the auxiliary vector so it reflects the loaded target: every
/// entry before the first AT_NULL has its value replaced as
/// `spec_rewrite_val` says, no tag changes, and entries from AT_NULL on
/// pass through untouched.
pub fn rewrite_auxv(
    auxv: &mut Vec<Aux>,
    phdr_addr: u64,
    phnum: u64,
    phent: u64,
    entry: u64,
    execfn: u64,
)
    ensures
        final(auxv)@.len() == old(auxv)@.len(),
        forall|i: int|
            0 <= i < spec_aux_limit(old(auxv)@) ==> final(auxv)@[i] == (Aux {
                tag: old(auxv)@[i].tag,
                val: spec_rewrite_val(old(auxv)@[i], phdr_addr, phnum, phent, entry, execfn),
            }),
        forall|i: int|
            spec_aux_limit(old(auxv)@) <= i < old(auxv)@.len() ==> final(auxv)@[i] == old(
                auxv,
            )@[i],
{
    let n = auxv.len();
    let ghost limit = spec_aux_limit(old(auxv)@);
    proof {
        lemma_aux_limit_bounds(old(auxv)@);
    }
    let mut k: usize = 0;
    while k < n
        invariant
            0 <= k <= n,
            n == auxv@.len(),
            n == old(auxv)@.len(),
            limit == spec_aux_limit(old(auxv)@),
            0 <= limit <= n,
            forall|i: int| 0 <= i < limit ==> old(auxv)@[i].tag != AT_NULL,
            limit < n ==> old(auxv)@[limit].tag == AT_NULL,
            k <= limit,
            forall|i: int|
                0 <= i < k ==> auxv@[i] == (Aux {
                    tag: old(auxv)@[i].tag,
                    val: spec_rewrite_val(old(auxv)@[i], phdr_addr, phnum, phent, entry, execfn),
                }),
            forall|i: int| k <= i < n ==> auxv@[i] == old(auxv)@[i],
        decreases n - k,
    {
        let e = auxv[k];
        if e.tag == AT_NULL {
            proof {
                lemma_aux_limit_at(old(auxv)@, k as int);
            }
            return ;
        }
        proof {
            lemma_aux_limit_past(old(auxv)@, k as int);
        }
        let nv = if e.tag == AT_PHDR {
            phdr_addr
        } else if e.tag == AT_PHNUM {
            phnum
        } else if e.tag == AT_PHENT {
            phent
        } else if e.tag == AT_ENTRY {
            entry
        } else if e.tag == AT_EXECFN {
            execfn
        } else if e.tag == AT_BASE {
            0
        } else {
            e.val
        };
        auxv.set(k, Aux { tag: e.tag, val: nv });
        k += 1;
    }
}

/// The limit lies within the vector.
proof fn lemma_aux_limit_bounds(s: Seq<Aux>)
    ensures
        0 <= spec_aux_limit(s) <= s.len(),
        forall|i: int| 0 <= i < spec_aux_limit(s) ==> s[i].tag != AT_NULL,
        spec_aux_limit(s) < s.len() ==> s[spec_aux_limit(s)].tag == AT_NULL,
    decreases s.len(),
{
    if s.len() > 0 && s[0].tag != AT_NULL {
        lemma_aux_limit_bounds(s.drop_first());
        assert forall|i: int| 0 <= i < spec_aux_limit(s) implies s[i].tag != AT_NULL by {
            if i > 0 {
                assert(s.drop_first()[i - 1] == s[i]);
            }
        }
        if spec_aux_limit(s) < s.len() {
            assert(s.drop_first()[spec_aux_limit(s) - 1] == s[spec_aux_limit(s)]);
        }
    }
}

/// A NUL entry whose predecessors carry no AT_NULL is the limit.
proof fn lemma_aux_limit_at(s: Seq<Aux>, k: int)
    requires
        0 <= k < s.len(),
        s[k].tag == AT_NULL,
        forall|i: int| 0 <= i < k ==> s[i].tag != AT_NULL,
    ensures
        spec_aux_limit(s) == k,
    decreases k,
{
    if k > 0 {
        lemma_aux_limit_at(s.drop_first(), k - 1);
        assert(forall|i: int| 0 <= i < k - 1 ==> s.drop_first()[i] == s[i + 1]);
    }
}

/// An entry that is not AT_NULL and whose predecessors are not either lies
/// before the limit.
proof fn lemma_aux_limit_past(s: Seq<Aux>, k: int)
    requires
        0 <= k < s.len(),
        s[k].tag != AT_NULL,
        forall|i: int| 0 <= i < k ==> s[i].tag != AT_NULL,
    ensures
        spec_aux_limit(s) > k,
    decreases k,
{
    lemma_aux_limit_bounds(s);
    if k > 0 {
        lemma_aux_limit_past(s.drop_first(), k - 1);
    }
}

/// Drop the loader's own first argument off the stack image: the argument
/// count at the bottom falls by one, everything from the old second
/// argument down to the end of the vector moves one slot toward the
/// bottom, and the last word keeps its value.
pub fn drop_first_arg(stack: &mut Vec<u64>)
    requires
        old(stack)@.len() >= 1,
        old(stack)@[0] >= 1,
    ensures
        final(stack)@.len() == old(stack)@.len(),
        final(stack)@[0] == old(stack)@[0] - 1,
        forall|i: int|
            1 <= i < old(stack)@.len() - 1 ==> final(stack)@[i] == old(stack)@[i + 1],
        old(stack)@.len() > 1 ==> final(stack)@[old(stack)@.len() - 1] == old(stack)@[old(
            stack,
        )@.len() - 1],
{
    let n = stack.len();
    if n >= 2 {
        let mut k: usize = 1;
        while k < n - 1
            invariant
                1 <= k <= n - 1,
                2 <= n,
                n == stack@.len(),
                n == old(stack)@.len(),
                stack@[0] == old(stack)@[0],
                forall|i: int| 1 <= i < k ==> stack@[i] == old(stack)@[i + 1],
                forall|i: int| k <= i < n ==> stack@[i] == old(stack)@[i],
            decreases n - k,
        {
            let w = stack[k + 1];
            stack.set(k, w);
            k += 1;
        }
    }
    let argc = stack[0];
    stack.set(0, argc - 1);
}

} // verus!
