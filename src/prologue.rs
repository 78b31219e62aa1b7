use vstd::prelude::*;
use crate::decoder::{Insn, decode_at, length_of_instruction_at, lemma_decode_facts};
use crate::error::HookError;

verus! {

/// Byte length of the redirect jump written at a hooked entry point (`E9` rel32).
pub const REDIRECT_JUMP_SIZE: usize = 5;

/// Sum of the lengths of `v`.
pub open spec fn total_len(v: Seq<Insn>) -> nat
    decreases v.len(),
{
    if v.len() == 0 {
        0
    } else {
        total_len(v.drop_last()) + v.last().len as nat
    }
}

/// The whole instructions that start at byte `at` and run up to the first
/// instruction boundary at or past the redirect jump's footprint. `None`
/// when an instruction cannot be decoded, or when control leaves the
/// function (a return, a jump) before the footprint is covered.
pub open spec fn prologue_from(s: Seq<u8>, at: nat) -> Option<Seq<Insn>>
    decreases REDIRECT_JUMP_SIZE - at,
{
    match decode_at(s, at as int) {
        None => None,
        Some(i) => if i.len == 0 {
            None
        } else if at + i.len >= REDIRECT_JUMP_SIZE {
            Some(seq![i])
        } else if i.ends_flow {
            None
        } else {
            match prologue_from(s, (at + i.len) as nat) {
                None => None,
                Some(rest) => Some(seq![i] + rest),
            }
        },
    }
}

/// The prologue that a hook at the start of `s` relocates.
pub open spec fn prologue_of(s: Seq<u8>) -> Option<Seq<Insn>> {
    prologue_from(s, 0)
}

/// Byte offset of instruction `k` of `v` from the start of the prologue.
pub open spec fn insn_offset(v: Seq<Insn>, k: int) -> nat {
    total_len(v.take(k))
}

pub proof fn lemma_total_len_push(v: Seq<Insn>, i: Insn)
    ensures
        total_len(v.push(i)) == total_len(v) + i.len,
{
    assert(v.push(i).drop_last() =~= v);
}

pub proof fn lemma_total_len_prepend(i: Insn, v: Seq<Insn>)
    ensures
        total_len(seq![i] + v) == i.len + total_len(v),
    decreases v.len(),
{
    if v.len() == 0 {
        assert(seq![i] + v =~= seq![i]);
        assert(seq![i].drop_last() =~= Seq::<Insn>::empty());
        assert(total_len(Seq::<Insn>::empty()) == 0);
        assert(total_len(seq![i]) == total_len(seq![i].drop_last()) + i.len);
    } else {
        lemma_total_len_prepend(i, v.drop_last());
        assert((seq![i] + v).drop_last() =~= seq![i] + v.drop_last());
        assert((seq![i] + v).last() == v.last());
        assert(total_len(seq![i] + v) == total_len((seq![i] + v).drop_last()) + (seq![i] + v).last().len);
    }
}

pub proof fn lemma_take_len_le(v: Seq<Insn>, j: int)
    requires
        0 <= j <= v.len(),
    ensures
        total_len(v.take(j)) <= total_len(v),
    decreases v.len(),
{
    if j < v.len() {
        assert(v.drop_last().take(j) =~= v.take(j));
        lemma_take_len_le(v.drop_last(), j);
    } else {
        assert(v.take(j) =~= v);
    }
}

/// Decoding a prologue covers the redirect jump and ends on an instruction
/// boundary: the lengths sum to at least the jump's footprint, every
/// instruction but the last ends before it, each instruction is the one
/// decoded at its own offset, and only the last may end the control flow.
#[verifier::rlimit(40)]
pub proof fn lemma_prologue_covers_footprint(s: Seq<u8>, at: nat)
    requires
        at < REDIRECT_JUMP_SIZE,
        prologue_from(s, at) is Some,
    ensures
        ({
            let v = prologue_from(s, at).unwrap();
            &&& v.len() >= 1
            &&& at + total_len(v) >= REDIRECT_JUMP_SIZE
            &&& at + total_len(v) <= s.len()
            &&& at + total_len(v) < REDIRECT_JUMP_SIZE + 16
            &&& at + v.len() <= REDIRECT_JUMP_SIZE
            &&& at + total_len(v.drop_last()) < REDIRECT_JUMP_SIZE
            &&& forall|k: int| 0 <= k < v.len() ==> decode_at(s, (at + insn_offset(v, k)) as int) == Some(v[k])
            &&& forall|k: int| 0 <= k < v.len() - 1 ==> !v[k].ends_flow
            &&& forall|k: int| 0 <= k < v.len() ==> v[k].len >= 1
        }),
    decreases REDIRECT_JUMP_SIZE - at,
{
    let i = decode_at(s, at as int).unwrap();
    let v = prologue_from(s, at).unwrap();
    lemma_decode_facts(s, at as int);
    if at + i.len >= REDIRECT_JUMP_SIZE {
        assert(v =~= seq![i]);
        assert(v.drop_last() =~= Seq::<Insn>::empty());
        assert(total_len(Seq::<Insn>::empty()) == 0);
        assert(v.drop_last().push(i) =~= v);
        lemma_total_len_push(v.drop_last(), i);
        assert forall|k: int| 0 <= k < v.len() implies decode_at(s, (at + insn_offset(v, k)) as int) == Some(v[k]) by {
            assert(v.take(0) =~= Seq::<Insn>::empty());
        }
    } else {
        let rest = prologue_from(s, (at + i.len) as nat).unwrap();
        lemma_prologue_covers_footprint(s, (at + i.len) as nat);
        assert(v == seq![i] + rest);
        lemma_total_len_prepend(i, rest);
        assert(v.drop_last() =~= seq![i] + rest.drop_last());
        lemma_total_len_prepend(i, rest.drop_last());
        assert forall|k: int| 0 <= k < v.len() implies decode_at(s, (at + insn_offset(v, k)) as int) == Some(v[k]) by {
            if k == 0 {
                assert(v.take(0) =~= Seq::<Insn>::empty());
            } else {
                assert(v.take(k) =~= seq![i] + rest.take(k - 1));
                lemma_total_len_prepend(i, rest.take(k - 1));
                assert(v[k] == rest[k - 1]);
            }
        }
        assert forall|k: int| 0 <= k < v.len() - 1 implies !v[k].ends_flow by {
            if k > 0 {
                assert(v[k] == rest[k - 1]);
            }
        }
        assert forall|k: int| 0 <= k < v.len() implies v[k].len >= 1 by {
            if k > 0 {
                assert(v[k] == rest[k - 1]);
            }
        }
    }
}

/// Decodes instructions from the start of `code` until the decoded bytes
/// cover the redirect jump, and returns them in order.
pub fn measure_prologue(code: &[u8]) -> (r: Result<Vec<Insn>, HookError>)
    ensures
        match prologue_of(code@) {
            Some(v) => r matches Ok(out) && out@ == v,
            None => r == Err::<Vec<Insn>, HookError>(HookError::UnsupportedInstruction),
        },
{
    let mut out: Vec<Insn> = Vec::new();
    let mut at: usize = 0;
    while at < REDIRECT_JUMP_SIZE
        invariant
            at < REDIRECT_JUMP_SIZE || (at >= REDIRECT_JUMP_SIZE && prologue_of(code@) == Some(out@)),
            at < REDIRECT_JUMP_SIZE ==> prologue_of(code@) == match prologue_from(code@, at as nat) {
                None => None,
                Some(rest) => Some(out@ + rest),
            },
        decreases REDIRECT_JUMP_SIZE - at,
    {
        let ghost before = out@;
        let insn = length_of_instruction_at(code, at)?;
        if insn.len == 0 {
            return Err(HookError::UnsupportedInstruction);
        }
        if at + insn.len >= REDIRECT_JUMP_SIZE {
            out.push(insn);
            assert(out@ =~= before + seq![insn]);
            at = REDIRECT_JUMP_SIZE;
        } else if insn.ends_flow {
            return Err(HookError::UnsupportedInstruction);
        } else {
            out.push(insn);
            proof {
                let rest = prologue_from(code@, (at + insn.len) as nat);
                if rest is Some {
                    assert(before + (seq![insn] + rest.unwrap()) =~= out@ + rest.unwrap());
                }
            }
            at = at + insn.len;
        }
    }
    Ok(out)
}

} // verus!
