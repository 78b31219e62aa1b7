use vstd::prelude::*;
use crate::decoder::{Insn, Reloc, decode_at, lemma_decode_facts};
use crate::error::HookError;
use crate::prologue::{REDIRECT_JUMP_SIZE, insn_offset, lemma_prologue_covers_footprint, lemma_total_len_push, lemma_take_len_le,
    measure_prologue, prologue_of, total_len};

verus! {

/// Bytes in one trampoline slot.
pub const SLOT_SIZE: usize = 64;

/// Bytes of the relay that ends a trampoline: `FF 25 00000000` and an
/// absolute 64-bit address, a jump that reaches the replacement from anywhere.
pub const RELAY_SIZE: usize = 14;

/// The signed 32-bit little-endian value at `s[i..i + 4]`.
pub open spec fn disp32(s: Seq<u8>, i: int) -> int {
    let u = s[i] as int + 256 * s[i + 1] as int + 65536 * s[i + 2] as int + 16777216 * s[i + 3] as int;
    if u >= 0x8000_0000 { u - 0x1_0000_0000 } else { u }
}

/// The signed value of one displacement byte.
pub open spec fn disp8(b: u8) -> int {
    if b >= 128 { b as int - 256 } else { b as int }
}

pub open spec fn fits_i32(v: int) -> bool {
    -0x8000_0000 <= v < 0x8000_0000
}

/// The four little-endian bytes of `v` as a two's complement 32-bit value.
pub open spec fn le32(v: int) -> Seq<u8> {
    let u = if v < 0 { v + 0x1_0000_0000 } else { v };
    seq![(u % 256) as u8, (u / 256 % 256) as u8, (u / 65536 % 256) as u8, (u / 16777216 % 256) as u8]
}

/// The eight little-endian bytes of `v`.
pub open spec fn le64(v: u64) -> Seq<u8> {
    let u = v as int;
    seq![
        (u % 256) as u8, (u / 0x100 % 256) as u8, (u / 0x1_0000 % 256) as u8, (u / 0x100_0000 % 256) as u8,
        (u / 0x1_0000_0000 % 256) as u8, (u / 0x100_0000_0000 % 256) as u8,
        (u / 0x1_0000_0000_0000 % 256) as u8, (u / 0x100_0000_0000_0000 % 256) as u8,
    ]
}

/// A branch may leave the prologue or re-enter the function at its entry,
/// but must not land inside the bytes that the redirect jump replaces.
pub open spec fn lands_outside(t: int, dest: int, plen: int) -> bool {
    !(t < dest && dest < t + plen)
}

/// `bytes` with the four bytes at `at` replaced by `le32(d)`.
pub open spec fn splice32(bytes: Seq<u8>, at: int, d: int) -> Seq<u8> {
    bytes.subrange(0, at) + le32(d) + bytes.subrange(at + 4, bytes.len() as int)
}

/// The bytes that do what instruction `i`, found `o` bytes past the target
/// `t`, does, when they are placed at address `dst` instead. Displacements
/// are corrected so that every address the instruction refers to stays the
/// same; a short jump becomes its near form.
#[verifier::opaque]
pub open spec fn relocate_insn(s: Seq<u8>, i: Insn, o: int, t: int, dst: int, plen: int) -> Option<Seq<u8>> {
    let bytes = s.subrange(o, o + i.len);
    match i.reloc {
        Reloc::Plain => Some(bytes),
        Reloc::RipRelative { disp_at } => {
            let d = disp32(s, o + disp_at) + (t + o) - dst;
            if fits_i32(d) { Some(splice32(bytes, disp_at as int, d)) } else { None }
        },
        Reloc::Near { disp_at } => {
            let dest = t + o + i.len + disp32(s, o + disp_at);
            let d = dest - (dst + i.len);
            if fits_i32(d) && lands_outside(t, dest, plen) { Some(splice32(bytes, disp_at as int, d)) } else { None }
        },
        Reloc::Short => {
            let dest = t + o + 2 + disp8(s[o + 1]);
            if !lands_outside(t, dest, plen) {
                None
            } else if s[o] == 0xeb {
                let d = dest - (dst + 5);
                if fits_i32(d) { Some(seq![0xe9u8] + le32(d)) } else { None }
            } else {
                let d = dest - (dst + 6);
                if fits_i32(d) { Some(seq![0x0fu8, ((s[o] as int + 0x10) % 256) as u8] + le32(d)) } else { None }
            }
        },
    }
}

/// The first `k` instructions of `v` relocated one after another to `b`.
pub open spec fn relocate_prefix(s: Seq<u8>, v: Seq<Insn>, k: int, t: int, b: int, plen: int) -> Option<Seq<u8>>
    decreases k,
{
    if k <= 0 {
        Some(Seq::empty())
    } else {
        match relocate_prefix(s, v, k - 1, t, b, plen) {
            None => None,
            Some(out) => match relocate_insn(s, v[k - 1], insn_offset(v, k - 1) as int, t, b + out.len(), plen) {
                None => None,
                Some(x) => Some(out + x),
            },
        }
    }
}

pub proof fn lemma_relocate_prefix_stays_none(s: Seq<u8>, v: Seq<Insn>, k: int, m: int, t: int, b: int, plen: int)
    requires
        0 < k <= m,
        relocate_prefix(s, v, k, t, b, plen) is None,
    ensures
        relocate_prefix(s, v, m, t, b, plen) is None,
    decreases m - k,
{
    if k < m {
        lemma_relocate_prefix_stays_none(s, v, k, m - 1, t, b, plen);
    }
}

/// Displacement of the jump from the end of the relocated code back to the
/// first untouched instruction of the target.
pub open spec fn jump_back_disp(t: int, b: int, plen: int, rlen: int) -> int {
    t + plen - (b + rlen + 5)
}

/// Displacement of the redirect jump at the target, which lands on the relay.
pub open spec fn redirect_disp(t: int, b: int, rlen: int) -> int {
    b + rlen + 5 - (t + 5)
}

/// The stub placed in the slot at `b`: the relocated prologue, a jump back to
/// the rest of the target, then the relay to `replacement`.
pub open spec fn stub_bytes(rel: Seq<u8>, t: int, b: int, plen: int, replacement: u64) -> Seq<u8> {
    rel + seq![0xe9u8] + le32(jump_back_disp(t, b, plen, rel.len() as int)) + seq![0xffu8, 0x25u8, 0u8, 0u8, 0u8, 0u8]
        + le64(replacement)
}

/// The jump written at the target: `E9` and a displacement to the relay.
pub open spec fn redirect_bytes(t: int, b: int, rlen: int) -> Seq<u8> {
    seq![0xe9u8] + le32(redirect_disp(t, b, rlen))
}

/// What building a trampoline for code `s` at target `t` into the slot at `b`
/// comes to: the prologue's instructions and their relocated bytes, or why it
/// cannot be built.
pub open spec fn relocation_of(s: Seq<u8>, t: int, b: int) -> Result<(Seq<Insn>, Seq<u8>), HookError> {
    match prologue_of(s) {
        None => Err(HookError::UnsupportedInstruction),
        Some(v) => {
            let plen = total_len(v) as int;
            match relocate_prefix(s, v, v.len() as int, t, b, plen) {
                None => Err(HookError::UnsupportedInstruction),
                Some(rel) => if !fits_i32(jump_back_disp(t, b, plen, rel.len() as int))
                    || !fits_i32(redirect_disp(t, b, rel.len() as int)) {
                    Err(HookError::AllocationFailure)
                } else if rel.len() + 5 + RELAY_SIZE > SLOT_SIZE {
                    Err(HookError::UnsupportedInstruction)
                } else {
                    Ok((v, rel))
                },
            }
        },
    }
}

/// A trampoline ready to be placed: the stub for its slot, the redirect
/// jump for the target, the original bytes that the redirect replaces, and
/// for each relocated instruction its offset in the target and in the stub.
pub struct Trampoline {
    pub stub: Vec<u8>,
    pub redirect: Vec<u8>,
    pub original: Vec<u8>,
    pub ip_map: Vec<(usize, usize)>,
}

/// What `build_trampoline` returns on success, stated over the plan.
pub open spec fn trampoline_matches(tr: Trampoline, s: Seq<u8>, t: int, b: int, replacement: u64,
    v: Seq<Insn>, rel: Seq<u8>) -> bool {
    let plen = total_len(v) as int;
    &&& tr.original@ == s.subrange(0, plen)
    &&& tr.stub@ == stub_bytes(rel, t, b, plen, replacement)
    &&& tr.redirect@ == redirect_bytes(t, b, rel.len() as int)
    &&& tr.ip_map@.len() == v.len()
    &&& forall|k: int| #![trigger tr.ip_map@[k]] #![trigger relocate_prefix(s, v, k, t, b, plen)]
        0 <= k < v.len() ==> relocate_prefix(s, v, k, t, b, plen) is Some
        && tr.ip_map@[k] == (insn_offset(v, k) as usize, relocate_prefix(s, v, k, t, b, plen).unwrap().len() as usize)
}

fn read_disp32(code: &[u8], i: usize) -> (r: i64)
    requires
        i + 4 <= code@.len(),
    ensures
        r as int == disp32(code@, i as int),
{
    let u: i64 = code[i] as i64 + 256 * code[i + 1] as i64 + 65536 * code[i + 2] as i64 + 16777216 * code[i + 3] as i64;
    if u >= 0x8000_0000 { u - 0x1_0000_0000 } else { u }
}

fn push_le32(out: &mut Vec<u8>, v: i128)
    requires
        fits_i32(v as int),
    ensures
        final(out)@ == old(out)@ + le32(v as int),
{
    let u: u64 = if v < 0 { (v + 0x1_0000_0000) as u64 } else { v as u64 };
    out.push((u % 256) as u8);
    out.push((u / 256 % 256) as u8);
    out.push((u / 65536 % 256) as u8);
    out.push((u / 16777216 % 256) as u8);
    assert(final(out)@ =~= old(out)@ + le32(v as int));
}

fn push_le64(out: &mut Vec<u8>, v: u64)
    ensures
        final(out)@ == old(out)@ + le64(v),
{
    out.push((v % 256) as u8);
    out.push((v / 0x100 % 256) as u8);
    out.push((v / 0x1_0000 % 256) as u8);
    out.push((v / 0x100_0000 % 256) as u8);
    out.push((v / 0x1_0000_0000 % 256) as u8);
    out.push((v / 0x100_0000_0000 % 256) as u8);
    out.push((v / 0x1_0000_0000_0000 % 256) as u8);
    out.push((v / 0x100_0000_0000_0000 % 256) as u8);
    assert(final(out)@ =~= old(out)@ + le64(v));
}

fn push_range(out: &mut Vec<u8>, code: &[u8], from: usize, to: usize)
    requires
        from <= to <= code@.len(),
    ensures
        final(out)@ == old(out)@ + code@.subrange(from as int, to as int),
{
    let mut i = from;
    while i < to
        invariant
            from <= i <= to <= code@.len(),
            out@ == old(out)@ + code@.subrange(from as int, i as int),
        decreases to - i,
    {
        out.push(code[i]);
        assert(code@.subrange(from as int, i + 1) =~= code@.subrange(from as int, i as int).push(code@[i as int]));
        i = i + 1;
    }
}

/// Appends instruction `insn`, found at offset `o` of the target `t`, as
/// relocated to address `dst`.
fn relocate_one(out: &mut Vec<u8>, code: &[u8], insn: Insn, o: usize, t: u64, dst: i128, plen: usize)
    -> (ok: bool)
    requires
        decode_at(code@, o as int) == Some(insn),
        0 <= dst < 0x1_0000_0000_0000_0000 + 0x1000,
        plen <= 64,
    ensures
        ok ==> final(out)@.len() <= old(out)@.len() + 15,
        match relocate_insn(code@, insn, o as int, t as int, dst as int, plen as int) {
            Some(x) => ok && final(out)@ == old(out)@ + x,
            None => !ok,
        },
{
    reveal(relocate_insn);
    let n = code.len();
    proof { lemma_decode_facts(code@, o as int); }
    let here: i128 = t as i128 + o as i128;
    match insn.reloc {
        Reloc::Plain => {
            push_range(out, code, o, o + insn.len);
            true
        },
        Reloc::RipRelative { disp_at } => {
            let d: i128 = read_disp32(code, o + disp_at) as i128 + here - dst;
            if -0x8000_0000 <= d && d < 0x8000_0000 {
                push_range(out, code, o, o + disp_at);
                push_le32(out, d);
                push_range(out, code, o + disp_at + 4, o + insn.len);
                proof {
                    let bytes = code@.subrange(o as int, o + insn.len);
                    assert(bytes.subrange(0, disp_at as int) =~= code@.subrange(o as int, o + disp_at));
                    assert(bytes.subrange(disp_at + 4, bytes.len() as int) =~= code@.subrange(o + disp_at + 4, o + insn.len));
                    assert(final(out)@ =~= old(out)@ + splice32(bytes, disp_at as int, d as int));
                }
                true
            } else {
                false
            }
        },
        Reloc::Near { disp_at } => {
            let dest: i128 = here + insn.len as i128 + read_disp32(code, o + disp_at) as i128;
            let d: i128 = dest - (dst + insn.len as i128);
            let inside = (t as i128) < dest && dest < t as i128 + plen as i128;
            if -0x8000_0000 <= d && d < 0x8000_0000 && !inside {
                push_range(out, code, o, o + disp_at);
                push_le32(out, d);
                push_range(out, code, o + disp_at + 4, o + insn.len);
                proof {
                    let bytes = code@.subrange(o as int, o + insn.len);
                    assert(bytes.subrange(0, disp_at as int) =~= code@.subrange(o as int, o + disp_at));
                    assert(bytes.subrange(disp_at + 4, bytes.len() as int) =~= code@.subrange(o + disp_at + 4, o + insn.len));
                    assert(final(out)@ =~= old(out)@ + splice32(bytes, disp_at as int, d as int));
                }
                true
            } else {
                false
            }
        },
        Reloc::Short => {
            let b1 = code[o + 1];
            let rel8: i128 = if b1 >= 128 { b1 as i128 - 256 } else { b1 as i128 };
            let dest: i128 = here + 2 + rel8;
            let inside = (t as i128) < dest && dest < t as i128 + plen as i128;
            if inside {
                false
            } else if code[o] == 0xeb {
                let d: i128 = dest - (dst + 5);
                if -0x8000_0000 <= d && d < 0x8000_0000 {
                    out.push(0xe9);
                    push_le32(out, d);
                    assert(final(out)@ =~= old(out)@ + (seq![0xe9u8] + le32(d as int)));
                    true
                } else {
                    false
                }
            } else {
                let d: i128 = dest - (dst + 6);
                if -0x8000_0000 <= d && d < 0x8000_0000 {
                    out.push(0x0f);
                    out.push(((code[o] as u16 + 0x10) % 256) as u8);
                    push_le32(out, d);
                    assert(final(out)@ =~= old(out)@ + (seq![0x0fu8, ((code@[o as int] as int + 0x10) % 256) as u8] + le32(d as int)));
                    true
                } else {
                    false
                }
            }
        },
    }
}

/// The length in bytes of the decoded prologue `insns` of `code`.
fn prologue_len(code: &[u8], insns: &Vec<Insn>) -> (plen: usize)
    requires
        prologue_of(code@) == Some(insns@),
    ensures
        plen == total_len(insns@),
{
    let ghost v = insns@;
    let n = code.len();
    proof { lemma_prologue_covers_footprint(code@, 0); }
    let mut plen: usize = 0;
    let mut k: usize = 0;
    while k < insns.len()
        invariant
            v == insns@,
            0 <= k <= v.len(),
            plen == total_len(v.take(k as int)),
            total_len(v) <= n,
        decreases v.len() - k,
    {
        proof {
            lemma_take_len_le(v, k + 1);
            assert(v.take(k + 1) =~= v.take(k as int).push(v[k as int]));
            lemma_total_len_push(v.take(k as int), v[k as int]);
        }
        plen = plen + insns[k].len;
        k = k + 1;
    }
    assert(v.take(v.len() as int) =~= v);
    plen
}

/// Relocates the prologue `insns` of the code at `target` to the slot at
/// `slot`, and records each instruction's offset in the target and in the
/// relocated bytes.
fn relocate_prologue(code: &[u8], insns: &Vec<Insn>, target: u64, slot: u64, plen: usize)
    -> (r: Option<(Vec<u8>, Vec<(usize, usize)>)>)
    requires
        prologue_of(code@) == Some(insns@),
        plen == total_len(insns@),
    ensures
        r matches Some((out, _)) ==> out@.len() <= 105,
        match relocate_prefix(code@, insns@, insns@.len() as int, target as int, slot as int, plen as int) {
            None => r is None,
            Some(rel) => r matches Some((out, ip_map)) && out@ == rel && ip_map@.len() == insns@.len()
                && forall|j: int| #![trigger ip_map@[j]]
                    #![trigger relocate_prefix(code@, insns@, j, target as int, slot as int, plen as int)]
                    0 <= j < insns@.len()
                    ==> relocate_prefix(code@, insns@, j, target as int, slot as int, plen as int) is Some
                    && ip_map@[j] == (insn_offset(insns@, j) as usize,
                        relocate_prefix(code@, insns@, j, target as int, slot as int, plen as int).unwrap().len() as usize),
        },
{
    let ghost v = insns@;
    let ghost t = target as int;
    let ghost b = slot as int;
    proof { lemma_prologue_covers_footprint(code@, 0); }
    let mut rel: Vec<u8> = Vec::new();
    let mut ip_map: Vec<(usize, usize)> = Vec::new();
    let mut o: usize = 0;
    let mut k: usize = 0;
    while k < insns.len()
        invariant
            v == insns@,
            0 <= k <= v.len(),
            v.len() <= REDIRECT_JUMP_SIZE,
            plen == total_len(v),
            plen <= 64,
            t == target as int,
            b == slot as int,
            total_len(v) < 21,
            prologue_of(code@) == Some(v),
            o == insn_offset(v, k as int),
            relocate_prefix(code@, v, k as int, t, b, plen as int) == Some(rel@),
            rel@.len() <= 21 * k,
            ip_map@.len() == k,
            forall|j: int| 0 <= j < v.len() ==> decode_at(code@, insn_offset(v, j) as int) == Some(#[trigger] v[j]),
            forall|j: int| #![trigger ip_map@[j]] #![trigger relocate_prefix(code@, v, j, t, b, plen as int)]
                0 <= j < k ==> relocate_prefix(code@, v, j, t, b, plen as int) is Some
                && ip_map@[j] == (insn_offset(v, j) as usize, relocate_prefix(code@, v, j, t, b, plen as int).unwrap().len() as usize),
        decreases v.len() - k,
    {
        let ghost old_map = ip_map@;
        ip_map.push((o, rel.len()));
        let insn = insns[k];
        proof { lemma_decode_facts(code@, o as int); }
        let dst: i128 = slot as i128 + rel.len() as i128;
        let ghost before = rel@;
        let ok = relocate_one(&mut rel, code, insn, o, target, dst, plen);
        if !ok {
            proof {
                assert(relocate_insn(code@, v[k as int], insn_offset(v, k as int) as int, t, b + before.len(), plen as int)
                    is None);
                assert(relocate_prefix(code@, v, (k + 1) as int, t, b, plen as int) is None);
                lemma_relocate_prefix_stays_none(code@, v, (k + 1) as int, v.len() as int, t, b, plen as int);
            }
            return None;
        }
        proof {
            assert(relocate_insn(code@, v[k as int], insn_offset(v, k as int) as int, t, b + before.len(), plen as int)
                is Some);
            assert(relocate_prefix(code@, v, (k + 1) as int, t, b, plen as int) == Some(rel@));
            assert(ip_map@[k as int] == (insn_offset(v, k as int) as usize,
                relocate_prefix(code@, v, k as int, t, b, plen as int).unwrap().len() as usize));
            lemma_take_len_le(v, k + 1);
            assert forall|j: int| #![trigger ip_map@[j]] #![trigger relocate_prefix(code@, v, j, t, b, plen as int)]
                0 <= j < k + 1 implies relocate_prefix(code@, v, j, t, b, plen as int) is Some
                && ip_map@[j] == (insn_offset(v, j) as usize, relocate_prefix(code@, v, j, t, b, plen as int).unwrap().len() as usize) by {
                if j < k {
                    assert(ip_map@[j] == old_map[j]);
                }
            }
            assert(v.take(k + 1) =~= v.take(k as int).push(v[k as int]));
            lemma_total_len_push(v.take(k as int), v[k as int]);
        }
        o = o + insn.len;
        k = k + 1;
    }
    assert(relocate_prefix(code@, insns@, insns@.len() as int, target as int, slot as int, plen as int) == Some(rel@));
    Some((rel, ip_map))
}

/// Builds the trampoline for a hook on the code `code` found at `target`,
/// to be placed in the slot at `slot` and to relay to `replacement`. The
/// prologue is decoded whole instruction by whole instruction, relocated,
/// and followed by a jump back to the first untouched instruction.
#[verifier::rlimit(50)]
pub fn build_trampoline(code: &[u8], target: u64, slot: u64, replacement: u64) -> (r: Result<Trampoline, HookError>)
    ensures
        match relocation_of(code@, target as int, slot as int) {
            Err(e) => r == Err::<Trampoline, HookError>(e),
            Ok((v, rel)) => r matches Ok(tr) && trampoline_matches(tr, code@, target as int, slot as int,
                replacement, v, rel),
        },
{
    let insns = measure_prologue(code)?;
    let ghost v = insns@;
    proof { lemma_prologue_covers_footprint(code@, 0); }
    let plen = prologue_len(code, &insns);
    let (rel, ip_map) = match relocate_prologue(code, &insns, target, slot, plen) {
        Some(p) => p,
        None => { return Err(HookError::UnsupportedInstruction); },
    };
    let rlen = rel.len();
    let back: i128 = target as i128 + plen as i128 - (slot as i128 + rlen as i128 + 5);
    let redirect_d: i128 = slot as i128 + rlen as i128 + 5 - (target as i128 + 5);
    if !(-0x8000_0000 <= back && back < 0x8000_0000) || !(-0x8000_0000 <= redirect_d && redirect_d < 0x8000_0000) {
        return Err(HookError::AllocationFailure);
    }
    if rlen + 5 + RELAY_SIZE > SLOT_SIZE {
        return Err(HookError::UnsupportedInstruction);
    }
    let mut stub = rel.clone();
    stub.push(0xe9);
    push_le32(&mut stub, back);
    stub.push(0xff);
    stub.push(0x25);
    stub.push(0);
    stub.push(0);
    stub.push(0);
    stub.push(0);
    push_le64(&mut stub, replacement);
    let mut redirect: Vec<u8> = Vec::new();
    redirect.push(0xe9);
    push_le32(&mut redirect, redirect_d);
    let mut original: Vec<u8> = Vec::new();
    push_range(&mut original, code, 0, plen);
    proof {
        assert(stub@ =~= stub_bytes(rel@, target as int, slot as int, plen as int, replacement));
        assert(redirect@ =~= redirect_bytes(target as int, slot as int, rlen as int));
    }
    Ok(Trampoline { stub, redirect, original, ip_map })
}

/// Four little-endian bytes read back give the value they were written from.
pub proof fn lemma_le32_round_trip(d: int)
    requires
        fits_i32(d),
    ensures
        disp32(le32(d), 0) == d,
{
    let u: int = if d < 0 { d + 0x1_0000_0000 } else { d };
    let x: u64 = u as u64;
    assert((x % 256) + 256 * ((x / 256) % 256) + 65536 * ((x / 65536) % 256) + 16777216 * ((x / 16777216) % 256) == x)
        by (bit_vector)
        requires
            x < 0x1_0000_0000;
    let s = le32(d);
    assert(s[0] as int == u % 256);
    assert(s[1] as int == u / 256 % 256);
    assert(s[2] as int == u / 65536 % 256);
    assert(s[3] as int == u / 16777216 % 256);
}

/// The trampoline continues where the hook left off, and the hook reaches
/// the replacement: the jump after the relocated prologue lands on the first
/// target byte past the overwritten instructions; the redirect jump written
/// at the target lands on the relay; the relay is an indirect jump through
/// the replacement's address, stored right after it.
pub proof fn lemma_trampoline_links(tr: Trampoline, s: Seq<u8>, t: int, b: int, replacement: u64,
    v: Seq<Insn>, rel: Seq<u8>)
    requires
        relocation_of(s, t, b) == Ok::<(Seq<Insn>, Seq<u8>), HookError>((v, rel)),
        trampoline_matches(tr, s, t, b, replacement, v, rel),
    ensures
        tr.stub@[rel.len() as int] == 0xe9,
        b + rel.len() + 5 + disp32(tr.stub@, rel.len() as int + 1) == t + total_len(v),
        tr.redirect@[0] == 0xe9,
        t + 5 + disp32(tr.redirect@, 1) == b + rel.len() + 5,
        tr.stub@.subrange(rel.len() as int + 5, rel.len() as int + 11) == seq![0xffu8, 0x25u8, 0u8, 0u8, 0u8, 0u8],
        tr.stub@.subrange(rel.len() as int + 11, rel.len() as int + 19) == le64(replacement),
{
    let plen = total_len(v) as int;
    let n = rel.len() as int;
    let back = jump_back_disp(t, b, plen, n);
    let red = redirect_disp(t, b, n);
    lemma_le32_round_trip(back);
    lemma_le32_round_trip(red);
    let st = tr.stub@;
    assert(st == stub_bytes(rel, t, b, plen, replacement));
    assert(st.subrange(n + 1, n + 5) =~= le32(back));
    assert(disp32(st, n + 1) == disp32(st.subrange(n + 1, n + 5), 0));
    assert(st.subrange(n + 5, n + 11) =~= seq![0xffu8, 0x25u8, 0u8, 0u8, 0u8, 0u8]);
    assert(st.subrange(n + 11, n + 19) =~= le64(replacement));
    let rd = tr.redirect@;
    assert(rd.subrange(1, 5) =~= le32(red));
    assert(disp32(rd, 1) == disp32(rd.subrange(1, 5), 0));
}

proof fn lemma_plain_prefix(s: Seq<u8>, v: Seq<Insn>, k: int, t: int, b: int, plen: int)
    requires
        0 <= k <= v.len(),
        total_len(v) <= s.len(),
        forall|j: int| 0 <= j < v.len() ==> (#[trigger] v[j]).reloc == Reloc::Plain,
    ensures
        relocate_prefix(s, v, k, t, b, plen) == Some(s.subrange(0, insn_offset(v, k) as int)),
    decreases k,
{
    reveal(relocate_insn);
    if k == 0 {
        assert(v.take(0) =~= Seq::<Insn>::empty());
        assert(s.subrange(0, 0) =~= Seq::<u8>::empty());
    } else {
        lemma_plain_prefix(s, v, k - 1, t, b, plen);
        assert(v.take(k) =~= v.take(k - 1).push(v[k - 1]));
        lemma_total_len_push(v.take(k - 1), v[k - 1]);
        lemma_take_len_le(v, k);
        let o = insn_offset(v, k - 1) as int;
        assert(s.subrange(0, o) + s.subrange(o, o + v[k - 1].len) =~= s.subrange(0, insn_offset(v, k) as int));
    }
}

/// A prologue made only of position-independent instructions is copied
/// into the trampoline unchanged: the stub starts with exactly the bytes
/// that the redirect jump replaces at the target.
pub proof fn lemma_plain_prologue_copied(tr: Trampoline, s: Seq<u8>, t: int, b: int, replacement: u64,
    v: Seq<Insn>, rel: Seq<u8>)
    requires
        relocation_of(s, t, b) == Ok::<(Seq<Insn>, Seq<u8>), HookError>((v, rel)),
        trampoline_matches(tr, s, t, b, replacement, v, rel),
        forall|j: int| 0 <= j < v.len() ==> (#[trigger] v[j]).reloc == Reloc::Plain,
    ensures
        rel == tr.original@,
        tr.stub@.subrange(0, tr.original@.len() as int) == tr.original@,
{
    lemma_prologue_covers_footprint(s, 0);
    let plen = total_len(v) as int;
    lemma_plain_prefix(s, v, v.len() as int, t, b, plen);
    assert(v.take(v.len() as int) =~= v);
    assert(tr.stub@.subrange(0, rel.len() as int) =~= rel);
}

} // verus!
