use vstd::prelude::*;
use crate::error::HookError;

verus! {

/// How an instruction depends on the address it executes from.
#[derive(Clone, Copy, Debug, PartialEq, Eq, Structural)]
pub enum Reloc {
    /// Position independent: copying the bytes keeps its meaning.
    Plain,
    /// A memory operand relative to the next instruction; its 32-bit
    /// displacement starts `disp_at` bytes into the instruction.
    RipRelative { disp_at: usize },
    /// A near call or jump with a 32-bit displacement at `disp_at`.
    Near { disp_at: usize },
    /// A two-byte short jump (`EB` or `70..7F`) with an 8-bit displacement.
    Short,
}

/// One decoded instruction: its length, its relocation class and whether
/// control never falls through to the next byte after it.
#[derive(Clone, Copy, Debug, PartialEq, Eq, Structural)]
pub struct Insn {
    pub len: usize,
    pub reloc: Reloc,
    pub ends_flow: bool,
}

/// Length of a ModRM byte at `i` together with its SIB byte and displacement,
/// and whether the operand is addressed relative to the instruction pointer.
pub open spec fn modrm_size(s: Seq<u8>, i: int) -> Option<(int, bool)> {
    if i < 0 || i >= s.len() {
        None
    } else {
        let md = s[i] / 64;
        let rm = s[i] % 8;
        if md == 3 {
            Some((1, false))
        } else if rm == 4 {
            if i + 1 >= s.len() {
                None
            } else if md == 0 {
                if s[i + 1] % 8 == 5 { Some((6, false)) } else { Some((2, false)) }
            } else if md == 1 {
                Some((3, false))
            } else {
                Some((6, false))
            }
        } else if md == 0 {
            if rm == 5 { Some((5, true)) } else { Some((1, false)) }
        } else if md == 1 {
            Some((2, false))
        } else {
            Some((5, false))
        }
    }
}

/// An instruction of `len` bytes at `at`, if that many bytes are available.
pub open spec fn fits(s: Seq<u8>, at: int, len: int, reloc: Reloc, ends_flow: bool) -> Option<Insn> {
    if at + len <= s.len() {
        Some(Insn { len: len as usize, reloc, ends_flow })
    } else {
        None
    }
}

/// An instruction made of `head` fixed bytes, an operand described by the
/// ModRM byte that follows them, and `imm` bytes of immediate.
pub open spec fn with_modrm(s: Seq<u8>, at: int, head: int, imm: int, ends_flow: bool) -> Option<Insn> {
    match modrm_size(s, at + head) {
        None => None,
        Some((m, rip)) => fits(
            s,
            at,
            head + m + imm,
            if rip { Reloc::RipRelative { disp_at: (head + 1) as usize } } else { Reloc::Plain },
            ends_flow,
        ),
    }
}

/// Opcodes taking a ModRM operand and no immediate.
pub open spec fn is_modrm_op(op: u8) -> bool {
    (op < 0x40 && op % 8 < 4) || op == 0x63 || (0x84 <= op && op <= 0x8b) || op == 0x8d
        || op == 0xd1 || op == 0xd3
}

/// Second bytes after `0F` that take a ModRM operand and no immediate.
pub open spec fn is_modrm_op_0f(op: u8) -> bool {
    op == 0x1f || (0x40 <= op && op <= 0x4f) || op == 0xaf || op == 0xb6 || op == 0xb7
        || op == 0xbe || op == 0xbf
}

/// The instruction encoded at `at`, for the forms that compilers emit at
/// function entry; `None` for any other form or when the bytes run out.
/// An optional `66` prefix may be followed by an optional REX prefix.
#[verifier::opaque]
pub open spec fn decode_at(s: Seq<u8>, at: int) -> Option<Insn> {
    if at < 0 || at >= s.len() {
        None
    } else {
        let opsize = s[at] == 0x66;
        let p: int = if opsize { 1 } else { 0 };
        let rex = at + p < s.len() && 0x40 <= s[at + p] && s[at + p] <= 0x4f;
        let q: int = if rex { p + 1 } else { p };
        let w = rex && (s[at + p] / 8) % 2 == 1;
        let imm: int = if opsize { 2 } else { 4 };
        if at + q >= s.len() {
            None
        } else {
            let op = s[at + q];
            if is_modrm_op(op) {
                with_modrm(s, at, q + 1, 0, false)
            } else if op < 0x40 && op % 8 == 4 {
                fits(s, at, q + 2, Reloc::Plain, false)
            } else if op < 0x40 && op % 8 == 5 {
                fits(s, at, q + 1 + imm, Reloc::Plain, false)
            } else if 0x50 <= op && op <= 0x5f {
                fits(s, at, q + 1, Reloc::Plain, false)
            } else if op == 0x90 {
                fits(s, at, q + 1, Reloc::Plain, false)
            } else if op == 0xc3 || op == 0xcc {
                fits(s, at, q + 1, Reloc::Plain, true)
            } else if op == 0xc2 {
                fits(s, at, q + 3, Reloc::Plain, true)
            } else if op == 0x80 || op == 0x83 || op == 0xc0 || op == 0xc1 || op == 0xc6 || op == 0x6b {
                with_modrm(s, at, q + 1, 1, false)
            } else if op == 0x81 || op == 0xc7 || op == 0x69 {
                with_modrm(s, at, q + 1, imm, false)
            } else if op == 0xff {
                let reg = if at + q + 1 < s.len() { (s[at + q + 1] / 8) % 8 } else { 0 };
                with_modrm(s, at, q + 1, 0, reg == 4 || reg == 5)
            } else if 0xb0 <= op && op <= 0xb7 {
                fits(s, at, q + 2, Reloc::Plain, false)
            } else if 0xb8 <= op && op <= 0xbf {
                fits(s, at, q + 1 + if w { 8 } else { imm }, Reloc::Plain, false)
            } else if op == 0x6a || op == 0xa8 {
                fits(s, at, q + 2, Reloc::Plain, false)
            } else if op == 0x68 || op == 0xa9 {
                fits(s, at, q + 1 + imm, Reloc::Plain, false)
            } else if q != 0 {
                None
            } else if op == 0xe8 {
                fits(s, at, 5, Reloc::Near { disp_at: 1 }, false)
            } else if op == 0xe9 {
                fits(s, at, 5, Reloc::Near { disp_at: 1 }, true)
            } else if op == 0xeb {
                fits(s, at, 2, Reloc::Short, true)
            } else if 0x70 <= op && op <= 0x7f {
                fits(s, at, 2, Reloc::Short, false)
            } else if op == 0x0f && at + 1 < s.len() {
                let op2 = s[at + 1];
                if is_modrm_op_0f(op2) {
                    with_modrm(s, at, 2, 0, false)
                } else if 0x80 <= op2 && op2 <= 0x8f {
                    fits(s, at, 6, Reloc::Near { disp_at: 2 }, false)
                } else {
                    None
                }
            } else {
                None
            }
        }
    }
}

/// Facts about every decoded instruction: its length, that it lies inside
/// the bytes, and where a displacement sits.
#[verifier::rlimit(100)]
pub proof fn lemma_decode_facts(s: Seq<u8>, at: int)
    requires
        decode_at(s, at) is Some,
    ensures
        ({
            let i = decode_at(s, at).unwrap();
            &&& 1 <= i.len <= 15
            &&& 0 <= at
            &&& at + i.len <= s.len()
            &&& i.reloc matches Reloc::RipRelative { disp_at } ==> disp_at + 4 <= i.len
            &&& i.reloc matches Reloc::Near { disp_at } ==> disp_at + 4 == i.len
            &&& i.reloc is Short ==> i.len == 2 && (s[at] == 0xeb || (0x70 <= s[at] <= 0x7f))
        }),
{
    reveal(decode_at);
}

fn modrm_size_exec(code: &[u8], i: usize) -> (r: Option<(usize, bool)>)
    ensures
        r matches Some((m, _)) ==> 1 <= m <= 6,
        match modrm_size(code@, i as int) {
            None => r is None,
            Some((m, rip)) => r == Some((m as usize, rip)),
        },
{
    if i >= code.len() {
        return None;
    }
    let md = code[i] / 64;
    let rm = code[i] % 8;
    if md == 3 {
        Some((1, false))
    } else if rm == 4 {
        if i + 1 >= code.len() {
            None
        } else if md == 0 {
            if code[i + 1] % 8 == 5 { Some((6, false)) } else { Some((2, false)) }
        } else if md == 1 {
            Some((3, false))
        } else {
            Some((6, false))
        }
    } else if md == 0 {
        if rm == 5 { Some((5, true)) } else { Some((1, false)) }
    } else if md == 1 {
        Some((2, false))
    } else {
        Some((5, false))
    }
}

fn fits_exec(code: &[u8], at: usize, len: usize, reloc: Reloc, ends_flow: bool) -> (r: Result<Insn, HookError>)
    requires
        at <= code@.len(),
        len <= 32,
    ensures
        r matches Ok(i) ==> i.len == len && at + len <= code@.len(),
        match fits(code@, at as int, len as int, reloc, ends_flow) {
            Some(i) => r == Ok::<Insn, HookError>(i),
            None => r == Err::<Insn, HookError>(HookError::UnsupportedInstruction),
        },
{
    if len <= code.len() - at {
        Ok(Insn { len, reloc, ends_flow })
    } else {
        Err(HookError::UnsupportedInstruction)
    }
}

fn with_modrm_exec(code: &[u8], at: usize, head: usize, imm: usize, ends_flow: bool) -> (r: Result<Insn, HookError>)
    requires
        at < code@.len(),
        head <= 3,
        imm <= 4,
    ensures
        r matches Ok(i) ==> head + 1 <= i.len <= head + 6 + imm && at + i.len <= code@.len(),
        match with_modrm(code@, at as int, head as int, imm as int, ends_flow) {
            Some(i) => r == Ok::<Insn, HookError>(i),
            None => r == Err::<Insn, HookError>(HookError::UnsupportedInstruction),
        },
{
    if head >= code.len() - at {
        return Err(HookError::UnsupportedInstruction);
    }
    match modrm_size_exec(code, at + head) {
        None => Err(HookError::UnsupportedInstruction),
        Some((m, rip)) => {
            let reloc = if rip { Reloc::RipRelative { disp_at: head + 1 } } else { Reloc::Plain };
            fits_exec(code, at, head + m + imm, reloc, ends_flow)
        },
    }
}

/// Decodes the one instruction that starts `at` bytes into `code`, for the
/// instruction forms of short function prologues. Any other form, or an
/// instruction cut off by the end of `code`, is refused: the decoder never
/// guesses a length.
pub fn length_of_instruction_at(code: &[u8], at: usize) -> (r: Result<Insn, HookError>)
    ensures
        r matches Ok(i) ==> 1 <= i.len <= 15 && at + i.len <= code@.len(),
        match decode_at(code@, at as int) {
            Some(i) => r == Ok::<Insn, HookError>(i),
            None => r == Err::<Insn, HookError>(HookError::UnsupportedInstruction),
        },
{
    reveal(decode_at);
    if at >= code.len() {
        return Err(HookError::UnsupportedInstruction);
    }
    let opsize = code[at] == 0x66;
    let p: usize = if opsize { 1 } else { 0 };
    let rex = p < code.len() - at && 0x40 <= code[at + p] && code[at + p] <= 0x4f;
    let q: usize = if rex { p + 1 } else { p };
    let w = rex && (code[at + p] / 8) % 2 == 1;
    let imm: usize = if opsize { 2 } else { 4 };
    if q >= code.len() - at {
        return Err(HookError::UnsupportedInstruction);
    }
    let op = code[at + q];
    if (op < 0x40 && op % 8 < 4) || op == 0x63 || (0x84 <= op && op <= 0x8b) || op == 0x8d
        || op == 0xd1 || op == 0xd3 {
        with_modrm_exec(code, at, q + 1, 0, false)
    } else if op < 0x40 && op % 8 == 4 {
        fits_exec(code, at, q + 2, Reloc::Plain, false)
    } else if op < 0x40 && op % 8 == 5 {
        fits_exec(code, at, q + 1 + imm, Reloc::Plain, false)
    } else if 0x50 <= op && op <= 0x5f {
        fits_exec(code, at, q + 1, Reloc::Plain, false)
    } else if op == 0x90 {
        fits_exec(code, at, q + 1, Reloc::Plain, false)
    } else if op == 0xc3 || op == 0xcc {
        fits_exec(code, at, q + 1, Reloc::Plain, true)
    } else if op == 0xc2 {
        fits_exec(code, at, q + 3, Reloc::Plain, true)
    } else if op == 0x80 || op == 0x83 || op == 0xc0 || op == 0xc1 || op == 0xc6 || op == 0x6b {
        with_modrm_exec(code, at, q + 1, 1, false)
    } else if op == 0x81 || op == 0xc7 || op == 0x69 {
        with_modrm_exec(code, at, q + 1, imm, false)
    } else if op == 0xff {
        let reg = if q + 1 < code.len() - at { (code[at + q + 1] / 8) % 8 } else { 0 };
        with_modrm_exec(code, at, q + 1, 0, reg == 4 || reg == 5)
    } else if 0xb0 <= op && op <= 0xb7 {
        fits_exec(code, at, q + 2, Reloc::Plain, false)
    } else if 0xb8 <= op && op <= 0xbf {
        fits_exec(code, at, q + 1 + if w { 8 } else { imm }, Reloc::Plain, false)
    } else if op == 0x6a || op == 0xa8 {
        fits_exec(code, at, q + 2, Reloc::Plain, false)
    } else if op == 0x68 || op == 0xa9 {
        fits_exec(code, at, q + 1 + imm, Reloc::Plain, false)
    } else if q != 0 {
        Err(HookError::UnsupportedInstruction)
    } else if op == 0xe8 {
        fits_exec(code, at, 5, Reloc::Near { disp_at: 1 }, false)
    } else if op == 0xe9 {
        fits_exec(code, at, 5, Reloc::Near { disp_at: 1 }, true)
    } else if op == 0xeb {
        fits_exec(code, at, 2, Reloc::Short, true)
    } else if 0x70 <= op && op <= 0x7f {
        fits_exec(code, at, 2, Reloc::Short, false)
    } else if op == 0x0f && at + 1 < code.len() {
        let op2 = code[at + 1];
        if op2 == 0x1f || (0x40 <= op2 && op2 <= 0x4f) || op2 == 0xaf || op2 == 0xb6 || op2 == 0xb7
            || op2 == 0xbe || op2 == 0xbf {
            with_modrm_exec(code, at, 2, 0, false)
        } else if 0x80 <= op2 && op2 <= 0x8f {
            fits_exec(code, at, 6, Reloc::Near { disp_at: 2 }, false)
        } else {
            Err(HookError::UnsupportedInstruction)
        }
    } else {
        Err(HookError::UnsupportedInstruction)
    }
}

} // verus!
