use vstd::prelude::*;
use crate::code_space::{CodeSpace, ThreadSnapshot, lemma_written_elsewhere, lemma_written_here};
use crate::error::HookError;
use crate::pool::{SlotPool, TrampolineSlot, usable};
use crate::prologue::{REDIRECT_JUMP_SIZE, lemma_prologue_covers_footprint, measure_prologue, prologue_of, total_len};
use crate::trampoline::{RELAY_SIZE, SLOT_SIZE, Trampoline, build_trampoline, relocation_of, trampoline_matches};

verus! {

/// How many bytes from a target are read to decode its prologue.
pub const PROLOGUE_WINDOW: usize = 32;

/// Where a hook stands in its lifecycle:
/// `Created -> Enabled <-> Disabled -> Removed`.
#[derive(Clone, Copy, Debug, PartialEq, Eq, Structural)]
pub enum HookState {
    /// The trampoline is built; the target is untouched.
    Created,
    /// The redirect jump is installed at the target.
    Enabled,
    /// The original bytes are back; the trampoline stays allocated.
    Disabled,
    /// The slot is released; the handle no longer works.
    Removed,
}

/// Everything the registry keeps about one hooked target. It does not
/// change after creation; the hook's state is kept beside it.
pub struct HookRecord {
    pub target_address: u64,
    pub replacement_address: u64,
    /// The whole instructions that the redirect jump overwrites.
    pub original_prologue_bytes: Vec<u8>,
    /// The stub that runs the relocated prologue and then the rest of the target.
    pub trampoline_address: u64,
    /// The stub's bytes, placed at `trampoline_address`.
    pub stub: Vec<u8>,
    /// The jump installed at the target while the hook is enabled.
    pub redirect: Vec<u8>,
    /// For each relocated instruction: its offset in the target and in the stub.
    pub ip_map: Vec<(usize, usize)>,
    /// The pool slot holding the stub.
    pub slot: usize,
}

/// Names one hook of a `HookEngine`.
#[derive(Clone, Copy, Debug, PartialEq, Eq, Structural)]
pub struct HookHandle {
    pub index: usize,
}

/// The hook registry: one record and one state per hook ever created, and
/// the pool that holds their trampolines.
pub struct HookEngine {
    pub records: Vec<HookRecord>,
    pub states: Vec<HookState>,
    pub pool: SlotPool,
}

/// Offset `off` looked up in `map`, from the target side to the stub side
/// when `forward`, the other way otherwise.
pub open spec fn find_pair(map: Seq<(usize, usize)>, off: int, forward: bool) -> Option<int>
    decreases map.len(),
{
    if map.len() == 0 {
        None
    } else {
        let p = map[0];
        let (a, b) = if forward { (p.0 as int, p.1 as int) } else { (p.1 as int, p.0 as int) };
        if a == off { Some(b) } else { find_pair(map.drop_first(), off, forward) }
    }
}

/// Where a frozen thread at `ip` must resume once the `span` bytes after
/// `from` are rewritten: unchanged outside them, at the matching instruction
/// from `to` inside them, and nowhere (`None`) when it sits at no
/// instruction boundary that `map` knows.
pub open spec fn moved_ip(ip: int, from: int, span: int, to: int, map: Seq<(usize, usize)>, forward: bool) -> Option<int> {
    if !(from < ip && ip < from + span) {
        Some(ip)
    } else {
        match find_pair(map, ip - from, forward) {
            Some(n) => if 0 <= to + n <= u64::MAX { Some(to + n) } else { None },
            None => None,
        }
    }
}

/// Every thread could be suspended.
pub open spec fn all_suspended(ts: Seq<ThreadSnapshot>) -> bool {
    forall|k: int| 0 <= k < ts.len() ==> (#[trigger] ts[k]).suspended
}

/// Every thread has a place to resume after the rewrite.
pub open spec fn threads_movable(ts: Seq<ThreadSnapshot>, from: int, span: int, to: int, map: Seq<(usize, usize)>, forward: bool) -> bool {
    forall|k: int| 0 <= k < ts.len() ==> moved_ip((#[trigger] ts[k]).ip as int, from, span, to, map, forward) is Some
}

/// `after` is `before` with every thread moved to where it must resume.
pub open spec fn threads_moved(before: Seq<ThreadSnapshot>, after: Seq<ThreadSnapshot>, from: int, span: int, to: int,
    map: Seq<(usize, usize)>, forward: bool) -> bool {
    &&& after.len() == before.len()
    &&& forall|k: int| #![trigger after[k]] 0 <= k < before.len() ==> {
        &&& moved_ip(before[k].ip as int, from, span, to, map, forward) == Some(after[k].ip as int)
        &&& after[k].id == before[k].id
        &&& after[k].suspended == before[k].suspended
    }
}

/// Length of the relocated prologue at the start of a record's stub.
pub open spec fn relocated_len(r: HookRecord) -> int {
    r.stub@.len() - 5 - RELAY_SIZE
}

fn find_in_map(map: &Vec<(usize, usize)>, off: u64, forward: bool) -> (r: Option<usize>)
    ensures
        match find_pair(map@, off as int, forward) {
            None => r is None,
            Some(n) => r matches Some(m) && m as int == n,
        },
{
    let mut i: usize = 0;
    assert(map@.subrange(0, map@.len() as int) =~= map@);
    while i < map.len()
        invariant
            0 <= i <= map@.len(),
            find_pair(map@, off as int, forward) == find_pair(map@.subrange(i as int, map@.len() as int), off as int, forward),
        decreases map@.len() - i,
    {
        let p = map[i];
        let (a, b) = if forward { (p.0, p.1) } else { (p.1, p.0) };
        assert(map@.subrange(i as int, map@.len() as int).drop_first() =~= map@.subrange(i + 1, map@.len() as int));
        if a as u64 == off {
            return Some(b);
        }
        i = i + 1;
    }
    None
}

/// Where each frozen thread resumes once the `span` bytes after `from` are
/// rewritten; `None` when one of them has no safe place.
fn move_threads(threads: &Vec<ThreadSnapshot>, from: u64, span: usize, to: u64, map: &Vec<(usize, usize)>, forward: bool)
    -> (r: Option<Vec<ThreadSnapshot>>)
    ensures
        threads_movable(threads@, from as int, span as int, to as int, map@, forward) ==> (r matches Some(v)
            && threads_moved(threads@, v@, from as int, span as int, to as int, map@, forward)),
        !threads_movable(threads@, from as int, span as int, to as int, map@, forward) ==> r is None,
{
    let mut out: Vec<ThreadSnapshot> = Vec::new();
    let mut k: usize = 0;
    while k < threads.len()
        invariant
            0 <= k <= threads@.len(),
            threads_movable(threads@.subrange(0, k as int), from as int, span as int, to as int, map@, forward),
            threads_moved(threads@.subrange(0, k as int), out@, from as int, span as int, to as int, map@, forward),
        decreases threads@.len() - k,
    {
        let t = threads[k];
        assert(t == threads@[k as int]);
        let ip: u64 = if from < t.ip && (t.ip - from) < span as u64 {
            match find_in_map(map, t.ip - from, forward) {
                None => {
                    assert(moved_ip(t.ip as int, from as int, span as int, to as int, map@, forward) is None);
                    assert(!threads_movable(threads@, from as int, span as int, to as int, map@, forward));
                    return None;
                },
                Some(n) => {
                    if n as u128 + to as u128 > u64::MAX as u128 {
                            assert(!threads_movable(threads@, from as int, span as int, to as int, map@, forward));
                        return None;
                    }
                    to + n as u64
                },
            }
        } else {
            t.ip
        };
        let ghost before = out@;
        assert(moved_ip(t.ip as int, from as int, span as int, to as int, map@, forward) == Some(ip as int));
        out.push(ThreadSnapshot { ip, ..t });
        proof {
            let sub = threads@.subrange(0, k + 1);
            assert(sub =~= threads@.subrange(0, k as int).push(t));
            assert forall|j: int| 0 <= j < sub.len() implies moved_ip((#[trigger] sub[j]).ip as int, from as int, span as int, to as int, map@, forward) is Some by {
                if j < k {
                    assert(sub[j] == threads@.subrange(0, k as int)[j]);
                }
            }
            assert forall|j: int| #![trigger out@[j]] 0 <= j < sub.len() implies {
                &&& moved_ip(sub[j].ip as int, from as int, span as int, to as int, map@, forward) == Some(out@[j].ip as int)
                &&& out@[j].id == sub[j].id
                &&& out@[j].suspended == sub[j].suspended
            } by {
                if j < k {
                    assert(sub[j] == threads@.subrange(0, k as int)[j]);
                    assert(out@[j] == before[j]);
                }
            }
        }
        k = k + 1;
    }
    assert(threads@.subrange(0, threads@.len() as int) =~= threads@);
    Some(out)
}

fn all_threads_suspended(threads: &Vec<ThreadSnapshot>) -> (r: bool)
    ensures
        r == all_suspended(threads@),
{
    let mut k: usize = 0;
    while k < threads.len()
        invariant
            0 <= k <= threads@.len(),
            forall|j: int| 0 <= j < k ==> (#[trigger] threads@[j]).suspended,
        decreases threads@.len() - k,
    {
        if !threads[k].suspended {
            return false;
        }
        k = k + 1;
    }
    true
}

impl HookEngine {
    /// Whether a live (not removed) hook on `t` exists.
    pub open spec fn hooked(&self, t: u64) -> bool {
        exists|i: int| 0 <= i < self.records@.len() && self.states@[i] != HookState::Removed
            && #[trigger] self.records@[i].target_address == t
    }

    /// Whether `h` names a live hook.
    pub open spec fn live(&self, h: HookHandle) -> bool {
        h.index < self.records@.len() && self.states@[h.index as int] != HookState::Removed
    }

    /// The registry's invariant: a state per record; at most one live hook
    /// per target; each live hook holds its own slot in use; its recorded
    /// bytes have the sizes the patches need.
    pub open spec fn wf(&self) -> bool {
        &&& self.states@.len() == self.records@.len()
        &&& forall|i: int, j: int| #![trigger self.records@[i], self.records@[j]]
            0 <= i < j < self.records@.len() && self.states@[i] != HookState::Removed
            && self.states@[j] != HookState::Removed ==> self.records@[i].target_address
            != self.records@[j].target_address && self.records@[i].slot != self.records@[j].slot
        &&& forall|i: int| 0 <= i < self.records@.len() && self.states@[i] != HookState::Removed ==> {
            let r = #[trigger] self.records@[i];
            &&& r.slot < self.pool.slots@.len()
            &&& self.pool.slots@[r.slot as int].in_use
            &&& self.pool.slots@[r.slot as int].base_address == r.trampoline_address
            &&& r.original_prologue_bytes@.len() >= REDIRECT_JUMP_SIZE
            &&& r.redirect@.len() == REDIRECT_JUMP_SIZE
            &&& r.stub@.len() >= 5 + RELAY_SIZE
            &&& r.stub@.len() <= SLOT_SIZE
        }
    }

    /// A registry without hooks, and an empty pool.
    pub fn new() -> (r: HookEngine)
        ensures
            r.wf(),
            r.records@.len() == 0,
            r.pool.slots@.len() == 0,
    {
        HookEngine { records: Vec::new(), states: Vec::new(), pool: SlotPool::new() }
    }

    /// Whether a live hook on `target` exists.
    pub fn is_hooked(&self, target: u64) -> (r: bool)
        requires
            self.wf(),
        ensures
            r == self.hooked(target),
    {
        let mut i: usize = 0;
        while i < self.records.len()
            invariant
                self.wf(),
                0 <= i <= self.records@.len(),
                forall|j: int| 0 <= j < i ==> !(self.states@[j] != HookState::Removed
                    && #[trigger] self.records@[j].target_address == target),
            decreases self.records@.len() - i,
        {
            if self.records[i].target_address == target && self.states[i] != HookState::Removed {
                return true;
            }
            i = i + 1;
        }
        false
    }

    /// The state of the hook `h`; an error for a handle this registry never gave.
    pub fn state(&self, h: HookHandle) -> (r: Result<HookState, HookError>)
        requires
            self.wf(),
        ensures
            h.index < self.records@.len() ==> r == Ok::<HookState, HookError>(self.states@[h.index as int]),
            h.index >= self.records@.len() ==> r == Err::<HookState, HookError>(HookError::InvalidHandle),
    {
        if h.index < self.states.len() {
            Ok(self.states[h.index])
        } else {
            Err(HookError::InvalidHandle)
        }
    }

    /// The entry point that runs the original behaviour of the hooked
    /// target: its trampoline. Valid while the hook is not removed.
    pub fn original_entry_point(&self, h: HookHandle) -> (r: Result<u64, HookError>)
        requires
            self.wf(),
        ensures
            self.live(h) ==> r == Ok::<u64, HookError>(self.records@[h.index as int].trampoline_address),
            !self.live(h) ==> r == Err::<u64, HookError>(HookError::InvalidHandle),
    {
        if h.index < self.records.len() && self.states[h.index] != HookState::Removed {
            Ok(self.records[h.index].trampoline_address)
        } else {
            Err(HookError::InvalidHandle)
        }
    }
}

/// The bytes a hook on `t` decodes its prologue from.
pub open spec fn prologue_window(m: CodeSpace, t: u64) -> Seq<u8> {
    m.window(t as int, PROLOGUE_WINDOW as int)
}

/// The index of the first slot of `s` that can serve a target at `near`.
pub open spec fn first_usable(s: Seq<TrampolineSlot>, near: int) -> Option<int>
    decreases s.len(),
{
    if s.len() == 0 {
        None
    } else {
        match first_usable(s.drop_last(), near) {
            Some(i) => Some(i),
            None => if usable(s.last(), near) { Some(s.len() - 1) } else { None },
        }
    }
}

proof fn lemma_first_usable(s: Seq<TrampolineSlot>, near: int, i: int)
    requires
        0 <= i < s.len(),
        usable(s[i], near),
        forall|j: int| 0 <= j < i ==> !usable(#[trigger] s[j], near),
    ensures
        first_usable(s, near) == Some(i),
    decreases s.len(),
{
    if i < s.len() - 1 {
        lemma_first_usable(s.drop_last(), near, i);
    } else {
        lemma_first_usable_none(s.drop_last(), near);
    }
}

proof fn lemma_first_usable_none(s: Seq<TrampolineSlot>, near: int)
    requires
        forall|j: int| 0 <= j < s.len() ==> !usable(#[trigger] s[j], near),
    ensures
        first_usable(s, near) is None,
    decreases s.len(),
{
    if s.len() > 0 {
        lemma_first_usable_none(s.drop_last(), near);
    }
}

/// The pool `s1` is `s0` with possibly more slots in use.
pub open spec fn slots_only_taken(s0: Seq<TrampolineSlot>, s1: Seq<TrampolineSlot>) -> bool {
    &&& s1.len() == s0.len()
    &&& forall|j: int| 0 <= j < s0.len() ==> (#[trigger] s1[j]).base_address == s0[j].base_address
        && (s0[j].in_use ==> s1[j].in_use)
}

proof fn lemma_first_usable_none_all(s: Seq<TrampolineSlot>, near: int)
    requires
        first_usable(s, near) is None,
    ensures
        forall|j: int| 0 <= j < s.len() ==> !usable(#[trigger] s[j], near),
    decreases s.len(),
{
    if s.len() > 0 {
        lemma_first_usable_none_all(s.drop_last(), near);
        assert forall|j: int| 0 <= j < s.len() implies !usable(#[trigger] s[j], near) by {
            if j < s.len() - 1 {
                assert(s.drop_last()[j] == s[j]);
            }
        }
    }
}

/// Taking slots never gives a target a usable slot it did not have.
pub proof fn lemma_no_slot_stays(s0: Seq<TrampolineSlot>, s1: Seq<TrampolineSlot>, near: int)
    requires
        first_usable(s0, near) is None,
        slots_only_taken(s0, s1),
    ensures
        first_usable(s1, near) is None,
{
    lemma_first_usable_none_all(s0, near);
    assert forall|j: int| 0 <= j < s1.len() implies !usable(#[trigger] s1[j], near) by {
        assert(!usable(s0[j], near));
    }
    lemma_first_usable_none(s1, near);
}

/// Whether the ranges `[a, a + alen)` and `[b, b + blen)` share a byte.
pub open spec fn overlaps(a: int, alen: int, b: int, blen: int) -> bool {
    a < b + blen && b < a + alen
}

/// The registry and the pool are as they were.
pub open spec fn unchanged(e0: HookEngine, e1: HookEngine) -> bool {
    &&& e1.records@ == e0.records@
    &&& e1.states@ == e0.states@
    &&& e1.pool.slots@ == e0.pool.slots@
}

/// The code space is as it was.
pub open spec fn same_code(m0: CodeSpace, m1: CodeSpace) -> bool {
    m1.base == m0.base && m1.bytes@ == m0.bytes@
}

/// The trampoline that a record was built as.
pub open spec fn record_trampoline(r: HookRecord) -> Trampoline {
    Trampoline { stub: r.stub, redirect: r.redirect, original: r.original_prologue_bytes, ip_map: r.ip_map }
}

/// What every call of `create` comes to, in short: `AlreadyHooked`
/// exactly when the target has a live hook; `AllocationFailure` for a
/// decodable target when no slot of the pool can serve it; on any error
/// nothing changes; on success a record is appended in state `Created`
/// whose original bytes are exactly the decoded prologue's whole
/// instructions found at the target, those bytes are left as they were,
/// and the pool's slots only go into use.
pub open spec fn create_summary(e0: HookEngine, m0: CodeSpace, t: u64, replacement: u64, e1: HookEngine, m1: CodeSpace,
    r: Result<HookHandle, HookError>) -> bool {
    &&& (r == Err::<HookHandle, HookError>(HookError::AlreadyHooked) <==> e0.hooked(t))
    &&& r is Err ==> unchanged(e0, e1) && same_code(m0, m1)
    &&& (!e0.hooked(t) && prologue_of(prologue_window(m0, t)) is Some && first_usable(e0.pool.slots@, t as int) is None)
        ==> r == Err::<HookHandle, HookError>(HookError::AllocationFailure)
    &&& r is Ok ==> slots_only_taken(e0.pool.slots@, e1.pool.slots@)
    &&& r matches Ok(h) ==> {
        let rec = e1.records@.last();
        let n = rec.original_prologue_bytes@.len() as int;
        &&& h.index == e0.records@.len()
        &&& e1.records@.len() == e0.records@.len() + 1
        &&& e1.records@.drop_last() == e0.records@
        &&& rec.target_address == t
        &&& rec.replacement_address == replacement
        &&& e1.states@ == e0.states@.push(HookState::Created)
        &&& n >= REDIRECT_JUMP_SIZE
        &&& prologue_of(prologue_window(m0, t)) is Some
        &&& n == total_len(prologue_of(prologue_window(m0, t)).unwrap())
        &&& m0.covers(t as int, n)
        &&& rec.original_prologue_bytes@ == m0.at(t as int, n)
        &&& m1.at(t as int, n) == m0.at(t as int, n)
        &&& m1.base == m0.base
        &&& m1.bytes@.len() == m0.bytes@.len()
    }
}

/// What `create` does, in short and in full.
pub open spec fn create_post(e0: HookEngine, m0: CodeSpace, t: u64, replacement: u64, e1: HookEngine, m1: CodeSpace,
    r: Result<HookHandle, HookError>) -> bool {
    create_summary(e0, m0, t, replacement, e1, m1, r) && create_detail(e0, m0, t, replacement, e1, m1, r)
}

/// What `create` does exactly: refuse a target that is already hooked, one whose
/// prologue cannot be decoded, one with no free slot in reach, and one
/// whose trampoline cannot be built or placed; otherwise record a new hook
/// in state `Created`, take the first usable slot, and write the stub into
/// it. The target's own bytes are not touched. A refusal changes nothing.
#[verifier::opaque]
pub open spec fn create_detail(e0: HookEngine, m0: CodeSpace, t: u64, replacement: u64, e1: HookEngine, m1: CodeSpace,
    r: Result<HookHandle, HookError>) -> bool {
    let c = prologue_window(m0, t);
    if e0.hooked(t) {
        r == Err::<HookHandle, HookError>(HookError::AlreadyHooked) && unchanged(e0, e1) && same_code(m0, m1)
    } else if prologue_of(c) is None {
        r == Err::<HookHandle, HookError>(HookError::UnsupportedInstruction) && unchanged(e0, e1) && same_code(m0, m1)
    } else {
        match first_usable(e0.pool.slots@, t as int) {
            None => r == Err::<HookHandle, HookError>(HookError::AllocationFailure) && unchanged(e0, e1) && same_code(m0, m1),
            Some(i) => {
                let a = e0.pool.slots@[i].base_address;
                match relocation_of(c, t as int, a as int) {
                    Err(e) => r == Err::<HookHandle, HookError>(e) && unchanged(e0, e1) && same_code(m0, m1),
                    Ok((v, rel)) => {
                        let plen = total_len(v) as int;
                        if !m0.covers(a as int, SLOT_SIZE as int) || overlaps(a as int, SLOT_SIZE as int, t as int, plen) {
                            r == Err::<HookHandle, HookError>(HookError::PatchWriteFailure) && unchanged(e0, e1) && same_code(m0, m1)
                        } else {
                            let rec = e1.records@.last();
                            &&& r == Ok::<HookHandle, HookError>(HookHandle { index: e0.records@.len() as usize })
                            &&& e1.records@.len() == e0.records@.len() + 1
                            &&& e1.records@.drop_last() == e0.records@
                            &&& rec.target_address == t
                            &&& rec.replacement_address == replacement
                            &&& rec.trampoline_address == a
                            &&& rec.slot == i
                            &&& trampoline_matches(record_trampoline(rec), c, t as int, a as int, replacement, v, rel)
                            &&& e1.states@ == e0.states@.push(HookState::Created)
                            &&& e1.pool.slots@ == e0.pool.slots@.update(i, TrampolineSlot { in_use: true, ..e0.pool.slots@[i] })
                            &&& m1.base == m0.base
                            &&& m1.bytes@ == CodeSpace::written(m0.bytes@, m0.base as int, a as int, rec.stub@)
                        }
                    },
                }
            },
        }
    }
}

/// What `enable` does: nothing for an enabled hook; for a created or
/// disabled one, with every thread frozen at a safe point, write the
/// redirect jump at the target and move the threads that stood inside the
/// overwritten prologue to the same instructions in the trampoline.
#[verifier::opaque]
pub open spec fn enable_post(e0: HookEngine, m0: CodeSpace, t0: Seq<ThreadSnapshot>, h: HookHandle, e1: HookEngine,
    m1: CodeSpace, t1: Seq<ThreadSnapshot>, r: Result<(), HookError>) -> bool {
    let rec = e0.records@[h.index as int];
    let keep = unchanged(e0, e1) && same_code(m0, m1) && t1 == t0;
    if !e0.live(h) {
        r == Err::<(), HookError>(HookError::InvalidHandle) && keep
    } else if e0.states@[h.index as int] == HookState::Enabled {
        r == Ok::<(), HookError>(()) && keep
    } else if !all_suspended(t0) {
        r == Err::<(), HookError>(HookError::ThreadSuspendFailure) && keep
    } else if !m0.covers(rec.target_address as int, REDIRECT_JUMP_SIZE as int) {
        r == Err::<(), HookError>(HookError::PatchWriteFailure) && keep
    } else if !threads_movable(t0, rec.target_address as int, rec.original_prologue_bytes@.len() as int,
        rec.trampoline_address as int, rec.ip_map@, true) {
        r == Err::<(), HookError>(HookError::ThreadSuspendFailure) && keep
    } else {
        &&& r == Ok::<(), HookError>(())
        &&& e1.records@ == e0.records@
        &&& e1.pool.slots@ == e0.pool.slots@
        &&& e1.states@ == e0.states@.update(h.index as int, HookState::Enabled)
        &&& m1.base == m0.base
        &&& m1.bytes@ == CodeSpace::written(m0.bytes@, m0.base as int, rec.target_address as int, rec.redirect@)
        &&& threads_moved(t0, t1, rec.target_address as int, rec.original_prologue_bytes@.len() as int,
            rec.trampoline_address as int, rec.ip_map@, true)
    }
}

/// The checks and the write that take an enabled hook's redirect out: every
/// thread frozen at a safe point, the original bytes written back, and the
/// threads that stood in the relocated prologue moved back to the target.
pub open spec fn restore_post(rec: HookRecord, m0: CodeSpace, t0: Seq<ThreadSnapshot>, m1: CodeSpace,
    t1: Seq<ThreadSnapshot>, r: Result<(), HookError>) -> bool {
    let keep = same_code(m0, m1) && t1 == t0;
    if !all_suspended(t0) {
        r == Err::<(), HookError>(HookError::ThreadSuspendFailure) && keep
    } else if !m0.covers(rec.target_address as int, rec.original_prologue_bytes@.len() as int) {
        r == Err::<(), HookError>(HookError::PatchWriteFailure) && keep
    } else if !threads_movable(t0, rec.trampoline_address as int, relocated_len(rec), rec.target_address as int,
        rec.ip_map@, false) {
        r == Err::<(), HookError>(HookError::ThreadSuspendFailure) && keep
    } else {
        &&& r == Ok::<(), HookError>(())
        &&& m1.base == m0.base
        &&& m1.bytes@ == CodeSpace::written(m0.bytes@, m0.base as int, rec.target_address as int,
            rec.original_prologue_bytes@)
        &&& threads_moved(t0, t1, rec.trampoline_address as int, relocated_len(rec), rec.target_address as int,
            rec.ip_map@, false)
    }
}

/// What `disable` does: nothing for a created or disabled hook; for an
/// enabled one, restore the original bytes (see `restore_post`) and mark
/// it disabled.
#[verifier::opaque]
pub open spec fn disable_post(e0: HookEngine, m0: CodeSpace, t0: Seq<ThreadSnapshot>, h: HookHandle, e1: HookEngine,
    m1: CodeSpace, t1: Seq<ThreadSnapshot>, r: Result<(), HookError>) -> bool {
    let keep = unchanged(e0, e1) && same_code(m0, m1) && t1 == t0;
    if !e0.live(h) {
        r == Err::<(), HookError>(HookError::InvalidHandle) && keep
    } else if e0.states@[h.index as int] != HookState::Enabled {
        r == Ok::<(), HookError>(()) && keep
    } else {
        &&& restore_post(e0.records@[h.index as int], m0, t0, m1, t1, r)
        &&& e1.records@ == e0.records@
        &&& e1.pool.slots@ == e0.pool.slots@
        &&& r is Ok ==> e1.states@ == e0.states@.update(h.index as int, HookState::Disabled)
        &&& r is Err ==> e1.states@ == e0.states@
    }
}

/// What `remove` does: an enabled hook is first disabled (see
/// `restore_post`); then its slot is released and it is marked removed.
#[verifier::opaque]
pub open spec fn remove_post(e0: HookEngine, m0: CodeSpace, t0: Seq<ThreadSnapshot>, h: HookHandle, e1: HookEngine,
    m1: CodeSpace, t1: Seq<ThreadSnapshot>, r: Result<(), HookError>) -> bool {
    let rec = e0.records@[h.index as int];
    let released = e1.records@ == e0.records@
        && e1.states@ == e0.states@.update(h.index as int, HookState::Removed)
        && e1.pool.slots@ == e0.pool.slots@.update(rec.slot as int,
            TrampolineSlot { in_use: false, ..e0.pool.slots@[rec.slot as int] });
    if !e0.live(h) {
        r == Err::<(), HookError>(HookError::InvalidHandle) && unchanged(e0, e1) && same_code(m0, m1) && t1 == t0
    } else if e0.states@[h.index as int] == HookState::Enabled {
        &&& restore_post(rec, m0, t0, m1, t1, r)
        &&& r is Ok ==> released
        &&& r is Err ==> unchanged(e0, e1)
    } else {
        r == Ok::<(), HookError>(()) && released && same_code(m0, m1) && t1 == t0
    }
}

proof fn lemma_wf_after_push(e0: HookEngine, e1: HookEngine, i: int)
    requires
        e0.wf(),
        e1.records@.len() == e0.records@.len() + 1,
        e1.records@.drop_last() == e0.records@,
        !e0.hooked(e1.records@.last().target_address),
        0 <= i < e0.pool.slots@.len(),
        !e0.pool.slots@[i].in_use,
        e1.states@ == e0.states@.push(HookState::Created),
        e1.pool.slots@ == e0.pool.slots@.update(i, TrampolineSlot { in_use: true, ..e0.pool.slots@[i] }),
        e1.records@.last().slot == i,
        e1.records@.last().trampoline_address == e0.pool.slots@[i].base_address,
        e1.records@.last().original_prologue_bytes@.len() >= REDIRECT_JUMP_SIZE,
        e1.records@.last().redirect@.len() == REDIRECT_JUMP_SIZE,
        e1.records@.last().stub@.len() >= 5 + RELAY_SIZE,
        e1.records@.last().stub@.len() <= SLOT_SIZE,
    ensures
        e1.wf(),
{
    let recs0 = e0.records@;
    let n = recs0.len();
    assert forall|k: int| 0 <= k < n implies e1.records@[k] == recs0[k] by {
        assert(e1.records@.drop_last()[k] == e1.records@[k]);
    }
    assert forall|k: int| 0 <= k < e1.records@.len() && e1.states@[k] != HookState::Removed implies {
        let r = #[trigger] e1.records@[k];
        &&& r.slot < e1.pool.slots@.len()
        &&& e1.pool.slots@[r.slot as int].in_use
        &&& e1.pool.slots@[r.slot as int].base_address == r.trampoline_address
        &&& r.original_prologue_bytes@.len() >= REDIRECT_JUMP_SIZE
        &&& r.redirect@.len() == REDIRECT_JUMP_SIZE
        &&& r.stub@.len() >= 5 + RELAY_SIZE
        &&& r.stub@.len() <= SLOT_SIZE
    } by {
        if k < n {
            assert(e0.states@[k] != HookState::Removed);
            assert(e0.records@[k] == recs0[k]);
            assert(recs0[k].slot != i);
        }
    }
    assert forall|k: int, j: int| #![trigger e1.records@[k], e1.records@[j]]
        0 <= k < j < e1.records@.len() && e1.states@[k] != HookState::Removed
        && e1.states@[j] != HookState::Removed implies e1.records@[k].target_address
        != e1.records@[j].target_address && e1.records@[k].slot != e1.records@[j].slot by {
        assert(e0.states@[k] != HookState::Removed);
        assert(e1.records@[k] == recs0[k]);
        if j < n {
            assert(e0.states@[j] != HookState::Removed);
            assert(e1.records@[j] == recs0[j]);
            assert(recs0[k].target_address != recs0[j].target_address && recs0[k].slot != recs0[j].slot);
        } else {
            assert(e1.records@[j] == e1.records@.last());
            assert(e0.records@[k].target_address != e1.records@.last().target_address);
            assert(e0.pool.slots@[e0.records@[k].slot as int].in_use);
        }
    }
}

impl HookEngine {
    /// Installs nothing yet: checks that `target` may be hooked, builds its
    /// trampoline into the first free slot within reach, and records the
    /// hook in state `Created`.
    #[verifier::rlimit(100)]
    pub fn create(&mut self, mem: &mut CodeSpace, target: u64, replacement: u64) -> (r: Result<HookHandle, HookError>)
        requires
            old(self).wf(),
            old(mem).wf(),
        ensures
            final(self).wf(),
            final(mem).wf(),
            create_post(*old(self), *old(mem), target, replacement, *final(self), *final(mem), r),
            final(mem).base == old(mem).base,
            r is Err ==> final(self).records@ == old(self).records@ && final(self).states@ == old(self).states@,
            r matches Ok(h) ==> h.index == old(self).records@.len()
                && final(self).records@.len() == old(self).records@.len() + 1
                && final(self).records@.drop_last() == old(self).records@
                && final(self).records@.last().target_address == target
                && final(self).records@.last().replacement_address == replacement
                && final(self).states@ == old(self).states@.push(HookState::Created),
    {
        reveal(create_detail);
        if self.is_hooked(target) {
            return Err(HookError::AlreadyHooked);
        }
        let code = mem.read_window(target, PROLOGUE_WINDOW);
        let ghost c = code@;
        match measure_prologue(code.as_slice()) {
            Err(e) => { return Err(e); },
            Ok(_) => {},
        }
        let ghost slots0 = self.pool.slots@;
        let slot = match self.pool.allocate_slot(target) {
            None => {
                proof { lemma_first_usable_none(slots0, target as int); }
                return Err(HookError::AllocationFailure);
            },
            Some(i) => i,
        };
        proof { lemma_first_usable(slots0, target as int, slot as int); }
        let a = self.pool.slots[slot].base_address;
        let tr = match build_trampoline(code.as_slice(), target, a, replacement) {
            Err(e) => {
                self.pool.release_slot(slot);
                assert(self.pool.slots@ =~= slots0);
                return Err(e);
            },
            Ok(tr) => tr,
        };
        proof { lemma_prologue_covers_footprint(c, 0); }
        let plen = tr.original.len();
        let clash = (a as u128) < target as u128 + plen as u128 && (target as u128) < a as u128 + SLOT_SIZE as u128;
        if !mem.contains(a, SLOT_SIZE) || clash {
            self.pool.release_slot(slot);
            assert(self.pool.slots@ =~= slots0);
            return Err(HookError::PatchWriteFailure);
        }
        let _ = mem.write(a, tr.stub.as_slice());
        let index = self.records.len();
        let ghost recs0 = self.records@;
        let ghost states0 = self.states@;
        self.records.push(HookRecord {
            target_address: target,
            replacement_address: replacement,
            original_prologue_bytes: tr.original,
            trampoline_address: a,
            stub: tr.stub,
            redirect: tr.redirect,
            ip_map: tr.ip_map,
            slot,
        });
        self.states.push(HookState::Created);
        proof {
            assert(self.records@.drop_last() =~= recs0);
            lemma_wf_after_push(*old(self), *self, slot as int);
            let v = prologue_of(c).unwrap();
            let plen = total_len(v) as int;
            let o = target - old(mem).base;
            assert(c.subrange(0, plen) =~= old(mem).bytes@.subrange(o, o + plen));
            lemma_written_here(old(mem).bytes@, old(mem).base as int, a as int, self.records@.last().stub@);
            lemma_written_elsewhere(old(mem).bytes@, old(mem).base as int, a as int, self.records@.last().stub@,
                target as int, plen);
        }
        Ok(HookHandle { index })
    }

    /// Installs the redirect jump of hook `h`, with every other thread
    /// frozen as `threads` shows; a no-op for an enabled hook.
    pub fn enable(&mut self, h: HookHandle, mem: &mut CodeSpace, threads: &mut Vec<ThreadSnapshot>) -> (r: Result<(), HookError>)
        requires
            old(self).wf(),
            old(mem).wf(),
        ensures
            final(self).wf(),
            final(mem).wf(),
            enable_post(*old(self), *old(mem), old(threads)@, h, *final(self), *final(mem), final(threads)@, r),
            final(mem).base == old(mem).base,
            final(self).records@ == old(self).records@,
            r is Ok && old(self).live(h) ==> final(self).states@ == old(self).states@.update(h.index as int, HookState::Enabled),
            r is Ok ==> old(self).live(h),
            r is Err ==> final(self).states@ == old(self).states@,
    {
        reveal(enable_post);
        if !(h.index < self.records.len() && self.states[h.index] != HookState::Removed) {
            return Err(HookError::InvalidHandle);
        }
        if self.states[h.index] == HookState::Enabled {
            return Ok(());
        }
        if !all_threads_suspended(threads) {
            return Err(HookError::ThreadSuspendFailure);
        }
        let rec = &self.records[h.index];
        if !mem.contains(rec.target_address, REDIRECT_JUMP_SIZE) {
            return Err(HookError::PatchWriteFailure);
        }
        let moved = match move_threads(threads, rec.target_address, rec.original_prologue_bytes.len(),
            rec.trampoline_address, &rec.ip_map, true) {
            None => { return Err(HookError::ThreadSuspendFailure); },
            Some(v) => v,
        };
        let _ = mem.write(rec.target_address, rec.redirect.as_slice());
        *threads = moved;
        self.states.set(h.index, HookState::Enabled);
        Ok(())
    }

    /// Writes back the original bytes of the enabled hook `rec`, with every
    /// other thread frozen as `threads` shows.
    fn restore(rec: &HookRecord, mem: &mut CodeSpace, threads: &mut Vec<ThreadSnapshot>) -> (r: Result<(), HookError>)
        requires
            old(mem).wf(),
            rec.stub@.len() >= 5 + RELAY_SIZE,
        ensures
            final(mem).wf(),
            restore_post(*rec, *old(mem), old(threads)@, *final(mem), final(threads)@, r),
    {
        if !all_threads_suspended(threads) {
            return Err(HookError::ThreadSuspendFailure);
        }
        if !mem.contains(rec.target_address, rec.original_prologue_bytes.len()) {
            return Err(HookError::PatchWriteFailure);
        }
        let span = rec.stub.len() - 5 - RELAY_SIZE;
        let moved = match move_threads(threads, rec.trampoline_address, span, rec.target_address, &rec.ip_map, false) {
            None => { return Err(HookError::ThreadSuspendFailure); },
            Some(v) => v,
        };
        let _ = mem.write(rec.target_address, rec.original_prologue_bytes.as_slice());
        *threads = moved;
        Ok(())
    }

    /// Restores the original bytes of hook `h`, with every other thread
    /// frozen as `threads` shows; a no-op unless the hook is enabled.
    pub fn disable(&mut self, h: HookHandle, mem: &mut CodeSpace, threads: &mut Vec<ThreadSnapshot>) -> (r: Result<(), HookError>)
        requires
            old(self).wf(),
            old(mem).wf(),
        ensures
            final(self).wf(),
            final(mem).wf(),
            disable_post(*old(self), *old(mem), old(threads)@, h, *final(self), *final(mem), final(threads)@, r),
    {
        reveal(disable_post);
        if !(h.index < self.records.len() && self.states[h.index] != HookState::Removed) {
            return Err(HookError::InvalidHandle);
        }
        if self.states[h.index] != HookState::Enabled {
            return Ok(());
        }
        let r = HookEngine::restore(&self.records[h.index], mem, threads);
        if r.is_ok() {
            self.states.set(h.index, HookState::Disabled);
        }
        r
    }

    /// Takes hook `h` out: disables it if it is enabled, then releases its
    /// slot. Its handle and its trampoline are invalid afterwards.
    pub fn remove(&mut self, h: HookHandle, mem: &mut CodeSpace, threads: &mut Vec<ThreadSnapshot>) -> (r: Result<(), HookError>)
        requires
            old(self).wf(),
            old(mem).wf(),
        ensures
            final(self).wf(),
            final(mem).wf(),
            remove_post(*old(self), *old(mem), old(threads)@, h, *final(self), *final(mem), final(threads)@, r),
    {
        reveal(remove_post);
        if !(h.index < self.records.len() && self.states[h.index] != HookState::Removed) {
            return Err(HookError::InvalidHandle);
        }
        if self.states[h.index] == HookState::Enabled {
            let r = HookEngine::restore(&self.records[h.index], mem, threads);
            if r.is_err() {
                return r;
            }
        }
        let slot = self.records[h.index].slot;
        self.pool.release_slot(slot);
        self.states.set(h.index, HookState::Removed);
        proof {
            let e0 = *old(self);
            assert forall|k: int| 0 <= k < self.records@.len() && self.states@[k] != HookState::Removed implies
                #[trigger] self.records@[k].slot != slot by {
                assert(e0.states@[k] != HookState::Removed);
                if k < h.index {
                    assert(e0.records@[k].slot != e0.records@[h.index as int].slot);
                } else if k > h.index {
                    assert(e0.records@[h.index as int].slot != e0.records@[k].slot);
                }
            }
        }
        Ok(())
    }
}

/// The handle that a successful creation returned.
pub open spec fn handle_of(r: Result<HookHandle, HookError>) -> HookHandle {
    match r {
        Ok(h) => h,
        Err(_) => HookHandle { index: 0 },
    }
}

/// The error that a failed step returned.
pub open spec fn error_of<T>(r: Result<T, HookError>) -> HookError {
    match r {
        Ok(_) => HookError::InvalidHandle,
        Err(e) => e,
    }
}

/// The last of the steps `rs` failed.
pub open spec fn stopped<T>(rs: Seq<Result<T, HookError>>) -> bool {
    rs.len() > 0 && rs.last() is Err
}

/// The handles that the creations `rs` returned.
pub open spec fn handles_of(rs: Seq<Result<HookHandle, HookError>>) -> Seq<HookHandle> {
    Seq::new(rs.len(), |k: int| handle_of(rs[k]))
}

/// `rs.len()` calls of `create`, one per pair of `hooks` in order: call `k`
/// goes from `es[k]`, `ms[k]` to `es[k + 1]`, `ms[k + 1]` and returns
/// `rs[k]`; every call but the last succeeded.
pub open spec fn create_steps(hooks: Seq<(u64, u64)>, es: Seq<HookEngine>, ms: Seq<CodeSpace>,
    rs: Seq<Result<HookHandle, HookError>>) -> bool {
    &&& es.len() == rs.len() + 1
    &&& ms.len() == rs.len() + 1
    &&& rs.len() <= hooks.len()
    &&& forall|k: int| #![trigger rs[k]] 0 <= k < rs.len()
        ==> create_post(es[k], ms[k], hooks[k].0, hooks[k].1, es[k + 1], ms[k + 1], rs[k])
    &&& forall|k: int| #![trigger rs[k]] 0 <= k < rs.len() - 1 ==> rs[k] is Ok
}

/// The creations for `hooks`, from `e0` and `m0`, run up to the first one
/// that fails, or over all of them.
pub open spec fn create_run(e0: HookEngine, m0: CodeSpace, hooks: Seq<(u64, u64)>, es: Seq<HookEngine>,
    ms: Seq<CodeSpace>, rs: Seq<Result<HookHandle, HookError>>) -> bool {
    &&& create_steps(hooks, es, ms, rs)
    &&& es[0] == e0
    &&& ms[0] == m0
    &&& rs.len() < hooks.len() ==> rs.len() > 0 && rs.last() is Err
}

/// `rs.len()` calls of `enable`, one per handle of `hs` in order: call `k`
/// goes from `es[k]`, `ms[k]`, `ts[k]` to `es[k + 1]`, `ms[k + 1]`,
/// `ts[k + 1]` and returns `rs[k]`; every call but the last succeeded.
pub open spec fn enable_steps(hs: Seq<HookHandle>, es: Seq<HookEngine>, ms: Seq<CodeSpace>,
    ts: Seq<Seq<ThreadSnapshot>>, rs: Seq<Result<(), HookError>>) -> bool {
    &&& es.len() == rs.len() + 1
    &&& ms.len() == rs.len() + 1
    &&& ts.len() == rs.len() + 1
    &&& rs.len() <= hs.len()
    &&& forall|k: int| #![trigger rs[k]] 0 <= k < rs.len()
        ==> enable_post(es[k], ms[k], ts[k], hs[k], es[k + 1], ms[k + 1], ts[k + 1], rs[k])
    &&& forall|k: int| #![trigger rs[k]] 0 <= k < rs.len() - 1 ==> rs[k] is Ok
}

/// The enabling of `hs`, from `e0`, `m0` and `t0`, run up to the first one
/// that fails, or over all of them.
pub open spec fn enable_run(e0: HookEngine, m0: CodeSpace, t0: Seq<ThreadSnapshot>, hs: Seq<HookHandle>,
    es: Seq<HookEngine>, ms: Seq<CodeSpace>, ts: Seq<Seq<ThreadSnapshot>>, rs: Seq<Result<(), HookError>>) -> bool {
    &&& enable_steps(hs, es, ms, ts, rs)
    &&& es[0] == e0
    &&& ms[0] == m0
    &&& ts[0] == t0
    &&& rs.len() < hs.len() ==> rs.len() > 0 && rs.last() is Err
}

/// What `install_batch` does once the creations `rs` have run: if one
/// failed, its error, with everything as it was before the batch;
/// otherwise the hooks are enabled in order, and the first failure undoes
/// the whole batch, while success leaves what the last step left.
pub open spec fn batch_after_create(e0: HookEngine, m0: CodeSpace, t0: Seq<ThreadSnapshot>, hooks: Seq<(u64, u64)>,
    es: Seq<HookEngine>, ms: Seq<CodeSpace>, rs: Seq<Result<HookHandle, HookError>>, e1: HookEngine, m1: CodeSpace,
    t1: Seq<ThreadSnapshot>, r: Result<Vec<HookHandle>, HookError>) -> bool {
    if stopped(rs) {
        r == Err::<Vec<HookHandle>, HookError>(error_of(rs.last())) && unchanged(e0, e1) && same_code(m0, m1) && t1 == t0
    } else {
        exists|fs: Seq<HookEngine>, fms: Seq<CodeSpace>, fts: Seq<Seq<ThreadSnapshot>>, frs: Seq<Result<(), HookError>>|
            #[trigger] enable_run(es.last(), ms.last(), t0, handles_of(rs), fs, fms, fts, frs) && if stopped(frs) {
                r == Err::<Vec<HookHandle>, HookError>(error_of(frs.last())) && unchanged(e0, e1) && same_code(m0, m1)
                    && t1 == t0
            } else {
                &&& r matches Ok(hs) && hs@ == handles_of(rs)
                &&& unchanged(fs.last(), e1)
                &&& same_code(fms.last(), m1)
                &&& t1 == fts.last()
            }
    }
}

/// What `install_batch` does: with a thread that could not be frozen, it
/// fails at once. Otherwise it calls `create` for each pair in order and
/// then `enable` for each new hook in order, each on the state the calls
/// before it left; it succeeds exactly when every call does, leaving what
/// the last call left, and returns the error of the first call that fails,
/// with the registry, the pool, the code space and the threads as they
/// were before the batch.
pub open spec fn batch_post(e0: HookEngine, m0: CodeSpace, t0: Seq<ThreadSnapshot>, hooks: Seq<(u64, u64)>,
    e1: HookEngine, m1: CodeSpace, t1: Seq<ThreadSnapshot>, r: Result<Vec<HookHandle>, HookError>) -> bool {
    if !all_suspended(t0) {
        r == Err::<Vec<HookHandle>, HookError>(HookError::ThreadSuspendFailure) && unchanged(e0, e1) && same_code(m0, m1)
            && t1 == t0
    } else {
        exists|es: Seq<HookEngine>, ms: Seq<CodeSpace>, rs: Seq<Result<HookHandle, HookError>>|
            #[trigger] create_run(e0, m0, hooks, es, ms, rs)
                && batch_after_create(e0, m0, t0, hooks, es, ms, rs, e1, m1, t1, r)
    }
}

fn copy_vec<T: Copy>(v: &Vec<T>) -> (r: Vec<T>)
    ensures
        r@ == v@,
{
    let mut r: Vec<T> = Vec::new();
    let mut i: usize = 0;
    while i < v.len()
        invariant
            0 <= i <= v@.len(),
            r@ == v@.subrange(0, i as int),
        decreases v@.len() - i,
    {
        r.push(v[i]);
        assert(v@.subrange(0, i + 1) =~= v@.subrange(0, i as int).push(v@[i as int]));
        i = i + 1;
    }
    assert(v@.subrange(0, v@.len() as int) =~= v@);
    r
}

impl HookEngine {
    /// Drops the records made after the first `n0` and puts the states and
    /// the pool's slots back to `states` and `slots`.
    fn roll_back(&mut self, n0: usize, states: Vec<HookState>, slots: Vec<TrampolineSlot>)
        requires
            n0 <= old(self).records@.len(),
        ensures
            final(self).records@ == old(self).records@.subrange(0, n0 as int),
            final(self).states@ == states@,
            final(self).pool.slots@ == slots@,
    {
        self.records.truncate(n0);
        self.states = states;
        self.pool.slots = slots;
    }

    /// Creates a hook for each pair of `hooks`, in order, stopping at the
    /// first failure.
    fn create_all(&mut self, mem: &mut CodeSpace, hooks: &Vec<(u64, u64)>) -> (r: Result<Vec<HookHandle>, HookError>)
        requires
            old(self).wf(),
            old(mem).wf(),
        ensures
            final(self).wf(),
            final(mem).wf(),
            final(mem).base == old(mem).base,
            final(self).records@.len() >= old(self).records@.len(),
            final(self).records@.subrange(0, old(self).records@.len() as int) == old(self).records@,
            exists|es: Seq<HookEngine>, ms: Seq<CodeSpace>, rs: Seq<Result<HookHandle, HookError>>|
                #[trigger] create_run(*old(self), *old(mem), hooks@, es, ms, rs)
                && es.last() == *final(self) && ms.last() == *final(mem)
                && (r is Err <==> stopped(rs))
                && (r is Err ==> r == Err::<Vec<HookHandle>, HookError>(error_of(rs.last())))
                && (r matches Ok(hs) ==> hs@ == handles_of(rs)),
    {
        let ghost e0 = *self;
        let ghost m0 = *mem;
        let n0 = self.records.len();
        let mut hs: Vec<HookHandle> = Vec::new();
        let ghost mut es: Seq<HookEngine> = seq![*self];
        let ghost mut ms: Seq<CodeSpace> = seq![*mem];
        let ghost mut rs: Seq<Result<HookHandle, HookError>> = Seq::empty();
        assert(hs@ =~= handles_of(rs));
        let mut k: usize = 0;
        while k < hooks.len()
            invariant
                self.wf(),
                mem.wf(),
                mem.base == m0.base,
                n0 == e0.records@.len(),
                e0 == *old(self),
                m0 == *old(mem),
                0 <= k <= hooks@.len(),
                self.records@.len() >= n0,
                self.records@.subrange(0, n0 as int) == e0.records@,
                rs.len() == k,
                create_steps(hooks@, es, ms, rs),
                es[0] == e0,
                ms[0] == m0,
                forall|j: int| #![trigger rs[j]] 0 <= j < k ==> rs[j] is Ok,
                es.last() == *self,
                ms.last() == *mem,
                hs@ == handles_of(rs),
            decreases hooks@.len() - k,
        {
            let (t, rep) = hooks[k];
            let ghost before = *self;
            let ghost (es0, ms0, rs0) = (es, ms, rs);
            let r = self.create(mem, t, rep);
            proof {
                es = es.push(*self);
                ms = ms.push(*mem);
                rs = rs.push(r);
                assert forall|j: int| #![trigger rs[j]] 0 <= j < rs.len()
                    implies create_post(es[j], ms[j], hooks@[j].0, hooks@[j].1, es[j + 1], ms[j + 1], rs[j]) by {
                    if j < k {
                        assert(rs0[j] == rs[j]);
                        assert(es0[j] == es[j] && es0[j + 1] == es[j + 1]);
                        assert(ms0[j] == ms[j] && ms0[j + 1] == ms[j + 1]);
                    } else {
                        assert(es[j] == before && ms[j] == ms0.last());
                    }
                }
                assert forall|j: int| #![trigger rs[j]] 0 <= j < rs.len() - 1 implies rs[j] is Ok by {
                    assert(rs0[j] == rs[j]);
                }
                if r is Ok {
                    assert(self.records@.drop_last() == before.records@);
                    assert(self.records@.subrange(0, n0 as int) =~= before.records@.subrange(0, n0 as int));
                }
            }
            match r {
                Err(e) => {
                    assert(create_run(*old(self), *old(mem), hooks@, es, ms, rs));
                    return Err(e);
                },
                Ok(h) => {
                    hs.push(h);
                    proof {
                        assert(hs@ =~= handles_of(rs)) by {
                            assert forall|j: int| 0 <= j < rs.len() implies hs@[j] == handle_of(rs[j]) by {
                                if j < k {
                                    assert(rs0[j] == rs[j]);
                                }
                            }
                        }
                        assert forall|j: int| #![trigger rs[j]] 0 <= j < k + 1 implies rs[j] is Ok by {
                            assert(rs0[j] == rs[j] || j == k);
                        }
                    }
                },
            }
            k = k + 1;
        }
        assert(create_run(*old(self), *old(mem), hooks@, es, ms, rs));
        Ok(hs)
    }

    /// Enables the hooks `hs`, in order, stopping at the first failure.
    fn enable_all(&mut self, mem: &mut CodeSpace, threads: &mut Vec<ThreadSnapshot>, hs: &Vec<HookHandle>)
        -> (r: Result<(), HookError>)
        requires
            old(self).wf(),
            old(mem).wf(),
        ensures
            final(self).wf(),
            final(mem).wf(),
            final(mem).base == old(mem).base,
            final(self).records@ == old(self).records@,
            exists|es: Seq<HookEngine>, ms: Seq<CodeSpace>, ts: Seq<Seq<ThreadSnapshot>>, rs: Seq<Result<(), HookError>>|
                #[trigger] enable_run(*old(self), *old(mem), old(threads)@, hs@, es, ms, ts, rs)
                && es.last() == *final(self) && ms.last() == *final(mem) && ts.last() == final(threads)@
                && (r is Err <==> stopped(rs))
                && (r is Err ==> r == Err::<(), HookError>(error_of(rs.last()))),
    {
        let ghost e0 = *self;
        let ghost m0 = *mem;
        let ghost t0 = threads@;
        let ghost mut es: Seq<HookEngine> = seq![*self];
        let ghost mut ms: Seq<CodeSpace> = seq![*mem];
        let ghost mut ts: Seq<Seq<ThreadSnapshot>> = seq![threads@];
        let ghost mut rs: Seq<Result<(), HookError>> = Seq::empty();
        let mut k: usize = 0;
        while k < hs.len()
            invariant
                self.wf(),
                mem.wf(),
                mem.base == m0.base,
                e0 == *old(self),
                m0 == *old(mem),
                t0 == old(threads)@,
                0 <= k <= hs@.len(),
                self.records@ == e0.records@,
                rs.len() == k,
                enable_steps(hs@, es, ms, ts, rs),
                es[0] == e0,
                ms[0] == m0,
                ts[0] == t0,
                forall|j: int| #![trigger rs[j]] 0 <= j < k ==> rs[j] is Ok,
                es.last() == *self,
                ms.last() == *mem,
                ts.last() == threads@,
            decreases hs@.len() - k,
        {
            let h = hs[k];
            let ghost before = *self;
            let ghost (es0, ms0, ts0, rs0) = (es, ms, ts, rs);
            let r = self.enable(h, mem, threads);
            proof {
                es = es.push(*self);
                ms = ms.push(*mem);
                ts = ts.push(threads@);
                rs = rs.push(r);
                assert forall|j: int| #![trigger rs[j]] 0 <= j < rs.len()
                    implies enable_post(es[j], ms[j], ts[j], hs@[j], es[j + 1], ms[j + 1], ts[j + 1], rs[j]) by {
                    if j < k {
                        assert(rs0[j] == rs[j]);
                        assert(es0[j] == es[j] && es0[j + 1] == es[j + 1]);
                        assert(ms0[j] == ms[j] && ms0[j + 1] == ms[j + 1]);
                        assert(ts0[j] == ts[j] && ts0[j + 1] == ts[j + 1]);
                    } else {
                        assert(es[j] == before && ms[j] == ms0.last() && ts[j] == ts0.last());
                    }
                }
                assert forall|j: int| #![trigger rs[j]] 0 <= j < rs.len() - 1 implies rs[j] is Ok by {
                    assert(rs0[j] == rs[j]);
                }
            }
            match r {
                Err(e) => {
                    assert(enable_run(*old(self), *old(mem), old(threads)@, hs@, es, ms, ts, rs));
                    return Err(e);
                },
                Ok(()) => {
                    proof {
                        assert forall|j: int| #![trigger rs[j]] 0 <= j < k + 1 implies rs[j] is Ok by {
                            assert(rs0[j] == rs[j] || j == k);
                        }
                    }
                },
            }
            k = k + 1;
        }
        assert(enable_run(*old(self), *old(mem), old(threads)@, hs@, es, ms, ts, rs));
        Ok(())
    }

    /// Creates and enables a hook for each `(target, replacement)` pair of
    /// `hooks`, in order, under one freeze of the other threads. If any
    /// step fails, everything done by this call is undone before the error
    /// is returned.
    pub fn install_batch(&mut self, mem: &mut CodeSpace, threads: &mut Vec<ThreadSnapshot>, hooks: &Vec<(u64, u64)>)
        -> (r: Result<Vec<HookHandle>, HookError>)
        requires
            old(self).wf(),
            old(mem).wf(),
        ensures
            final(self).wf(),
            final(mem).wf(),
            batch_post(*old(self), *old(mem), old(threads)@, hooks@, *final(self), *final(mem), final(threads)@, r),
    {
        let ghost e0 = *self;
        let ghost m0 = *mem;
        let ghost t0 = threads@;
        let n0 = self.records.len();
        let saved_bytes = mem.read_window(mem.base, mem.bytes.len());
        assert(saved_bytes@ =~= mem.bytes@);
        let saved_slots = copy_vec(&self.pool.slots);
        let saved_states = copy_vec(&self.states);
        let saved_threads = copy_vec(threads);
        if !all_threads_suspended(threads) {
            return Err(HookError::ThreadSuspendFailure);
        }
        let created = self.create_all(mem, hooks);
        let ghost (es, ms, rs) = choose|es: Seq<HookEngine>, ms: Seq<CodeSpace>, rs: Seq<Result<HookHandle, HookError>>|
            #[trigger] create_run(e0, m0, hooks@, es, ms, rs)
                && es.last() == *self && ms.last() == *mem
                && (created is Err <==> stopped(rs))
                && (created is Err ==> created == Err::<Vec<HookHandle>, HookError>(error_of(rs.last())))
                && (created matches Ok(hs) ==> hs@ == handles_of(rs));
        let hs = match created {
            Err(e) => {
                self.roll_back(n0, saved_states, saved_slots);
                mem.bytes = saved_bytes;
                assert(self.records@ =~= e0.records@);
                assert(batch_after_create(e0, m0, t0, hooks@, es, ms, rs, *self, *mem, threads@, Err(e)));
                return Err(e);
            },
            Ok(hs) => hs,
        };
        let ghost after_create = *self;
        let enabled = self.enable_all(mem, threads, &hs);
        let ghost (fs, fms, fts, frs) = choose|fs: Seq<HookEngine>, fms: Seq<CodeSpace>, fts: Seq<Seq<ThreadSnapshot>>,
            frs: Seq<Result<(), HookError>>|
            #[trigger] enable_run(after_create, ms.last(), t0, hs@, fs, fms, fts, frs)
                && fs.last() == *self && fms.last() == *mem && fts.last() == threads@
                && (enabled is Err <==> stopped(frs))
                && (enabled is Err ==> enabled == Err::<(), HookError>(error_of(frs.last())));
        match enabled {
            Err(e) => {
                self.roll_back(n0, saved_states, saved_slots);
                mem.bytes = saved_bytes;
                *threads = saved_threads;
                assert(self.records@ =~= e0.records@);
                assert(enable_run(es.last(), ms.last(), t0, handles_of(rs), fs, fms, fts, frs));
                assert(batch_after_create(e0, m0, t0, hooks@, es, ms, rs, *self, *mem, threads@, Err(e)));
                Err(e)
            },
            Ok(()) => {
                assert(enable_run(es.last(), ms.last(), t0, handles_of(rs), fs, fms, fts, frs));
                assert(batch_after_create(e0, m0, t0, hooks@, es, ms, rs, *self, *mem, threads@, Ok(hs)));
                Ok(hs)
            },
        }
    }
}

} // verus!
