use vstd::prelude::*;
use crate::code_space::{CodeSpace, ThreadSnapshot, lemma_written_here};
use crate::decoder::{Insn, decode_at};
use crate::engine::{HookEngine, HookHandle, HookState, batch_after_create, batch_post, create_post, create_run,
    disable_post, enable_post, first_usable, lemma_no_slot_stays, prologue_window, remove_post, restore_post, same_code,
    stopped, unchanged};
use crate::prologue::{REDIRECT_JUMP_SIZE, insn_offset, lemma_prologue_covers_footprint, prologue_of, total_len};
use crate::error::HookError;

verus! {

/// Hooking a target and removing the hook without enabling it leaves the
/// target's original bytes as they were.
#[verifier::rlimit(100)]
pub proof fn lemma_create_then_remove_restores(e0: HookEngine, m0: CodeSpace, t: u64, replacement: u64,
    e1: HookEngine, m1: CodeSpace, h: HookHandle, th1: Seq<ThreadSnapshot>, e2: HookEngine, m2: CodeSpace,
    th2: Seq<ThreadSnapshot>, r2: Result<(), HookError>)
    requires
        e0.wf(),
        m0.wf(),
        create_post(e0, m0, t, replacement, e1, m1, Ok(h)),
        remove_post(e1, m1, th1, h, e2, m2, th2, r2),
    ensures
        r2 is Ok,
        m2.at(t as int, e1.records@[h.index as int].original_prologue_bytes@.len() as int)
            == m0.at(t as int, e1.records@[h.index as int].original_prologue_bytes@.len() as int),
{
    reveal(remove_post);
    assert(e1.states@[h.index as int] == HookState::Created);
}

/// Hooking a target, enabling the hook and removing it again leaves the
/// target's original bytes byte for byte as they were before.
#[verifier::rlimit(100)]
pub proof fn lemma_create_enable_remove_restores(e0: HookEngine, m0: CodeSpace, t: u64, replacement: u64,
    e1: HookEngine, m1: CodeSpace, h: HookHandle, th1: Seq<ThreadSnapshot>, e2: HookEngine, m2: CodeSpace,
    th2: Seq<ThreadSnapshot>, th3: Seq<ThreadSnapshot>, e3: HookEngine, m3: CodeSpace, th4: Seq<ThreadSnapshot>)
    requires
        e0.wf(),
        m0.wf(),
        create_post(e0, m0, t, replacement, e1, m1, Ok(h)),
        enable_post(e1, m1, th1, h, e2, m2, th2, Ok(())),
        remove_post(e2, m2, th3, h, e3, m3, th4, Ok(())),
    ensures
        m3.at(t as int, e1.records@[h.index as int].original_prologue_bytes@.len() as int)
            == m0.at(t as int, e1.records@[h.index as int].original_prologue_bytes@.len() as int),
{
    reveal(enable_post);
    reveal(remove_post);
    let rec = e1.records@[h.index as int];
    assert(e1.live(h));
    assert(e2.records@ == e1.records@);
    assert(e2.states@[h.index as int] == HookState::Enabled);
    assert(restore_post(rec, m2, th3, m3, th4, Ok(())));
    lemma_written_here(m2.bytes@, m2.base as int, t as int, rec.original_prologue_bytes@);
}

/// Enabling a hook twice in a row: both calls succeed, and the second one
/// changes nothing; the hook stays enabled.
pub proof fn lemma_enable_twice(e0: HookEngine, m0: CodeSpace, t0: Seq<ThreadSnapshot>, h: HookHandle,
    e1: HookEngine, m1: CodeSpace, t1: Seq<ThreadSnapshot>, e2: HookEngine, m2: CodeSpace, t2: Seq<ThreadSnapshot>,
    r2: Result<(), HookError>)
    requires
        e0.wf(),
        enable_post(e0, m0, t0, h, e1, m1, t1, Ok(())),
        enable_post(e1, m1, t1, h, e2, m2, t2, r2),
    ensures
        r2 is Ok,
        e1.states@[h.index as int] == HookState::Enabled,
        unchanged(e1, e2),
        same_code(m1, m2),
        t2 == t1,
{
    reveal(enable_post);
}

/// Disabling a hook twice in a row: both calls succeed, and the second one
/// changes nothing; the hook's state is the same after either call.
pub proof fn lemma_disable_twice(e0: HookEngine, m0: CodeSpace, t0: Seq<ThreadSnapshot>, h: HookHandle,
    e1: HookEngine, m1: CodeSpace, t1: Seq<ThreadSnapshot>, e2: HookEngine, m2: CodeSpace, t2: Seq<ThreadSnapshot>,
    r2: Result<(), HookError>)
    requires
        e0.wf(),
        disable_post(e0, m0, t0, h, e1, m1, t1, Ok(())),
        disable_post(e1, m1, t1, h, e2, m2, t2, r2),
    ensures
        r2 is Ok,
        e1.states@[h.index as int] != HookState::Enabled,
        e2.states@[h.index as int] == e1.states@[h.index as int],
        unchanged(e1, e2),
        same_code(m1, m2),
        t2 == t1,
{
    reveal(disable_post);
}

/// Hooking a target that already has a live hook is refused with
/// `AlreadyHooked`, and the registry, with the first hook's state, and the
/// code are left untouched.
pub proof fn lemma_double_hook_rejected(e0: HookEngine, m0: CodeSpace, t: u64, rep1: u64, e1: HookEngine,
    m1: CodeSpace, h: HookHandle, rep2: u64, e2: HookEngine, m2: CodeSpace, r2: Result<HookHandle, HookError>)
    requires
        e0.wf(),
        create_post(e0, m0, t, rep1, e1, m1, Ok(h)),
        create_post(e1, m1, t, rep2, e2, m2, r2),
    ensures
        r2 == Err::<HookHandle, HookError>(HookError::AlreadyHooked),
        unchanged(e1, e2),
        e2.states@[h.index as int] == e1.states@[h.index as int],
        same_code(m1, m2),
{
    assert(e1.records@[h.index as int] == e1.records@.last());
    assert(e1.states@[h.index as int] == HookState::Created);
    assert(e1.hooked(t));
}

/// A batch that fails leaves the code exactly as it was, so every target of
/// the batch, among them those handled before the failing one, keeps its
/// bytes.
pub proof fn lemma_failed_batch_keeps_targets(e0: HookEngine, m0: CodeSpace, t0: Seq<ThreadSnapshot>,
    hooks: Seq<(u64, u64)>, e1: HookEngine, m1: CodeSpace, t1: Seq<ThreadSnapshot>, r: Result<Vec<HookHandle>, HookError>,
    k: int, len: int)
    requires
        batch_post(e0, m0, t0, hooks, e1, m1, t1, r),
        r is Err,
        0 <= k < hooks.len(),
        m0.covers(hooks[k].0 as int, len),
    ensures
        m1.at(hooks[k].0 as int, len) == m0.at(hooks[k].0 as int, len),
        unchanged(e0, e1),
        t1 == t0,
{
}

/// A new hook saves whole instructions: its original bytes are the
/// decoded prologue at the target, whose lengths reach the redirect jump's
/// footprint, while all of them but the last stop short of it; the saved
/// range thus ends on an instruction boundary.
pub proof fn lemma_create_saves_whole_instructions(e0: HookEngine, m0: CodeSpace, t: u64, replacement: u64,
    e1: HookEngine, m1: CodeSpace, h: HookHandle)
    requires
        e0.wf(),
        create_post(e0, m0, t, replacement, e1, m1, Ok(h)),
    ensures
        ({
            let v = prologue_of(prologue_window(m0, t)).unwrap();
            let n = e1.records@[h.index as int].original_prologue_bytes@.len();
            &&& prologue_of(prologue_window(m0, t)) is Some
            &&& n == total_len(v)
            &&& n >= REDIRECT_JUMP_SIZE
            &&& total_len(v.drop_last()) < REDIRECT_JUMP_SIZE
            &&& forall|k: int| 0 <= k < v.len() ==> decode_at(prologue_window(m0, t), insn_offset(v, k) as int)
                == Some(#[trigger] v[k])
        }),
{
    assert(e1.records@[h.index as int] == e1.records@.last());
    lemma_prologue_covers_footprint(prologue_window(m0, t), 0);
}

proof fn lemma_no_slot_along(hooks: Seq<(u64, u64)>, es: Seq<HookEngine>, ms: Seq<CodeSpace>,
    rs: Seq<Result<HookHandle, HookError>>, near: int, j: int)
    requires
        crate::engine::create_steps(hooks, es, ms, rs),
        0 <= j < rs.len(),
        forall|i: int| 0 <= i < j ==> (#[trigger] rs[i]) is Ok,
        first_usable(es[0].pool.slots@, near) is None,
    ensures
        first_usable(es[j].pool.slots@, near) is None,
    decreases j,
{
    if j > 0 {
        lemma_no_slot_along(hooks, es, ms, rs, near, j - 1);
        assert(rs[j - 1] is Ok);
        assert(create_post(es[j - 1], ms[j - 1], hooks[j - 1].0, hooks[j - 1].1, es[j], ms[j], rs[j - 1]));
        lemma_no_slot_stays(es[j - 1].pool.slots@, es[j].pool.slots@, near);
    }
}

/// A batch fails, leaving the code as it was, when one of its targets has
/// no slot of the pool within reach: creating the hooks before it only
/// takes slots, so none is free for it when its turn comes.
pub proof fn lemma_batch_fails_without_slot(e0: HookEngine, m0: CodeSpace, t0: Seq<ThreadSnapshot>,
    hooks: Seq<(u64, u64)>, e1: HookEngine, m1: CodeSpace, t1: Seq<ThreadSnapshot>, r: Result<Vec<HookHandle>, HookError>,
    k: int)
    requires
        batch_post(e0, m0, t0, hooks, e1, m1, t1, r),
        0 <= k < hooks.len(),
        first_usable(e0.pool.slots@, hooks[k].0 as int) is None,
    ensures
        r is Err,
        same_code(m0, m1),
        unchanged(e0, e1),
        t1 == t0,
{
    if crate::engine::all_suspended(t0) {
        let (es, ms, rs) = choose|es: Seq<HookEngine>, ms: Seq<CodeSpace>, rs: Seq<Result<HookHandle, HookError>>|
            #[trigger] create_run(e0, m0, hooks, es, ms, rs)
                && batch_after_create(e0, m0, t0, hooks, es, ms, rs, e1, m1, t1, r);
        if !stopped(rs) {
            assert(rs.len() == hooks.len());
            let near = hooks[k].0 as int;
            lemma_no_slot_along(hooks, es, ms, rs, near, k);
            assert(rs[k] is Ok || rs.len() - 1 == k);
            assert(create_post(es[k], ms[k], hooks[k].0, hooks[k].1, es[k + 1], ms[k + 1], rs[k]));
            assert(rs[k] is Err);
            assert(false);
        }
    }
}

/// A batch fails with `ThreadSuspendFailure`, changing nothing, when one of
/// the threads could not be frozen.
pub proof fn lemma_batch_needs_frozen_threads(e0: HookEngine, m0: CodeSpace, t0: Seq<ThreadSnapshot>,
    hooks: Seq<(u64, u64)>, e1: HookEngine, m1: CodeSpace, t1: Seq<ThreadSnapshot>, r: Result<Vec<HookHandle>, HookError>,
    k: int)
    requires
        batch_post(e0, m0, t0, hooks, e1, m1, t1, r),
        0 <= k < t0.len(),
        !t0[k].suspended,
    ensures
        r == Err::<Vec<HookHandle>, HookError>(HookError::ThreadSuspendFailure),
        same_code(m0, m1),
        unchanged(e0, e1),
        t1 == t0,
{
    assert(!crate::engine::all_suspended(t0));
}

} // verus!
