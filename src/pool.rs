use vstd::prelude::*;
use crate::error::HookError;
use crate::trampoline::SLOT_SIZE;

verus! {

/// Size of one pool page.
pub const PAGE_SIZE: u64 = 4096;

/// Number of trampoline slots carved from one pool page.
pub const SLOTS_PER_PAGE: usize = 64;

/// How far a slot may lie from the target it serves, either way, so that
/// every 32-bit displacement between the two stays in range.
pub const MAX_REACH: u64 = 0x4000_0000;

/// Step between two addresses tried when reserving a page near a target.
pub const PROBE_STEP: u64 = 0x1_0000;

/// A fixed-size block of executable memory carved from a pool page.
#[derive(Clone, Copy, Debug, PartialEq, Eq, Structural)]
pub struct TrampolineSlot {
    pub base_address: u64,
    pub in_use: bool,
    pub pool_page: u64,
}

/// The pool pages that trampolines are placed in, as their slots in the
/// order the pages were added.
pub struct SlotPool {
    pub slots: Vec<TrampolineSlot>,
}

/// Whether a slot at `addr` is close enough to a target at `near`.
pub open spec fn in_reach(near: int, addr: int) -> bool {
    near - MAX_REACH <= addr && addr + SLOT_SIZE <= near + MAX_REACH
}

/// Whether slot `s` can serve a target at `near`.
pub open spec fn usable(s: TrampolineSlot, near: int) -> bool {
    !s.in_use && in_reach(near, s.base_address as int)
}

/// The free slots of a new pool page at `page`.
pub open spec fn page_slots(page: u64) -> Seq<TrampolineSlot> {
    Seq::new(SLOTS_PER_PAGE as nat, |k: int| TrampolineSlot {
        base_address: (page + k * SLOT_SIZE) as u64,
        in_use: false,
        pool_page: page,
    })
}

/// The page address tried at step `k` of the outward search from `near`:
/// the step-aligned address at or below `near`, then alternately one more
/// step above and one more step below it. `None` once it leaves the reach
/// of `near` or the address space.
pub open spec fn probe_spec(near: int, k: int) -> Option<int> {
    let aligned = near - near % (PROBE_STEP as int);
    let cand = if k % 2 == 0 { aligned - (k / 2) * PROBE_STEP } else { aligned + (k / 2 + 1) * PROBE_STEP };
    if cand < 0 || cand + PAGE_SIZE > u64::MAX || !(near - MAX_REACH <= cand && cand + PAGE_SIZE <= near + MAX_REACH) {
        None
    } else {
        Some(cand)
    }
}

/// The page address to try at step `step` of the outward search from `near`.
pub fn probe_address(near: u64, step: u64) -> (r: Option<u64>)
    ensures
        match probe_spec(near as int, step as int) {
            None => r is None,
            Some(a) => r == Some(a as u64),
        },
{
    let aligned: i128 = near as i128 - (near % PROBE_STEP) as i128;
    let half: i128 = (step / 2) as i128;
    let cand: i128 = if step % 2 == 0 { aligned - half * PROBE_STEP as i128 } else { aligned + (half + 1) * PROBE_STEP as i128 };
    if cand < 0 || cand + PAGE_SIZE as i128 > u64::MAX as i128
        || !(near as i128 - MAX_REACH as i128 <= cand && cand + PAGE_SIZE as i128 <= near as i128 + MAX_REACH as i128) {
        None
    } else {
        Some(cand as u64)
    }
}

impl SlotPool {
    /// A pool without pages.
    pub fn new() -> (r: SlotPool)
        ensures
            r.slots@.len() == 0,
    {
        SlotPool { slots: Vec::new() }
    }

    /// Whether a page at `page` is in the pool.
    pub open spec fn has_page(&self, page: u64) -> bool {
        exists|i: int| 0 <= i < self.slots@.len() && #[trigger] self.slots@[i].pool_page == page
    }

    /// Adds the reserved executable page at `page` to the pool. The page must
    /// be page-aligned, end inside the address space, and not be in the pool.
    pub fn add_pool_page(&mut self, page: u64) -> (r: Result<(), HookError>)
        ensures
            (page % PAGE_SIZE != 0 || page > u64::MAX - PAGE_SIZE || old(self).has_page(page)) ==> r
                == Err::<(), HookError>(HookError::AllocationFailure) && final(self).slots@ == old(self).slots@,
            !(page % PAGE_SIZE != 0 || page > u64::MAX - PAGE_SIZE || old(self).has_page(page)) ==> r is Ok
                && final(self).slots@ == old(self).slots@ + page_slots(page),
    {
        if page % PAGE_SIZE != 0 || page > u64::MAX - PAGE_SIZE {
            return Err(HookError::AllocationFailure);
        }
        let mut i: usize = 0;
        while i < self.slots.len()
            invariant
                0 <= i <= self.slots@.len(),
                self.slots@ == old(self).slots@,
                forall|j: int| 0 <= j < i ==> self.slots@[j].pool_page != page,
            decreases self.slots@.len() - i,
        {
            if self.slots[i].pool_page == page {
                return Err(HookError::AllocationFailure);
            }
            i = i + 1;
        }
        let mut k: usize = 0;
        while k < SLOTS_PER_PAGE
            invariant
                0 <= k <= SLOTS_PER_PAGE,
                page <= u64::MAX - PAGE_SIZE,
                self.slots@ == old(self).slots@ + page_slots(page).subrange(0, k as int),
            decreases SLOTS_PER_PAGE - k,
        {
            assert(k * 64 < 4096) by (nonlinear_arith) requires k < 64;
            let slot = TrampolineSlot { base_address: page + (k as u64) * 64, in_use: false, pool_page: page };
            self.slots.push(slot);
            assert(page_slots(page).subrange(0, k + 1) =~= page_slots(page).subrange(0, k as int).push(slot));
            k = k + 1;
        }
        assert(page_slots(page).subrange(0, SLOTS_PER_PAGE as int) =~= page_slots(page));
        Ok(())
    }

    /// Takes the first free slot within reach of `near` and returns its
    /// index; `None`, changing nothing, when there is none.
    pub fn allocate_slot(&mut self, near: u64) -> (r: Option<usize>)
        ensures
            r matches Some(i) ==> i < old(self).slots@.len() && usable(old(self).slots@[i as int], near as int)
                && (forall|j: int| 0 <= j < i ==> !usable(#[trigger] old(self).slots@[j], near as int))
                && final(self).slots@ == old(self).slots@.update(i as int, TrampolineSlot { in_use: true, ..old(self).slots@[i as int] }),
            r is None ==> (forall|j: int| 0 <= j < old(self).slots@.len() ==> !usable(#[trigger] old(self).slots@[j], near as int))
                && final(self).slots@ == old(self).slots@,
    {
        let mut i: usize = 0;
        while i < self.slots.len()
            invariant
                0 <= i <= self.slots@.len(),
                self.slots@ == old(self).slots@,
                forall|j: int| 0 <= j < i ==> !usable(#[trigger] self.slots@[j], near as int),
            decreases self.slots@.len() - i,
        {
            let s = self.slots[i];
            let a = s.base_address as i128;
            if !s.in_use && near as i128 - MAX_REACH as i128 <= a && a + SLOT_SIZE as i128 <= near as i128 + MAX_REACH as i128 {
                self.slots.set(i, TrampolineSlot { in_use: true, ..s });
                return Some(i);
            }
            i = i + 1;
        }
        None
    }

    /// Returns slot `i` to the pool.
    pub fn release_slot(&mut self, i: usize)
        requires
            i < old(self).slots@.len(),
        ensures
            final(self).slots@ == old(self).slots@.update(i as int, TrampolineSlot { in_use: false, ..old(self).slots@[i as int] }),
    {
        let s = self.slots[i];
        self.slots.set(i, TrampolineSlot { in_use: false, ..s });
    }
}

} // verus!
