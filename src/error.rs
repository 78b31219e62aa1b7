use vstd::prelude::*;

verus! {

/// Why a hook operation failed. Every failure is returned to the caller;
/// the engine never retries on its own.
#[derive(Clone, Copy, Debug, PartialEq, Eq, Structural)]
pub enum HookError {
    /// The prologue holds an encoding that cannot be relocated safely.
    UnsupportedInstruction,
    /// The target already has a live hook.
    AlreadyHooked,
    /// No trampoline slot is free within reach of the target.
    AllocationFailure,
    /// A thread could not be frozen at a safe point for the patch.
    ThreadSuspendFailure,
    /// The bytes to be patched lie outside writable code memory.
    PatchWriteFailure,
    /// The handle names no live hook.
    InvalidHandle,
}

} // verus!
