//! Trampoline hooking of functions in a running process, verified with
//! Verus: an instruction length decoder for function prologues, the
//! trampoline builder that relocates them, a pool of trampoline slots, and
//! the hook registry that patches code with every other thread frozen.
//! Beside it, the planning of the Restyle build: which sources to copy or
//! patch, and which MSBuild steps to run.

pub mod error;
pub mod decoder;
pub mod prologue;
pub mod trampoline;
pub mod code_space;
pub mod pool;
pub mod engine;
pub mod laws;
pub mod build_path;
pub mod restyle_build;
