use vstd::prelude::*;

verus! {

/// What the process uses of memory and of cycles.
#[derive(Clone, Copy, Debug, PartialEq, Eq, Structural)]
pub struct CanisterInfo {
    pub heap_memory_size: u64,
    pub memory_size: u64,
    pub cycles: u64,
}

} // verus!
