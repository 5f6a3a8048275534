//! Errors of the memory, of address arithmetic and of hints.
use vstd::prelude::*;
use crate::memory::Relocatable;

verus! {

#[derive(Debug, Clone, PartialEq, Eq)]
pub enum MathError {
    DividedByZero,
    RelocatableAddUsizeOffsetExceeded(Relocatable, usize),
}

#[derive(Debug, Clone, PartialEq, Eq)]
pub enum MemoryError {
    UnallocatedSegment(usize),
    InconsistentMemory(Relocatable),
}

#[derive(Debug, Clone, PartialEq, Eq)]
pub enum HintError {
    /// The name has no entry, or its entry gives no address in this frame.
    UnknownIdentifier(String),
    /// The cell of the named member (`d0`, `d1`, ...) of the named variable is
    /// absent or does not hold a field element.
    IdentifierHasNoMember(String, String),
    Math(MathError),
    Memory(MemoryError),
}

} // verus!
