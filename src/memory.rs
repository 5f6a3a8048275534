//! Write-once memory of field elements and addresses, split into segments.
use vstd::prelude::*;
use crate::felt::Felt;
use crate::errors::{MathError, MemoryError};

verus! {

/// An address: a segment and an offset in it.
#[derive(Debug, Clone, Copy, PartialEq, Eq, Structural)]
pub struct Relocatable {
    pub segment_index: usize,
    pub offset: usize,
}

impl Relocatable {
    /// The address `n` cells further on in the same segment.
    pub fn add_usize(self, n: usize) -> (r: Result<Relocatable, MathError>)
        ensures
            self.offset + n <= usize::MAX ==> r == Ok::<Relocatable, MathError>(
                Relocatable { segment_index: self.segment_index, offset: (self.offset + n) as usize },
            ),
            self.offset + n > usize::MAX ==> r == Err::<Relocatable, MathError>(
                MathError::RelocatableAddUsizeOffsetExceeded(self, n),
            ),
    {
        match self.offset.checked_add(n) {
            Some(o) => Ok(Relocatable { segment_index: self.segment_index, offset: o }),
            None => Err(MathError::RelocatableAddUsizeOffsetExceeded(self, n)),
        }
    }
}

/// The content of a memory cell.
#[derive(Debug, Clone, PartialEq, Eq)]
pub enum MaybeRelocatable {
    RelocatableValue(Relocatable),
    Int(Felt),
}

impl MaybeRelocatable {
    /// Two cell contents are the same: equal addresses, or elements of equal value.
    pub open spec fn same_as(&self, other: &MaybeRelocatable) -> bool {
        match (self, other) {
            (MaybeRelocatable::RelocatableValue(a), MaybeRelocatable::RelocatableValue(b)) => a == b,
            (MaybeRelocatable::Int(a), MaybeRelocatable::Int(b)) => a@ == b@,
            _ => false,
        }
    }

    pub fn same(&self, other: &MaybeRelocatable) -> (r: bool)
        ensures
            r == self.same_as(other),
    {
        match (self, other) {
            (MaybeRelocatable::RelocatableValue(a), MaybeRelocatable::RelocatableValue(b)) => *a == *b,
            (MaybeRelocatable::Int(a), MaybeRelocatable::Int(b)) => a.same(b),
            _ => false,
        }
    }
}

/// Memory: for each segment, the cells written so far (`None` where unwritten).
pub struct Memory {
    pub data: Vec<Vec<Option<MaybeRelocatable>>>,
}

impl Memory {
    /// The content of the cell at `a`, if it was written.
    pub open spec fn cell(&self, a: Relocatable) -> Option<MaybeRelocatable> {
        if a.segment_index < self.data@.len() && a.offset < self.data@[a.segment_index as int]@.len() {
            self.data@[a.segment_index as int]@[a.offset as int]
        } else {
            None
        }
    }

    /// The field element at `a`, if the cell holds one.
    pub open spec fn int_at(&self, a: Relocatable) -> Option<Felt> {
        match self.cell(a) {
            Some(MaybeRelocatable::Int(f)) => Some(f),
            _ => None,
        }
    }

    pub open spec fn has_segment(&self, s: usize) -> bool {
        s < self.data@.len()
    }

    /// Memory with no segment.
    pub fn new() -> (r: Memory)
        ensures
            r.data@.len() == 0,
    {
        Memory { data: Vec::new() }
    }

    /// Adds an empty segment and returns its first address.
    pub fn add_segment(&mut self) -> (r: Relocatable)
        ensures
            r == (Relocatable { segment_index: old(self).data@.len() as usize, offset: 0 }),
            final(self).data@.len() == old(self).data@.len() + 1,
            final(self).data@.drop_last() == old(self).data@,
            final(self).data@.last()@.len() == 0,
    {
        let r = Relocatable { segment_index: self.data.len(), offset: 0 };
        self.data.push(Vec::new());
        assert(self.data@.drop_last() =~= old(self).data@);
        r
    }

    /// A copy of the field element at `a`, if the cell holds one.
    pub fn get_integer(&self, a: Relocatable) -> (r: Option<Felt>)
        ensures
            r.is_some() == self.int_at(a).is_some(),
            r.is_some() ==> r.unwrap().digits@ == self.int_at(a).unwrap().digits@,
    {
        if a.segment_index < self.data.len() && a.offset < self.data[a.segment_index].len() {
            match &self.data[a.segment_index][a.offset] {
                Some(MaybeRelocatable::Int(f)) => Some(f.duplicate()),
                _ => None,
            }
        } else {
            None
        }
    }

    /// Writes `v` at `a`. A cell once written keeps its content: writing the same
    /// content again succeeds, writing another fails.
    pub fn insert_value(&mut self, a: Relocatable, v: MaybeRelocatable) -> (r: Result<(), MemoryError>)
        ensures
            !old(self).has_segment(a.segment_index) ==> r == Err::<(), MemoryError>(
                MemoryError::UnallocatedSegment(a.segment_index),
            ),
            old(self).has_segment(a.segment_index) && old(self).cell(a) is Some
                && !old(self).cell(a).unwrap().same_as(&v) ==> r == Err::<(), MemoryError>(
                MemoryError::InconsistentMemory(a),
            ),
            r is Ok <==> old(self).has_segment(a.segment_index) && (old(self).cell(a) is None
                || old(self).cell(a).unwrap().same_as(&v)),
            r is Err ==> final(self).data@ == old(self).data@,
            r is Ok ==> final(self).data@.len() == old(self).data@.len(),
            r is Ok ==> final(self).cell(a) is Some && final(self).cell(a).unwrap().same_as(&v),
            r is Ok ==> old(self).cell(a) is Some ==> final(self).cell(a) == old(self).cell(a),
            r is Ok ==> forall|b: Relocatable| b != a ==> #[trigger] final(self).cell(b) == old(self).cell(b),
    {
        let si = a.segment_index;
        if si >= self.data.len() {
            return Err(MemoryError::UnallocatedSegment(si));
        }
        if a.offset < self.data[si].len() {
            let present = match &self.data[si][a.offset] {
                Some(c) => Some(c.same(&v)),
                None => None,
            };
            match present {
                Some(true) => {
                    return Ok(());
                },
                Some(false) => {
                    return Err(MemoryError::InconsistentMemory(a));
                },
                None => {},
            }
        }
        let ghost before = self.data@;
        let mut seg = self.data.remove(si);
        let ghost seg0 = seg@;
        while seg.len() < a.offset
            invariant
                seg@.len() <= a.offset || seg@.len() == seg0.len(),
                seg0.len() <= seg@.len(),
                forall|i: int| 0 <= i < seg0.len() ==> seg@[i] == seg0[i],
                forall|i: int| seg0.len() <= i < seg@.len() ==> seg@[i] is None,
            decreases a.offset - seg@.len(),
        {
            seg.push(None);
        }
        if a.offset < seg.len() {
            seg.remove(a.offset);
            seg.insert(a.offset, Some(v));
        } else {
            seg.push(Some(v));
        }
        self.data.insert(si, seg);
        proof {
            assert(self.data@ =~= before.update(si as int, seg));
            let s2 = self.data@[si as int]@;
            assert(s2.len() > a.offset);
            assert forall|b: Relocatable| b != a implies #[trigger] self.cell(b) == old(self).cell(b) by {
                if b.segment_index == si && b.offset != a.offset {
                    if b.offset < seg0.len() {
                        assert(s2[b.offset as int] == seg0[b.offset as int]);
                    } else if b.offset < s2.len() {
                        assert(s2[b.offset as int] is None);
                    }
                }
            }
        }
        Ok(())
    }
}

} // verus!
