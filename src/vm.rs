//! The virtual machine's state as a hint sees it, and the names of its variables.
use vstd::prelude::*;
use crate::memory::{Memory, Relocatable};
use crate::errors::HintError;

verus! {

/// Where a variable lives: an offset from the frame pointer.
#[derive(Debug, Clone, Copy, PartialEq, Eq, Structural)]
pub struct HintReference {
    pub fp_offset: i64,
}

/// The allocation-pointer tracking data of a hint. References here are relative
/// to the frame pointer, so it is not consulted.
#[derive(Debug, Clone, Copy, PartialEq, Eq, Structural, Default)]
pub struct ApTracking {
    pub group: usize,
    pub offset: usize,
}

/// The machine's memory and its frame pointer.
pub struct VirtualMachine {
    pub segments: Memory,
    pub fp: Relocatable,
}

/// `i` is the first entry of `ids` under `name`.
pub open spec fn first_match(ids: Seq<(String, HintReference)>, name: Seq<char>, i: int) -> bool {
    &&& 0 <= i < ids.len()
    &&& ids[i].0@ == name
    &&& forall|j: int| 0 <= j < i ==> ids[j].0@ != name
}

/// The address `off` cells away from `fp`, if it lies in the segment.
pub open spec fn fp_plus(fp: Relocatable, off: int) -> Option<Relocatable> {
    if 0 <= fp.offset + off <= usize::MAX {
        Some(Relocatable { segment_index: fp.segment_index, offset: (fp.offset + off) as usize })
    } else {
        None
    }
}

/// The address of the variable `name` in the frame of `fp`, if it has one.
pub open spec fn var_addr(fp: Relocatable, ids: Seq<(String, HintReference)>, name: Seq<char>) -> Option<Relocatable> {
    if exists|i: int| first_match(ids, name, i) {
        let i = choose|i: int| first_match(ids, name, i);
        fp_plus(fp, ids[i].1.fp_offset as int)
    } else {
        None
    }
}

/// The first index under `name` is unique.
pub proof fn lemma_first_match_unique(ids: Seq<(String, HintReference)>, name: Seq<char>, i: int, k: int)
    requires
        first_match(ids, name, i),
        first_match(ids, name, k),
    ensures
        i == k,
{
    if i < k {
        assert(ids[i].0@ != name);
    } else if k < i {
        assert(ids[k].0@ != name);
    }
}

/// A name with no entry has no address, whatever the frame and the memory.
pub proof fn lemma_absent_name_has_no_addr(fp: Relocatable, ids: Seq<(String, HintReference)>, name: Seq<char>)
    requires
        forall|i: int| 0 <= i < ids.len() ==> ids[i].0@ != name,
    ensures
        var_addr(fp, ids, name) is None,
{
}

/// Resolves a variable's name to its address in the current frame.
pub fn get_relocatable_from_var_name(
    name: &str,
    vm: &VirtualMachine,
    ids_data: &Vec<(String, HintReference)>,
    _ap_tracking: &ApTracking,
) -> (r: Result<Relocatable, HintError>)
    ensures
        match r {
            Ok(a) => var_addr(vm.fp, ids_data@, name@) == Some(a),
            Err(HintError::UnknownIdentifier(n)) => n@ == name@ && var_addr(vm.fp, ids_data@, name@) is None,
            Err(_) => false,
        },
{
    let key = name.to_owned();
    let mut i: usize = 0;
    while i < ids_data.len()
        invariant
            i <= ids_data@.len(),
            key@ == name@,
            forall|j: int| 0 <= j < i ==> ids_data@[j].0@ != name@,
        decreases ids_data@.len() - i,
    {
        if ids_data[i].0 == key {
            let off: i64 = ids_data[i].1.fp_offset;
            let o: i128 = vm.fp.offset as i128 + off as i128;
            proof {
                assert(first_match(ids_data@, name@, i as int));
                let k = choose|k: int| first_match(ids_data@, name@, k);
                lemma_first_match_unique(ids_data@, name@, i as int, k);
            }
            if 0 <= o && o <= usize::MAX as i128 {
                return Ok(Relocatable { segment_index: vm.fp.segment_index, offset: o as usize });
            } else {
                return Err(HintError::UnknownIdentifier(key));
            }
        }
        i = i + 1;
    }
    Err(HintError::UnknownIdentifier(key))
}

} // verus!
