//! Six- and three-limb integers read from memory, and the hint that divides the
//! first by the second.
use vstd::prelude::*;
use crate::felt::Felt;
use crate::memory::{Memory, Relocatable, MaybeRelocatable};
use crate::errors::{HintError, MathError};
use crate::bignum::{digits_value, big_is_zero, big_div_mod_floor};
use crate::codec::{pack, split, pack_value, split_value, limb_values, lemma_round_trip};
use crate::felt::field_prime;
use vstd::arithmetic::power2::pow2;
use crate::vm::{VirtualMachine, HintReference, ApTracking, get_relocatable_from_var_name, var_addr};

verus! {

/// The field name of limb `i`.
pub open spec fn member_name(i: int) -> Seq<char> {
    if i == 0 {
        "d0"@
    } else if i == 1 {
        "d1"@
    } else if i == 2 {
        "d2"@
    } else if i == 3 {
        "d3"@
    } else if i == 4 {
        "d4"@
    } else {
        "d5"@
    }
}

fn member_string(i: usize) -> (r: String)
    requires
        i < 6,
    ensures
        r@ == member_name(i as int),
{
    if i == 0 {
        "d0".to_owned()
    } else if i == 1 {
        "d1".to_owned()
    } else if i == 2 {
        "d2".to_owned()
    } else if i == 3 {
        "d3".to_owned()
    } else if i == 4 {
        "d4".to_owned()
    } else {
        "d5".to_owned()
    }
}

/// The address of limb `i` of the integer based at `addr`.
pub open spec fn limb_addr(addr: Relocatable, i: int) -> Relocatable {
    Relocatable { segment_index: addr.segment_index, offset: (addr.offset + i) as usize }
}

/// Limb `i` can be read: its address exists and its cell holds a field element.
pub open spec fn limb_ok(mem: Memory, addr: Relocatable, i: int) -> bool {
    addr.offset + i <= usize::MAX && mem.int_at(limb_addr(addr, i)) is Some
}

/// The value of limb `i`.
pub open spec fn limb_at(mem: Memory, addr: Relocatable, i: int) -> nat {
    mem.int_at(limb_addr(addr, i)).unwrap()@
}

/// The values of the first `n` limbs.
pub open spec fn limbs_at(mem: Memory, addr: Relocatable, n: nat) -> Seq<nat> {
    Seq::new(n, |i: int| limb_at(mem, addr, i))
}

/// All of the first `n` limbs can be read.
pub open spec fn all_limbs_ok(mem: Memory, addr: Relocatable, n: nat) -> bool {
    forall|i: int| 0 <= i < n ==> limb_ok(mem, addr, i)
}

/// `e` is the error for limb `k` of the variable `name` based at `addr`.
pub open spec fn limb_error(addr: Relocatable, name: Seq<char>, k: int, e: HintError) -> bool {
    if addr.offset + k > usize::MAX {
        e == HintError::Math(MathError::RelocatableAddUsizeOffsetExceeded(addr, k as usize))
    } else {
        match e {
            HintError::IdentifierHasNoMember(n, m) => n@ == name && m@ == member_name(k),
            _ => false,
        }
    }
}

/// Reading `n` limbs failed with `e`: `e` names the first limb that cannot be read.
pub open spec fn read_failed(mem: Memory, addr: Relocatable, name: Seq<char>, n: nat, e: HintError) -> bool {
    exists|k: int|
        0 <= k < n && all_limbs_ok(mem, addr, k as nat) && !limb_ok(mem, addr, k) && #[trigger] limb_error(
            addr,
            name,
            k,
            e,
        )
}

/// When limb `k` is the first that cannot be read, and its address exists, a
/// failed read names the variable and exactly that limb's field.
pub proof fn lemma_missing_limb_named(mem: Memory, addr: Relocatable, name: Seq<char>, n: nat, k: int, e: HintError)
    requires
        0 <= k < n,
        all_limbs_ok(mem, addr, k as nat),
        !limb_ok(mem, addr, k),
        addr.offset + k <= usize::MAX,
        read_failed(mem, addr, name, n, e),
    ensures
        match e {
            HintError::IdentifierHasNoMember(x, y) => x@ == name && y@ == member_name(k),
            _ => false,
        },
{
    let j = choose|j: int|
        0 <= j < n && all_limbs_ok(mem, addr, j as nat) && !limb_ok(mem, addr, j) && #[trigger] limb_error(addr, name, j, e);
    if j < k {
        assert(limb_ok(mem, addr, j));
    } else if k < j {
        assert(limb_ok(mem, addr, k));
    }
}

/// Reads `n` consecutive limbs from `addr`, in order, stopping at the first that
/// cannot be read.
pub fn read_limbs(addr: Relocatable, name: &str, n: usize, mem: &Memory) -> (r: Result<Vec<Felt>, HintError>)
    requires
        n <= 6,
    ensures
        r is Ok <==> all_limbs_ok(*mem, addr, n as nat),
        r is Ok ==> crate::codec::felt_values(r.unwrap()@) == limbs_at(*mem, addr, n as nat),
        r is Err ==> read_failed(*mem, addr, name@, n as nat, r->Err_0),
{
    let mut out: Vec<Felt> = Vec::new();
    let mut i: usize = 0;
    while i < n
        invariant
            i <= n <= 6,
            all_limbs_ok(*mem, addr, i as nat),
            out@.len() == i,
            forall|j: int| 0 <= j < i ==> out@[j]@ == limb_at(*mem, addr, j),
        decreases n - i,
    {
        let a = match addr.add_usize(i) {
            Ok(a) => a,
            Err(e) => {
                let err = HintError::Math(e);
                proof {
                    assert(!limb_ok(*mem, addr, i as int));
                    assert(limb_error(addr, name@, i as int, err));
                }
                return Err(err);
            },
        };
        match mem.get_integer(a) {
            Some(f) => {
                out.push(f);
            },
            None => {
                let err = HintError::IdentifierHasNoMember(name.to_owned(), member_string(i));
                proof {
                    assert(a == limb_addr(addr, i as int));
                    assert(!limb_ok(*mem, addr, i as int));
                    assert(limb_error(addr, name@, i as int, err));
                }
                return Err(err);
            },
        }
        i = i + 1;
    }
    proof {
        assert(crate::codec::felt_values(out@) =~= limbs_at(*mem, addr, n as nat));
    }
    Ok(out)
}

/// An unsigned integer of six limbs, limb `i` weighing `2^(128 * i)`.
#[derive(Debug, PartialEq, Eq)]
pub struct Uint768 {
    pub d0: Felt,
    pub d1: Felt,
    pub d2: Felt,
    pub d3: Felt,
    pub d4: Felt,
    pub d5: Felt,
}

/// An unsigned integer of three limbs, limb `i` weighing `2^(128 * i)`.
#[derive(Debug, PartialEq, Eq)]
pub struct BigInt3 {
    pub d0: Felt,
    pub d1: Felt,
    pub d2: Felt,
}

/// `r` is the outcome of reading `n` limbs of the variable `name` from `addr`.
pub open spec fn read_outcome(mem: Memory, addr: Relocatable, name: Seq<char>, n: nat, r: Result<Seq<Felt>, HintError>) -> bool {
    match r {
        Ok(limbs) => all_limbs_ok(mem, addr, n) && crate::codec::felt_values(limbs) == limbs_at(mem, addr, n),
        Err(e) => !all_limbs_ok(mem, addr, n) && read_failed(mem, addr, name, n, e),
    }
}

/// `r` is the outcome of reading `n` limbs of the variable `name` in the frame of `vm`.
pub open spec fn var_outcome(
    vm: &VirtualMachine,
    ids: Seq<(String, HintReference)>,
    name: Seq<char>,
    n: nat,
    r: Result<Seq<Felt>, HintError>,
) -> bool {
    match var_addr(vm.fp, ids, name) {
        None => match r {
            Err(HintError::UnknownIdentifier(x)) => x@ == name,
            _ => false,
        },
        Some(a) => read_outcome(vm.segments, a, name, n, r),
    }
}

impl Uint768 {
    pub open spec fn limbs(&self) -> Seq<Felt> {
        seq![self.d0, self.d1, self.d2, self.d3, self.d4, self.d5]
    }

    pub open spec fn limbs_of(r: Result<Uint768, HintError>) -> Result<Seq<Felt>, HintError> {
        match r {
            Ok(x) => Ok(x.limbs()),
            Err(e) => Err(e),
        }
    }

    /// The limbs in order.
    pub fn to_vec(&self) -> (r: Vec<Felt>)
        ensures
            crate::codec::felt_values(r@) == crate::codec::felt_values(self.limbs()),
            r@.len() == 6,
    {
        let r = vec![
            self.d0.duplicate(),
            self.d1.duplicate(),
            self.d2.duplicate(),
            self.d3.duplicate(),
            self.d4.duplicate(),
            self.d5.duplicate(),
        ];
        assert(crate::codec::felt_values(r@) =~= crate::codec::felt_values(self.limbs()));
        r
    }

    /// Reads the six limbs at `addr, addr + 1, ...`; an unreadable limb is
    /// reported under `name` and its field name.
    pub fn from_base_addr(addr: Relocatable, name: &str, vm: &VirtualMachine) -> (r: Result<Uint768, HintError>)
        ensures
            read_outcome(vm.segments, addr, name@, 6, Self::limbs_of(r)),
    {
        match read_limbs(addr, name, 6, &vm.segments) {
            Ok(v) => {
                assert(crate::codec::felt_values(v@).len() == v@.len());
                let x = Uint768 {
                    d0: v[0].duplicate(),
                    d1: v[1].duplicate(),
                    d2: v[2].duplicate(),
                    d3: v[3].duplicate(),
                    d4: v[4].duplicate(),
                    d5: v[5].duplicate(),
                };
                assert(crate::codec::felt_values(x.limbs()) =~= crate::codec::felt_values(v@));
                Ok(x)
            },
            Err(e) => Err(e),
        }
    }

    /// Reads the variable `name` of the current frame.
    pub fn from_var_name(
        name: &str,
        vm: &VirtualMachine,
        ids_data: &Vec<(String, HintReference)>,
        ap_tracking: &ApTracking,
    ) -> (r: Result<Uint768, HintError>)
        ensures
            var_outcome(vm, ids_data@, name@, 6, Self::limbs_of(r)),
    {
        let base_addr = match get_relocatable_from_var_name(name, vm, ids_data, ap_tracking) {
            Ok(a) => a,
            Err(e) => {
                return Err(e);
            },
        };
        Uint768::from_base_addr(base_addr, name, vm)
    }
}

impl BigInt3 {
    pub open spec fn limbs(&self) -> Seq<Felt> {
        seq![self.d0, self.d1, self.d2]
    }

    pub open spec fn limbs_of(r: Result<BigInt3, HintError>) -> Result<Seq<Felt>, HintError> {
        match r {
            Ok(x) => Ok(x.limbs()),
            Err(e) => Err(e),
        }
    }

    /// The limbs in order.
    pub fn to_vec(&self) -> (r: Vec<Felt>)
        ensures
            crate::codec::felt_values(r@) == crate::codec::felt_values(self.limbs()),
            r@.len() == 3,
    {
        let r = vec![self.d0.duplicate(), self.d1.duplicate(), self.d2.duplicate()];
        assert(crate::codec::felt_values(r@) =~= crate::codec::felt_values(self.limbs()));
        r
    }

    /// Reads the three limbs at `addr, addr + 1, addr + 2`; an unreadable limb is
    /// reported under `name` and its field name.
    pub fn from_base_addr(addr: Relocatable, name: &str, vm: &VirtualMachine) -> (r: Result<BigInt3, HintError>)
        ensures
            read_outcome(vm.segments, addr, name@, 3, Self::limbs_of(r)),
    {
        match read_limbs(addr, name, 3, &vm.segments) {
            Ok(v) => {
                assert(crate::codec::felt_values(v@).len() == v@.len());
                let x = BigInt3 { d0: v[0].duplicate(), d1: v[1].duplicate(), d2: v[2].duplicate() };
                assert(crate::codec::felt_values(x.limbs()) =~= crate::codec::felt_values(v@));
                Ok(x)
            },
            Err(e) => Err(e),
        }
    }

    /// Reads the variable `name` of the current frame.
    pub fn from_var_name(
        name: &str,
        vm: &VirtualMachine,
        ids_data: &Vec<(String, HintReference)>,
        ap_tracking: &ApTracking,
    ) -> (r: Result<BigInt3, HintError>)
        ensures
            var_outcome(vm, ids_data@, name@, 3, Self::limbs_of(r)),
    {
        let base_addr = match get_relocatable_from_var_name(name, vm, ids_data, ap_tracking) {
            Ok(a) => a,
            Err(e) => {
                return Err(e);
            },
        };
        BigInt3::from_base_addr(base_addr, name, vm)
    }
}

/// The width of a limb in bits.
pub const LIMB_BITS: usize = 128;

/// `b` lies among the `n` cells from `addr` on.
pub open spec fn in_region(addr: Relocatable, n: nat, b: Relocatable) -> bool {
    b.segment_index == addr.segment_index && addr.offset <= b.offset < addr.offset + n
}

/// The `n` cells from `addr` on exist in an allocated segment and are unwritten.
pub open spec fn region_free(mem: Memory, addr: Relocatable, n: nat) -> bool {
    &&& addr.offset + n <= usize::MAX
    &&& mem.has_segment(addr.segment_index)
    &&& forall|i: int| 0 <= i < n ==> (#[trigger] mem.cell(limb_addr(addr, i))) is None
}

/// The cell at `b` holds a field element of value `v`.
pub open spec fn holds_value(mem: Memory, b: Relocatable, v: nat) -> bool {
    mem.int_at(b) is Some && mem.int_at(b).unwrap()@ == v
}

/// Writes limb `i` of `limbs` at `addr + i`, in order, stopping at the first
/// failed write.
fn write_limbs(mem: &mut Memory, addr: Relocatable, limbs: &Vec<Vec<u32>>) -> (r: Result<(), HintError>)
    requires
        forall|i: int| 0 <= i < limbs@.len() ==> digits_value(#[trigger] limbs@[i]@) < pow2(128),
    ensures
        final(mem).data@.len() == old(mem).data@.len(),
        forall|b: Relocatable| old(mem).cell(b) is Some ==> #[trigger] final(mem).cell(b) == old(mem).cell(b),
        forall|b: Relocatable| !in_region(addr, limbs@.len(), b) ==> #[trigger] final(mem).cell(b) == old(mem).cell(b),
        region_free(*old(mem), addr, limbs@.len()) ==> r is Ok,
        r is Ok ==> limbs@.len() > 0 ==> addr.offset + limbs@.len() - 1 <= usize::MAX,
        r is Ok ==> forall|i: int| 0 <= i < limbs@.len() ==> holds_value(*final(mem), #[trigger] limb_addr(addr, i), limb_values(limbs@)[i]),
        match r {
            Err(HintError::Math(MathError::RelocatableAddUsizeOffsetExceeded(_, _))) => true,
            Err(HintError::Memory(_)) => true,
            Err(_) => false,
            Ok(_) => true,
        },
{
    let n = limbs.len();
    let mut i: usize = 0;
    proof {
        vstd::arithmetic::power2::lemma_pow2_strictly_increases(128, 251);
    }
    while i < n
        invariant
            n == limbs@.len(),
            i <= n,
            pow2(128) < field_prime(),
            forall|k: int| 0 <= k < limbs@.len() ==> digits_value(#[trigger] limbs@[k]@) < pow2(128),
            mem.data@.len() == old(mem).data@.len(),
            forall|b: Relocatable| old(mem).cell(b) is Some ==> #[trigger] mem.cell(b) == old(mem).cell(b),
            forall|b: Relocatable| !in_region(addr, n as nat, b) ==> #[trigger] mem.cell(b) == old(mem).cell(b),
            i > 0 ==> addr.offset + i - 1 <= usize::MAX,
            forall|j: int| 0 <= j < i ==> holds_value(*mem, #[trigger] limb_addr(addr, j), limb_values(limbs@)[j]),
            region_free(*old(mem), addr, n as nat) ==> forall|j: int| i <= j < n ==> (#[trigger] mem.cell(limb_addr(addr, j))) is None,
        decreases n - i,
    {
        let a = match addr.add_usize(i) {
            Ok(a) => a,
            Err(e) => {
                return Err(HintError::Math(e));
            },
        };
        let f = Felt::from_digits(limbs[i].clone());
        let ghost before = *mem;
        let ghost v = MaybeRelocatable::Int(f);
        match mem.insert_value(a, MaybeRelocatable::Int(f)) {
            Ok(()) => {},
            Err(e) => {
                proof {
                    if region_free(*old(mem), addr, n as nat) {
                        assert(before.cell(limb_addr(addr, i as int)) is None);
                        assert(before.has_segment(a.segment_index));
                    }
                    assert forall|b: Relocatable| #[trigger] mem.cell(b) == before.cell(b) by {
                        assert(mem.data@ == before.data@);
                    }
                }
                return Err(HintError::Memory(e));
            },
        }
        proof {
            assert(a == limb_addr(addr, i as int));
            assert(limb_values(limbs@)[i as int] == digits_value(limbs@[i as int]@));
            assert forall|j: int| 0 <= j < i + 1 implies holds_value(*mem, #[trigger] limb_addr(addr, j), limb_values(limbs@)[j]) by {
                if j < i {
                    assert(limb_addr(addr, j) != a);
                    assert(holds_value(before, limb_addr(addr, j), limb_values(limbs@)[j]));
                }
            }
            assert forall|b: Relocatable| old(mem).cell(b) is Some implies #[trigger] mem.cell(b) == old(mem).cell(b) by {
                assert(before.cell(b) == old(mem).cell(b));
            }
            assert forall|b: Relocatable| !in_region(addr, n as nat, b) implies #[trigger] mem.cell(b) == old(mem).cell(b) by {
                assert(b != a);
                assert(before.cell(b) == old(mem).cell(b));
            }
            if region_free(*old(mem), addr, n as nat) {
                assert forall|j: int| i + 1 <= j < n implies (#[trigger] mem.cell(limb_addr(addr, j))) is None by {
                    assert(limb_addr(addr, j) != a);
                    assert(before.cell(limb_addr(addr, j)) is None);
                }
            }
        }
        i = i + 1;
    }
    Ok(())
}

/// The variable `name` has an address, and its `n` limbs can be read there.
pub open spec fn var_readable(vm: &VirtualMachine, ids: Seq<(String, HintReference)>, name: Seq<char>, n: nat) -> bool {
    &&& var_addr(vm.fp, ids, name) is Some
    &&& all_limbs_ok(vm.segments, var_addr(vm.fp, ids, name).unwrap(), n)
}

/// The value that the `n` limbs of the variable `name` pack to.
pub open spec fn var_value(vm: &VirtualMachine, ids: Seq<(String, HintReference)>, name: Seq<char>, n: nat) -> nat {
    pack_value(limbs_at(vm.segments, var_addr(vm.fp, ids, name).unwrap(), n), LIMB_BITS as nat)
}

/// All four variables of the division can be resolved and both operands read.
pub open spec fn div_inputs_ok(vm: &VirtualMachine, ids: Seq<(String, HintReference)>) -> bool {
    &&& var_readable(vm, ids, "a"@, 6)
    &&& var_readable(vm, ids, "div"@, 3)
    &&& var_addr(vm.fp, ids, "quotient"@) is Some
    &&& var_addr(vm.fp, ids, "remainder"@) is Some
}

/// The six cells from `q` and the three cells from `r` are unwritten cells of
/// allocated segments, and no cell is in both.
pub open spec fn outputs_free(mem: Memory, q: Relocatable, r: Relocatable) -> bool {
    &&& region_free(mem, q, 6)
    &&& region_free(mem, r, 3)
    &&& (q.segment_index != r.segment_index || q.offset + 6 <= r.offset || r.offset + 3 <= q.offset)
}

/// Divides the six-limb `a` by the three-limb `div` and writes the six limbs of
/// the quotient at `quotient` and the three limbs of the remainder at
/// `remainder`, each limb holding 128 bits.
pub fn unsigned_div_rem_uint768_by_uint384(
    vm: &mut VirtualMachine,
    ids_data: &Vec<(String, HintReference)>,
    ap_tracking: &ApTracking,
) -> (r: Result<(), HintError>)
    ensures
        final(vm).fp == old(vm).fp,
        !var_readable(old(vm), ids_data@, "a"@, 6) ==> r is Err && var_outcome(old(vm), ids_data@, "a"@, 6, Err(r->Err_0))
            && final(vm).segments.data@ == old(vm).segments.data@,
        var_readable(old(vm), ids_data@, "a"@, 6) && !var_readable(old(vm), ids_data@, "div"@, 3) ==> r is Err
            && var_outcome(old(vm), ids_data@, "div"@, 3, Err(r->Err_0))
            && final(vm).segments.data@ == old(vm).segments.data@,
        var_readable(old(vm), ids_data@, "a"@, 6) && var_readable(old(vm), ids_data@, "div"@, 3)
            && var_addr(old(vm).fp, ids_data@, "quotient"@) is None ==> final(vm).segments.data@ == old(vm).segments.data@
            && match r {
                Err(HintError::UnknownIdentifier(x)) => x@ == "quotient"@,
                _ => false,
            },
        var_readable(old(vm), ids_data@, "a"@, 6) && var_readable(old(vm), ids_data@, "div"@, 3)
            && var_addr(old(vm).fp, ids_data@, "quotient"@) is Some
            && var_addr(old(vm).fp, ids_data@, "remainder"@) is None ==> final(vm).segments.data@ == old(vm).segments.data@
            && match r {
                Err(HintError::UnknownIdentifier(x)) => x@ == "remainder"@,
                _ => false,
            },
        div_inputs_ok(old(vm), ids_data@) && var_value(old(vm), ids_data@, "div"@, 3) == 0 ==> r == Err::<(), HintError>(
            HintError::Math(MathError::DividedByZero),
        ) && final(vm).segments.data@ == old(vm).segments.data@,
        div_inputs_ok(old(vm), ids_data@) && var_value(old(vm), ids_data@, "div"@, 3) > 0 && outputs_free(
            old(vm).segments,
            var_addr(old(vm).fp, ids_data@, "quotient"@).unwrap(),
            var_addr(old(vm).fp, ids_data@, "remainder"@).unwrap(),
        ) ==> r is Ok,
        r is Ok ==> div_inputs_ok(old(vm), ids_data@) && var_value(old(vm), ids_data@, "div"@, 3) > 0,
        r is Ok ==> ({
            let q = var_addr(old(vm).fp, ids_data@, "quotient"@).unwrap();
            let m = var_addr(old(vm).fp, ids_data@, "remainder"@).unwrap();
            let a = var_value(old(vm), ids_data@, "a"@, 6);
            let d = var_value(old(vm), ids_data@, "div"@, 3);
            &&& all_limbs_ok(final(vm).segments, q, 6)
            &&& limbs_at(final(vm).segments, q, 6) == split_value(a / d, LIMB_BITS as nat, 6)
            &&& all_limbs_ok(final(vm).segments, m, 3)
            &&& limbs_at(final(vm).segments, m, 3) == split_value(a % d, LIMB_BITS as nat, 3)
        }),
        forall|b: Relocatable| #[trigger] old(vm).segments.cell(b) is Some ==> final(vm).segments.cell(b) == old(vm).segments.cell(b),
        r is Err && div_inputs_ok(old(vm), ids_data@) && var_value(old(vm), ids_data@, "div"@, 3) > 0 ==> match r {
            Err(HintError::Math(MathError::RelocatableAddUsizeOffsetExceeded(_, _))) => true,
            Err(HintError::Memory(_)) => true,
            _ => false,
        },
{
    let ghost old_vm = *vm;
    let a = match Uint768::from_var_name("a", vm, ids_data, ap_tracking) {
        Ok(x) => x,
        Err(e) => {
            return Err(e);
        },
    };
    let div = match BigInt3::from_var_name("div", vm, ids_data, ap_tracking) {
        Ok(x) => x,
        Err(e) => {
            return Err(e);
        },
    };
    let quotient_addr = match get_relocatable_from_var_name("quotient", vm, ids_data, ap_tracking) {
        Ok(x) => x,
        Err(e) => {
            return Err(e);
        },
    };
    let remainder_addr = match get_relocatable_from_var_name("remainder", vm, ids_data, ap_tracking) {
        Ok(x) => x,
        Err(e) => {
            return Err(e);
        },
    };
    let av = pack(&a.to_vec(), LIMB_BITS);
    let dv = pack(&div.to_vec(), LIMB_BITS);
    if big_is_zero(&dv) {
        return Err(HintError::Math(MathError::DividedByZero));
    }
    let (quotient, remainder) = big_div_mod_floor(&av, &dv);
    let ghost qv = digits_value(quotient@);
    let ghost rv = digits_value(remainder@);
    let quotient_split = split(&quotient, LIMB_BITS, 6);
    let remainder_split = split(&remainder, LIMB_BITS, 3);
    proof {
        vstd::arithmetic::power2::lemma_pow2_pos(128);
        assert forall|i: int| 0 <= i < quotient_split@.len() implies digits_value(#[trigger] quotient_split@[i]@) < pow2(128) by {
            assert(limb_values(quotient_split@)[i] == split_value(qv, 128, 6)[i]);
            vstd::arithmetic::power2::lemma_pow2_pos(128 * i as nat);
            vstd::arithmetic::div_mod::lemma_div_pos_is_pos(qv as int, pow2(128 * i as nat) as int);
            vstd::arithmetic::div_mod::lemma_mod_pos_bound((qv / pow2(128 * i as nat)) as int, pow2(128) as int);
        }
        assert forall|i: int| 0 <= i < remainder_split@.len() implies digits_value(#[trigger] remainder_split@[i]@) < pow2(128) by {
            assert(limb_values(remainder_split@)[i] == split_value(rv, 128, 3)[i]);
            vstd::arithmetic::power2::lemma_pow2_pos(128 * i as nat);
            vstd::arithmetic::div_mod::lemma_div_pos_is_pos(rv as int, pow2(128 * i as nat) as int);
            vstd::arithmetic::div_mod::lemma_mod_pos_bound((rv / pow2(128 * i as nat)) as int, pow2(128) as int);
        }
    }
    let ghost mid0 = vm.segments;
    write_limbs(&mut vm.segments, quotient_addr, &quotient_split)?;
    let ghost mid1 = vm.segments;
    write_limbs(&mut vm.segments, remainder_addr, &remainder_split)?;
    proof {
        assert forall|i: int| 0 <= i < 6 implies limb_ok(vm.segments, quotient_addr, i) && limb_at(vm.segments, quotient_addr, i) == split_value(qv, 128, 6)[i] by {
            assert(holds_value(mid1, limb_addr(quotient_addr, i), limb_values(quotient_split@)[i]));
        }
        assert(limbs_at(vm.segments, quotient_addr, 6) =~= split_value(qv, 128, 6));
        assert forall|i: int| 0 <= i < 3 implies limb_ok(vm.segments, remainder_addr, i) && limb_at(vm.segments, remainder_addr, i) == split_value(rv, 128, 3)[i] by {
            assert(holds_value(vm.segments, limb_addr(remainder_addr, i), limb_values(remainder_split@)[i]));
        }
        assert(limbs_at(vm.segments, remainder_addr, 3) =~= split_value(rv, 128, 3));
    }
    Ok(())
}

/// Division identity: for a dividend below 2^768 and a divisor in 1 .. 2^384, the
/// six quotient limbs and three remainder limbs that the division writes pack to
/// `q` and `r` with `a == q * d + r` and `r < d`.
pub proof fn lemma_division_identity(a: nat, d: nat)
    requires
        0 < d < pow2(384),
        a < pow2(768),
    ensures
        ({
            let q = pack_value(split_value(a / d, LIMB_BITS as nat, 6), LIMB_BITS as nat);
            let r = pack_value(split_value(a % d, LIMB_BITS as nat, 3), LIMB_BITS as nat);
            a == q * d + r && r < d
        }),
{
    vstd::arithmetic::div_mod::lemma_fundamental_div_mod(a as int, d as int);
    vstd::arithmetic::div_mod::lemma_div_is_ordered_by_denominator(a as int, 1, d as int);
    assert(a as int / 1 == a) by (nonlinear_arith);
    vstd::arithmetic::power2::lemma_pow2_adds(384, 384);
    vstd::arithmetic::power2::lemma_pow2_pos(384);
    vstd::arithmetic::div_mod::lemma_mod_pos_bound(a as int, d as int);
    assert(a / d <= a);
    assert(a % d < d);
    assert(LIMB_BITS as nat == 128);
    lemma_round_trip(a / d, 128, 6);
    lemma_round_trip(a % d, 128, 3);
    assert(a == (a / d) * d + a % d) by (nonlinear_arith)
        requires a as int == d * (a as int / d as int) + a as int % d as int;
}

} // verus!
