use uint384_extension::bignum::digits_from_u128;
use uint384_extension::codec::{pack, split};
use uint384_extension::errors::{HintError, MathError, MemoryError};
use uint384_extension::felt::Felt;
use uint384_extension::memory::{MaybeRelocatable, Memory, Relocatable};
use uint384_extension::uint384_extension::{unsigned_div_rem_uint768_by_uint384, BigInt3, Uint768};
use uint384_extension::vm::{get_relocatable_from_var_name, ApTracking, HintReference, VirtualMachine};

fn addr(segment_index: usize, offset: usize) -> Relocatable {
    Relocatable { segment_index, offset }
}

/// A machine with segments 0 and 1 and the given cells written.
fn vm_with(cells: &[((usize, usize), u128)], fp: usize) -> VirtualMachine {
    let mut segments = Memory::new();
    segments.add_segment();
    segments.add_segment();
    for ((s, o), v) in cells {
        segments
            .insert_value(addr(*s, *o), MaybeRelocatable::Int(Felt::from_u128(*v)))
            .unwrap();
    }
    VirtualMachine { segments, fp: addr(1, fp) }
}

fn ids(entries: &[(&str, i64)]) -> Vec<(String, HintReference)> {
    entries
        .iter()
        .map(|(n, o)| (n.to_string(), HintReference { fp_offset: *o }))
        .collect()
}

fn int_at(vm: &VirtualMachine, s: usize, o: usize) -> Option<Felt> {
    vm.segments.get_integer(addr(s, o))
}

fn felt(x: u128) -> Felt {
    Felt::from_u128(x)
}

fn digits(xs: &[u128]) -> Vec<Felt> {
    xs.iter().map(|x| Felt::from_u128(*x)).collect()
}

fn no_member(r: Result<Uint768, HintError>, field: &str) {
    match r {
        Err(HintError::IdentifierHasNoMember(x, y)) => {
            assert_eq!(x, "x");
            assert_eq!(y, field);
        }
        other => panic!("unexpected {:?}", other),
    }
}

fn div_ids() -> Vec<(String, HintReference)> {
    ids(&[("a", -17), ("div", -11), ("quotient", -8), ("remainder", -2)])
}

#[test]
fn get_uint768_from_base_addr_ok() {
    let vm = vm_with(&[((1, 0), 1), ((1, 1), 2), ((1, 2), 3), ((1, 3), 4), ((1, 4), 5), ((1, 5), 6)], 0);
    let x = Uint768::from_base_addr(addr(1, 0), "x", &vm).unwrap();
    assert_eq!(x.d0, felt(1));
    assert_eq!(x.d1, felt(2));
    assert_eq!(x.d2, felt(3));
}

#[test]
fn get_uint768_from_base_addr_missing_member_d0() {
    let vm = vm_with(&[((0, 1), 2)], 0);
    no_member(Uint768::from_base_addr(addr(0, 0), "x", &vm), "d0");
}

#[test]
fn get_uint768_from_base_addr_missing_member_d1() {
    let vm = vm_with(&[((0, 0), 1)], 0);
    no_member(Uint768::from_base_addr(addr(0, 0), "x", &vm), "d1");
}

#[test]
fn get_uint768_from_base_addr_missing_member_d2() {
    let vm = vm_with(&[((0, 0), 1), ((0, 1), 2)], 0);
    no_member(Uint768::from_base_addr(addr(0, 0), "x", &vm), "d2");
}

#[test]
fn get_uint768_from_base_addr_missing_member_d3() {
    let vm = vm_with(&[((0, 0), 1), ((0, 1), 2), ((0, 2), 3)], 0);
    no_member(Uint768::from_base_addr(addr(0, 0), "x", &vm), "d3");
}

#[test]
fn get_uint768_from_base_addr_missing_member_d4() {
    let vm = vm_with(&[((0, 0), 1), ((0, 1), 2), ((0, 2), 3), ((0, 3), 4)], 0);
    no_member(Uint768::from_base_addr(addr(0, 0), "x", &vm), "d4");
}

#[test]
fn get_uint768_from_base_addr_missing_member_d5() {
    let vm = vm_with(&[((0, 0), 1), ((0, 1), 2), ((0, 2), 3), ((0, 3), 4), ((0, 4), 5)], 0);
    no_member(Uint768::from_base_addr(addr(0, 0), "x", &vm), "d5");
}

#[test]
fn get_uint768_from_var_name_ok() {
    let vm = vm_with(&[((1, 0), 1), ((1, 1), 2), ((1, 2), 3), ((1, 3), 4), ((1, 4), 5), ((1, 5), 6)], 1);
    let ids_data = ids(&[("x", -1)]);
    let x = Uint768::from_var_name("x", &vm, &ids_data, &ApTracking::default()).unwrap();
    assert_eq!(x.d0, felt(1));
    assert_eq!(x.d1, felt(2));
    assert_eq!(x.d2, felt(3));
}

#[test]
fn get_uint768_from_var_name_missing_member() {
    let vm = vm_with(&[((1, 0), 1), ((1, 1), 2)], 1);
    let ids_data = ids(&[("x", -1)]);
    no_member(Uint768::from_var_name("x", &vm, &ids_data, &ApTracking::default()), "d2");
}

#[test]
fn get_uint768_from_var_name_invalid_reference() {
    let vm = vm_with(&[((1, 0), 1), ((1, 1), 2), ((1, 2), 3)], 0);
    let ids_data = ids(&[("x", -1)]);
    let r = Uint768::from_var_name("x", &vm, &ids_data, &ApTracking::default());
    assert!(matches!(r, Err(HintError::UnknownIdentifier(x)) if x == "x"));
}

#[test]
fn run_unsigned_div_rem_ok() {
    let mut vm = vm_with(
        &[
            ((1, 0), 1),
            ((1, 1), 2),
            ((1, 2), 3),
            ((1, 3), 4),
            ((1, 4), 5),
            ((1, 5), 6),
            ((1, 6), 6),
            ((1, 7), 7),
            ((1, 8), 8),
        ],
        17,
    );
    let r = unsigned_div_rem_uint768_by_uint384(&mut vm, &div_ids(), &ApTracking::default());
    assert!(matches!(r, Ok(())));
    assert_eq!(int_at(&vm, 1, 12), Some(felt(0)));
    assert_eq!(int_at(&vm, 1, 13), Some(felt(0)));
    assert_eq!(int_at(&vm, 1, 14), Some(felt(0)));
    assert_eq!(int_at(&vm, 1, 15), Some(felt(71778311772385457136805581255138607105)));
    assert_eq!(int_at(&vm, 1, 16), Some(felt(147544307532125661892322583691118247938)));
    assert_eq!(int_at(&vm, 1, 17), Some(felt(3)));
    assert_eq!(int_at(&vm, 1, 9), Some(felt(328319314958874220607240343889245110272)));
    assert_eq!(int_at(&vm, 1, 10), Some(felt(329648542954659136480144150949525454847)));
    assert_eq!(int_at(&vm, 1, 11), Some(felt(255211775190703847597530955573826158591)));
}

#[test]
fn run_unsigned_div_rem_divide_by_zero() {
    let mut vm = vm_with(
        &[
            ((1, 0), 1),
            ((1, 1), 2),
            ((1, 2), 3),
            ((1, 3), 4),
            ((1, 4), 5),
            ((1, 5), 6),
            ((1, 6), 0),
            ((1, 7), 0),
            ((1, 8), 0),
        ],
        17,
    );
    let r = unsigned_div_rem_uint768_by_uint384(&mut vm, &div_ids(), &ApTracking::default());
    assert!(matches!(r, Err(HintError::Math(MathError::DividedByZero))));
}

#[test]
fn divide_by_zero_writes_nothing() {
    let mut vm = vm_with(
        &[((1, 0), 9), ((1, 1), 9), ((1, 2), 9), ((1, 3), 9), ((1, 4), 9), ((1, 5), 9), ((1, 6), 0), ((1, 7), 0), ((1, 8), 0)],
        17,
    );
    let r = unsigned_div_rem_uint768_by_uint384(&mut vm, &div_ids(), &ApTracking::default());
    assert_eq!(r, Err(HintError::Math(MathError::DividedByZero)));
    for o in 9..18 {
        assert_eq!(int_at(&vm, 1, o), None);
    }
}

#[test]
fn division_small_values() {
    // 100 / 7 = 14 remainder 2, all in the lowest limb.
    let mut vm = vm_with(
        &[((1, 0), 100), ((1, 1), 0), ((1, 2), 0), ((1, 3), 0), ((1, 4), 0), ((1, 5), 0), ((1, 6), 7), ((1, 7), 0), ((1, 8), 0)],
        17,
    );
    unsigned_div_rem_uint768_by_uint384(&mut vm, &div_ids(), &ApTracking::default()).unwrap();
    assert_eq!(int_at(&vm, 1, 9), Some(felt(14)));
    assert_eq!(int_at(&vm, 1, 10), Some(felt(0)));
    assert_eq!(int_at(&vm, 1, 15), Some(felt(2)));
    assert_eq!(int_at(&vm, 1, 16), Some(felt(0)));
}

#[test]
fn division_by_one_copies_the_dividend() {
    let mut vm = vm_with(
        &[((1, 0), 1), ((1, 1), 2), ((1, 2), 3), ((1, 3), 4), ((1, 4), 5), ((1, 5), 6), ((1, 6), 1), ((1, 7), 0), ((1, 8), 0)],
        17,
    );
    unsigned_div_rem_uint768_by_uint384(&mut vm, &div_ids(), &ApTracking::default()).unwrap();
    for (i, v) in [1u128, 2, 3, 4, 5, 6].iter().enumerate() {
        assert_eq!(int_at(&vm, 1, 9 + i), Some(felt(*v)));
    }
    for o in 15..18 {
        assert_eq!(int_at(&vm, 1, o), Some(felt(0)));
    }
}

#[test]
fn division_reports_inconsistent_memory() {
    let mut vm = vm_with(
        &[((1, 0), 100), ((1, 1), 0), ((1, 2), 0), ((1, 3), 0), ((1, 4), 0), ((1, 5), 0), ((1, 6), 7), ((1, 7), 0), ((1, 8), 0), ((1, 9), 15)],
        17,
    );
    let r = unsigned_div_rem_uint768_by_uint384(&mut vm, &div_ids(), &ApTracking::default());
    assert_eq!(r, Err(HintError::Memory(MemoryError::InconsistentMemory(addr(1, 9)))));
}

#[test]
fn division_unknown_quotient_name() {
    let mut vm = vm_with(
        &[((1, 0), 1), ((1, 1), 2), ((1, 2), 3), ((1, 3), 4), ((1, 4), 5), ((1, 5), 6), ((1, 6), 6), ((1, 7), 7), ((1, 8), 8)],
        17,
    );
    let ids_data = ids(&[("a", -17), ("div", -11), ("remainder", -2)]);
    let r = unsigned_div_rem_uint768_by_uint384(&mut vm, &ids_data, &ApTracking::default());
    assert_eq!(r, Err(HintError::UnknownIdentifier("quotient".to_string())));
    assert_eq!(int_at(&vm, 1, 15), None);
}

#[test]
fn division_missing_divisor_limb() {
    let mut vm = vm_with(
        &[((1, 0), 1), ((1, 1), 2), ((1, 2), 3), ((1, 3), 4), ((1, 4), 5), ((1, 5), 6), ((1, 6), 6), ((1, 7), 7)],
        17,
    );
    let r = unsigned_div_rem_uint768_by_uint384(&mut vm, &div_ids(), &ApTracking::default());
    assert_eq!(r, Err(HintError::IdentifierHasNoMember("div".to_string(), "d2".to_string())));
}

#[test]
fn bigint3_reads_three_limbs() {
    let vm = vm_with(&[((1, 0), 6), ((1, 1), 7), ((1, 2), 8)], 0);
    let x = BigInt3::from_base_addr(addr(1, 0), "div", &vm).unwrap();
    assert_eq!((x.d0, x.d1, x.d2), (felt(6), felt(7), felt(8)));
}

#[test]
fn unknown_name_is_reported() {
    let vm = vm_with(&[((1, 0), 1)], 1);
    let ids_data = ids(&[("x", -1)]);
    let r = get_relocatable_from_var_name("y", &vm, &ids_data, &ApTracking::default());
    assert_eq!(r, Err(HintError::UnknownIdentifier("y".to_string())));
    assert_eq!(get_relocatable_from_var_name("x", &vm, &ids_data, &ApTracking::default()), Ok(addr(1, 0)));
}

#[test]
fn offset_overflow_is_reported() {
    let vm = vm_with(&[], 0);
    let r = Uint768::from_base_addr(addr(1, usize::MAX), "x", &vm);
    // the first limb's cell is absent
    assert!(matches!(r, Err(HintError::IdentifierHasNoMember(_, ref y)) if y == "d0"));
    let r = addr(1, usize::MAX).add_usize(1);
    assert_eq!(r, Err(MathError::RelocatableAddUsizeOffsetExceeded(addr(1, usize::MAX), 1)));
}

#[test]
fn write_to_missing_segment_fails() {
    let mut m = Memory::new();
    let r = m.insert_value(addr(0, 0), MaybeRelocatable::Int(felt(1)));
    assert_eq!(r, Err(MemoryError::UnallocatedSegment(0)));
    m.add_segment();
    assert_eq!(m.insert_value(addr(0, 3), MaybeRelocatable::Int(felt(1))), Ok(()));
    assert_eq!(m.insert_value(addr(0, 3), MaybeRelocatable::Int(felt(1))), Ok(()));
    assert_eq!(m.get_integer(addr(0, 2)), None);
    assert_eq!(m.get_integer(addr(0, 3)), Some(felt(1)));
}

#[test]
fn pack_shifts_and_adds() {
    // 1 + 2 * 2^128: digits 1, 0, 0, 0, 2
    let r = pack(&digits(&[1, 2]), 128);
    assert_eq!(r, vec![1, 0, 0, 0, 2]);
    assert_eq!(pack(&digits(&[5, 3]), 4), vec![53]);
    assert_eq!(pack(&digits(&[]), 128), Vec::<u32>::new());
}

#[test]
fn split_takes_low_bits_first() {
    let r = split(&digits_from_u128(0x1234), 4, 5);
    let limbs: Vec<Vec<u32>> = vec![vec![4], vec![3], vec![2], vec![1], vec![]];
    assert_eq!(r, limbs);
    // bits above width * length are dropped
    let r = split(&digits_from_u128(0x1234), 4, 2);
    assert_eq!(r, vec![vec![4], vec![3]]);
}

#[test]
fn pack_of_split_round_trips() {
    let x: u128 = 0xdead_beef_0123_4567_89ab_cdef_5555_aaaa;
    let limbs = split(&digits_from_u128(x), 32, 4);
    let felts: Vec<Felt> = limbs.into_iter().map(Felt::from_digits).collect();
    assert_eq!(pack(&felts, 32), digits_from_u128(x));
    let limbs = split(&digits_from_u128(x), 7, 19);
    let felts: Vec<Felt> = limbs.into_iter().map(Felt::from_digits).collect();
    assert_eq!(pack(&felts, 7), digits_from_u128(x));
}

#[test]
fn felt_digits_are_canonical() {
    assert_eq!(Felt::from_digits(vec![7, 0, 0]), felt(7));
    assert_eq!(felt(0).digits, Vec::<u32>::new());
    assert_eq!(felt(1 << 40).digits, vec![0, 256]);
    assert!(felt(3).same(&Felt::from_digits(vec![3, 0])));
    assert!(!felt(3).same(&felt(4)));
}
