//! Packing limbs into one natural and splitting a natural into limbs.
use vstd::prelude::*;
use vstd::arithmetic::power2::{pow2, lemma_pow2_adds, lemma_pow2_pos};
use vstd::arithmetic::div_mod::{lemma_breakdown, lemma_div_denominator};
use crate::bignum::{digits_value, big_add, big_shl, big_div_mod_floor};
use crate::felt::Felt;

verus! {

/// The sum of `limbs[i] * 2^(w * i)`.
pub open spec fn pack_value(limbs: Seq<nat>, w: nat) -> nat
    decreases limbs.len(),
{
    if limbs.len() == 0 {
        0
    } else {
        pack_value(limbs.drop_last(), w) + limbs.last() * pow2(w * (limbs.len() - 1) as nat)
    }
}

/// The first `len` limbs of `x` in base 2^w, least significant first.
pub open spec fn split_value(x: nat, w: nat, count: nat) -> Seq<nat> {
    Seq::new(count, |i: int| limb_of(x, w, i as nat))
}

/// Limb `i` of `x` in base 2^w.
pub open spec fn limb_of(x: nat, w: nat, i: nat) -> nat {
    (x / pow2(w * i)) % pow2(w)
}

/// The values of field elements.
pub open spec fn felt_values(s: Seq<Felt>) -> Seq<nat> {
    s.map_values(|f: Felt| f@)
}

/// The values of digit vectors.
pub open spec fn limb_values(s: Seq<Vec<u32>>) -> Seq<nat> {
    s.map_values(|v: Vec<u32>| digits_value(v@))
}

/// Splitting keeps the low `w * len` bits: packing the limbs again gives `x mod 2^(w * len)`.
pub proof fn lemma_pack_split(x: nat, w: nat, len: nat)
    ensures
        pack_value(split_value(x, w, len), w) == x % pow2(w * len),
    decreases len,
{
    if len == 0 {
        vstd::arithmetic::power2::lemma2_to64();
        assert(w * len == 0) by (nonlinear_arith)
            requires len == 0;
        assert(x % 1 == 0) by (nonlinear_arith);
        assert(split_value(x, w, len).len() == 0);
    } else {
        let l1 = (len - 1) as nat;
        lemma_pack_split(x, w, l1);
        let s = split_value(x, w, len);
        assert(s.drop_last() =~= split_value(x, w, l1));
        let y = pow2(w * l1);
        let z = pow2(w);
        lemma_pow2_pos(w * l1);
        lemma_pow2_pos(w);
        lemma_breakdown(x as int, y as int, z as int);
        lemma_pow2_adds(w * l1, w);
        assert(w * l1 + w == w * len) by (nonlinear_arith)
            requires l1 + 1 == len;
        assert(s.len() == len);
        assert(s.last() == limb_of(x, w, l1));
        assert(pack_value(s, w) == pack_value(s.drop_last(), w) + s.last() * pow2(w * l1));
        assert(pack_value(s, w) == x % y + ((x / y) % z) * y);
        assert(((x / y) % z) * y == y * ((x / y) % z)) by (nonlinear_arith);
    }
}

/// Round trip: a natural below `2^(w * len)` is packed back from its `len` limbs.
pub proof fn lemma_round_trip(x: nat, w: nat, len: nat)
    requires
        w > 0,
        len > 0,
        x < pow2(w * len),
    ensures
        pack_value(split_value(x, w, len), w) == x,
{
    lemma_pack_split(x, w, len);
    vstd::arithmetic::div_mod::lemma_small_mod(x, pow2(w * len));
}

/// Packs field-element limbs: the sum of `limbs[i] << (i * num_bits_shift)`.
pub fn pack(limbs: &Vec<Felt>, num_bits_shift: usize) -> (r: Vec<u32>)
    requires
        limbs.len() * num_bits_shift <= usize::MAX,
    ensures
        digits_value(r@) == pack_value(felt_values(limbs@), num_bits_shift as nat),
{
    let mut acc: Vec<u32> = Vec::new();
    let mut i: usize = 0;
    while i < limbs.len()
        invariant
            i <= limbs.len(),
            limbs.len() * num_bits_shift <= usize::MAX,
            digits_value(acc@) == pack_value(felt_values(limbs@.take(i as int)), num_bits_shift as nat),
        decreases limbs.len() - i,
    {
        proof {
            assert(i * num_bits_shift <= limbs.len() * num_bits_shift) by (nonlinear_arith)
                requires i <= limbs.len();
        }
        let shifted = big_shl(&limbs[i].to_digits(), i * num_bits_shift);
        acc = big_add(&acc, &shifted);
        proof {
            let t = felt_values(limbs@.take(i + 1));
            assert(t.drop_last() =~= felt_values(limbs@.take(i as int)));
            assert(t.last() == limbs@[i as int]@);
            assert(t.len() == i + 1);
            assert((i * num_bits_shift) as nat == num_bits_shift as nat * i as nat) by (nonlinear_arith)
                requires i * num_bits_shift <= usize::MAX;
            assert(((t.len() - 1) as nat) == i as nat);
        }
        i = i + 1;
    }
    assert(limbs@.take(i as int) =~= limbs@);
    acc
}

/// Splits `num` into `length` limbs of `num_bits_shift` bits, least significant
/// first; what lies above `num_bits_shift * length` bits is dropped.
pub fn split(num: &Vec<u32>, num_bits_shift: usize, length: usize) -> (r: Vec<Vec<u32>>)
    ensures
        limb_values(r@) == split_value(digits_value(num@), num_bits_shift as nat, length as nat),
        r@.len() == length,
{
    let x = Ghost(digits_value(num@));
    let w = Ghost(num_bits_shift as nat);
    let mut one: Vec<u32> = Vec::new();
    one.push(1);
    proof {
        assert(one@.drop_last() =~= Seq::<u32>::empty());
        assert(one@.len() == 1 && one@.last() == 1);
        assert(digits_value(one@.drop_last()) == 0);
        vstd::arithmetic::power2::lemma2_to64();
        assert(digits_value(one@) == 1);
    }
    let base = big_shl(&one, num_bits_shift);
    proof {
        lemma_pow2_pos(w@);
    }
    let mut rest: Vec<u32> = num.clone();
    let mut out: Vec<Vec<u32>> = Vec::new();
    let mut i: usize = 0;
    proof {
        assert(digits_value(rest@) == digits_value(num@));
        assert(pow2(w@ * 0) == 1);
        assert(x@ / 1 == x@) by (nonlinear_arith);
        assert(limb_values(out@) =~= split_value(x@, w@, 0));
    }
    while i < length
        invariant
            i <= length,
            digits_value(base@) == pow2(w@),
            pow2(w@) > 0,
            x@ == digits_value(num@),
            w@ == num_bits_shift as nat,
            digits_value(rest@) == x@ / pow2(w@ * i as nat),
            limb_values(out@) == split_value(x@, w@, i as nat),
            out@.len() == i,
        decreases length - i,
    {
        let (q, m) = big_div_mod_floor(&rest, &base);
        let ghost old_out = out@;
        proof {
            lemma_pow2_pos(w@ * i as nat);
            lemma_div_denominator(x@ as int, pow2(w@ * i as nat) as int, pow2(w@) as int);
            lemma_pow2_adds(w@ * i as nat, w@);
            assert(w@ * i as nat + w@ == w@ * (i + 1) as nat) by (nonlinear_arith);
        }
        out.push(m);
        rest = q;
        proof {
            assert(out@ == old_out.push(m));
            assert(forall|j: int| 0 <= j < i ==> limb_values(out@)[j] == limb_values(old_out)[j]);
            assert(forall|j: int| 0 <= j < i ==> split_value(x@, w@, i as nat)[j] == limb_of(x@, w@, j as nat));
            assert(limb_values(out@)[i as int] == limb_of(x@, w@, i as nat));
            assert(limb_values(out@).len() == i + 1);
            assert forall|j: int| 0 <= j < i + 1 implies #[trigger] limb_values(out@)[j] == split_value(x@, w@, (i + 1) as nat)[j] by {
                if j < i {
                    assert(limb_values(old_out)[j] == split_value(x@, w@, i as nat)[j]);
                }
            }
            assert(limb_values(out@) =~= split_value(x@, w@, (i + 1) as nat));
        }
        i = i + 1;
    }
    out
}

} // verus!
