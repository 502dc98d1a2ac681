use vstd::prelude::*;

use crate::field::{lemma_bit_flip_changes_value, lemma_value_injective, FieldValue};

verus! {

/// Conjunction of two bit witnesses: the product gate.
pub fn bit_and(a: bool, b: bool) -> (r: bool)
    ensures
        r == (a && b),
{
    a && b
}

/// Disjunction of two bit witnesses: sum minus product.
pub fn bit_or(a: bool, b: bool) -> (r: bool)
    ensures
        r == (a || b),
{
    a || b
}

/// Negation of a bit witness: one minus the bit.
pub fn bit_not(a: bool) -> (r: bool)
    ensures
        r == !a,
{
    !a
}

/// Equality of two bit witnesses: one minus their exclusive or.
pub fn bit_eq(a: bool, b: bool) -> (r: bool)
    ensures
        r == (a == b),
{
    a == b
}

/// Strict order on two bit witnesses: not `a` and `b`.
pub fn bit_lt(a: bool, b: bool) -> (r: bool)
    ensures
        r == (!a && b),
{
    let not_a = bit_not(a);
    bit_and(not_a, b)
}

/// Equality of two bit witnesses, as one minus the exclusive or.
pub fn component_bit_equals(a: bool, b: bool) -> (r: bool)
    ensures
        r == (a == b),
{
    bit_eq(a, b)
}

/// What the field-equality gadget decides: the two committed values agree.
pub open spec fn field_eq_spec(a: FieldValue, b: FieldValue) -> bool {
    a.value() == b.value()
}

/// What the field-comparison gadget decides: the first committed value does
/// not exceed the second.
pub open spec fn field_lte_spec(a: FieldValue, b: FieldValue) -> bool {
    a.value() <= b.value()
}

/// Equality of two field values: decompose both to 256 bits and fold the
/// per-bit equalities with a running conjunction.
pub fn component_equals(a: &FieldValue, b: &FieldValue) -> (r: bool)
    ensures
        r == field_eq_spec(*a, *b),
{
    let mut accum = true;
    let mut i: usize = 0;
    while i < 256
        invariant
            i <= 256,
            accum == (a.prefix_value(i as nat) == b.prefix_value(i as nat)),
        decreases 256 - i,
    {
        let ba = a.bit_at(255 - i);
        let bb = b.bit_at(255 - i);
        accum = bit_and(accum, component_bit_equals(ba, bb));
        i = i + 1;
    }
    accum
}

/// Order on two field values: scan the bits from the most significant down,
/// keeping running strictly-less and strictly-greater flags; the result is
/// less-than or neither flag set.
pub fn component_lte(a: &FieldValue, b: &FieldValue) -> (r: bool)
    ensures
        r == field_lte_spec(*a, *b),
{
    let mut lt = false;
    let mut gt = false;
    let mut i: usize = 0;
    while i < 256
        invariant
            i <= 256,
            lt == (a.prefix_value(i as nat) < b.prefix_value(i as nat)),
            gt == (a.prefix_value(i as nat) > b.prefix_value(i as nat)),
        decreases 256 - i,
    {
        let ba = a.bit_at(255 - i);
        let bb = b.bit_at(255 - i);
        let not_gt = bit_not(gt);
        let a_lt_b = bit_lt(ba, bb);
        let not_gt_and_a_lt_b = bit_and(not_gt, a_lt_b);
        let not_lt = bit_not(lt);
        let b_lt_a = bit_lt(bb, ba);
        let not_lt_and_b_lt_a = bit_and(not_lt, b_lt_a);
        lt = bit_or(lt, not_gt_and_a_lt_b);
        gt = bit_or(gt, not_lt_and_b_lt_a);
        i = i + 1;
    }
    let not_lt = bit_not(lt);
    let not_gt = bit_not(gt);
    let not_lt_and_not_gt = bit_and(not_lt, not_gt);
    bit_or(lt, not_lt_and_not_gt)
}

/// The comparison is reflexive: every value is less than or equal to itself.
pub proof fn lemma_lte_reflexive(a: FieldValue)
    ensures
        field_lte_spec(a, a),
{
}

/// The comparison is antisymmetric and total: of two distinct field values,
/// exactly one of the two less-or-equal directions holds.
pub proof fn lemma_lte_antisymmetric(a: FieldValue, b: FieldValue)
    requires
        a != b,
    ensures
        field_lte_spec(a, b) != field_lte_spec(b, a),
{
    if a.value() == b.value() {
        lemma_value_injective(a, b);
    }
}

/// The comparison is transitive.
pub proof fn lemma_lte_transitive(a: FieldValue, b: FieldValue, c: FieldValue)
    requires
        field_lte_spec(a, b),
        field_lte_spec(b, c),
    ensures
        field_lte_spec(a, c),
{
}

/// Equality of a value with itself always holds.
pub proof fn lemma_equals_reflexive(a: FieldValue)
    ensures
        field_eq_spec(a, a),
{
}

/// Flipping any single bit of a value breaks equality: the equality gadget
/// then decides false.
pub proof fn lemma_equals_bit_flip(a: FieldValue, b: FieldValue, i: nat)
    requires
        i < 256,
        a.bit(i) != b.bit(i),
    ensures
        !field_eq_spec(a, b),
{
    lemma_bit_flip_changes_value(a, b, i);
}

/// Packs 64 bits, least significant first, back into the word they came
/// from: the running word is rebuilt most significant bit first.
fn pack_chunk(bits: &Vec<bool>, base: usize, Ghost(limb): Ghost<u64>) -> (r: u64)
    requires
        base + 64 <= bits@.len(),
        forall|k: int| 0 <= k < 64 ==> #[trigger] bits@[base + k] == (((limb >> (k as u64)) & 1) == 1),
    ensures
        r == limb,
{
    let mut num: u64 = 0;
    let mut t: usize = 0;
    let n = bits.len();
    while t < 64
        invariant
            t <= 64,
            n == bits@.len(),
            base + 64 <= n,
            forall|k: int| 0 <= k < 64 ==> #[trigger] bits@[base + k] == (((limb >> (k as u64)) & 1) == 1),
            t == 0 ==> num == 0,
            t >= 1 ==> num == limb >> ((64 - t) as u64),
        decreases 64 - t,
    {
        let b = bits[base + (63 - t)];
        let bv: u64 = if b {
            1
        } else {
            0
        };
        proof {
            let j: u64 = (63 - t) as u64;
            if t == 0 {
                assert((limb >> 63u64) & 1 == limb >> 63u64 && limb >> 63u64 < 2) by (bit_vector);
            } else {
                let j1: u64 = (j + 1) as u64;
                assert(limb >> j == 2 * (limb >> j1) + ((limb >> j) & 1) && (limb >> j1)
                    < 0x8000000000000000u64 && ((limb >> j) & 1) < 2) by (bit_vector)
                    requires
                        j < 63 && j1 == j + 1,
                ;
            }
        }
        num = num * 2 + bv;
        proof {
            let j: u64 = (63 - t) as u64;
            assert(num == limb >> j);
        }
        t = t + 1;
    }
    proof {
        assert(limb >> 0u64 == limb) by (bit_vector);
    }
    num
}

/// Bridges a scalar of the commitment field toward the embedded curve's
/// scalar field: decomposes the value into its 256 bits and repacks each run
/// of 64 into a word, yielding the little-endian words that seed the curve
/// scalar. Decomposing and repacking is the identity on the value.
pub fn bls_to_jubjub(s: &FieldValue) -> (r: FieldValue)
    ensures
        r == *s,
{
    let bits = s.to_bits();
    let l0 = pack_chunk(&bits, 0, Ghost(s.l0));
    let l1 = pack_chunk(&bits, 64, Ghost(s.l1));
    let l2 = pack_chunk(&bits, 128, Ghost(s.l2));
    let l3 = pack_chunk(&bits, 192, Ghost(s.l3));
    FieldValue { l0, l1, l2, l3 }
}

} // verus!
