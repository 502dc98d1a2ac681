use vstd::prelude::*;

verus! {

/// A 256-bit quantity held as four little-endian 64-bit limbs: the library's
/// model of a single field-element commitment (a root hash, a key coordinate,
/// a scalar).
#[derive(Clone, Copy, Debug, PartialEq, Eq, Structural, Hash)]
pub struct FieldValue {
    pub l0: u64,
    pub l1: u64,
    pub l2: u64,
    pub l3: u64,
}

impl FieldValue {
    /// Bit `i` of the 256-bit value, counting from the least significant.
    pub open spec fn bit(self, i: nat) -> bool {
        if i < 64 {
            (self.l0 >> (i as u64)) & 1 == 1
        } else if i < 128 {
            (self.l1 >> ((i - 64) as u64)) & 1 == 1
        } else if i < 192 {
            (self.l2 >> ((i - 128) as u64)) & 1 == 1
        } else {
            (self.l3 >> ((i - 192) as u64)) & 1 == 1
        }
    }

    /// The value of the `n` most significant bits, folded from the top down.
    pub open spec fn prefix_value(self, n: nat) -> nat
        decreases n,
    {
        if n == 0 {
            0
        } else {
            2 * self.prefix_value((n - 1) as nat) + (if self.bit((256 - n) as nat) {
                1nat
            } else {
                0nat
            })
        }
    }

    /// The whole 256-bit value.
    pub open spec fn value(self) -> nat {
        self.prefix_value(256)
    }

    pub open spec fn is_zero_spec(self) -> bool {
        self.l0 == 0 && self.l1 == 0 && self.l2 == 0 && self.l3 == 0
    }

    pub fn zero() -> (r: Self)
        ensures
            r.is_zero_spec(),
            r.value() == 0,
    {
        Self::from_u64(0)
    }

    /// Embeds a machine word as a field value.
    pub fn from_u64(x: u64) -> (r: Self)
        ensures
            r.l0 == x,
            r.l1 == 0 && r.l2 == 0 && r.l3 == 0,
            r.value() == x,
    {
        let r = FieldValue { l0: x, l1: 0, l2: 0, l3: 0 };
        proof {
            lemma_value_of_low_limb(r);
        }
        r
    }

    /// Reads one bit of the value.
    pub fn bit_at(&self, i: usize) -> (r: bool)
        requires
            i < 256,
        ensures
            r == self.bit(i as nat),
    {
        if i < 64 {
            (self.l0 >> (i as u64)) & 1 == 1
        } else if i < 128 {
            (self.l1 >> ((i - 64) as u64)) & 1 == 1
        } else if i < 192 {
            (self.l2 >> ((i - 128) as u64)) & 1 == 1
        } else {
            (self.l3 >> ((i - 192) as u64)) & 1 == 1
        }
    }

    /// The 256 bits of the value, least significant first.
    pub fn to_bits(&self) -> (r: Vec<bool>)
        ensures
            r@.len() == 256,
            forall|i: int| 0 <= i < 256 ==> r@[i] == self.bit(i as nat),
    {
        let mut r: Vec<bool> = Vec::new();
        let mut i: usize = 0;
        while i < 256
            invariant
                i <= 256,
                r@.len() == i,
                forall|j: int| 0 <= j < i ==> r@[j] == self.bit(j as nat),
            decreases 256 - i,
        {
            r.push(self.bit_at(i));
            i = i + 1;
        }
        r
    }
}

/// The fold of the bits above position `n` is zero when the upper limbs are zero.
proof fn lemma_prefix_of_zero_high(v: FieldValue, n: nat)
    requires
        n <= 192,
        v.l1 == 0,
        v.l2 == 0,
        v.l3 == 0,
    ensures
        v.prefix_value(n) == 0,
    decreases n,
{
    if n > 0 {
        lemma_prefix_of_zero_high(v, (n - 1) as nat);
        let i = (256 - n) as nat;
        if i < 128 {
            let s = (i - 64) as u64;
            assert((0u64 >> s) & 1 == 0) by (bit_vector);
        } else if i < 192 {
            let s = (i - 128) as u64;
            assert((0u64 >> s) & 1 == 0) by (bit_vector);
        } else {
            let s = (i - 192) as u64;
            assert((0u64 >> s) & 1 == 0) by (bit_vector);
        }
    }
}

/// Folding the `k` top bits of the low limb yields that limb shifted down.
proof fn lemma_prefix_low_limb(v: FieldValue, k: nat)
    requires
        1 <= k <= 64,
        v.l1 == 0,
        v.l2 == 0,
        v.l3 == 0,
    ensures
        v.prefix_value((192 + k) as nat) == (v.l0 >> ((64 - k) as u64)) as nat,
    decreases k,
{
    let x = v.l0;
    let j: u64 = (64 - k) as u64;
    if k == 1 {
        lemma_prefix_of_zero_high(v, 192);
        assert((x >> 63u64) & 1 == x >> 63u64 && x >> 63u64 < 2) by (bit_vector);
    } else {
        lemma_prefix_low_limb(v, (k - 1) as nat);
        let j1: u64 = (j + 1) as u64;
        assert(x >> j == 2 * (x >> j1) + ((x >> j) & 1) && ((x >> j) & 1) < 2) by (bit_vector)
            requires
                j < 63 && j1 == j + 1,
        ;
        assert(v.prefix_value((192 + k) as nat) == 2 * v.prefix_value((191 + k) as nat) + (
        if v.bit(j as nat) {
            1nat
        } else {
            0nat
        }));
    }
}

/// The value of a field element whose upper limbs are zero is its low limb.
proof fn lemma_value_of_low_limb(v: FieldValue)
    requires
        v.l1 == 0,
        v.l2 == 0,
        v.l3 == 0,
    ensures
        v.value() == v.l0,
{
    lemma_prefix_low_limb(v, 64);
    let x = v.l0;
    assert(x >> 0u64 == x) by (bit_vector);
}

/// Equal top-down folds pin every bit that was folded in.
proof fn lemma_prefix_value_determines_bits(a: FieldValue, b: FieldValue, n: nat)
    requires
        n <= 256,
        a.prefix_value(n) == b.prefix_value(n),
    ensures
        forall|i: nat| 256 - n <= i < 256 ==> #[trigger] a.bit(i) == b.bit(i),
    decreases n,
{
    if n > 0 {
        let pa = a.prefix_value((n - 1) as nat);
        let pb = b.prefix_value((n - 1) as nat);
        let xa: nat = if a.bit((256 - n) as nat) {
            1nat
        } else {
            0nat
        };
        let xb: nat = if b.bit((256 - n) as nat) {
            1nat
        } else {
            0nat
        };
        assert(2 * pa + xa == 2 * pb + xb);
        assert(pa == pb && xa == xb) by (nonlinear_arith)
            requires
                2 * pa + xa == 2 * pb + xb,
                xa <= 1,
                xb <= 1,
        ;
        lemma_prefix_value_determines_bits(a, b, (n - 1) as nat);
    }
}

/// Two field values with the same 256-bit value agree on every bit.
pub proof fn lemma_value_determines_bits(a: FieldValue, b: FieldValue)
    requires
        a.value() == b.value(),
    ensures
        forall|i: nat| i < 256 ==> #[trigger] a.bit(i) == b.bit(i),
{
    lemma_prefix_value_determines_bits(a, b, 256);
}

/// A limb is determined by its 64 bits, stated over bit tests.
proof fn lemma_limb_bits_determine(x: u64, y: u64)
    requires
        forall|k: u64| k < 64 ==> ((#[trigger] (x >> k) & 1) == 1) == (((y >> k) & 1) == 1),
    ensures
        x == y,
{
    assert forall|k: u64| k < 64 implies #[trigger] ((x >> k) & 1) == ((y >> k) & 1) by {
        assert(((x >> k) & 1) < 2 && ((y >> k) & 1) < 2) by (bit_vector);
    }
    lemma_u64_bits_determine(x, y);
}

/// A limb is determined by its 64 bits.
proof fn lemma_u64_shr_eq(x: u64, y: u64, j: u64)
    requires
        j < 64,
        forall|k: u64| k < 64 ==> #[trigger] ((x >> k) & 1) == ((y >> k) & 1),
    ensures
        x >> j == y >> j,
    decreases 64 - j,
{
    if j == 63 {
        assert((x >> 63u64) & 1 == x >> 63u64) by (bit_vector);
        assert((y >> 63u64) & 1 == y >> 63u64) by (bit_vector);
    } else {
        let j1: u64 = (j + 1) as u64;
        lemma_u64_shr_eq(x, y, j1);
        assert(x >> j == 2 * (x >> j1) + ((x >> j) & 1)) by (bit_vector)
            requires
                j < 63 && j1 == j + 1,
        ;
        assert(y >> j == 2 * (y >> j1) + ((y >> j) & 1)) by (bit_vector)
            requires
                j < 63 && j1 == j + 1,
        ;
    }
}

proof fn lemma_u64_bits_determine(x: u64, y: u64)
    requires
        forall|k: u64| k < 64 ==> #[trigger] ((x >> k) & 1) == ((y >> k) & 1),
    ensures
        x == y,
{
    lemma_u64_shr_eq(x, y, 0);
    assert(x >> 0u64 == x) by (bit_vector);
    assert(y >> 0u64 == y) by (bit_vector);
}

/// The 256-bit value determines the whole field element.
pub proof fn lemma_value_injective(a: FieldValue, b: FieldValue)
    requires
        a.value() == b.value(),
    ensures
        a == b,
{
    lemma_value_determines_bits(a, b);
    assert forall|k: u64| k < 64 implies ((#[trigger] (a.l0 >> k) & 1) == 1) == (((b.l0 >> k) & 1)
        == 1) by {
        assert(a.bit(k as nat) == b.bit(k as nat));
    }
    lemma_limb_bits_determine(a.l0, b.l0);
    assert forall|k: u64| k < 64 implies ((#[trigger] (a.l1 >> k) & 1) == 1) == (((b.l1 >> k) & 1)
        == 1) by {
        assert(a.bit((k + 64) as nat) == b.bit((k + 64) as nat));
    }
    lemma_limb_bits_determine(a.l1, b.l1);
    assert forall|k: u64| k < 64 implies ((#[trigger] (a.l2 >> k) & 1) == 1) == (((b.l2 >> k) & 1)
        == 1) by {
        assert(a.bit((k + 128) as nat) == b.bit((k + 128) as nat));
    }
    lemma_limb_bits_determine(a.l2, b.l2);
    assert forall|k: u64| k < 64 implies ((#[trigger] (a.l3 >> k) & 1) == 1) == (((b.l3 >> k) & 1)
        == 1) by {
        assert(a.bit((k + 192) as nat) == b.bit((k + 192) as nat));
    }
    lemma_limb_bits_determine(a.l3, b.l3);
}

/// Field values that differ in one bit differ in value.
pub proof fn lemma_bit_flip_changes_value(a: FieldValue, b: FieldValue, i: nat)
    requires
        i < 256,
        a.bit(i) != b.bit(i),
    ensures
        a.value() != b.value(),
{
    if a.value() == b.value() {
        lemma_value_determines_bits(a, b);
    }
}

} // verus!
