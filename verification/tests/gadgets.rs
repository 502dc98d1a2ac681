use zoro::utils::{
    bit_and, bit_eq, bit_lt, bit_not, bit_or, bls_to_jubjub, component_bit_equals,
    component_equals, component_lte,
};
use zoro::FieldValue;

fn fv(l0: u64, l1: u64, l2: u64, l3: u64) -> FieldValue {
    FieldValue { l0, l1, l2, l3 }
}

#[test]
fn bit_primitives_truth_tables() {
    assert_eq!(bit_and(false, false), false);
    assert_eq!(bit_and(true, false), false);
    assert_eq!(bit_and(false, true), false);
    assert_eq!(bit_and(true, true), true);
    assert_eq!(bit_or(false, false), false);
    assert_eq!(bit_or(true, false), true);
    assert_eq!(bit_or(false, true), true);
    assert_eq!(bit_or(true, true), true);
    assert_eq!(bit_not(false), true);
    assert_eq!(bit_not(true), false);
    assert_eq!(bit_eq(false, false), true);
    assert_eq!(bit_eq(true, true), true);
    assert_eq!(bit_eq(true, false), false);
    assert_eq!(bit_eq(false, true), false);
    assert_eq!(bit_lt(false, true), true);
    assert_eq!(bit_lt(true, false), false);
    assert_eq!(bit_lt(false, false), false);
    assert_eq!(bit_lt(true, true), false);
    assert_eq!(component_bit_equals(true, true), true);
    assert_eq!(component_bit_equals(true, false), false);
}

#[test]
fn field_equals_reflexive_and_bit_flips() {
    let samples = [
        fv(0, 0, 0, 0),
        fv(1, 0, 0, 0),
        fv(0xdeadbeef, 0x12345678, 0x9abcdef0, 0x0fedcba9),
        fv(u64::MAX, u64::MAX, u64::MAX, u64::MAX),
    ];
    for a in samples.iter() {
        assert!(component_equals(a, a));
        for k in [0usize, 1, 17, 63] {
            let mut b = *a;
            b.l0 ^= 1u64 << k;
            assert!(!component_equals(a, &b));
            let mut c = *a;
            c.l1 ^= 1u64 << k;
            assert!(!component_equals(a, &c));
            let mut d = *a;
            d.l2 ^= 1u64 << k;
            assert!(!component_equals(a, &d));
            let mut e = *a;
            e.l3 ^= 1u64 << k;
            assert!(!component_equals(a, &e));
        }
    }
}

#[test]
fn field_less_or_equal_reflexive() {
    let samples = [
        fv(0, 0, 0, 0),
        fv(42, 0, 0, 0),
        fv(0, 1, 0, 0),
        fv(7, 7, 7, 7),
        fv(u64::MAX, 0, u64::MAX, 0),
    ];
    for a in samples.iter() {
        assert!(component_lte(a, a));
    }
}

#[test]
fn field_less_or_equal_antisymmetric_total() {
    let samples = [
        fv(0, 0, 0, 0),
        fv(1, 0, 0, 0),
        fv(2, 0, 0, 0),
        fv(0, 1, 0, 0),
        fv(u64::MAX, 0, 0, 0),
        fv(0, 0, 0, 1),
        fv(5, 4, 3, 2),
        fv(5, 4, 3, 3),
    ];
    for a in samples.iter() {
        for b in samples.iter() {
            if a != b {
                assert_ne!(component_lte(a, b), component_lte(b, a));
            }
        }
    }
}

#[test]
fn field_less_or_equal_transitive_on_triples() {
    let triples = [
        (fv(1, 0, 0, 0), fv(2, 0, 0, 0), fv(3, 0, 0, 0)),
        (fv(u64::MAX, 0, 0, 0), fv(0, 1, 0, 0), fv(1, 1, 0, 0)),
        (fv(9, 9, 9, 0), fv(0, 0, 0, 1), fv(1, 1, 1, 1)),
    ];
    for (a, b, c) in triples.iter() {
        assert!(component_lte(a, b));
        assert!(component_lte(b, c));
        assert!(component_lte(a, c));
    }
}

#[test]
fn field_less_or_equal_orders_limbs() {
    // The second limb weighs 2^64: one unit there outweighs any low limb.
    let low = fv(u64::MAX, 0, 0, 0);
    let high = fv(0, 1, 0, 0);
    assert!(component_lte(&low, &high));
    assert!(!component_lte(&high, &low));
    let top = fv(0, 0, 0, 1);
    assert!(component_lte(&high, &top));
    assert!(!component_lte(&top, &high));
}

#[test]
fn bls_to_jubjub_rebuilds_the_words() {
    let samples = [
        fv(0, 0, 0, 0),
        fv(123456789, 987654321, 555, 1),
        fv(u64::MAX, 1, u64::MAX / 3, 7),
    ];
    for a in samples.iter() {
        assert_eq!(bls_to_jubjub(a), *a);
    }
}
