use primealg::curves::{SmallPrime, BN254};
use primealg::{Fe, PrimeField};
use ruint::aliases::U256;

#[test]
fn test_conversions() {
    let a: Fe<BN254> = Fe::from_u64(5);
    let b: Fe<BN254> = Fe::new(U256::from(42u64));
    assert_eq!(a.value(), U256::from(5u64));
    assert_eq!(b.value(), U256::from(42u64));

    let x: Fe<SmallPrime> = Fe::from_u64(17);
    assert_eq!(x.value(), 17);
}

#[test]
fn test_addition() {
    let x: Fe<SmallPrime> = Fe::from_u64(94);
    let y: Fe<SmallPrime> = Fe::from_u64(8);
    let z = x.add(y);

    assert_eq!(z.value(), 1);
}

#[test]
fn test_addition_overflow() {
    let x: Fe<SmallPrime> = Fe::from_u64(100);
    let y: Fe<SmallPrime> = Fe::from_u64(1);
    let z = x.add(y);
    assert_eq!(z.value(), 0);

    let x: Fe<SmallPrime> = Fe::from_u64(100);
    let y: Fe<SmallPrime> = Fe::from_u64(2);
    let z = x.add(y);
    assert_eq!(z.value(), 1);
}

#[test]
fn test_subtraction() {
    let x: Fe<SmallPrime> = Fe::from_u64(10);
    let y: Fe<SmallPrime> = Fe::from_u64(7);
    let z = x.sub(y);
    assert_eq!(z.value(), 3);
}

#[test]
fn test_subtraction_underflow() {
    let x: Fe<SmallPrime> = Fe::from_u64(10);
    let y: Fe<SmallPrime> = Fe::from_u64(12);
    let z = x.sub(y);
    assert_eq!(z.value(), 99);
}

#[test]
fn test_reduction_on_construction() {
    // the stored residue is always in [0, PRIME)
    let x: Fe<SmallPrime> = Fe::new(250);
    assert_eq!(x.value(), 48);
    let y: Fe<SmallPrime> = Fe::new(101);
    assert_eq!(y.value(), 0);
    for raw in 0..500u64 {
        assert!(Fe::<SmallPrime>::new(raw).value() < 101);
    }
}

#[test]
fn test_identities() {
    // a + 0 == a and a * 1 == a for every element of the small field
    let zero: Fe<SmallPrime> = Fe::from_u64(0);
    let one: Fe<SmallPrime> = Fe::from_u64(1);
    for v in 0..101u64 {
        let a: Fe<SmallPrime> = Fe::from_u64(v);
        assert_eq!(a.add(zero).value(), v);
        assert_eq!(a.mul(one).value(), v);
    }
}

#[test]
fn test_inverse_correctness() {
    // a * inv(a) == 1 for every nonzero a; inv(0) is absent
    for v in 1..101u64 {
        let a: Fe<SmallPrime> = Fe::from_u64(v);
        let iv = a.inv().unwrap();
        assert_eq!(a.mul(Fe::new(iv)).value(), 1);
    }
    let zero: Fe<SmallPrime> = Fe::from_u64(0);
    assert!(zero.inv().is_none());
}

#[test]
fn test_division() {
    let x: Fe<SmallPrime> = Fe::from_u64(10);
    let y: Fe<SmallPrime> = Fe::from_u64(5);
    assert_eq!(x.div(y).unwrap().value(), 2);
    // division by the additive identity is an explicit absence
    let zero: Fe<SmallPrime> = Fe::from_u64(0);
    assert!(x.div(zero).is_none());
}

#[test]
fn test_pow() {
    let two: Fe<SmallPrime> = Fe::from_u64(2);
    let ten: Fe<SmallPrime> = Fe::from_u64(10);
    // 2^10 = 1024 = 14 mod 101
    assert_eq!(two.pow(ten).value(), 14);
    let zero: Fe<SmallPrime> = Fe::from_u64(0);
    assert_eq!(two.pow(zero).value(), 1);
}

fn bn254_prime_minus_one() -> U256 {
    U256::from_limbs([
        0x3C208C16D87CFD46,
        0x97816A916871CA8D,
        0xB85045B68181585D,
        0x30644E72E131A029,
    ])
}

#[test]
fn test_bn254_wraparound() {
    // the modulus itself reduces to zero on construction
    let p = bn254_prime_minus_one().checked_add(U256::from(1u64)).unwrap();
    let reduced: Fe<BN254> = Fe::new(p);
    assert_eq!(reduced.value(), U256::from(0u64));

    // (p - 1) + 2 == 1
    let pm1: Fe<BN254> = Fe::new(bn254_prime_minus_one());
    let two: Fe<BN254> = Fe::from_u64(2);
    assert_eq!(pm1.add(two).value(), U256::from(1u64));

    // 1 - 2 == p - 1
    let one: Fe<BN254> = Fe::from_u64(1);
    assert_eq!(one.sub(two).value(), bn254_prime_minus_one());

    // (p - 1)^2 == 1: the full-width product is reduced exactly
    assert_eq!(pm1.mul(pm1).value(), U256::from(1u64));
}

#[test]
fn test_bn254_inverse() {
    let two: Fe<BN254> = Fe::from_u64(2);
    let iv = two.inv().unwrap();
    assert_eq!(two.mul(Fe::new(iv)).value(), U256::from(1u64));
    let zero: Fe<BN254> = Fe::from_u64(0);
    assert!(zero.inv().is_none());
}

#[test]
fn test_field_names() {
    assert_eq!(<SmallPrime as PrimeField>::name(), "F101");
    assert_eq!(<BN254 as PrimeField>::name(), "BN254");
}
