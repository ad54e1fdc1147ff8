use primealg::curves::SmallPrime;
use primealg::polynomial::{max, Polynomial};
use primealg::Fe;

fn fe(v: u64) -> Fe<SmallPrime> {
    Fe::from_u64(v)
}

fn poly(coeffs: &[u64]) -> Polynomial<SmallPrime> {
    Polynomial::new(coeffs.iter().map(|&v| fe(v)).collect())
}

fn vals(p: &Polynomial<SmallPrime>) -> Vec<u64> {
    p.coefficients.iter().map(|c| c.value()).collect()
}

#[test]
fn test_addition_to_zero_polynomial() {
    // P(x) = 5x^2 + 2x + 1
    let p = poly(&[1, 2, 5]);
    // Z(x) = 0
    let z = poly(&[0, 0]);

    let result = p.add(&z);
    assert_eq!(vals(&result), vec![1, 2, 5]);
}

#[test]
fn test_addition_is_commutative() {
    // A(x) = 3x^2 + 10
    let a = poly(&[10, 0, 3]);
    // B(x) = 4x + 2
    let b = poly(&[2, 4]);

    let expected = vec![12, 4, 3];

    let result1 = a.add(&b);
    assert_eq!(vals(&result1), expected);

    let result2 = b.add(&a);
    assert_eq!(vals(&result2), expected);
}

#[test]
fn test_addition_with_internal_zeros() {
    // A(x) = x^3 + 1
    let a = poly(&[1, 0, 0, 1]);
    // B(x) = x^2 + 1
    let b = poly(&[1, 0, 1]);

    // Expected result: x^3 + x^2 + 2
    let expected = vec![2, 0, 1, 1];

    let result = a.add(&b);
    assert_eq!(vals(&result), expected);
}

#[test]
fn test_multiplication() {
    // A(x) = 2x + 1
    let a = poly(&[1, 2]);
    // B(x) = 3x + 2
    let b = poly(&[2, 3]);

    // Expected: (2x+1)*(3x+2) = 6x^2 + 4x + 3x + 2 = 6x^2 + 7x + 2
    let expected = vec![2, 7, 6];

    let result = a.mul(&b);
    assert_eq!(vals(&result), expected);
}

#[test]
fn test_evaluation() {
    // P(x) = 2x^2 + 3x + 4
    let p = poly(&[4, 3, 2]);

    // Evaluate at x = 2
    // P(2) = 2*(2^2) + 3*2 + 4 = 2*4 + 6 + 4 = 8 + 6 + 4 = 18
    let result = p.evaluate(fe(2));
    assert_eq!(result.value(), 18);

    // Evaluate at x = 3
    // P(3) = 2*(3^2) + 3*3 + 4 = 2*9 + 9 + 4 = 18 + 9 + 4 = 31
    let result2 = p.evaluate(fe(3));
    assert_eq!(result2.value(), 31);
}

#[test]
fn test_degree() {
    assert_eq!(poly(&[4, 3, 2]).degree(), 2);
    assert_eq!(poly(&[7]).degree(), 0);
    // a length-0 representation reports degree 0 rather than underflowing
    assert_eq!(poly(&[]).degree(), 0);
}

#[test]
fn test_multiplication_degree() {
    // a degree-n by a degree-m product has degree n + m
    let a = poly(&[1, 2, 0, 4]);
    let b = poly(&[5, 6, 7]);
    let product = a.mul(&b);
    assert_eq!(product.degree(), a.degree() + b.degree());
}

#[test]
fn test_addition_with_wraparound() {
    // coefficients reduce modulo the prime
    let a = poly(&[100, 51]);
    let b = poly(&[2, 51]);
    let result = a.add(&b);
    assert_eq!(vals(&result), vec![1, 1]);
}

#[test]
fn test_evaluation_of_empty_polynomial() {
    let p = poly(&[]);
    assert_eq!(p.evaluate(fe(5)).value(), 0);
}

#[test]
fn test_max() {
    assert_eq!(max(3, 7), 7);
    assert_eq!(max(7, 3), 7);
    assert_eq!(max(4, 4), 4);
}
