use primealg::curves::{SmallPrime, BN254};
use primealg::point::{CurveError, Point};
use primealg::Fe;
use ruint::aliases::U256;

fn fe(v: u64) -> Fe<SmallPrime> {
    Fe::from_u64(v)
}

fn pt(x: u64, y: u64) -> Point<SmallPrime> {
    Point::new(fe(x), fe(y)).ok().unwrap()
}

#[test]
fn test_point_addition() {
    // Using a curve y^2 = x^3 - 3x + 3 over F_101
    // Let P = (1, 1)
    let p1 = pt(1, 1);
    // Let Q = (6, 10)
    let p2 = pt(6, 10);

    // P + Q = (73, 31)
    let p3 = p1.add(p2).ok().unwrap();
    assert_eq!(p3.x.unwrap().value(), 73);
    assert_eq!(p3.y.unwrap().value(), 31);
}

#[test]
fn test_point_doubling() {
    // Using a curve y^2 = x^3 - 3x + 3 over F_101
    // Let P = (1, 1)
    let p1 = pt(1, 1);

    // 2P = (99, 100)
    let p2 = p1.add(p1).ok().unwrap();
    assert_eq!(p2.x.unwrap().value(), 99);
    assert_eq!(p2.y.unwrap().value(), 100);
}

#[test]
fn test_scalar_multiplication() {
    // Using a curve y^2 = x^3 - 3x + 3 over F_101
    // Let P = (1, 1)
    let p = pt(1, 1);

    // 3P = (80, 81)
    let p3 = p.mul(3).ok().unwrap();
    assert_eq!(p3.x.unwrap().value(), 80);
    assert_eq!(p3.y.unwrap().value(), 81);
}

#[test]
fn test_point_plus_infinity() {
    let p = pt(1, 1);
    let inf = Point::<SmallPrime>::inf();
    let r1 = p.add(inf).ok().unwrap();
    assert_eq!(r1.x.unwrap().value(), 1);
    assert_eq!(r1.y.unwrap().value(), 1);
    let r2 = inf.add(p).ok().unwrap();
    assert_eq!(r2.x.unwrap().value(), 1);
    assert_eq!(r2.y.unwrap().value(), 1);
    assert!(inf.add(inf).ok().unwrap().is_inf());
}

#[test]
fn test_point_plus_inverse() {
    // (1, 100) is (1, 1) with the y-coordinate negated
    let p = pt(1, 1);
    let q = pt(1, 100);
    let r = p.add(q).ok().unwrap();
    assert!(r.is_inf());
}

#[test]
fn test_off_curve_rejected() {
    let r = Point::<SmallPrime>::new(fe(1), fe(2));
    assert_eq!(r.err(), Some(CurveError::NotOnCurve));
}

#[test]
fn test_doubling_two_torsion() {
    // x = 15 is a root of x^3 - 3x + 3 over F_101, so (15, 0) is on the
    // curve and its tangent is vertical: doubling it is an explicit error,
    // not a silent infinity.
    let t = pt(15, 0);
    let r = t.add(t);
    assert_eq!(r.err(), Some(CurveError::ZeroDivisor));
}

#[test]
fn test_scalar_multiplication_consistency() {
    // P * k equals P added to itself k times
    let p = pt(1, 1);
    let mut acc = Point::<SmallPrime>::inf();
    for k in 0..=10u128 {
        let fast = p.mul(k).ok().unwrap();
        assert_eq!(fast.is_inf(), acc.is_inf());
        if !fast.is_inf() {
            assert_eq!(fast.x.unwrap().value(), acc.x.unwrap().value());
            assert_eq!(fast.y.unwrap().value(), acc.y.unwrap().value());
        }
        acc = acc.add(p).ok().unwrap();
    }
}

#[test]
fn test_scalar_multiplication_zero_and_infinity() {
    let p = pt(1, 1);
    assert!(p.mul(0).ok().unwrap().is_inf());
    let inf = Point::<SmallPrime>::inf();
    assert!(inf.mul(5).ok().unwrap().is_inf());
}

#[test]
fn test_bn254_point() {
    // (1, 2) lies on y^2 = x^3 + 3
    let g = Point::<BN254>::new(Fe::from_u64(1), Fe::from_u64(2)).ok().unwrap();
    assert_eq!(g.x.unwrap().value(), U256::from(1u64));
    // 3G by double-and-add equals ((G + G) + G) by repeated addition
    let g3 = g.mul(3).ok().unwrap();
    let slow = g.add(g).ok().unwrap().add(g).ok().unwrap();
    assert_eq!(g3.x.unwrap().value(), slow.x.unwrap().value());
    assert_eq!(g3.y.unwrap().value(), slow.y.unwrap().value());
    // (1, 1) does not lie on it
    let bad = Point::<BN254>::new(Fe::from_u64(1), Fe::from_u64(1));
    assert_eq!(bad.err(), Some(CurveError::NotOnCurve));
}
