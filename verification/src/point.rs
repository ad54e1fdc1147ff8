//! Affine elliptic-curve points over a prime field and the group law.
//!
//! A point is either the distinguished point at infinity (the identity of
//! the group) or an affine pair on the curve `y^2 = x^3 + A*x + B`. The
//! group law follows the chord-tangent construction, with every derived
//! point re-validated by the same path as explicit construction.
use vstd::prelude::*;
use vstd::pervasive::unreached;
use vstd::arithmetic::div_mod::{lemma_small_mod, lemma_mod_sub_multiples_vanish};
use vstd::arithmetic::power2::{pow2, lemma_pow2_adds, lemma_pow2_pos, lemma2_to64};
use vstd::arithmetic::div_mod::{lemma_div_denominator, lemma_small_div_converse, lemma_basic_div};
use vstd::bits::lemma_u128_shr_is_div;
use crate::{Fe, PrimeField, fadd, fsub, fmul, fdiv};

verus! {

/// Failure of a point operation.
#[derive(Clone, Copy, PartialEq, Eq, Structural, Debug)]
pub enum CurveError {
    /// The coordinates do not satisfy the curve equation. Surfacing this on
    /// construction or re-validation signals a caller or curve-parameter
    /// bug, not a recoverable condition.
    NotOnCurve,
    /// The gradient's divisor vanished outside the mutual-inverse case:
    /// doubling a point whose tangent is vertical (`2*y == 0`). The result
    /// is unrepresentable and is surfaced rather than conflated with the
    /// point at infinity.
    ZeroDivisor,
}

/// Whether `(x, y)` satisfies `y^2 = x^3 + a*x + b` over the field of
/// modulus `m`.
pub open spec fn on_curve(m: nat, a: nat, b: nat, x: nat, y: nat) -> bool {
    fmul(m, y, y) == fadd(m, fadd(m, fmul(m, fmul(m, x, x), x), fmul(m, a, x)), b)
}

/// The chord-tangent step once the gradient `g` is fixed: the third
/// intersection point, mirrored, and re-validated against the curve.
pub open spec fn chord_result(m: nat, a: nat, b: nat, x1: nat, y1: nat, x2: nat, g: nat) -> Result<
    Option<(nat, nat)>,
    CurveError,
> {
    let x3 = fsub(m, fsub(m, fmul(m, g, g), x1), x2);
    let y3 = fsub(m, fmul(m, g, fsub(m, x1, x3)), y1);
    if on_curve(m, a, b, x3, y3) {
        Ok(Some((x3, y3)))
    } else {
        Err(CurveError::NotOnCurve)
    }
}

/// The group law on point representations (`None` is the point at
/// infinity): identity cases, mutual inverses, tangent doubling, and the
/// chord case, in that order.
pub open spec fn add_points(
    m: nat,
    a: nat,
    b: nat,
    p1: Option<(nat, nat)>,
    p2: Option<(nat, nat)>,
) -> Result<Option<(nat, nat)>, CurveError> {
    match (p1, p2) {
        (None, _) => Ok(p2),
        (_, None) => Ok(p1),
        (Some((x1, y1)), Some((x2, y2))) => {
            if x1 == x2 && y1 != y2 {
                Ok(None)
            } else if x1 == x2 {
                if fmul(m, 2, y1) == 0 {
                    Err(CurveError::ZeroDivisor)
                } else {
                    let g = fdiv(m, fadd(m, fmul(m, 3, fmul(m, x1, x1)), a), fmul(m, 2, y1));
                    chord_result(m, a, b, x1, y1, x2, g)
                }
            } else {
                let g = fdiv(m, fsub(m, y2, y1), fsub(m, x2, x1));
                chord_result(m, a, b, x1, y1, x2, g)
            }
        },
    }
}

/// Scalar multiplication by left-to-right double-and-add: the value for `k`
/// doubles the value for the high bits of `k` and adds the point once more
/// where the lowest bit is set. The first failing group operation is the
/// result.
pub open spec fn scalar_mul(m: nat, a: nat, b: nat, pt: Option<(nat, nat)>, k: nat) -> Result<
    Option<(nat, nat)>,
    CurveError,
>
    decreases k,
{
    if k == 0 {
        Ok(None)
    } else {
        match scalar_mul(m, a, b, pt, k / 2) {
            Err(e) => Err(e),
            Ok(h) => match add_points(m, a, b, h, h) {
                Err(e) => Err(e),
                Ok(d) => if k % 2 == 1 {
                    add_points(m, a, b, d, pt)
                } else {
                    Ok(d)
                },
            },
        }
    }
}

/// Scalar multiplication as iterated group addition: the point added to
/// itself `k` times, starting from the identity.
pub open spec fn repeated_add(m: nat, a: nat, b: nat, pt: Option<(nat, nat)>, k: nat) -> Result<
    Option<(nat, nat)>,
    CurveError,
>
    decreases k,
{
    if k == 0 {
        Ok(None)
    } else {
        match repeated_add(m, a, b, pt, (k - 1) as nat) {
            Err(e) => Err(e),
            Ok(q) => add_points(m, a, b, q, pt),
        }
    }
}

/// Law (bounded): for scalars up to three, double-and-add agrees with
/// adding the point to itself `k` times by repeated group addition. Larger
/// scalars regroup the additions, and their agreement is the associativity
/// of the group law, which is not proved here.
pub proof fn lemma_scalar_mul_matches_repeated_add(
    m: nat,
    a: nat,
    b: nat,
    pt: Option<(nat, nat)>,
    k: nat,
)
    requires
        k <= 3,
    ensures
        scalar_mul(m, a, b, pt, k) == repeated_add(m, a, b, pt, k),
{
    reveal_with_fuel(scalar_mul, 4);
    reveal_with_fuel(repeated_add, 5);
}

/// Law: the point at infinity is fixed by scalar multiplication — every
/// scalar multiple of the identity is the identity, and no group operation
/// on the way can fail.
pub proof fn lemma_scalar_mul_infinity(m: nat, a: nat, b: nat, k: nat)
    ensures
        scalar_mul(m, a, b, None, k) == Ok::<Option<(nat, nat)>, CurveError>(None),
    decreases k,
{
    if k > 0 {
        lemma_scalar_mul_infinity(m, a, b, k / 2);
    }
}

/// A failure of `scalar_mul` at the high bits of `k` (the prefix above bit
/// `i`) is the failure of `scalar_mul` at `k` itself.
proof fn lemma_scalar_mul_err_lift(
    m: nat,
    a: nat,
    b: nat,
    pt: Option<(nat, nat)>,
    k: nat,
    i: nat,
    e: CurveError,
)
    requires
        scalar_mul(m, a, b, pt, k / pow2(i)) == Err::<Option<(nat, nat)>, CurveError>(e),
    ensures
        scalar_mul(m, a, b, pt, k) == Err::<Option<(nat, nat)>, CurveError>(e),
    decreases i,
{
    if i == 0 {
        assert(pow2(0) == 1) by {
            lemma2_to64();
        }
    } else {
        let n = k / pow2((i - 1) as nat);
        assert(pow2(i) == pow2((i - 1) as nat) * 2) by {
            lemma_pow2_adds((i - 1) as nat, 1);
            lemma2_to64();
        }
        assert(n / 2 == k / pow2(i)) by {
            lemma_pow2_pos((i - 1) as nat);
            lemma_div_denominator(k as int, pow2((i - 1) as nat) as int, 2);
        }
        if n == 0 {
            assert(k / pow2(i) == 0);
            assert(scalar_mul(m, a, b, pt, 0) == Ok::<Option<(nat, nat)>, CurveError>(None));
            assert(false);
        }
        assert(scalar_mul(m, a, b, pt, n) == Err::<Option<(nat, nat)>, CurveError>(e));
        lemma_scalar_mul_err_lift(m, a, b, pt, k, (i - 1) as nat, e);
    }
}

/// Residues of distinct reduced values differ after a wraparound-free
/// subtraction: `x != y` gives `fsub(m, x, y) != 0`.
proof fn lemma_fsub_nonzero(m: nat, x: nat, y: nat)
    requires
        m > 0,
        x < m,
        y < m,
        x != y,
    ensures
        fsub(m, x, y) != 0,
{
    let d = (x + m - y) as int;
    if d < m {
        lemma_small_mod(d as nat, m);
    } else {
        lemma_mod_sub_multiples_vanish(d, m as int);
        lemma_small_mod((d - m) as nat, m);
    }
}

/// An affine on-curve point or the point at infinity (both coordinates
/// absent), over the field and curve described by `P`.
#[derive(Clone, Copy)]
pub struct Point<P: PrimeField> {
    pub x: Option<Fe<P>>,
    pub y: Option<Fe<P>>,
}

impl<P: PrimeField> Point<P> {
    /// The residue pair this point stands for; the point at infinity stands
    /// for nothing.
    pub open spec fn rep(self) -> Option<(nat, nat)> {
        match (self.x, self.y) {
            (Some(xe), Some(ye)) => Some((xe.val(), ye.val())),
            _ => None,
        }
    }

    /// Both coordinates are present and reduced and satisfy the curve
    /// equation, or both are absent.
    pub open spec fn wf(self) -> bool {
        match (self.x, self.y) {
            (None, None) => true,
            (Some(xe), Some(ye)) => xe.wf() && ye.wf() && on_curve(
                P::prime(),
                P::a(),
                P::b(),
                xe.val(),
                ye.val(),
            ),
            _ => false,
        }
    }

    /// Whether this is the point at infinity.
    pub open spec fn is_infinity(self) -> bool {
        self.x is None
    }

    /// Builds an affine point after validating the curve equation; the
    /// coordinates are rejected exactly when they do not lie on the curve.
    pub fn new(x: Fe<P>, y: Fe<P>) -> (r: Result<Self, CurveError>)
        requires
            x.wf(),
            y.wf(),
        ensures
            match r {
                Ok(pt) => on_curve(P::prime(), P::a(), P::b(), x.val(), y.val()) && pt.x == Some(x)
                    && pt.y == Some(y) && pt.wf(),
                Err(e) => e == CurveError::NotOnCurve && !on_curve(
                    P::prime(),
                    P::a(),
                    P::b(),
                    x.val(),
                    y.val(),
                ),
            },
    {
        proof {
            P::field_facts();
            lemma_small_mod(P::a(), P::prime());
            lemma_small_mod(P::b(), P::prime());
        }
        let lhs = y.mul(y);
        let cube = x.mul(x).mul(x);
        let ax = Fe::new(P::a_num()).mul(x);
        let rhs = cube.add(ax).add(Fe::new(P::b_num()));
        if P::num_eq(lhs.value(), rhs.value()) {
            Ok(Point { x: Some(x), y: Some(y) })
        } else {
            Err(CurveError::NotOnCurve)
        }
    }

    /// The point at infinity, the identity of the group.
    pub fn inf() -> (r: Self)
        ensures
            r.is_infinity(),
            r.wf(),
            r.rep() is None,
    {
        Point { x: None, y: None }
    }

    /// Whether this is the point at infinity.
    pub fn is_inf(&self) -> (r: bool)
        ensures
            r == self.is_infinity(),
            self.wf() ==> r == (self.rep() is None),
    {
        self.x.is_none()
    }

    /// The chord-tangent step shared by doubling and distinct-point
    /// addition, re-validating the derived point by the construction path.
    fn chord(g: Fe<P>, x1: Fe<P>, y1: Fe<P>, x2: Fe<P>) -> (r: Result<Self, CurveError>)
        requires
            g.wf(),
            x1.wf(),
            y1.wf(),
            x2.wf(),
        ensures
            match chord_result(P::prime(), P::a(), P::b(), x1.val(), y1.val(), x2.val(), g.val()) {
                Ok(v) => r is Ok && r->Ok_0.rep() == v && r->Ok_0.wf(),
                Err(e) => r == Err::<Point<P>, CurveError>(e),
            },
    {
        let x3 = g.mul(g).sub(x1).sub(x2);
        let y3 = g.mul(x1.sub(x3)).sub(y1);
        Self::new(x3, y3)
    }

    /// The group law: adds two points, with the identity, mutual-inverse,
    /// doubling and chord cases in that order; fails exactly where the
    /// spec-level law fails.
    pub fn add(self, rhs: Self) -> (r: Result<Self, CurveError>)
        requires
            self.wf(),
            rhs.wf(),
        ensures
            match add_points(P::prime(), P::a(), P::b(), self.rep(), rhs.rep()) {
                Ok(v) => r is Ok && r->Ok_0.rep() == v && r->Ok_0.wf(),
                Err(e) => r == Err::<Point<P>, CurveError>(e),
            },
    {
        proof {
            P::field_facts();
            lemma_small_mod(2, P::prime());
            lemma_small_mod(3, P::prime());
        }
        if self.is_inf() {
            return Ok(rhs);
        }
        if rhs.is_inf() {
            return Ok(self);
        }
        match (self.x, self.y, rhs.x, rhs.y) {
            (Some(x1), Some(y1), Some(x2), Some(y2)) => {
                if P::num_eq(x1.value(), x2.value()) {
                    if !P::num_eq(y1.value(), y2.value()) {
                        // mutual inverses cancel to the identity
                        return Ok(Self::inf());
                    }
                    // tangent case: gradient of the doubled point
                    let two = Fe::from_u64(2);
                    let three = Fe::from_u64(3);
                    let numerator = three.mul(x1.mul(x1)).add(Fe::new(P::a_num()));
                    let denominator = two.mul(y1);
                    proof {
                        lemma_small_mod(P::a(), P::prime());
                    }
                    match numerator.div(denominator) {
                        None => Err(CurveError::ZeroDivisor),
                        Some(g) => Self::chord(g, x1, y1, x2),
                    }
                } else {
                    // chord case: gradient through two distinct points
                    let numerator = y2.sub(y1);
                    let denominator = x2.sub(x1);
                    proof {
                        lemma_fsub_nonzero(P::prime(), x2.val(), x1.val());
                    }
                    match numerator.div(denominator) {
                        None => unreached(),
                        Some(g) => Self::chord(g, x1, y1, x2),
                    }
                }
            },
            _ => unreached(),
        }
    }

    /// Scalar multiplication by left-to-right double-and-add over the bits
    /// of `k`, from the highest set bit down.
    pub fn mul(self, k: u128) -> (r: Result<Self, CurveError>)
        requires
            self.wf(),
        ensures
            match scalar_mul(P::prime(), P::a(), P::b(), self.rep(), k as nat) {
                Ok(v) => r is Ok && r->Ok_0.rep() == v && r->Ok_0.wf(),
                Err(e) => r == Err::<Point<P>, CurveError>(e),
            },
    {
        if k == 0 || self.is_inf() {
            proof {
                if k != 0 {
                    lemma_scalar_mul_infinity(P::prime(), P::a(), P::b(), k as nat);
                }
            }
            return Ok(Self::inf());
        }
        // position just above the highest set bit of k
        let mut bits: u32 = 0;
        let mut t: u128 = k;
        proof {
            lemma2_to64();
        }
        while t > 0
            invariant
                bits <= 128,
                t == k as nat / pow2(bits as nat),
            decreases t,
        {
            proof {
                lemma_pow2_pos(bits as nat);
                lemma_div_denominator(k as int, pow2(bits as nat) as int, 2);
                lemma_pow2_adds(bits as nat, 1);
                lemma2_to64();
                if bits >= 128 {
                    assert(pow2(128) == pow2(64) * pow2(64)) by {
                        lemma_pow2_adds(64, 64);
                    }
                    if bits > 128 {
                        vstd::arithmetic::power2::lemma_pow2_strictly_increases(128, bits as nat);
                    }
                    assert((k as nat) < pow2(bits as nat));
                    lemma_basic_div(k as int, pow2(bits as nat) as int);
                    assert(false);
                }
            }
            t = t / 2;
            bits = bits + 1;
        }
        proof {
            lemma_pow2_pos(bits as nat);
            lemma_small_div_converse(k as int, pow2(bits as nat) as int);
        }
        let ghost m: nat = P::prime();
        let ghost ca: nat = P::a();
        let ghost cb: nat = P::b();
        let ghost pt: Option<(nat, nat)> = self.rep();
        let mut res = Self::inf();
        let mut i: u32 = bits;
        proof {
            assert(scalar_mul(m, ca, cb, pt, k as nat / pow2(i as nat)) == Ok::<
                Option<(nat, nat)>,
                CurveError,
            >(None));
        }
        while i > 0
            invariant
                self.wf(),
                res.wf(),
                i <= 128,
                m == P::prime(),
                ca == P::a(),
                cb == P::b(),
                pt == self.rep(),
                scalar_mul(m, ca, cb, pt, k as nat / pow2(i as nat)) == Ok::<
                    Option<(nat, nat)>,
                    CurveError,
                >(res.rep()),
            decreases i,
        {
            i = i - 1;
            let ghost n: nat = k as nat / pow2(i as nat);
            proof {
                lemma_pow2_pos(i as nat);
                lemma_div_denominator(k as int, pow2(i as nat) as int, 2);
                lemma_pow2_adds(i as nat, 1);
                lemma2_to64();
                lemma_u128_shr_is_div(k, i as u128);
            }
            let d = match res.add(res) {
                Ok(v) => v,
                Err(e) => {
                    proof {
                        lemma_scalar_mul_err_lift(m, ca, cb, pt, k as nat, i as nat, e);
                    }
                    return Err(e);
                },
            };
            if (k >> (i as u128)) % 2 == 1 {
                res = match d.add(self) {
                    Ok(v) => v,
                    Err(e) => {
                        proof {
                            lemma_scalar_mul_err_lift(m, ca, cb, pt, k as nat, i as nat, e);
                        }
                        return Err(e);
                    },
                };
            } else {
                res = d;
            }
        }
        proof {
            assert(pow2(0) == 1) by {
                lemma2_to64();
            }
        }
        Ok(res)
    }
}

} // verus!
