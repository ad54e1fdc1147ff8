//! Polynomials over a prime field: ordered coefficient vectors (index 0 is
//! the constant term) with addition under degree promotion, convolution
//! multiplication and Horner evaluation.
use vstd::prelude::*;
use vstd::arithmetic::div_mod::{
    lemma_add_mod_noop, lemma_add_mod_noop_right, lemma_mul_mod_noop_general,
};
use vstd::arithmetic::power::{pow, lemma_pow0, lemma_pow1, lemma_pow_adds};
use vstd::arithmetic::mul::{
    lemma_mul_is_associative, lemma_mul_is_commutative, lemma_mul_is_distributive_add,
};
use crate::{Fe, PrimeField, fadd, fmul, lemma_add_zero_identity};

verus! {

/// Larger of two lengths.
pub fn max(a: usize, b: usize) -> (r: usize)
    ensures
        r == if a > b { a as int } else { b as int },
{
    if a > b {
        a
    } else {
        b
    }
}

/// The coefficient of `x^i`, reading past the end of a polynomial as zero.
pub open spec fn coeff_or_zero(s: Seq<nat>, i: int) -> nat {
    if 0 <= i < s.len() {
        s[i]
    } else {
        0
    }
}

/// Coefficients of the sum of two polynomials: elementwise field addition,
/// the shorter operand zero-padded to the longer length.
pub open spec fn poly_add_coeffs(m: nat, a: Seq<nat>, b: Seq<nat>) -> Seq<nat> {
    Seq::new(
        vstd::math::max(a.len() as int, b.len() as int) as nat,
        |i: int| fadd(m, coeff_or_zero(a, i), coeff_or_zero(b, i)),
    )
}

/// The raw product of the term pair `(i, k - i)` feeding coefficient `k` of
/// a convolution; zero where either index is out of range.
pub open spec fn conv_term(a: Seq<nat>, b: Seq<nat>, i: int, k: int) -> nat {
    if 0 <= i < a.len() && 0 <= k - i < b.len() {
        a[i] * b[k - i]
    } else {
        0
    }
}

/// The raw convolution sum for coefficient `k`, over the first `n` rows.
pub open spec fn conv_sum(a: Seq<nat>, b: Seq<nat>, k: int, n: int) -> nat
    decreases n,
{
    if n <= 0 {
        0
    } else {
        conv_sum(a, b, k, n - 1) + conv_term(a, b, n - 1, k)
    }
}

/// Coefficients of the product of two polynomials: the full discrete
/// convolution, each coefficient reduced by the modulus.
pub open spec fn poly_mul_coeffs(m: nat, a: Seq<nat>, b: Seq<nat>) -> Seq<nat>
    recommends
        a.len() + b.len() >= 1,
{
    Seq::new(
        (a.len() + b.len() - 1) as nat,
        |k: int| conv_sum(a, b, k, a.len() as int) % m,
    )
}

/// Evaluation of a coefficient sequence at `x`: the constant term plus `x`
/// times the evaluation of the remaining coefficients.
pub open spec fn poly_eval(m: nat, s: Seq<nat>, x: nat) -> nat
    decreases s.len(),
{
    if s.len() == 0 {
        0
    } else {
        fadd(m, s[0], fmul(m, x, poly_eval(m, s.subrange(1, s.len() as int), x)))
    }
}

/// The naive weighted sum over the first `n` coefficients,
/// `s[0] + s[1]*x + ... + s[n-1]*x^(n-1)`, unreduced.
pub open spec fn eval_sum(s: Seq<nat>, x: nat, n: int) -> int
    decreases n,
{
    if n <= 0 {
        0
    } else {
        eval_sum(s, x, n - 1) + coeff_or_zero(s, n - 1) * pow(x as int, (n - 1) as nat)
    }
}

/// Pulling the constant term out of the weighted sum: the remaining terms
/// are the tail's weighted sum, each scaled once more by `x`.
proof fn lemma_eval_sum_shift(s: Seq<nat>, x: nat, n: int)
    requires
        1 <= n <= s.len(),
    ensures
        eval_sum(s, x, n) == s[0] + x * eval_sum(s.subrange(1, s.len() as int), x, n - 1),
    decreases n,
{
    let tail = s.subrange(1, s.len() as int);
    if n == 1 {
        lemma_pow0(x as int);
        assert(eval_sum(s, x, 1) == eval_sum(s, x, 0) + coeff_or_zero(s, 0) * pow(x as int, 0));
        assert(eval_sum(tail, x, 0) == 0);
    } else {
        lemma_eval_sum_shift(s, x, n - 1);
        let t = coeff_or_zero(tail, n - 2) as int;
        let q = pow(x as int, (n - 2) as nat);
        assert(eval_sum(s, x, n) == eval_sum(s, x, n - 1) + coeff_or_zero(s, n - 1) * pow(
            x as int,
            (n - 1) as nat,
        ));
        assert(eval_sum(tail, x, n - 1) == eval_sum(tail, x, n - 2) + t * q);
        assert(pow(x as int, (n - 1) as nat) == (x as int) * q) by {
            lemma_pow1(x as int);
            lemma_pow_adds(x as int, 1, (n - 2) as nat);
        }
        assert(coeff_or_zero(s, n - 1) == t);
        assert((x as int) * (eval_sum(tail, x, n - 2) + t * q) == (x as int) * eval_sum(
            tail,
            x,
            n - 2,
        ) + t * ((x as int) * q)) by {
            lemma_mul_is_distributive_add(x as int, eval_sum(tail, x, n - 2), t * q);
            lemma_mul_is_associative(x as int, t, q);
            lemma_mul_is_associative(t, x as int, q);
            lemma_mul_is_commutative(x as int, t);
        }
    }
}

/// Law: Horner evaluation produces the naive sum of `coefficient_i * x^i`,
/// reduced by the modulus.
pub proof fn lemma_eval_is_weighted_sum(m: nat, s: Seq<nat>, x: nat)
    requires
        m > 0,
    ensures
        poly_eval(m, s, x) == eval_sum(s, x, s.len() as int) % (m as int),
    decreases s.len(),
{
    if s.len() == 0 {
        assert((0int % (m as int)) == 0);
    } else {
        let tail = s.subrange(1, s.len() as int);
        let p = m as int;
        lemma_eval_is_weighted_sum(m, tail, x);
        lemma_eval_sum_shift(s, x, s.len() as int);
        let t = eval_sum(tail, x, tail.len() as int);
        assert(fmul(m, x, poly_eval(m, tail, x)) == ((x as int) * t) % p) by {
            lemma_mul_mod_noop_general(x as int, t, p);
        }
        assert((s[0] + ((x as int) * t) % p) % p == (s[0] + (x as int) * t) % p) by {
            lemma_add_mod_noop_right(s[0] as int, (x as int) * t, p);
        }
    }
}

/// The degree a coefficient sequence reports: its length less one,
/// saturating at zero.
pub open spec fn poly_degree(s: Seq<nat>) -> nat {
    if s.len() == 0 {
        0
    } else {
        (s.len() - 1) as nat
    }
}

/// Law: adding a zero polynomial changes no coefficient, whatever the two
/// lengths — the sum carries the original coefficients and zeros beyond
/// them, and equals the original whenever the zero polynomial is no longer.
pub proof fn lemma_add_zero_polynomial(m: nat, a: Seq<nat>, z: Seq<nat>)
    requires
        m > 0,
        forall|i: int| 0 <= i < a.len() ==> a[i] < m,
        forall|i: int| 0 <= i < z.len() ==> z[i] == 0,
    ensures
        forall|i: int| 0 <= i < a.len() ==> poly_add_coeffs(m, a, z)[i] == a[i],
        forall|i: int|
            a.len() <= i < poly_add_coeffs(m, a, z).len() ==> poly_add_coeffs(m, a, z)[i] == 0,
        z.len() <= a.len() ==> poly_add_coeffs(m, a, z) == a,
{
    assert forall|i: int| 0 <= i < a.len() implies poly_add_coeffs(m, a, z)[i] == a[i] by {
        lemma_add_zero_identity(m, a[i]);
    }
    assert forall|i: int|
        a.len() <= i < poly_add_coeffs(m, a, z).len() implies poly_add_coeffs(m, a, z)[i] == 0 by {
        assert(coeff_or_zero(a, i) == 0);
        assert(coeff_or_zero(z, i) == 0);
        assert((0int % (m as int)) == 0);
        assert(fadd(m, 0, 0) == (((0nat + 0nat) as int) % (m as int)) as nat);
    }
    if z.len() <= a.len() {
        assert(poly_add_coeffs(m, a, z) =~= a);
    }
}

/// Law: polynomial addition is commutative.
pub proof fn lemma_add_commutative(m: nat, a: Seq<nat>, b: Seq<nat>)
    requires
        m > 0,
    ensures
        poly_add_coeffs(m, a, b) == poly_add_coeffs(m, b, a),
{
    assert(poly_add_coeffs(m, a, b) =~= poly_add_coeffs(m, b, a));
}

/// Law: the product of polynomials of degree n and m has degree n + m.
pub proof fn lemma_mul_degree(m: nat, a: Seq<nat>, b: Seq<nat>)
    requires
        m > 0,
        a.len() >= 1,
        b.len() >= 1,
    ensures
        poly_degree(poly_mul_coeffs(m, a, b)) == poly_degree(a) + poly_degree(b),
{
    let n = (a.len() + b.len() - 1) as nat;
    assert(poly_mul_coeffs(m, a, b).len() == n);
}

/// An ordered, fixed-length sequence of field elements; index 0 is the
/// constant term.
#[derive(Clone)]
pub struct Polynomial<P: PrimeField> {
    pub coefficients: Vec<Fe<P>>,
}

impl<P: PrimeField> Polynomial<P> {
    /// The residues of the coefficients, in order.
    pub open spec fn vals(self) -> Seq<nat> {
        self.coefficients@.map_values(|c: Fe<P>| c.val())
    }

    /// Every coefficient is reduced.
    pub open spec fn wf(self) -> bool {
        forall|i: int| 0 <= i < self.coefficients@.len() ==> self.coefficients@[i].wf()
    }

    /// Wraps a coefficient vector as a polynomial.
    pub fn new(coefficients: Vec<Fe<P>>) -> (r: Self)
        ensures
            r.coefficients@ == coefficients@,
    {
        Polynomial { coefficients }
    }

    /// The polynomial's degree: length less one, saturating at zero.
    pub fn degree(&self) -> (r: usize)
        ensures
            r == poly_degree(self.vals()),
    {
        let n = self.coefficients.len();
        if n == 0 {
            0
        } else {
            n - 1
        }
    }

    /// Evaluates the polynomial at `x` by Horner's method, folding the
    /// coefficients from the highest degree down.
    pub fn evaluate(&self, x: Fe<P>) -> (r: Fe<P>)
        requires
            self.wf(),
            x.wf(),
        ensures
            r.val() == poly_eval(P::prime(), self.vals(), x.val()),
            r.wf(),
    {
        proof {
            P::field_facts();
        }
        let ghost s = self.vals();
        let n = self.coefficients.len();
        let mut acc = Fe::<P>::from_u64(0);
        let mut i = n;
        proof {
            assert(s.subrange(n as int, n as int) =~= Seq::<nat>::empty());
        }
        while i > 0
            invariant
                i <= n,
                n == self.coefficients@.len(),
                s == self.vals(),
                self.wf(),
                x.wf(),
                acc.wf(),
                acc.val() == poly_eval(P::prime(), s.subrange(i as int, n as int), x.val()),
            decreases i,
        {
            i = i - 1;
            let ghost a0 = acc.val();
            acc = acc.mul(x).add(self.coefficients[i]);
            proof {
                let p = P::prime();
                let xv = x.val();
                let t = s.subrange(i as int, n as int);
                assert(s[i as int] == self.coefficients@[i as int].val());
                assert(t[0] == s[i as int]);
                assert(t.subrange(1, t.len() as int) =~= s.subrange(i + 1, n as int));
                assert(poly_eval(p, t, xv) == fadd(p, t[0], fmul(p, xv, a0)));
                assert(fmul(p, a0, xv) == fmul(p, xv, a0)) by {
                    assert(a0 * xv == xv * a0) by (nonlinear_arith);
                }
                assert(acc.val() == poly_eval(p, t, xv));
            }
        }
        proof {
            assert(s.subrange(0, n as int) =~= s);
        }
        acc
    }

    /// Adds two polynomials: elementwise sums over the overlapping prefix,
    /// the remaining suffix of the longer operand carried over unchanged.
    pub fn add(&self, rhs: &Self) -> (r: Self)
        requires
            self.wf(),
            rhs.wf(),
        ensures
            r.vals() == poly_add_coeffs(P::prime(), self.vals(), rhs.vals()),
            r.wf(),
    {
        proof {
            P::field_facts();
        }
        let ghost av = self.vals();
        let ghost bv = rhs.vals();
        let n = self.coefficients.len();
        let m = rhs.coefficients.len();
        let len = max(n, m);
        let mut result: Vec<Fe<P>> = Vec::new();
        let mut i: usize = 0;
        while i < len
            invariant
                i <= len,
                n == self.coefficients@.len(),
                m == rhs.coefficients@.len(),
                len == vstd::math::max(n as int, m as int),
                av == self.vals(),
                bv == rhs.vals(),
                self.wf(),
                rhs.wf(),
                result@.len() == i,
                forall|j: int|
                    0 <= j < i ==> (#[trigger] result@[j]).wf() && result@[j].val() == fadd(
                        P::prime(),
                        coeff_or_zero(av, j),
                        coeff_or_zero(bv, j),
                    ),
            decreases len - i,
        {
            let c = if i < n && i < m {
                self.coefficients[i].add(rhs.coefficients[i])
            } else if i < n {
                proof {
                    lemma_add_zero_identity(P::prime(), av[i as int]);
                }
                self.coefficients[i]
            } else {
                proof {
                    lemma_add_zero_identity(P::prime(), bv[i as int]);
                }
                rhs.coefficients[i]
            };
            result.push(c);
            i = i + 1;
        }
        let r = Polynomial { coefficients: result };
        proof {
            assert(r.vals() =~= poly_add_coeffs(P::prime(), av, bv));
        }
        r
    }

    /// Multiplies two polynomials by full discrete convolution into a
    /// zero-initialized result of length `n + m - 1`.
    pub fn mul(&self, rhs: &Self) -> (r: Self)
        requires
            self.wf(),
            rhs.wf(),
            self.coefficients@.len() + rhs.coefficients@.len() >= 1,
            self.coefficients@.len() + rhs.coefficients@.len() <= usize::MAX,
        ensures
            r.vals() == poly_mul_coeffs(P::prime(), self.vals(), rhs.vals()),
            r.wf(),
    {
        proof {
            P::field_facts();
        }
        let ghost av = self.vals();
        let ghost bv = rhs.vals();
        let ghost p = P::prime();
        let n = self.coefficients.len();
        let m = rhs.coefficients.len();
        let len = n + m - 1;
        let zero = Fe::<P>::from_u64(0);
        let mut result: Vec<Fe<P>> = Vec::new();
        while result.len() < len
            invariant
                result@.len() <= len,
                forall|k: int|
                    0 <= k < result@.len() ==> (#[trigger] result@[k]).wf() && result@[k].val()
                        == 0,
                zero.val() == 0,
                zero.wf(),
            decreases len - result@.len(),
        {
            result.push(zero);
        }
        let mut i: usize = 0;
        while i < n
            invariant
                i <= n,
                n == self.coefficients@.len(),
                m == rhs.coefficients@.len(),
                len == n + m - 1,
                p == P::prime(),
                p > 0,
                av == self.vals(),
                bv == rhs.vals(),
                self.wf(),
                rhs.wf(),
                result@.len() == len,
                forall|k: int|
                    0 <= k < len ==> (#[trigger] result@[k]).wf() && result@[k].val()
                        == conv_partial(av, bv, k, i as int, 0) % p,
            decreases n - i,
        {
            let mut j: usize = 0;
            while j < m
                invariant
                    i < n,
                    j <= m,
                    n == self.coefficients@.len(),
                    m == rhs.coefficients@.len(),
                    len == n + m - 1,
                    p == P::prime(),
                    p > 0,
                    av == self.vals(),
                    bv == rhs.vals(),
                    self.wf(),
                    rhs.wf(),
                    result@.len() == len,
                    forall|k: int|
                        0 <= k < len ==> (#[trigger] result@[k]).wf() && result@[k].val()
                            == conv_partial(av, bv, k, i as int, j as int) % p,
                decreases m - j,
            {
                let idx = i + j;
                let ghost before = result@;
                let cur = result[idx];
                let term = self.coefficients[i].mul(rhs.coefficients[j]);
                result[idx] = cur.add(term);
                proof {
                    let ki = idx as int;
                    assert(conv_partial(av, bv, ki, i as int, j as int) == conv_sum(
                        av,
                        bv,
                        ki,
                        i as int,
                    ));
                    lemma_add_mod_noop(
                        conv_sum(av, bv, ki, i as int) as int,
                        conv_term(av, bv, i as int, ki) as int,
                        p as int,
                    );
                    assert(result@[ki].val() == conv_partial(av, bv, ki, i as int, j + 1) % p);
                    assert forall|k: int| 0 <= k < len && k != ki implies (#[trigger] result@[k]).wf()
                        && result@[k].val() == conv_partial(av, bv, k, i as int, j + 1) % p by {
                        assert(result@[k] == before[k]);
                        assert(conv_partial(av, bv, k, i as int, j + 1) == conv_partial(
                            av,
                            bv,
                            k,
                            i as int,
                            j as int,
                        ));
                    }
                }
                j = j + 1;
            }
            proof {
                assert forall|k: int| 0 <= k < len implies conv_partial(av, bv, k, i as int, m as int)
                    == conv_partial(av, bv, k, i + 1, 0) by {
                }
            }
            i = i + 1;
        }
        let r = Polynomial { coefficients: result };
        proof {
            assert(r.vals() =~= poly_mul_coeffs(p, av, bv));
        }
        r
    }
}

/// The convolution sum for coefficient `k` over the rows before `i`, plus
/// row `i`'s own term where its column has already been processed (is below
/// `j`).
pub open spec fn conv_partial(a: Seq<nat>, b: Seq<nat>, k: int, i: int, j: int) -> nat {
    conv_sum(a, b, k, i) + if 0 <= k - i < j {
        conv_term(a, b, i, k)
    } else {
        0
    }
}

} // verus!

