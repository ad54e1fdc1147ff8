//! Prime-field arithmetic, elliptic-curve point operations and polynomial
//! arithmetic over an arbitrary prime field.
//!
//! A [`PrimeField`] descriptor binds a numeric backend to a prime modulus and
//! curve coefficients; [`Fe`] is a reduced residue of such a field. The point
//! and polynomial engines live in [`point`] and [`polynomial`], and two ready
//! descriptors (a small test field and a 256-bit field) in [`curves`].
use vstd::prelude::*;
use vstd::arithmetic::power::{
    pow, lemma_pow0, lemma_pow1, lemma_pow_adds, lemma_pow_multiplies, lemma_pow_mod_noop,
    lemma_square_is_pow2,
};
use vstd::arithmetic::div_mod::{
    lemma_small_mod, lemma_mul_mod_noop_general, lemma_mod_bound,
};
use vstd::arithmetic::mul::lemma_mul_is_associative;

pub mod curves;
pub mod point;
pub mod polynomial;

verus! {

/// `b^e mod m`.
pub open spec fn pow_mod(b: nat, e: nat, m: nat) -> nat
    recommends
        m > 0,
{
    (pow(b as int, e) % (m as int)) as nat
}

/// Field addition of residues: `(x + y) mod m`.
pub open spec fn fadd(m: nat, x: nat, y: nat) -> nat
    recommends
        m > 0,
{
    (((x + y) as int) % (m as int)) as nat
}

/// Field subtraction of residues, computed without underflow: `(x + m - y) mod m`.
pub open spec fn fsub(m: nat, x: nat, y: nat) -> nat
    recommends
        m > 0,
        y <= x + m,
{
    (((x + m - y) as int) % (m as int)) as nat
}

/// Field multiplication of residues: `(x * y) mod m`.
pub open spec fn fmul(m: nat, x: nat, y: nat) -> nat
    recommends
        m > 0,
{
    (((x * y) as int) % (m as int)) as nat
}

/// The multiplicative inverse of a nonzero residue by Fermat's little
/// theorem: `x^(m - 2) mod m`.
pub open spec fn finv(m: nat, x: nat) -> nat
    recommends
        m >= 2,
{
    pow_mod(x, (m - 2) as nat, m)
}

/// Field division: `x * finv(m, y) mod m`.
pub open spec fn fdiv(m: nat, x: nat, y: nat) -> nat
    recommends
        m >= 2,
{
    fmul(m, x, finv(m, y))
}

/// A field descriptor: a numeric backend bound to a prime modulus, the two
/// curve coefficients and the capability contract the engines rely on.
///
/// `nval` maps a backend value to the natural number it stands for, `limit`
/// is the exclusive bound of the backend's range, and every arithmetic
/// method carries the exact contract the field engine needs.
pub trait PrimeField: Copy {
    type Number: Copy;

    /// The natural number a backend value stands for.
    spec fn nval(n: Self::Number) -> nat;

    /// The prime modulus of the field.
    spec fn prime() -> nat;

    /// Curve coefficient A of `y^2 = x^3 + A*x + B`.
    spec fn a() -> nat;

    /// Curve coefficient B of `y^2 = x^3 + A*x + B`.
    spec fn b() -> nat;

    /// Exclusive upper bound of the backend's range.
    spec fn limit() -> nat;

    /// The field's display name.
    spec fn spec_name() -> Seq<char>;

    /// Every descriptor keeps its curve coefficients reduced, uses a modulus
    /// large enough for a short Weierstrass curve, and a backend wide enough
    /// to hold `2 * prime`.
    proof fn field_facts()
        ensures
            Self::prime() >= 5,
            Self::a() < Self::prime(),
            Self::b() < Self::prime(),
            2 * Self::prime() <= Self::limit();

    fn num_from_u64(v: u64) -> (r: Self::Number)
        ensures
            Self::nval(r) == v;

    fn prime_num() -> (r: Self::Number)
        ensures
            Self::nval(r) == Self::prime();

    fn a_num() -> (r: Self::Number)
        ensures
            Self::nval(r) == Self::a();

    fn b_num() -> (r: Self::Number)
        ensures
            Self::nval(r) == Self::b();

    fn num_add(x: Self::Number, y: Self::Number) -> (r: Self::Number)
        requires
            Self::nval(x) + Self::nval(y) < Self::limit(),
        ensures
            Self::nval(r) == Self::nval(x) + Self::nval(y);

    fn num_sub(x: Self::Number, y: Self::Number) -> (r: Self::Number)
        requires
            Self::nval(y) <= Self::nval(x),
        ensures
            Self::nval(r) == Self::nval(x) - Self::nval(y);

    fn num_rem(x: Self::Number, m: Self::Number) -> (r: Self::Number)
        requires
            Self::nval(m) > 0,
        ensures
            Self::nval(r) == Self::nval(x) % Self::nval(m);

    /// `(x * y) mod m`, exact even where the raw product would not fit the
    /// backend's width.
    fn num_mul_rem(x: Self::Number, y: Self::Number, m: Self::Number) -> (r: Self::Number)
        requires
            Self::nval(m) > 0,
        ensures
            Self::nval(r) == (Self::nval(x) * Self::nval(y)) % Self::nval(m);

    fn num_eq(x: Self::Number, y: Self::Number) -> (r: bool)
        ensures
            r <==> Self::nval(x) == Self::nval(y);

    fn num_is_zero(x: Self::Number) -> (r: bool)
        ensures
            r <==> Self::nval(x) == 0;

    fn num_is_odd(x: Self::Number) -> (r: bool)
        ensures
            r <==> Self::nval(x) % 2 == 1;

    fn num_half(x: Self::Number) -> (r: Self::Number)
        ensures
            Self::nval(r) == Self::nval(x) / 2;

    fn name() -> (r: &'static str)
        ensures
            r@ == Self::spec_name();
}

/// A residue of the field described by `P`: the stored value is always in
/// `[0, prime)`.
#[derive(Clone, Copy)]
pub struct Fe<P: PrimeField> {
    value: P::Number,
}

impl<P: PrimeField> Fe<P> {
    /// The residue this element stands for.
    pub closed spec fn val(self) -> nat {
        P::nval(self.value)
    }

    /// The stored value is reduced.
    pub open spec fn wf(self) -> bool {
        self.val() < P::prime()
    }

    /// Builds a field element by reducing `v` modulo the prime.
    pub fn new(v: P::Number) -> (r: Self)
        ensures
            r.val() == P::nval(v) % P::prime(),
            r.wf(),
    {
        proof {
            P::field_facts();
        }
        let value = P::num_rem(v, P::prime_num());
        Fe { value }
    }

    /// Builds a field element from a native integer, reducing it modulo the
    /// prime.
    pub fn from_u64(v: u64) -> (r: Self)
        ensures
            r.val() == (v as nat) % P::prime(),
            r.wf(),
    {
        Self::new(P::num_from_u64(v))
    }

    /// The stored (reduced) backend value.
    pub fn value(&self) -> (r: P::Number)
        ensures
            P::nval(r) == self.val(),
    {
        self.value
    }

    /// `(self + rhs) mod prime`.
    pub fn add(self, rhs: Self) -> (r: Self)
        requires
            self.wf(),
            rhs.wf(),
        ensures
            r.val() == fadd(P::prime(), self.val(), rhs.val()),
            r.wf(),
    {
        proof {
            P::field_facts();
        }
        let t = P::num_add(self.value, rhs.value);
        let value = P::num_rem(t, P::prime_num());
        Fe { value }
    }

    /// `(self - rhs) mod prime`, computed as `(self + prime) - rhs` before
    /// reduction so that the unsigned backend never underflows.
    pub fn sub(self, rhs: Self) -> (r: Self)
        requires
            self.wf(),
            rhs.wf(),
        ensures
            r.val() == fsub(P::prime(), self.val(), rhs.val()),
            r.wf(),
    {
        proof {
            P::field_facts();
        }
        let t = P::num_add(self.value, P::prime_num());
        let t = P::num_sub(t, rhs.value);
        let value = P::num_rem(t, P::prime_num());
        Fe { value }
    }

    /// `(self * rhs) mod prime`.
    pub fn mul(self, rhs: Self) -> (r: Self)
        requires
            self.wf(),
            rhs.wf(),
        ensures
            r.val() == fmul(P::prime(), self.val(), rhs.val()),
            r.wf(),
    {
        proof {
            P::field_facts();
        }
        let value = P::num_mul_rem(self.value, rhs.value, P::prime_num());
        Fe { value }
    }

    /// `self^rhs mod prime` by square-and-multiply.
    pub fn pow(self, rhs: Self) -> (r: Self)
        requires
            self.wf(),
            rhs.wf(),
        ensures
            r.val() == pow_mod(self.val(), rhs.val(), P::prime()),
            r.wf(),
    {
        proof {
            P::field_facts();
        }
        let v = modpow::<P>(self.value, rhs.value);
        proof {
            lemma_small_mod(pow_mod(self.val(), rhs.val(), P::prime()), P::prime());
        }
        Self::new(v)
    }

    /// The multiplicative inverse `self^(prime - 2) mod prime` by Fermat's
    /// little theorem; absent exactly when `self` is the additive identity.
    pub fn inv(&self) -> (r: Option<P::Number>)
        requires
            self.wf(),
        ensures
            match r {
                None => self.val() == 0,
                Some(v) => self.val() != 0 && P::nval(v) == finv(P::prime(), self.val())
                    && P::nval(v) < P::prime(),
            },
    {
        proof {
            P::field_facts();
        }
        if P::num_is_zero(self.value) {
            return None;
        }
        let two = P::num_from_u64(2);
        let exponent = P::num_sub(P::prime_num(), two);
        Some(modpow::<P>(self.value, exponent))
    }

    /// `self * inv(rhs) mod prime`; absent exactly when `rhs` is the additive
    /// identity, whose inversion is undefined.
    pub fn div(self, rhs: Self) -> (r: Option<Self>)
        requires
            self.wf(),
            rhs.wf(),
        ensures
            match r {
                None => rhs.val() == 0,
                Some(q) => rhs.val() != 0 && q.val() == fdiv(P::prime(), self.val(), rhs.val())
                    && q.wf(),
            },
    {
        match rhs.inv() {
            None => None,
            Some(iv) => Some(self.mul(Fe { value: iv })),
        }
    }
}

/// Odd step of square-and-multiply: folding the lowest exponent bit into the
/// accumulator and squaring the base preserves the running product.
proof fn lemma_modpow_step_odd(p: int, a: int, b: int, e: nat)
    requires
        p > 0,
        a >= 0,
        b >= 0,
        e % 2 == 1,
    ensures
        (((a * b) % p) * pow((b * b) % p, (e / 2) as nat)) % p == (a * pow(b, e)) % p,
{
    let h = (e / 2) as nat;
    lemma_square_is_pow2(b);
    lemma_pow_multiplies(b, 2, h);
    lemma_pow1(b);
    lemma_pow_adds(b, 1, (2 * h) as nat);
    assert(e == 2 * h + 1);
    assert(pow(b, e) == b * pow(b * b, h));
    lemma_pow_mod_noop(b * b, h, p);
    // replace the squared base by its reduction under the modulus
    lemma_mul_mod_noop_general((a * b) % p, pow((b * b) % p, h), p);
    lemma_mul_mod_noop_general((a * b) % p, pow(b * b, h), p);
    assert((((a * b) % p) * pow((b * b) % p, h)) % p == (((a * b) % p) * pow(b * b, h)) % p) by {
        assert((((a * b) % p) * pow((b * b) % p, h)) % p
            == (((a * b) % p) * (pow((b * b) % p, h) % p)) % p);
        assert((((a * b) % p) * pow(b * b, h)) % p
            == (((a * b) % p) * (pow(b * b, h) % p)) % p);
    }
    // drop the reduction of the accumulator product
    lemma_mul_mod_noop_general(a * b, pow(b * b, h), p);
    assert(((a * b) * pow(b * b, h)) % p == (a * pow(b, e)) % p) by {
        lemma_mul_is_associative(a, b, pow(b * b, h));
    }
}

/// Even step of square-and-multiply: squaring the base and halving the
/// exponent preserves the running product.
proof fn lemma_modpow_step_even(p: int, a: int, b: int, e: nat)
    requires
        p > 0,
        0 <= a < p,
        b >= 0,
        e % 2 == 0,
    ensures
        (a * pow((b * b) % p, (e / 2) as nat)) % p == (a * pow(b, e)) % p,
{
    let h = (e / 2) as nat;
    lemma_square_is_pow2(b);
    lemma_pow_multiplies(b, 2, h);
    assert(e == 2 * h);
    assert(pow(b, e) == pow(b * b, h));
    lemma_pow_mod_noop(b * b, h, p);
    lemma_mul_mod_noop_general(a, pow((b * b) % p, h), p);
    lemma_mul_mod_noop_general(a, pow(b * b, h), p);
    assert((a * pow((b * b) % p, h)) % p == (a * (pow((b * b) % p, h) % p)) % p);
    assert((a * pow(b * b, h)) % p == (a * (pow(b * b, h) % p)) % p);
}

/// `base^exp mod prime` by least-significant-bit-first binary
/// exponentiation, reducing after every multiplication.
fn modpow<P: PrimeField>(base: P::Number, exp: P::Number) -> (r: P::Number)
    ensures
        P::nval(r) == pow_mod(P::nval(base), P::nval(exp), P::prime()),
        P::nval(r) < P::prime(),
{
    proof {
        P::field_facts();
    }
    let ghost b0: nat = P::nval(base);
    let ghost e0: nat = P::nval(exp);
    let ghost p: int = P::prime() as int;
    let prime = P::prime_num();
    let one = P::num_from_u64(1);
    let mut acc = P::num_rem(one, prime);
    let mut b = P::num_rem(base, prime);
    let mut e = exp;
    proof {
        lemma_small_mod(1, P::prime());
        lemma_pow_mod_noop(b0 as int, e0, p);
        lemma_mul_mod_noop_general(1, pow((b0 as int) % p, e0), p);
        assert((P::nval(acc) * pow(P::nval(b) as int, P::nval(e))) % p == pow(b0 as int, e0) % p);
    }
    while !P::num_is_zero(e)
        invariant
            p == P::prime() as int,
            p >= 5,
            P::nval(prime) == P::prime(),
            P::nval(acc) < P::prime(),
            P::nval(b) < P::prime(),
            (P::nval(acc) * pow(P::nval(b) as int, P::nval(e))) % p == pow(b0 as int, e0) % p,
        decreases P::nval(e),
    {
        let ghost av: int = P::nval(acc) as int;
        let ghost bv: int = P::nval(b) as int;
        let ghost ev: nat = P::nval(e);
        if P::num_is_odd(e) {
            acc = P::num_mul_rem(acc, b, prime);
            proof {
                lemma_modpow_step_odd(p, av, bv, ev);
            }
        } else {
            proof {
                lemma_modpow_step_even(p, av, bv, ev);
            }
        }
        b = P::num_mul_rem(b, b, prime);
        e = P::num_half(e);
        proof {
            lemma_mod_bound(av * bv, p);
            lemma_mod_bound(bv * bv, p);
        }
    }
    proof {
        lemma_pow0(P::nval(b) as int);
        lemma_small_mod(P::nval(acc), P::prime());
    }
    acc
}

/// Law: the additive identity is neutral — for a reduced residue `x`,
/// `x + 0 == x` in the field.
pub proof fn lemma_add_zero_identity(m: nat, x: nat)
    requires
        m > 0,
        x < m,
    ensures
        fadd(m, x, 0) == x,
{
    lemma_small_mod(x, m);
}

/// Law: the multiplicative identity is neutral — for a reduced residue `x`,
/// `x * 1 == x` in the field.
pub proof fn lemma_mul_one_identity(m: nat, x: nat)
    requires
        m > 0,
        x < m,
    ensures
        fmul(m, x, 1) == x,
{
    lemma_small_mod(x, m);
}

} // verus!

