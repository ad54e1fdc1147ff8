//! Ready-made field descriptors: a small test field on a native word and the
//! 256-bit BN254 base field on a big-integer backend.
use vstd::prelude::*;
use vstd::arithmetic::mul::lemma_mul_upper_bound;
use vstd::arithmetic::div_mod::lemma_small_mod;
use crate::PrimeField;

verus! {

/// ruint's fixed-width unsigned big integer, used as the numeric backend of
/// the 256-bit field; opaque here, read only through `uint_nat`.
#[verifier::external_type_specification]
#[verifier::external_body]
pub struct ExUint<const BITS: usize, const LIMBS: usize>(ruint::Uint<BITS, LIMBS>);

/// The natural number a 256-bit backend value stands for.
pub uninterp spec fn uint_nat(v: ruint::aliases::U256) -> nat;

/// Exclusive bound of the 256-bit backend's range.
pub open spec fn u256_limit() -> nat {
    0x10000000000000000000000000000000000000000000000000000000000000000nat
}

/// Relies on ruint's `Uint::from_limbs`: the value is the little-endian
/// 64-bit limbs combined; for a 256-bit integer no masking occurs and the
/// call cannot panic.
#[verifier::external_body]
fn u256_from_limbs(l0: u64, l1: u64, l2: u64, l3: u64) -> (r: ruint::aliases::U256)
    ensures
        uint_nat(r) == l0 + l1 * 0x10000000000000000int + l2
            * 0x100000000000000000000000000000000int + l3
            * 0x1000000000000000000000000000000000000000000000000int,
{
    ruint::aliases::U256::from_limbs([l0, l1, l2, l3])
}

/// Relies on ruint's `Uint::wrapping_add`: addition wrapping at the boundary
/// of the 256-bit type.
#[verifier::external_body]
fn u256_wrapping_add(x: ruint::aliases::U256, y: ruint::aliases::U256) -> (r:
    ruint::aliases::U256)
    ensures
        uint_nat(r) == (uint_nat(x) + uint_nat(y)) % u256_limit(),
{
    x.wrapping_add(y)
}

/// Relies on ruint's `Uint::wrapping_sub`: for a minuend at least as large as
/// the subtrahend the difference is exact.
#[verifier::external_body]
fn u256_wrapping_sub(x: ruint::aliases::U256, y: ruint::aliases::U256) -> (r:
    ruint::aliases::U256)
    requires
        uint_nat(y) <= uint_nat(x),
    ensures
        uint_nat(r) == uint_nat(x) - uint_nat(y),
{
    x.wrapping_sub(y)
}

/// Relies on ruint's `Uint::reduce_mod`: the remainder of `x` modulo a
/// nonzero modulus.
#[verifier::external_body]
fn u256_reduce_mod(x: ruint::aliases::U256, m: ruint::aliases::U256) -> (r:
    ruint::aliases::U256)
    requires
        uint_nat(m) > 0,
    ensures
        uint_nat(r) == uint_nat(x) % uint_nat(m),
{
    x.reduce_mod(m)
}

/// Relies on ruint's `Uint::mul_mod`: the full-precision product reduced by a
/// nonzero modulus, exact even where the raw product overflows 256 bits.
#[verifier::external_body]
fn u256_mul_mod(x: ruint::aliases::U256, y: ruint::aliases::U256, m: ruint::aliases::U256) -> (r:
    ruint::aliases::U256)
    requires
        uint_nat(m) > 0,
    ensures
        uint_nat(r) == (uint_nat(x) * uint_nat(y)) % uint_nat(m),
{
    x.mul_mod(y, m)
}

/// Relies on ruint's `PartialEq`, which compares the limbs: for a 256-bit
/// integer the limbs are a canonical representation of the value.
#[verifier::external_body]
fn u256_eq(x: &ruint::aliases::U256, y: &ruint::aliases::U256) -> (r: bool)
    ensures
        r <==> uint_nat(*x) == uint_nat(*y),
{
    x == y
}

/// Relies on ruint's `Uint::is_zero`.
#[verifier::external_body]
fn u256_is_zero(x: &ruint::aliases::U256) -> (r: bool)
    ensures
        r <==> uint_nat(*x) == 0,
{
    x.is_zero()
}

/// Relies on ruint's `Uint::bit`: bit 0 of the lowest little-endian limb is
/// the value's parity.
#[verifier::external_body]
fn u256_is_odd(x: &ruint::aliases::U256) -> (r: bool)
    ensures
        r <==> uint_nat(*x) % 2 == 1,
{
    x.bit(0)
}

/// Relies on ruint's `Uint::wrapping_shr`: shifting right by one halves the
/// value, rounding down.
#[verifier::external_body]
fn u256_shr1(x: ruint::aliases::U256) -> (r: ruint::aliases::U256)
    ensures
        uint_nat(r) == uint_nat(x) / 2,
{
    x.wrapping_shr(1)
}

/// The base field of the BN254 pairing-friendly curve `y^2 = x^3 + 3`, with
/// its 254-bit prime modulus on a 256-bit big-integer backend.
#[derive(Clone, Copy, PartialEq, Eq, Structural)]
pub struct BN254;

/// The BN254 base-field modulus.
pub open spec fn bn254_prime() -> nat {
    0x30644E72E131A029B85045B68181585D97816A916871CA8D3C208C16D87CFD47nat
}

impl PrimeField for BN254 {
    type Number = ruint::aliases::U256;

    open spec fn nval(n: ruint::aliases::U256) -> nat {
        uint_nat(n)
    }

    open spec fn prime() -> nat {
        bn254_prime()
    }

    open spec fn a() -> nat {
        0
    }

    open spec fn b() -> nat {
        3
    }

    open spec fn limit() -> nat {
        u256_limit()
    }

    open spec fn spec_name() -> Seq<char> {
        "BN254"@
    }

    proof fn field_facts() {
    }

    fn num_from_u64(v: u64) -> (r: ruint::aliases::U256) {
        u256_from_limbs(v, 0, 0, 0)
    }

    fn prime_num() -> (r: ruint::aliases::U256) {
        let r = u256_from_limbs(0x3C208C16D87CFD47, 0x97816A916871CA8D, 0xB85045B68181585D,
            0x30644E72E131A029);
        proof {
            assert(0x3C208C16D87CFD47 + 0x97816A916871CA8D * 0x10000000000000000int
                + 0xB85045B68181585D * 0x100000000000000000000000000000000int + 0x30644E72E131A029
                * 0x1000000000000000000000000000000000000000000000000int == bn254_prime());
        }
        r
    }

    fn a_num() -> (r: ruint::aliases::U256) {
        u256_from_limbs(0, 0, 0, 0)
    }

    fn b_num() -> (r: ruint::aliases::U256) {
        u256_from_limbs(3, 0, 0, 0)
    }

    fn num_add(x: ruint::aliases::U256, y: ruint::aliases::U256) -> (r: ruint::aliases::U256) {
        let r = u256_wrapping_add(x, y);
        proof {
            lemma_small_mod((uint_nat(x) + uint_nat(y)) as nat, u256_limit());
        }
        r
    }

    fn num_sub(x: ruint::aliases::U256, y: ruint::aliases::U256) -> (r: ruint::aliases::U256) {
        u256_wrapping_sub(x, y)
    }

    fn num_rem(x: ruint::aliases::U256, m: ruint::aliases::U256) -> (r: ruint::aliases::U256) {
        u256_reduce_mod(x, m)
    }

    fn num_mul_rem(x: ruint::aliases::U256, y: ruint::aliases::U256, m: ruint::aliases::U256) -> (r:
        ruint::aliases::U256) {
        u256_mul_mod(x, y, m)
    }

    fn num_eq(x: ruint::aliases::U256, y: ruint::aliases::U256) -> (r: bool) {
        u256_eq(&x, &y)
    }

    fn num_is_zero(x: ruint::aliases::U256) -> (r: bool) {
        u256_is_zero(&x)
    }

    fn num_is_odd(x: ruint::aliases::U256) -> (r: bool) {
        u256_is_odd(&x)
    }

    fn num_half(x: ruint::aliases::U256) -> (r: ruint::aliases::U256) {
        u256_shr1(x)
    }

    fn name() -> (r: &'static str) {
        "BN254"
    }
}

/// The test field F_101 with curve `y^2 = x^3 - 3x + 3` (A = 98 is -3 mod
/// 101), on a native 64-bit backend.
#[derive(Clone, Copy, PartialEq, Eq, Structural)]
pub struct SmallPrime;

impl PrimeField for SmallPrime {
    type Number = u64;

    open spec fn nval(n: u64) -> nat {
        n as nat
    }

    open spec fn prime() -> nat {
        101
    }

    open spec fn a() -> nat {
        98
    }

    open spec fn b() -> nat {
        3
    }

    open spec fn limit() -> nat {
        0x10000000000000000
    }

    open spec fn spec_name() -> Seq<char> {
        "F101"@
    }

    proof fn field_facts() {
    }

    fn num_from_u64(v: u64) -> u64 {
        v
    }

    fn prime_num() -> u64 {
        101
    }

    fn a_num() -> u64 {
        98
    }

    fn b_num() -> u64 {
        3
    }

    fn num_add(x: u64, y: u64) -> u64 {
        x + y
    }

    fn num_sub(x: u64, y: u64) -> u64 {
        x - y
    }

    fn num_rem(x: u64, m: u64) -> u64 {
        x % m
    }

    fn num_mul_rem(x: u64, y: u64, m: u64) -> (r: u64) {
        proof {
            lemma_mul_upper_bound(x as int, 0xFFFFFFFFFFFFFFFF, y as int, 0xFFFFFFFFFFFFFFFF);
        }
        let wide = (x as u128) * (y as u128);
        (wide % (m as u128)) as u64
    }

    fn num_eq(x: u64, y: u64) -> bool {
        x == y
    }

    fn num_is_zero(x: u64) -> bool {
        x == 0
    }

    fn num_is_odd(x: u64) -> bool {
        x % 2 == 1
    }

    fn num_half(x: u64) -> u64 {
        x / 2
    }

    fn name() -> (r: &'static str) {
        "F101"
    }
}

} // verus!


