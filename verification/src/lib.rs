//! A two-party Diffie-Hellman key exchange over a finite cyclic group given by
//! an unsigned modulus: each party draws a private scalar, derives a public
//! value, and computes from the peer's public value a shared secret that both
//! sides prove equal. The arithmetic core is a verified square-and-multiply
//! modular exponentiation whose intermediates are carried in double width, so
//! no product ever overflows.

use vstd::prelude::*;

verus! {

use vstd::arithmetic::div_mod::{
    lemma_mod_bound, lemma_mul_mod_noop_general, lemma_mul_mod_noop_right, lemma_small_mod,
};
use vstd::arithmetic::mul::{lemma_mul_is_associative, lemma_mul_is_commutative};
use vstd::arithmetic::power::{
    lemma_pow0, lemma_pow1, lemma_pow_adds, lemma_pow_mod_noop, lemma_pow_multiplies,
    lemma_square_is_pow2, pow,
};

/// How a key-exchange operation fails. Both failures are local to the call
/// that detects them: retrying with the same inputs fails the same way.
#[derive(Clone, Copy, Debug, PartialEq, Eq, Structural)]
pub enum DhError {
    /// The modulus is zero, so reducing by it is undefined.
    InvalidModulus,
    /// The modulus leaves no integer in the private-scalar range `[2, p)`.
    InvalidRange,
}

/// `base ^ exp % modulus`, the value every derivation step computes.
pub open spec fn pow_mod(base: nat, exp: nat, modulus: nat) -> nat
    recommends
        modulus > 0,
{
    (pow(base as int, exp) % (modulus as int)) as nat
}

/// Reducing a squared base by the modulus does not change the residue of its
/// powers: `((b*b) % m) ^ k ≡ b ^ 2k (mod m)`.
proof fn lemma_square_then_reduce(b: int, k: nat, m: int)
    requires
        m > 0,
    ensures
        pow((b * b) % m, k) % m == pow(b, 2 * k) % m,
{
    lemma_pow_mod_noop(b * b, k, m);
    lemma_square_is_pow2(b);
    lemma_pow_multiplies(b, 2, k);
}

/// One step of square-and-multiply preserves the running product's residue:
/// folding the exponent's lowest bit into the accumulator and squaring the
/// base leaves `accumulator * base ^ exponent` unchanged modulo `m`.
proof fn lemma_exponent_halves(r: int, b: int, e: nat, m: int)
    requires
        m > 0,
    ensures
        e % 2 == 1 ==> (((r * b) % m) * pow((b * b) % m, e / 2)) % m == (r * pow(b, e)) % m,
        e % 2 == 0 ==> (r * pow((b * b) % m, e / 2)) % m == (r * pow(b, e)) % m,
{
    let k = e / 2;
    let c = (b * b) % m;
    lemma_square_then_reduce(b, k, m);
    lemma_mul_mod_noop_right(r, pow(c, k), m);
    lemma_mul_mod_noop_right(r, pow(b, 2 * k), m);
    if e % 2 == 1 {
        lemma_mul_mod_noop_general(r * b, pow(c, k), m);
        lemma_mul_mod_noop_right(r * b, pow(c, k), m);
        lemma_mul_mod_noop_right(r * b, pow(b, 2 * k), m);
        lemma_pow_adds(b, 1, 2 * k);
        lemma_pow1(b);
        lemma_mul_is_associative(r, b, pow(b, 2 * k));
    }
}

/// `base ^ exp % modular` by right-to-left binary exponentiation, never
/// materializing the unreduced power: both factors of every product are
/// already reduced, so intermediates fit in twice the modulus width.
///
/// A zero modulus is rejected; for any positive modulus the reduced power is
/// returned, which is `1` whenever the exponent is zero and the modulus
/// exceeds one, and `0` whenever the modulus is one.
pub fn modular_exponentiation(base: u128, exp: u64, modular: u64) -> (r: Result<u64, DhError>)
    ensures
        modular == 0 <==> r == Err::<u64, DhError>(DhError::InvalidModulus),
        modular >= 1 ==> r == Ok::<u64, DhError>(
            pow_mod(base as nat, exp as nat, modular as nat) as u64,
        ),
        modular >= 1 ==> pow_mod(base as nat, exp as nat, modular as nat) < modular,
        modular > 1 && exp == 0 ==> r == Ok::<u64, DhError>(1u64),
        modular == 1 ==> r == Ok::<u64, DhError>(0u64),
{
    if modular == 0 {
        return Err(DhError::InvalidModulus);
    }
    let m: u128 = modular as u128;
    let mut e: u64 = exp;
    let mut b: u128 = base % m;
    let mut result: u128 = 1 % m;
    proof {
        lemma_mod_bound(1int, m as int);
        lemma_mod_bound(base as int, m as int);
        lemma_mul_mod_noop_general(1int, pow(b as int, e as nat), m as int);
        lemma_pow_mod_noop(base as int, exp as nat, m as int);
    }
    while e > 0
        invariant
            1 <= m <= u64::MAX as u128,
            m == modular as u128,
            b < m,
            result < m,
            (result as int * pow(b as int, e as nat)) % (m as int) == pow(
                base as int,
                exp as nat,
            ) % (m as int),
        decreases e,
    {
        proof {
            assert((result as int) * (b as int) < 0x100000000000000000000000000000000int
                && (b as int) * (b as int) < 0x100000000000000000000000000000000int)
                by (nonlinear_arith)
                requires
                    (result as int) < (m as int),
                    (b as int) < (m as int),
                    (m as int) <= 0xffffffffffffffffint,
            ;
            lemma_exponent_halves(result as int, b as int, e as nat, m as int);
            lemma_mod_bound((result as int) * (b as int), m as int);
            lemma_mod_bound((b as int) * (b as int), m as int);
        }
        if e % 2 == 1 {
            result = (result * b) % m;
        }
        b = (b * b) % m;
        e = e / 2;
    }
    proof {
        lemma_pow0(b as int);
        lemma_small_mod(result as nat, m as nat);
        if exp == 0 && modular > 1 {
            lemma_pow0(base as int);
            lemma_small_mod(1nat, modular as nat);
        }
    }
    Ok(result as u64)
}

/// Relies on rand's `thread_rng` and `Rng::gen_range`: a draw from the
/// half-open range `[lo, hi)`, which panics only when the range is empty;
/// the precondition rules that out. The draw is random, so nothing beyond
/// its range is claimed.
#[verifier::external_body]
fn sample_scalar(lo: u64, hi: u64) -> (s: u64)
    requires
        lo < hi,
    ensures
        lo <= s < hi,
{
    rand::Rng::gen_range(&mut rand::thread_rng(), lo..hi)
}

/// A fresh private scalar for one party: a random value in `[2, p)`, drawn
/// from the process-wide random source. Fails exactly when no integer lies
/// in that range, that is when `p <= 2`.
pub fn private_key(p: u64) -> (r: Result<u64, DhError>)
    ensures
        p <= 2 <==> r == Err::<u64, DhError>(DhError::InvalidRange),
        p > 2 ==> r is Ok && 2 <= r->Ok_0 < p,
{
    if p <= 2 {
        Err(DhError::InvalidRange)
    } else {
        Ok(sample_scalar(2, p))
    }
}

/// The public value a party sends to its peer: `g ^ a % p`. Deterministic in
/// its inputs; fails exactly when the modulus is zero.
pub fn public_key(p: u64, g: u64, a: u64) -> (r: Result<u64, DhError>)
    ensures
        p == 0 <==> r == Err::<u64, DhError>(DhError::InvalidModulus),
        p >= 1 ==> r == Ok::<u64, DhError>(pow_mod(g as nat, a as nat, p as nat) as u64),
        p >= 1 ==> pow_mod(g as nat, a as nat, p as nat) < p,
{
    modular_exponentiation(g as u128, a, p)
}

/// The shared secret a party computes from the peer's public value:
/// `b_pub ^ a % p`. Deterministic in its inputs; fails exactly when the
/// modulus is zero.
pub fn secret(p: u64, b_pub: u64, a: u64) -> (r: Result<u64, DhError>)
    ensures
        p == 0 <==> r == Err::<u64, DhError>(DhError::InvalidModulus),
        p >= 1 ==> r == Ok::<u64, DhError>(pow_mod(b_pub as nat, a as nat, p as nat) as u64),
        p >= 1 ==> pow_mod(b_pub as nat, a as nat, p as nat) < p,
{
    modular_exponentiation(b_pub as u128, a, p)
}

/// The exchange agrees: when both parties use the same modulus and generator
/// and exchange public values faithfully, the secret Alice computes from
/// Bob's public value equals the one Bob computes from Alice's, because
/// `(g^a)^b ≡ g^(a*b) ≡ (g^b)^a (mod p)`.
pub proof fn lemma_key_agreement(p: nat, g: nat, a: nat, b: nat)
    requires
        p > 2,
        2 <= a < p,
        2 <= b < p,
    ensures
        pow_mod(pow_mod(g, a, p), b, p) == pow_mod(pow_mod(g, b, p), a, p),
{
    lemma_mod_bound(pow(g as int, a), p as int);
    lemma_mod_bound(pow(g as int, b), p as int);
    lemma_pow_mod_noop(pow(g as int, a), b, p as int);
    lemma_pow_mod_noop(pow(g as int, b), a, p as int);
    lemma_pow_multiplies(g as int, a, b);
    lemma_pow_multiplies(g as int, b, a);
    lemma_mul_is_commutative(a as int, b as int);
}

} // verus!
