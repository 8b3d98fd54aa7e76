//! The Lucas–Lehmer test for Mersenne numbers, and the perfect numbers that
//! Mersenne primes give.

use crate::bignum::{
    big_add, big_bits, big_clone, big_from, big_ge, big_is_zero, big_low_bits, big_mul, big_one,
    big_shl, big_shr, big_sub, magnitude,
};
use crate::prime::{is_prime, is_prime_number};
use num_bigint::BigUint;
use vstd::arithmetic::div_mod::*;
use vstd::arithmetic::power2::*;
use vstd::prelude::*;

verus! {

/// The Mersenne number with exponent `p`: two to the `p`, less one.
pub open spec fn mersenne(p: nat) -> nat {
    (pow2(p) - 1) as nat
}

/// The Lucas–Lehmer sequence for exponent `p`: it starts at four, and each
/// term is the square of the one before, less two, reduced by the Mersenne
/// number.
pub open spec fn lucas_term(p: nat, k: nat) -> int
    decreases k,
{
    if k == 0 {
        4
    } else {
        let t = lucas_term(p, (k - 1) as nat);
        (t * t - 2) % (mersenne(p) as int)
    }
}

/// Whether exponent `p` passes the Lucas–Lehmer test: it is two, or term
/// `p - 2` of its sequence is zero.
pub open spec fn passes_lucas_lehmer(p: nat) -> bool {
    p == 2 || lucas_term(p, (p - 2) as nat) == 0
}

/// The perfect number that belongs to exponent `p`.
pub open spec fn perfect(p: nat) -> nat {
    pow2((p - 1) as nat) * mersenne(p)
}

/// Powers of two do not shrink as the exponent grows.
pub proof fn lemma_pow2_monotone(a: nat, b: nat)
    requires
        a <= b,
    ensures
        pow2(a) <= pow2(b),
{
    if a < b {
        lemma_pow2_strictly_increases(a, b);
    }
}

/// Splitting `x` at bit `p` and adding the two parts keeps the remainder by
/// the Mersenne number, and makes the number smaller once it has more than
/// `p` bits.
pub proof fn lemma_fold(x: nat, p: nat)
    requires
        p >= 1,
    ensures
        ((x / pow2(p) + x % pow2(p)) as nat) % mersenne(p) == x % mersenne(p),
        x >= pow2(p) ==> x / pow2(p) + x % pow2(p) < x,
        mersenne(p) >= 1,
{
    let big = pow2(p) as int;
    let m = mersenne(p) as int;
    lemma2_to64();
    lemma_pow2_strictly_increases(0, p);
    let q = x as int / big;
    let l = x as int % big;
    lemma_fundamental_div_mod(x as int, big);
    lemma_div_pos_is_pos(x as int, big);
    assert(x == m * q + (q + l)) by (nonlinear_arith)
        requires
            x == big * q + l,
            m == big - 1,
    ;
    lemma_mod_multiples_vanish(q, q + l, m);
    if x >= pow2(p) {
        lemma_div_non_zero(x as int, big);
        assert(m * q >= 1) by (nonlinear_arith)
            requires
                m >= 1,
                q >= 1,
        ;
    }
}

/// The Mersenne number with exponent `p`.
pub fn mersenne_number(p: u32) -> (m: BigUint)
    ensures
        magnitude(m) == mersenne(p as nat),
{
    proof {
        lemma_pow2_pos(p as nat);
    }
    big_sub(big_shl(big_one(), p), &big_one())
}

/// Reduces `s` by the Mersenne number `m` with exponent `p`, by folding the
/// bits above the `p`-th onto those below until at most `p` are left.
pub fn mod_mersenne(s: &BigUint, p: u32, m: &BigUint) -> (r: BigUint)
    requires
        p >= 1,
        magnitude(*m) == mersenne(p as nat),
    ensures
        magnitude(r) == magnitude(*s) % mersenne(p as nat),
{
    let mut r = big_clone(s);
    let mut bits: u64 = big_bits(&r);
    proof {
        lemma_fold(0, p as nat);
    }
    while bits > p as u64
        invariant
            p >= 1,
            mersenne(p as nat) >= 1,
            magnitude(*m) == mersenne(p as nat),
            magnitude(r) % mersenne(p as nat) == magnitude(*s) % mersenne(p as nat),
            magnitude(r) < pow2(bits as nat),
            bits > 0 ==> magnitude(r) >= pow2((bits - 1) as nat),
        decreases magnitude(r),
    {
        proof {
            lemma_pow2_monotone(p as nat, (bits - 1) as nat);
            lemma_fold(magnitude(r), p as nat);
            lemma_pow2_pos(p as nat);
            assert(magnitude(*m) + 1 == pow2(p as nat));
        }
        let lower = big_low_bits(&r, m);
        let higher = big_shr(&r, p);
        r = big_add(higher, lower);
        bits = big_bits(&r);
    }
    proof {
        lemma_pow2_monotone(bits as nat, p as nat);
    }
    if big_ge(&r, m) {
        proof {
            lemma_mod_self_0(mersenne(p as nat) as int);
        }
        r = big_sub(r, m);
    } else {
        proof {
            lemma_small_mod(magnitude(r), mersenne(p as nat));
        }
    }
    r
}

/// Runs the Lucas–Lehmer test for exponent `p`.
pub fn lucas_lehmer(p: u32) -> (passes: bool)
    requires
        p >= 2,
    ensures
        passes == passes_lucas_lehmer(p as nat),
{
    if p == 2 {
        return true;
    }
    proof {
        lemma2_to64();
        lemma_pow2_monotone(3, p as nat);
    }
    let m = mersenne_number(p);
    let mut s = big_from(4);
    let two = big_from(2);
    let mut k: u32 = 0;
    while k < p - 2
        invariant
            p >= 3,
            k <= p - 2,
            mersenne(p as nat) >= 7,
            magnitude(m) == mersenne(p as nat),
            magnitude(two) == 2,
            magnitude(s) == lucas_term(p as nat, k as nat),
        decreases p - 2 - k,
    {
        let ghost t = magnitude(s) as int;
        let mut square = big_mul(&s, &s);
        if !big_ge(&square, &two) {
            square = big_add(square, big_clone(&m));
            proof {
                lemma_mod_add_multiples_vanish(t * t - 2, mersenne(p as nat) as int);
            }
        }
        let reduced = big_sub(square, &two);
        s = mod_mersenne(&reduced, p, &m);
        k += 1;
    }
    big_is_zero(&s)
}

/// Whether `p` is the exponent of a Mersenne number that the Lucas–Lehmer
/// test accepts: `p` is prime and passes the test.
pub fn is_mersenne_exponent(p: u32) -> (accepted: bool)
    ensures
        accepted == (is_prime_number(p as nat) && passes_lucas_lehmer(p as nat)),
{
    if !is_prime(p) {
        false
    } else {
        lucas_lehmer(p)
    }
}

/// The perfect number that belongs to exponent `p`: two to the `p - 1`, times
/// the Mersenne number with exponent `p`.
pub fn perfect_number(p: u32) -> (n: BigUint)
    requires
        p >= 1,
    ensures
        magnitude(n) == perfect(p as nat),
{
    let m = mersenne_number(p);
    let half = big_shl(big_one(), p - 1);
    big_mul(&half, &m)
}

} // verus!
