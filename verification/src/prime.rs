//! Primality by trial division over candidates of the form 6k ± 1.

use vstd::arithmetic::div_mod::*;
use vstd::prelude::*;

verus! {

/// `n` is prime: at least two, and divisible by nothing strictly between one
/// and itself.
pub open spec fn is_prime_number(n: nat) -> bool {
    n >= 2 && forall|d: nat| 2 <= d < n ==> #[trigger] (n % d) != 0
}

/// Divisibility is transitive: a divisor of a divisor of `n` divides `n`.
pub proof fn lemma_divides_transitive(k: int, d: int, n: int)
    requires
        k > 0,
        d > 0,
        n >= 0,
        d % k == 0,
        n % d == 0,
    ensures
        n % k == 0,
{
    lemma_fundamental_div_mod(n, d);
    lemma_fundamental_div_mod(d, k);
    let a = d / k;
    let b = n / d;
    assert(n == (a * b) * k) by (nonlinear_arith)
        requires
            n == d * b,
            d == k * a,
    ;
    lemma_mod_multiples_basic(a * b, k);
}

/// A proper divisor `d` of `n` that is no smaller than `bound`, where
/// `bound * bound > n`, has a cofactor that is a proper divisor below `bound`.
pub proof fn lemma_cofactor_is_small(d: int, n: int, bound: int)
    requires
        2 <= d < n,
        n % d == 0,
        0 < bound <= d,
        bound * bound > n,
    ensures
        2 <= n / d < bound,
        n % (n / d) == 0,
{
    lemma_fundamental_div_mod(n, d);
    let q = n / d;
    assert(q >= 2) by (nonlinear_arith)
        requires
            n == d * q,
            2 <= d < n,
    ;
    assert(q < bound) by (nonlinear_arith)
        requires
            n == d * q,
            0 < bound <= d,
            bound * bound > n,
            q >= 2,
    ;
    assert(n == d * q);
    assert(d * q == q * d) by (nonlinear_arith);
    lemma_mod_multiples_basic(d, q);
}

/// Decides whether `n` is prime.
pub fn is_prime(n: u32) -> (prime: bool)
    ensures
        prime == is_prime_number(n as nat),
{
    if n < 2 {
        return false;
    }
    if n <= 3 {
        assert(is_prime_number(n as nat)) by {
            assert forall|d: nat| 2 <= d < n implies #[trigger] (n as nat % d) != 0 by {
                assert(d == 2 && n == 3);
            }
        }
        return true;
    }
    if n % 2 == 0 || n % 3 == 0 {
        assert(!is_prime_number(n as nat)) by {
            if n % 2 == 0 {
                assert(n as nat % 2nat == 0);
            } else {
                assert(n as nat % 3nat == 0);
            }
        }
        return false;
    }
    proof {
        assert forall|d: nat| 2 <= d < 5 implies #[trigger] (n as nat % d) != 0 by {
            if d == 4 && n as nat % d == 0 {
                lemma_divides_transitive(2, 4, n as int);
            }
        }
    }
    let mut i: u32 = 5;
    while i <= n / i
        invariant
            n > 3,
            n % 2 != 0,
            n % 3 != 0,
            5 <= i,
            i % 6 == 5,
            i <= 65541,
            forall|d: nat| 2 <= d < i ==> #[trigger] (n as nat % d) != 0,
        decreases 65541 - i,
    {
        proof {
            lemma_fundamental_div_mod(n as int, i as int);
            assert(i * i <= n) by (nonlinear_arith)
                requires
                    n == i * (n / i) + n % i,
                    i <= n / i,
                    0 <= n % i,
                    i >= 5,
            ;
            assert(i < 65536) by (nonlinear_arith)
                requires
                    i * i <= n,
                    n <= 0xffff_ffff,
                    i >= 5,
            ;
            assert(i + 2 < n) by (nonlinear_arith)
                requires
                    i * i <= n,
                    i >= 5,
            ;
        }
        if n % i == 0 || n % (i + 2) == 0 {
            assert(!is_prime_number(n as nat)) by {
                if n % i == 0 {
                    assert(n as nat % (i as nat) == 0);
                } else {
                    assert(n as nat % ((i + 2) as nat) == 0);
                }
            }
            return false;
        }
        proof {
            assert forall|d: nat| 2 <= d < i + 6 implies #[trigger] (n as nat % d) != 0 by {
                if d >= i && n as nat % d == 0 {
                    if d == i + 4 {
                        lemma_divides_transitive(3, d as int, n as int);
                    } else if d != i && d != i + 2 {
                        lemma_divides_transitive(2, d as int, n as int);
                    }
                }
            }
        }
        i += 6;
    }
    proof {
        lemma_fundamental_div_mod(n as int, i as int);
        assert(i * i > n) by (nonlinear_arith)
            requires
                n == i * (n / i) + n % i,
                i > n / i,
                0 <= n % i < i,
                i >= 5,
                n / i >= 0,
        ;
        assert forall|d: nat| 2 <= d < n implies #[trigger] (n as nat % d) != 0 by {
            if d >= i && n as nat % d == 0 {
                lemma_cofactor_is_small(d as int, n as int, i as int);
                let q = (n as int / d as int) as nat;
                assert(n as nat % q == 0);
            }
        }
    }
    true
}

} // verus!
