//! Prime numbers, found by trial division by the primes found before.

use vstd::arithmetic::div_mod::{
    lemma_fundamental_div_mod, lemma_mod_multiples_basic, lemma_mod_self_0,
};
use vstd::arithmetic::mul::{lemma_mul_is_associative, lemma_mul_is_commutative};
use vstd::prelude::*;

verus! {

/// Whether the positive number `d` divides `n`.
pub open spec fn divides(d: int, n: int) -> bool {
    d > 0 && n % d == 0
}

/// Whether `n` is prime: at least 2, and divided by no number from 2 up to itself.
pub open spec fn is_prime(n: int) -> bool {
    n >= 2 && forall|d: int| 2 <= d < n ==> !#[trigger] divides(d, n)
}

/// The number of primes below `n`.
pub open spec fn primes_below(n: int) -> int
    decreases n,
{
    if n <= 0 {
        0
    } else {
        primes_below(n - 1) + if is_prime(n - 1) {
            1int
        } else {
            0int
        }
    }
}

/// What divides a divisor of a number divides the number.
pub proof fn lemma_divides_transitive(p: int, d: int, n: int)
    requires
        divides(p, d),
        divides(d, n),
    ensures
        divides(p, n),
{
    lemma_fundamental_div_mod(d, p);
    lemma_fundamental_div_mod(n, d);
    let a = d / p;
    let b = n / d;
    assert(d == p * a);
    assert(n == d * b);
    assert(n == (a * b) * p) by {
        lemma_mul_is_associative(p, a, b);
        lemma_mul_is_commutative(p, a * b);
    }
    lemma_mod_multiples_basic(a * b, p);
}

/// Every number from 2 on has a prime divisor.
pub proof fn lemma_prime_divisor(n: int) -> (p: int)
    requires
        n >= 2,
    ensures
        is_prime(p),
        p <= n,
        divides(p, n),
    decreases n,
{
    if is_prime(n) {
        lemma_mod_self_0(n);
        n
    } else {
        let d = choose|d: int| 2 <= d < n && #[trigger] divides(d, n);
        let p = lemma_prime_divisor(d);
        lemma_divides_transitive(p, d, n);
        p
    }
}

/// The `n`-th prime, counted from 1, or `None` where fewer than `n` primes fit in
/// `usize`.
pub fn nth_prime(n: usize) -> (prime: Option<usize>)
    requires
        n >= 1,
    ensures
        match prime {
            Some(p) => is_prime(p as int) && primes_below(p as int) == n - 1,
            None => primes_below(usize::MAX + 1) < n,
        },
{
    let mut primes: Vec<usize> = Vec::new();
    let mut num: usize = 2;
    assert(primes_below(2) == 0) by {
        reveal_with_fuel(primes_below, 3);
    }
    loop
        invariant
            2 <= num,
            n >= 1,
            primes@.len() < n,
            primes@.len() == primes_below(num as int),
            forall|k: int|
                0 <= k < primes@.len() ==> is_prime(#[trigger] primes@[k] as int) && primes@[k]
                    < num,
            forall|p: int|
                2 <= p < num && is_prime(p) ==> exists|k: int|
                    0 <= k < primes@.len() && #[trigger] primes@[k] == p,
        decreases usize::MAX - num,
    {
        let mut undivided = true;
        let mut j: usize = 0;
        while j < primes.len() && undivided
            invariant
                j <= primes.len(),
                2 <= num,
                forall|k: int|
                    0 <= k < primes@.len() ==> is_prime(#[trigger] primes@[k] as int) && primes@[k]
                        < num,
                undivided ==> forall|k: int|
                    0 <= k < j ==> !divides(#[trigger] primes@[k] as int, num as int),
                !undivided ==> exists|k: int|
                    0 <= k < primes@.len() && divides(#[trigger] primes@[k] as int, num as int),
            decreases primes.len() - j,
        {
            assert(is_prime(primes@[j as int] as int));
            if num % primes[j] == 0 {
                undivided = false;
                assert(divides(primes@[j as int] as int, num as int));
            }
            j += 1;
        }
        proof {
            if undivided {
                if !is_prime(num as int) {
                    let d = choose|d: int| 2 <= d < num && #[trigger] divides(d, num as int);
                    let p = lemma_prime_divisor(d);
                    lemma_divides_transitive(p, d, num as int);
                    let k = choose|k: int| 0 <= k < primes@.len() && #[trigger] primes@[k] == p;
                    assert(!divides(primes@[k] as int, num as int));
                }
            } else {
                let k = choose|k: int|
                    0 <= k < primes@.len() && divides(#[trigger] primes@[k] as int, num as int);
                assert(is_prime(primes@[k] as int));
                assert(divides(primes@[k] as int, num as int));
            }
            assert(undivided == is_prime(num as int));
        }
        let ghost found = primes@;
        if undivided {
            primes.push(num);
            if primes.len() == n {
                return Some(num);
            }
        }
        assert forall|p: int| 2 <= p < num + 1 && is_prime(p) implies exists|k: int|
            0 <= k < primes@.len() && #[trigger] primes@[k] == p by {
            if p < num {
                let k = choose|k: int| 0 <= k < found.len() && #[trigger] found[k] == p;
                assert(primes@[k] == p);
            } else {
                assert(primes@[found.len() as int] == p);
            }
        }
        if num == usize::MAX {
            return None;
        }
        num += 1;
    }
}

} // verus!
