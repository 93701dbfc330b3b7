//! The arithmetic that the contracts of this library are written in:
//! divisibility, primes, modular powers and modular inverses, with the facts
//! about them that the proofs elsewhere rest on.

use vstd::arithmetic::div_mod::*;
use vstd::arithmetic::mul::*;
use vstd::arithmetic::power::*;
use vstd::prelude::*;

verus! {

/// `d` is a divisor of `n`.
pub open spec fn divides(d: nat, n: nat) -> bool {
    d != 0 && n % d == 0
}

/// `p` has no divisor strictly between one and itself.
pub open spec fn is_prime(p: nat) -> bool {
    p >= 2 && forall|k: nat| 2 <= k < p ==> !#[trigger] divides(k, p)
}

/// No number from two to 17863 that is smaller than `n` divides `n`.
pub open spec fn no_small_divisor(n: nat) -> bool {
    forall|k: nat| 2 <= k <= 17863 && k < n ==> !#[trigger] divides(k, n)
}

/// `base` to the power `exp`, reduced modulo `m`.
pub open spec fn mod_pow(base: nat, exp: nat, m: nat) -> nat {
    (pow(base as int, exp) % (m as int)) as nat
}

/// `x` is the inverse of `a` modulo `m`, taken in `[0, m)`.
pub open spec fn is_inverse(a: nat, x: nat, m: nat) -> bool {
    x < m && (a * x) % m == 1nat % m
}

/// `a` is invertible modulo `m`.
pub open spec fn has_inverse(a: nat, m: nat) -> bool {
    exists|x: nat| is_inverse(a, x, m)
}

/// The inverse of `a` modulo `m` in `[0, m)`, where there is one.
pub open spec fn mod_inverse(a: nat, m: nat) -> nat {
    choose|x: nat| is_inverse(a, x, m)
}

/// A number is its divisor times the quotient.
pub proof fn lemma_divides_exact(d: nat, n: nat)
    requires
        divides(d, n),
    ensures
        n == d * (n / d),
{
    lemma_fundamental_div_mod(n as int, d as int);
}

/// Every multiple of `d` is divisible by `d`.
pub proof fn lemma_divides_multiple(d: nat, k: nat)
    requires
        d != 0,
    ensures
        divides(d, d * k),
        divides(d, k * d),
{
    lemma_mod_multiples_basic(k as int, d as int);
    lemma_mul_is_commutative(k as int, d as int);
}

/// A divisor of a divisor of `c` divides `c`.
pub proof fn lemma_divides_trans(a: nat, b: nat, c: nat)
    requires
        divides(a, b),
        divides(b, c),
    ensures
        divides(a, c),
{
    lemma_divides_exact(a, b);
    lemma_divides_exact(b, c);
    let (k, l) = (b / a, c / b);
    assert(c == a * (k * l)) by (nonlinear_arith)
        requires
            c == b * l,
            b == a * k,
    ;
    lemma_divides_multiple(a, k * l);
}

/// A divisor of a positive number is no larger than it.
pub proof fn lemma_divides_le(d: nat, n: nat)
    requires
        divides(d, n),
        n > 0,
    ensures
        d <= n,
{
    lemma_mod_is_zero(n, d);
}

/// The only divisor of a prime that is greater than one is the prime.
pub proof fn lemma_prime_divisor(d: nat, p: nat)
    requires
        is_prime(p),
        divides(d, p),
        d >= 2,
    ensures
        d == p,
{
    lemma_divides_le(d, p);
}

/// A number below `17864^2` without a small divisor is prime: of two
/// factors of it, one is at most 17863.
pub proof fn lemma_no_small_divisor_is_prime(n: nat)
    requires
        n >= 2,
        no_small_divisor(n),
        n < 17864 * 17864,
    ensures
        is_prime(n),
{
    assert forall|k: nat| 2 <= k < n implies !#[trigger] divides(k, n) by {
        if divides(k, n) && k > 17863 {
            let c = n / k;
            lemma_divides_exact(k, n);
            lemma_divides_multiple(c, k);
            assert(2 <= c <= 17863) by (nonlinear_arith)
                requires
                    n == k * c,
                    17863 < k < n,
                    n < 17864 * 17864,
            ;
            assert(divides(c, n));
        }
    }
}

/// A power of a natural number is a natural number.
pub proof fn lemma_pow_nat(base: nat, exp: nat)
    ensures
        pow(base as int, exp) >= 0,
    decreases exp,
{
    reveal(pow);
    if exp > 0 {
        lemma_pow_nat(base, (exp - 1) as nat);
        lemma_mul_nonnegative(base as int, pow(base as int, (exp - 1) as nat));
    }
}

/// A modular power lies below its modulus.
pub proof fn lemma_mod_pow_bound(base: nat, exp: nat, m: nat)
    requires
        m > 0,
    ensures
        mod_pow(base, exp, m) < m,
        mod_pow(base, exp, m) == pow(base as int, exp) % (m as int),
{
    lemma_mod_bound(pow(base as int, exp), m as int);
}

/// Two numbers that differ by a multiple of `m` leave the same remainder.
pub proof fn lemma_mod_shift(a: int, b: int, k: int, m: int)
    requires
        m > 0,
        a == b + k * m,
    ensures
        a % m == b % m,
{
    lemma_mul_is_commutative(k, m);
    lemma_mod_multiples_vanish(k, b, m);
}

/// Modulo `m` a number has at most one inverse in `[0, m)`.
pub proof fn lemma_inverse_unique(a: nat, m: nat, x1: nat, x2: nat)
    requires
        is_inverse(a, x1, m),
        is_inverse(a, x2, m),
    ensures
        x1 == x2,
{
    let mi = m as int;
    let (ai, x1i, x2i) = (a as int, x1 as int, x2 as int);
    if m > 1 {
        lemma_small_mod(1, m);
        // x1 == (x1 * (a * x2)) % m
        lemma_mul_mod_noop_right(x1i, ai * x2i, mi);
        lemma_small_mod(x1, m);
        assert((x1i * (ai * x2i)) % mi == x1i) by {
            assert(x1i * ((ai * x2i) % mi) == x1i) by (nonlinear_arith)
                requires
                    (ai * x2i) % mi == 1,
            ;
        }
        // x2 == ((a * x1) * x2) % m
        lemma_mul_mod_noop_left(ai * x1i, x2i, mi);
        lemma_small_mod(x2, m);
        assert(((ai * x1i) * x2i) % mi == x2i) by {
            assert(((ai * x1i) % mi) * x2i == x2i) by (nonlinear_arith)
                requires
                    (ai * x1i) % mi == 1,
            ;
        }
        assert(x1i * (ai * x2i) == (ai * x1i) * x2i) by (nonlinear_arith);
    }
}

/// The inverse that [`mod_inverse`] names is the one in `[0, m)`.
pub proof fn lemma_mod_inverse_is(a: nat, m: nat, x: nat)
    requires
        is_inverse(a, x, m),
    ensures
        has_inverse(a, m),
        mod_inverse(a, m) == x,
{
    lemma_inverse_unique(a, m, mod_inverse(a, m), x);
}

proof fn lemma_small_inverse(r: nat, p: nat)
    requires
        is_prime(p),
        0 < r < p,
    ensures
        has_inverse(r, p),
    decreases r,
{
    let pi = p as int;
    let ri = r as int;
    lemma_small_mod(1, p);
    if r == 1 {
        assert(is_inverse(1, 1, p));
    } else {
        let q = pi / ri;
        let s = pi % ri;
        lemma_fundamental_div_mod(pi, ri);
        assert(s != 0) by {
            if s == 0 {
                assert(divides(r, p));
            }
        }
        lemma_mod_bound(pi, ri);
        lemma_small_inverse(s as nat, p);
        let y = mod_inverse(s as nat, p) as int;
        assert(is_inverse(s as nat, y as nat, p));
        let t = (q * y) % pi;
        let x = (pi - t) % pi;
        lemma_mod_bound(q * y, pi);
        lemma_mod_bound(pi - t, pi);
        // r * x is congruent to -(r * t)
        lemma_mul_mod_noop_right(ri, pi - t, pi);
        assert(ri * (pi - t) == -(ri * t) + ri * pi) by (nonlinear_arith);
        lemma_mod_shift(ri * (pi - t), -(ri * t), ri, pi);
        // -(r * t) is congruent to -(r * (q * y))
        lemma_mul_mod_noop_right(ri, q * y, pi);
        lemma_sub_mod_noop_right(0, ri * t, pi);
        lemma_sub_mod_noop_right(0, ri * (q * y), pi);
        // -(r * (q * y)) is congruent to s * y
        assert(-(ri * (q * y)) == s * y + (-y) * pi) by (nonlinear_arith)
            requires
                pi == ri * q + s,
        ;
        lemma_mod_shift(-(ri * (q * y)), s * y, -y, pi);
        assert((ri * x) % pi == 1);
        assert(is_inverse(r, x as nat, p));
    }
}

/// Modulo a prime every number that the prime does not divide is invertible.
pub proof fn lemma_prime_has_inverse(a: nat, p: nat)
    requires
        is_prime(p),
        a % p != 0,
    ensures
        has_inverse(a, p),
{
    let r = a % p;
    lemma_mod_bound(a as int, p as int);
    lemma_small_inverse(r, p);
    let x = mod_inverse(r, p);
    assert(is_inverse(r, x, p));
    lemma_mul_mod_noop_left(a as int, x as int, p as int);
    assert(is_inverse(a, x, p));
}

/// A prime that divides a product divides one of its factors.
pub proof fn lemma_prime_divides_product(p: nat, a: nat, b: nat)
    requires
        is_prime(p),
        (a * b) % p == 0,
    ensures
        a % p == 0 || b % p == 0,
{
    if a % p != 0 {
        let (pi, ai, bi) = (p as int, a as int, b as int);
        lemma_prime_has_inverse(a, p);
        let x = mod_inverse(a, p) as int;
        assert(is_inverse(a, x as nat, p));
        lemma_small_mod(1, p);
        // b == ((a * x) * b) % p == (x * (a * b)) % p == 0
        lemma_mul_mod_noop_left(ai * x, bi, pi);
        assert(((ai * x) % pi) * bi == bi) by (nonlinear_arith)
            requires
                (ai * x) % pi == 1,
        ;
        lemma_mul_mod_noop_right(x, ai * bi, pi);
        assert(x * ((ai * bi) % pi) == 0) by (nonlinear_arith)
            requires
                (ai * bi) % pi == 0,
        ;
        assert((ai * x) * bi == x * (ai * bi)) by (nonlinear_arith);
        assert(bi % pi == 0);
    }
}

/// No power of a number that a prime does not divide is divisible by it.
pub proof fn lemma_pow_mod_prime_nonzero(base: nat, exp: nat, p: nat)
    requires
        is_prime(p),
        base % p != 0,
    ensures
        mod_pow(base, exp, p) != 0,
    decreases exp,
{
    reveal(pow);
    lemma_pow_nat(base, exp);
    if exp == 0 {
        lemma_small_mod(1, p);
    } else {
        let rest = pow(base as int, (exp - 1) as nat);
        lemma_pow_nat(base, (exp - 1) as nat);
        lemma_pow_mod_prime_nonzero(base, (exp - 1) as nat, p);
        if mod_pow(base, exp, p) == 0 {
            assert(base * (rest as nat) == pow(base as int, exp));
            lemma_prime_divides_product(p, base, rest as nat);
        }
    }
}

} // verus!
