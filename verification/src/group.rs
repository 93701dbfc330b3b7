//! Group parameters: a prime modulus and a generator for it.

use crate::error::Error;
use crate::natural::{
    nat_add, nat_div, nat_eq, nat_is_probable_prime, nat_le, nat_modpow, nat_mul, nat_random,
    nat_rem, nat_sub, Natural,
};
use crate::numtheory::{
    divides, is_prime, lemma_divides_exact, lemma_divides_le, lemma_divides_multiple,
    lemma_divides_trans, lemma_no_small_divisor_is_prime, lemma_prime_divides_product,
    lemma_prime_divisor, mod_pow, no_small_divisor,
};
use vstd::arithmetic::power2::*;
use vstd::prelude::*;

verus! {

/// The values of a list of numbers.
pub open spec fn values(v: Seq<Natural>) -> Seq<nat> {
    v.map_values(|x: Natural| x@)
}

/// The product of a list of numbers; one for the empty list.
pub open spec fn product(s: Seq<nat>) -> nat
    decreases s.len(),
{
    if s.len() == 0 {
        1
    } else {
        product(s.drop_last()) * s.last()
    }
}

/// How far `a` lies above `b`; zero where it does not.
spec fn excess(a: nat, b: nat) -> nat {
    if a >= b {
        (a - b) as nat
    } else {
        0
    }
}

/// Every member of `s` is prime.
pub open spec fn all_prime(s: Seq<nat>) -> bool {
    forall|k: int| 0 <= k < s.len() ==> is_prime(#[trigger] s[k])
}

/// No member of `s` is smaller than one before it.
pub open spec fn ascending(s: Seq<nat>) -> bool {
    forall|a: int, b: int| 0 <= a <= b < s.len() ==> s[a] <= s[b]
}

/// What [`is_primitive_root`] decides: for no prime `q` that divides `p - 1`
/// is `candidate^((p - 1) / q)` congruent to one modulo `p`.
pub open spec fn passes_root_test(candidate: nat, p: nat) -> bool {
    forall|q: nat|
        #![trigger is_prime(q)]
        is_prime(q) && divides(q, (p - 1) as nat) ==> mod_pow(
            candidate,
            ((p - 1) as nat) / q,
            p,
        ) != 1
}

/// Every member of a list divides the list's product.
pub proof fn lemma_member_divides_product(s: Seq<nat>, k: int)
    requires
        0 <= k < s.len(),
        s[k] != 0,
    ensures
        divides(s[k], product(s)),
    decreases s.len(),
{
    let init = s.drop_last();
    if k == s.len() - 1 {
        lemma_divides_multiple(s[k], product(init));
    } else {
        lemma_member_divides_product(init, k);
        if product(init) != 0 {
            lemma_divides_multiple(product(init), s.last());
            lemma_divides_trans(s[k], product(init), product(s));
        } else {
            assert(product(s) == 0) by (nonlinear_arith)
                requires
                    product(s) == product(init) * s.last(),
                    product(init) == 0,
            ;
        }
    }
}

/// A prime that divides the product of a list of primes is one of them.
pub proof fn lemma_prime_divisor_is_member(s: Seq<nat>, q: nat)
    requires
        all_prime(s),
        is_prime(q),
        divides(q, product(s)),
    ensures
        exists|k: int| 0 <= k < s.len() && s[k] == q,
    decreases s.len(),
{
    if s.len() == 0 {
        lemma_divides_le(q, 1);
    } else {
        let init = s.drop_last();
        lemma_prime_divides_product(q, product(init), s.last());
        if product(init) % q == 0 {
            assert(all_prime(init)) by {
                assert forall|k: int| 0 <= k < init.len() implies is_prime(#[trigger] init[k]) by {
                    assert(init[k] == s[k]);
                }
            }
            lemma_prime_divisor_is_member(init, q);
            let k = choose|k: int| 0 <= k < init.len() && init[k] == q;
            assert(s[k] == q);
        } else {
            assert(is_prime(s[s.len() - 1]));
            lemma_prime_divisor(q, s.last());
            assert(s[s.len() - 1] == q);
        }
    }
}

/// The prime factors of `n` by trial division: each as often as it divides
/// `n`, the smallest first. Zero has none.
pub fn prime_factors(n: &Natural) -> (r: Vec<Natural>)
    ensures
        all_prime(values(r@)),
        ascending(values(r@)),
        n@ >= 1 ==> product(values(r@)) == n@,
        n@ == 0 ==> r.len() == 0,
{
    let one = Natural::from_u64(1);
    let zero = Natural::from_u64(0);
    let mut factors = n.clone();
    let mut factorization: Vec<Natural> = Vec::new();
    let mut i = Natural::from_u64(2);
    assert(values(factorization@) =~= Seq::<nat>::empty());
    assert(n@ == n@ * product(values(factorization@))) by (nonlinear_arith)
        requires
            product(values(factorization@)) == 1,
    ;
    while nat_le(&nat_mul(&i, &i), &factors)
        invariant
            one@ == 1,
            zero@ == 0,
            i@ >= 2,
            n@ == 0 ==> factors@ == 0 && factorization.len() == 0,
            n@ >= 1 ==> factors@ >= 1 && n@ == factors@ * product(values(factorization@)),
            forall|j: nat| 2 <= j < i@ ==> !#[trigger] divides(j, factors@),
            all_prime(values(factorization@)),
            ascending(values(factorization@)),
            forall|k: int|
                0 <= k < factorization.len() ==> (#[trigger] values(factorization@)[k]) < i@,
        decreases excess(factors@, i@),
    {
        assert(factors@ >= 4 && factors@ >= i@ + 2) by (nonlinear_arith)
            requires
                i@ * i@ <= factors@,
                i@ >= 2,
        ;
        let ghost start = factors@;
        while nat_eq(&nat_rem(&factors, &i), &zero)
            invariant
                zero@ == 0,
                factors@ <= start,
                i@ >= 2,
                n@ >= 1,
                factors@ >= 1,
                n@ == factors@ * product(values(factorization@)),
                forall|j: nat| 2 <= j < i@ ==> !#[trigger] divides(j, factors@),
                all_prime(values(factorization@)),
                ascending(values(factorization@)),
                forall|k: int|
                    0 <= k < factorization.len() ==> (#[trigger] values(factorization@)[k]) <= i@,
            decreases factors@,
        {
            let quotient = nat_div(&factors, &i);
            let ghost old_values = values(factorization@);
            let ghost new_values = old_values.push(i@);
            proof {
                assert(divides(i@, factors@));
                lemma_divides_exact(i@, factors@);
                assert(quotient@ >= 1 && quotient@ < factors@) by (nonlinear_arith)
                    requires
                        factors@ == i@ * quotient@,
                        factors@ >= 1,
                        i@ >= 2,
                ;
                // the divisor is prime: a smaller divisor of it would divide `factors`
                assert(is_prime(i@)) by {
                    assert forall|k: nat| 2 <= k < i@ implies !#[trigger] divides(k, i@) by {
                        if divides(k, i@) {
                            lemma_divides_trans(k, i@, factors@);
                        }
                    }
                }
                // nothing below the divisor divides the quotient
                assert forall|j: nat| 2 <= j < i@ implies !#[trigger] divides(j, quotient@) by {
                    if divides(j, quotient@) {
                        lemma_divides_multiple(quotient@, i@);
                        lemma_divides_trans(j, quotient@, factors@);
                    }
                }
                assert(new_values.drop_last() =~= old_values);
                assert(n@ == quotient@ * product(new_values)) by (nonlinear_arith)
                    requires
                        n@ == factors@ * product(old_values),
                        factors@ == i@ * quotient@,
                        product(new_values) == product(old_values) * i@,
                ;
            }
            factors = quotient;
            factorization.push(i.clone());
            assert(values(factorization@) =~= new_values);
        }
        i = nat_add(&i, &one);
    }
    if !nat_le(&factors, &one) {
        let ghost old_values = values(factorization@);
        let ghost new_values = old_values.push(factors@);
        proof {
            let f = factors@;
            assert(f >= i@) by {
                if f < i@ {
                    lemma_divides_multiple(f, 1);
                    assert(divides(f, f));
                }
            }
            assert(is_prime(f)) by {
                assert forall|k: nat| 2 <= k < f implies !#[trigger] divides(k, f) by {
                    if divides(k, f) {
                        let c = f / k;
                        lemma_divides_exact(k, f);
                        lemma_divides_multiple(c, k);
                        assert(2 <= c < i@) by (nonlinear_arith)
                            requires
                                f == k * c,
                                2 <= k < f,
                                i@ * i@ > f,
                                k >= i@,
                        ;
                    }
                }
            }
            assert(new_values.drop_last() =~= old_values);
            assert(n@ >= 1);
            assert(n@ == product(new_values)) by (nonlinear_arith)
                requires
                    n@ == f * product(old_values),
                    product(new_values) == product(old_values) * f,
            ;
        }
        factorization.push(factors);
        assert(values(factorization@) =~= new_values);
    } else {
        assert(n@ >= 1 ==> product(values(factorization@)) == n@) by (nonlinear_arith)
            requires
                n@ >= 1 ==> factors@ == 1 && n@ == factors@ * product(values(factorization@)),
        ;
    }
    factorization
}

/// What holds of every number that [`generate_prime`] returns for `bits`: it
/// has exactly `bits` bits, is odd and at least five, and no prime up to 17863
/// divides it. Where it is below `17864^2` it is therefore prime.
pub open spec fn is_candidate_prime(p: nat, bits: nat) -> bool {
    &&& 5 <= p < pow2(bits)
    &&& bits >= 1 ==> pow2((bits - 1) as nat) <= p
    &&& p % 2 == 1
    &&& no_small_divisor(p)
    &&& p < 17864 * 17864 ==> is_prime(p)
}

/// The number `2^n`.
fn power_of_two(n: usize) -> (r: Natural)
    ensures
        r@ == pow2(n as nat),
{
    let two = Natural::from_u64(2);
    let mut power = Natural::from_u64(1);
    let mut i: usize = 0;
    proof {
        lemma2_to64();
    }
    while i < n
        invariant
            i <= n,
            two@ == 2,
            power@ == pow2(i as nat),
        decreases n - i,
    {
        proof {
            lemma_pow2_unfold((i + 1) as nat);
        }
        power = nat_mul(&power, &two);
        i = i + 1;
    }
    power
}

/// Draws numbers below `2^bits` until one of exactly `bits` bits passes the
/// primality tests, at most `max_attempts` times. Draws below `2^(bits - 1)`,
/// and below five, are passed over. With fewer than three bits, or with no
/// attempt, there is nothing to return.
pub fn generate_prime(bits: usize, max_attempts: usize) -> (r: Result<Natural, Error>)
    ensures
        match r {
            Ok(p) => is_candidate_prime(p@, bits as nat),
            Err(e) => e == Error::GenerationFailure,
        },
        max_attempts == 0 || bits < 3 ==> r is Err,
{
    if bits < 3 {
        return Err(Error::GenerationFailure);
    }
    let five = Natural::from_u64(5);
    let lower = power_of_two(bits - 1);
    let mut attempts: usize = 0;
    while attempts < max_attempts
        invariant
            bits >= 3,
            five@ == 5,
            lower@ == pow2((bits - 1) as nat),
        decreases max_attempts - attempts,
    {
        let candidate = nat_random(bits);
        if nat_le(&lower, &candidate) && nat_le(&five, &candidate) && nat_is_probable_prime(
            &candidate,
        ) {
            proof {
                if candidate@ < 17864 * 17864 {
                    lemma_no_small_divisor_is_prime(candidate@);
                }
            }
            return Ok(candidate);
        }
        attempts = attempts + 1;
    }
    Err(Error::GenerationFailure)
}

/// Whether `candidate` passes the root test for `p`: `p - 1` is factored by
/// trial division, and for none of its prime factors `q` may
/// `candidate^((p - 1) / q)` be congruent to one modulo `p`.
pub fn is_primitive_root(candidate: &Natural, p: &Natural) -> (r: bool)
    requires
        p@ >= 1,
    ensures
        r == passes_root_test(candidate@, p@),
{
    let one = Natural::from_u64(1);
    let d = nat_sub(p, &one);
    let factorization = prime_factors(&d);
    let ghost primes = values(factorization@);
    let mut k: usize = 0;
    while k < factorization.len()
        invariant
            k <= factorization.len(),
            one@ == 1,
            p@ >= 1,
            d@ == p@ - 1,
            primes == values(factorization@),
            all_prime(primes),
            d@ >= 1 ==> product(primes) == d@,
            d@ == 0 ==> factorization.len() == 0,
            forall|j: int| 0 <= j < k ==> mod_pow(candidate@, d@ / #[trigger] primes[j], p@) != 1,
        decreases factorization.len() - k,
    {
        let factor = &factorization[k];
        assert(factor@ == primes[k as int]);
        assert(is_prime(primes[k as int]));
        let exponent = nat_div(&d, factor);
        let power = nat_modpow(candidate, &exponent, p);
        if nat_eq(&power, &one) {
            proof {
                lemma_member_divides_product(primes, k as int);
            }
            return false;
        }
        k = k + 1;
    }
    proof {
        assert forall|q: nat| #[trigger] is_prime(q) && divides(q, d@) implies mod_pow(
            candidate@,
            d@ / q,
            p@,
        ) != 1 by {
            if d@ >= 1 {
                lemma_prime_divisor_is_member(primes, q);
                let j = choose|j: int| 0 <= j < primes.len() && primes[j] == q;
                assert(mod_pow(candidate@, d@ / primes[j], p@) != 1);
            }
        }
    }
    true
}

/// Draws candidates with [`generate_prime`] for `bits - 1` bits until one
/// passes [`is_primitive_root`], at most `max_attempts` times. It gives up at
/// once where no candidate can be drawn.
pub fn find_primitive_root(p: &Natural, bits: usize, max_attempts: usize) -> (r: Result<
    Natural,
    Error,
>)
    requires
        p@ >= 1,
        bits >= 1,
    ensures
        match r {
            Ok(g) => passes_root_test(g@, p@) && is_candidate_prime(g@, (bits - 1) as nat),
            Err(e) => e == Error::GenerationFailure,
        },
        max_attempts == 0 || bits < 4 ==> r is Err,
{
    let mut attempts: usize = 0;
    while attempts < max_attempts
        invariant
            p@ >= 1,
            bits >= 1,
        decreases max_attempts - attempts,
    {
        let candidate = match generate_prime(bits - 1, max_attempts) {
            Ok(c) => c,
            Err(e) => {
                return Err(e);
            },
        };
        if is_primitive_root(&candidate, p) {
            return Ok(candidate);
        }
        attempts = attempts + 1;
    }
    Err(Error::GenerationFailure)
}

} // verus!
