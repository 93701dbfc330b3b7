//! Key generation.

use crate::error::Error;
use crate::group::{find_primitive_root, generate_prime, is_candidate_prime, passes_root_test};
use crate::natural::{nat_modpow, nat_random, Natural};
use crate::numtheory::{is_prime, lemma_mod_pow_bound, lemma_pow_mod_prime_nonzero, mod_pow};
use vstd::arithmetic::div_mod::*;
use vstd::arithmetic::power2::*;
use vstd::prelude::*;

verus! {

/// The public key that belongs to `private_key`: `g^private_key mod p`.
pub fn public_key(g: &Natural, private_key: &Natural, p: &Natural) -> (b: Natural)
    requires
        p@ >= 1,
    ensures
        b@ == mod_pow(g@, private_key@, p@),
        b@ < p@,
{
    proof {
        lemma_mod_pow_bound(g@, private_key@, p@);
    }
    nat_modpow(g, private_key, p)
}

/// Draws group parameters and a key pair for a modulus of `bits` bits:
/// `(p, g, public_key, private_key)`, with `g` and the private key below `p`.
/// Neither the search for `p` nor the one for `g` tries more than
/// `max_attempts` times.
pub fn generate_keys(bits: usize, max_attempts: usize) -> (r: Result<
    (Natural, Natural, Natural, Natural),
    Error,
>)
    requires
        bits >= 1,
    ensures
        match r {
            Ok(keys) => {
                &&& is_candidate_prime(keys.0@, bits as nat)
                &&& is_candidate_prime(keys.1@, (bits - 1) as nat)
                &&& passes_root_test(keys.1@, keys.0@)
                &&& keys.1@ < keys.0@
                &&& keys.2@ == mod_pow(keys.1@, keys.3@, keys.0@)
                &&& keys.2@ < keys.0@
                &&& is_prime(keys.0@) ==> keys.2@ >= 1
                &&& keys.3@ < pow2((bits - 1) as nat)
                &&& keys.3@ < keys.0@
            },
            Err(e) => e == Error::GenerationFailure,
        },
        max_attempts == 0 || bits < 4 ==> r is Err,
{
    let p = match generate_prime(bits, max_attempts) {
        Ok(p) => p,
        Err(e) => {
            return Err(e);
        },
    };
    let g = match find_primitive_root(&p, bits, max_attempts) {
        Ok(g) => g,
        Err(e) => {
            return Err(e);
        },
    };
    let private_key = nat_random(bits - 1);
    let public = public_key(&g, &private_key, &p);
    proof {
        // the generator lies below the modulus, so a prime modulus does not divide it
        if is_prime(p@) {
            lemma_small_mod(g@, p@);
            lemma_pow_mod_prime_nonzero(g@, private_key@, p@);
        }
    }
    Ok((p, g, public, private_key))
}

} // verus!
