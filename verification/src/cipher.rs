//! Encryption and decryption.

use crate::error::Error;
use crate::natural::{nat_mod_inverse, nat_modpow, nat_mul, nat_rem, Natural};
use crate::numtheory::{
    has_inverse, is_inverse, is_prime, lemma_mod_inverse_is, lemma_mod_pow_bound,
    lemma_pow_mod_prime_nonzero, lemma_prime_has_inverse, mod_inverse, mod_pow,
};
use vstd::arithmetic::div_mod::*;
use vstd::arithmetic::mul::*;
use vstd::arithmetic::power::*;
use vstd::prelude::*;

verus! {

/// The ciphertext of `message` under the public key `b`, with the ephemeral
/// exponent `k`: the commitment `g^k` and the message masked by `b^k`, both
/// modulo `p`.
pub open spec fn encrypt_spec(message: nat, k: nat, b: nat, g: nat, p: nat) -> (nat, nat) {
    (mod_pow(g, k, p), (mod_pow(b, k, p) * message) % p)
}

/// The message in the ciphertext `(x, y)` for the private key `a`: `y` times
/// the inverse of the shared secret `x^a`, modulo `p`. There is none where the
/// shared secret has no inverse.
pub open spec fn decrypt_spec(x: nat, y: nat, a: nat, p: nat) -> Option<nat> {
    let secret = mod_pow(x, a, p);
    if has_inverse(secret, p) {
        Some((y * mod_inverse(secret, p)) % p)
    } else {
        None
    }
}

/// Encrypts `message` for the holder of the public key `b`.
pub fn encrypt(message: &Natural, k: &Natural, b: &Natural, g: &Natural, p: &Natural) -> (c: (
    Natural,
    Natural,
))
    requires
        p@ >= 1,
    ensures
        (c.0@, c.1@) == encrypt_spec(message@, k@, b@, g@, p@),
        c.0@ < p@,
        c.1@ < p@,
{
    proof {
        lemma_mod_pow_bound(g@, k@, p@);
    }
    let x = nat_modpow(g, k, p);
    let mask = nat_modpow(b, k, p);
    let y = nat_rem(&nat_mul(&mask, message), p);
    (x, y)
}

/// Decrypts `ciphertext` with the private key `a`. It fails where the shared
/// secret has no inverse modulo `p`, and only there.
pub fn decrypt(ciphertext: &(Natural, Natural), a: &Natural, p: &Natural) -> (r: Result<
    Natural,
    Error,
>)
    requires
        p@ >= 1,
    ensures
        match r {
            Ok(m) => decrypt_spec(ciphertext.0@, ciphertext.1@, a@, p@) == Some(m@) && m@ < p@,
            Err(e) => e == Error::InversionFailure && decrypt_spec(
                ciphertext.0@,
                ciphertext.1@,
                a@,
                p@,
            ) is None,
        },
{
    let secret = nat_modpow(&ciphertext.0, a, p);
    match nat_mod_inverse(&secret, p) {
        Some(inverse) => {
            proof {
                lemma_mod_inverse_is(secret@, p@, inverse@);
            }
            Ok(nat_rem(&nat_mul(&ciphertext.1, &inverse), p))
        },
        None => Err(Error::InversionFailure),
    }
}

/// Decryption undoes encryption: where `p` is prime and does not divide `g`,
/// and `public_key` is `g^private_key` modulo `p`, every message below `p`
/// comes back from its ciphertext, whatever the ephemeral exponent `k` was.
pub proof fn lemma_decrypt_encrypt(
    message: nat,
    k: nat,
    public_key: nat,
    private_key: nat,
    g: nat,
    p: nat,
)
    requires
        is_prime(p),
        g % p != 0,
        public_key == mod_pow(g, private_key, p),
        message < p,
    ensures
        ({
            let c = encrypt_spec(message, k, public_key, g, p);
            decrypt_spec(c.0, c.1, private_key, p) == Some(message)
        }),
{
    let (gi, pi, mi) = (g as int, p as int, message as int);
    let c = encrypt_spec(message, k, public_key, g, p);
    let secret = mod_pow(c.0, private_key, p);
    let mask = mod_pow(public_key, k, p);
    lemma_mod_pow_bound(g, k, p);
    lemma_mod_pow_bound(g, private_key, p);
    lemma_mod_pow_bound(g, k * private_key, p);
    lemma_mod_pow_bound(c.0, private_key, p);
    lemma_mod_pow_bound(public_key, k, p);
    // both the shared secret and the mask are g^(k * private_key)
    assert(secret == mod_pow(g, k * private_key, p)) by {
        lemma_pow_mod_noop(gi, private_key, pi);
        lemma_pow_mod_noop(pow(gi, k), private_key, pi);
        lemma_pow_multiplies(gi, k, private_key);
    }
    assert(mask == mod_pow(g, k * private_key, p)) by {
        lemma_pow_mod_noop(pow(gi, private_key), k, pi);
        lemma_pow_multiplies(gi, private_key, k);
        lemma_mul_is_commutative(k as int, private_key as int);
    }
    // the shared secret is invertible
    lemma_pow_mod_prime_nonzero(g, k * private_key, p);
    lemma_small_mod(secret, p);
    lemma_prime_has_inverse(secret, p);
    let inverse = mod_inverse(secret, p);
    assert(is_inverse(secret, inverse, p));
    lemma_small_mod(1, p);
    // (((secret * message) % p) * inverse) % p == message
    let (si, vi) = (secret as int, inverse as int);
    lemma_mul_mod_noop_left(si * mi, vi, pi);
    assert((si * mi) * vi == mi * (si * vi)) by (nonlinear_arith);
    lemma_mul_mod_noop_right(mi, si * vi, pi);
    assert(mi * ((si * vi) % pi) == mi) by (nonlinear_arith)
        requires
            (si * vi) % pi == 1,
    ;
    lemma_small_mod(message, p);
}

} // verus!
