//! Signing and verification.
//!
//! A message enters both through its SHA-256 digest, read as a number. The
//! digest is computed by `crypto_hash`; this library names its result and
//! proves nothing of it.

use crate::error::Error;
use crate::natural::{
    hex_value, is_hex_string, nat_add, nat_eq, nat_from_hex, nat_le, nat_mod_inverse, nat_modpow,
    nat_mul, nat_random, nat_rem, nat_sub, Natural,
};
use crate::numtheory::{
    has_inverse, lemma_mod_inverse_is, lemma_mod_pow_bound, lemma_mod_shift, mod_inverse, mod_pow,
};
use vstd::arithmetic::div_mod::*;
use vstd::arithmetic::power2::*;
use vstd::prelude::*;
use vstd::string::*;

verus! {

/// The SHA-256 digest of `data` in hexadecimal, as `crypto_hash::hex_digest`
/// returns it.
pub uninterp spec fn sha256_hex(data: Seq<u8>) -> Seq<char>;

/// The number that stands for `data` in a signature: its SHA-256 digest, read
/// in base sixteen.
pub open spec fn hash_value(data: Seq<u8>) -> nat {
    hex_value(sha256_hex(data))
}

/// The signature of the hash `h` with the ephemeral exponent `k`: the
/// commitment `r = g^k mod p` and `s = (h - private_key * r) * k' mod (p - 1)`,
/// where `k'` inverts `k` modulo `p` and the difference is taken modulo
/// `p - 1`. There is none where `k` has no such inverse.
pub open spec fn sign_spec(h: nat, k: nat, p: nat, g: nat, private_key: nat) -> Result<
    (nat, nat),
    Error,
> {
    let r = mod_pow(g, k, p);
    if !has_inverse(k, p) {
        Err(Error::InversionFailure)
    } else {
        Ok(
            (
                r,
                ((((h as int - (private_key * r) as int) % (p - 1)) * mod_inverse(k, p)) % (p
                    - 1)) as nat,
            ),
        )
    }
}

/// Whether `(r, s)` is accepted as a signature of the hash `h`. Out of range
/// (`r >= p` or `s >= p - 1`) it is rejected at once. Otherwise, with `y` and
/// `w` the inverses of the public key and of `s` modulo `p`, it is accepted
/// where `g^(h * w mod p) * y^(r * w mod p)` is `r` modulo `p`; where one of
/// the two inverses is missing there is no answer.
pub open spec fn verify_spec(h: nat, r: nat, s: nat, p: nat, g: nat, public_key: nat) -> Result<
    bool,
    Error,
> {
    if r >= p || s >= p - 1 {
        Ok(false)
    } else if !has_inverse(public_key, p) || !has_inverse(s, p) {
        Err(Error::InversionFailure)
    } else {
        let y = mod_inverse(public_key, p);
        let w = mod_inverse(s, p);
        let u1 = (h * w) % p;
        let u2 = (r * w) % p;
        Ok((mod_pow(g, u1, p) * mod_pow(y, u2, p)) % p == r)
    }
}

/// `crypto_hash::hex_digest` with SHA-256: the digest of `data`, written as
/// hexadecimal digits.
#[verifier::external_body]
fn sha256_hex_digest(data: &[u8]) -> (r: String)
    ensures
        r@ == sha256_hex(data@),
        is_hex_string(r@),
{
    crypto_hash::hex_digest(crypto_hash::Algorithm::SHA256, data)
}

/// The number that stands for `message` in a signature.
pub fn message_hash(message: &str) -> (h: Natural)
    ensures
        h@ == hash_value(message.spec_bytes()),
{
    let digest = sha256_hex_digest(message.as_bytes());
    nat_from_hex(digest.as_str()).unwrap()
}

/// Signs the hash `h` with the ephemeral exponent `k`.
pub fn sign_with_nonce(
    h: &Natural,
    k: &Natural,
    p: &Natural,
    g: &Natural,
    private_key: &Natural,
) -> (r: Result<(Natural, Natural), Error>)
    requires
        p@ >= 2,
    ensures
        match r {
            Ok(signature) => sign_spec(h@, k@, p@, g@, private_key@) == Ok::<(nat, nat), Error>(
                (signature.0@, signature.1@),
            ) && signature.0@ < p@ && signature.1@ < p@ - 1,
            Err(e) => sign_spec(h@, k@, p@, g@, private_key@) == Err::<(nat, nat), Error>(e),
        },
{
    proof {
        lemma_mod_pow_bound(g@, k@, p@);
    }
    let one = Natural::from_u64(1);
    let p_minus_one = nat_sub(p, &one);
    let r = nat_modpow(g, k, p);
    let k_inverse = match nat_mod_inverse(k, p) {
        Some(x) => x,
        None => {
            return Err(Error::InversionFailure);
        },
    };
    proof {
        lemma_mod_inverse_is(k@, p@, k_inverse@);
    }
    let reduced_hash = nat_rem(h, &p_minus_one);
    let reduced_product = nat_rem(&nat_mul(private_key, &r), &p_minus_one);
    let difference = if nat_le(&reduced_product, &reduced_hash) {
        nat_sub(&reduced_hash, &reduced_product)
    } else {
        nat_sub(&nat_add(&reduced_hash, &p_minus_one), &reduced_product)
    };
    proof {
        let m = p@ - 1;
        let (a, b) = (reduced_hash@ as int, reduced_product@ as int);
        lemma_sub_mod_noop(h@ as int, (private_key@ * r@) as int, m);
        if b <= a {
            lemma_small_mod((a - b) as nat, m as nat);
        } else {
            lemma_mod_shift(a - b + m, a - b, 1, m);
            lemma_small_mod((a - b + m) as nat, m as nat);
        }
        assert(difference@ == (h@ as int - (private_key@ * r@) as int) % m);
        lemma_mod_bound((difference@ * k_inverse@) as int, m);
    }
    let s = nat_rem(&nat_mul(&difference, &k_inverse), &p_minus_one);
    Ok((r, s))
}

/// Signs `message` with an ephemeral exponent drawn below `2^(bits - 1)`.
pub fn sign(message: &str, p: &Natural, g: &Natural, private_key: &Natural, bits: usize) -> (r:
    Result<(Natural, Natural), Error>)
    requires
        p@ >= 2,
        bits >= 1,
    ensures
        exists|k: nat|
            k < pow2((bits - 1) as nat) && match r {
                Ok(signature) => #[trigger] sign_spec(
                    hash_value(message.spec_bytes()),
                    k,
                    p@,
                    g@,
                    private_key@,
                ) == Ok::<(nat, nat), Error>((signature.0@, signature.1@)),
                Err(e) => sign_spec(hash_value(message.spec_bytes()), k, p@, g@, private_key@)
                    == Err::<(nat, nat), Error>(e),
            },
        r matches Ok(signature) ==> signature.0@ < p@ && signature.1@ < p@ - 1,
{
    let k = nat_random(bits - 1);
    let h = message_hash(message);
    let r = sign_with_nonce(&h, &k, p, g, private_key);
    proof {
        let spec = sign_spec(h@, k@, p@, g@, private_key@);
        assert(k@ < pow2((bits - 1) as nat) && match r {
            Ok(signature) => spec == Ok::<(nat, nat), Error>((signature.0@, signature.1@)),
            Err(e) => spec == Err::<(nat, nat), Error>(e),
        });
    }
    r
}

/// Whether `signature` is out of range for the modulus `p`.
fn out_of_range(signature: &(Natural, Natural), p: &Natural) -> (b: bool)
    ensures
        b == (signature.0@ >= p@ || signature.1@ >= p@ - 1),
{
    if nat_le(p, &signature.0) {
        return true;
    }
    let one = Natural::from_u64(1);
    nat_le(&nat_sub(p, &one), &signature.1)
}

/// Decides on a signature that is in range.
fn verify_in_range(
    h: &Natural,
    signature: &(Natural, Natural),
    p: &Natural,
    g: &Natural,
    public_key: &Natural,
) -> (accepted: Result<bool, Error>)
    requires
        signature.0@ < p@,
        signature.1@ < p@ - 1,
    ensures
        accepted == verify_spec(h@, signature.0@, signature.1@, p@, g@, public_key@),
{
    let r = &signature.0;
    let s = &signature.1;
    let y = match nat_mod_inverse(public_key, p) {
        Some(x) => x,
        None => {
            return Err(Error::InversionFailure);
        },
    };
    let w = match nat_mod_inverse(s, p) {
        Some(x) => x,
        None => {
            return Err(Error::InversionFailure);
        },
    };
    proof {
        lemma_mod_inverse_is(public_key@, p@, y@);
        lemma_mod_inverse_is(s@, p@, w@);
    }
    let u1 = nat_rem(&nat_mul(h, &w), p);
    let u2 = nat_rem(&nat_mul(r, &w), p);
    let v = nat_rem(&nat_mul(&nat_modpow(g, &u1, p), &nat_modpow(&y, &u2, p)), p);
    Ok(nat_eq(&v, r))
}

/// Whether `signature` is accepted for the hash `h`. A signature out of range
/// is always rejected.
pub fn verify_with_hash(
    h: &Natural,
    signature: &(Natural, Natural),
    p: &Natural,
    g: &Natural,
    public_key: &Natural,
) -> (accepted: Result<bool, Error>)
    ensures
        accepted == verify_spec(h@, signature.0@, signature.1@, p@, g@, public_key@),
        signature.0@ >= p@ || signature.1@ >= p@ - 1 ==> accepted == Ok::<bool, Error>(false),
{
    if out_of_range(signature, p) {
        return Ok(false);
    }
    verify_in_range(h, signature, p, g, public_key)
}

/// Whether `signature` is accepted for `message`. The answer depends on the
/// arguments alone. A signature out of range is always rejected, before the
/// message is hashed.
pub fn verify(
    message: &str,
    signature: &(Natural, Natural),
    p: &Natural,
    g: &Natural,
    public_key: &Natural,
) -> (accepted: Result<bool, Error>)
    ensures
        accepted == verify_spec(
            hash_value(message.spec_bytes()),
            signature.0@,
            signature.1@,
            p@,
            g@,
            public_key@,
        ),
        signature.0@ >= p@ || signature.1@ >= p@ - 1 ==> accepted == Ok::<bool, Error>(false),
{
    if out_of_range(signature, p) {
        return Ok(false);
    }
    let h = message_hash(message);
    verify_in_range(&h, signature, p, g, public_key)
}

} // verus!
