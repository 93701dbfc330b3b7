//! Arbitrary-precision natural numbers.
//!
//! A [`Natural`] holds its value as big-endian bytes; contracts speak of the
//! value itself, a `nat`. The work on the numbers is done by other crates, one
//! call per operation, in the functions at the end of this file: arithmetic by
//! `num_bigint`, inversion by `num_bigint_dig`, random numbers by
//! `num_primes`. What those functions state of their results is taken from
//! the crates' documentation and source, not proved.

use crate::numtheory::{has_inverse, is_inverse, mod_pow, no_small_divisor};
use num_bigint::BigUint;
use num_traits::Num;
use std::borrow::Cow;
use vstd::arithmetic::power2::*;
use vstd::prelude::*;
use vstd::slice::*;

verus! {

/// The number that a big-endian byte string stands for.
pub open spec fn be_value(s: Seq<u8>) -> nat
    decreases s.len(),
{
    if s.len() == 0 {
        0
    } else {
        be_value(s.drop_last()) * 256 + s.last() as nat
    }
}

/// `c` is one of `0`-`9`, `a`-`f`, `A`-`F`.
pub open spec fn is_hex_digit(c: char) -> bool {
    ('0' <= c <= '9') || ('a' <= c <= 'f') || ('A' <= c <= 'F')
}

/// The value of a hexadecimal digit.
pub open spec fn hex_digit_value(c: char) -> nat {
    if '0' <= c <= '9' {
        (c as nat - '0' as nat) as nat
    } else if 'a' <= c <= 'f' {
        (c as nat - 'a' as nat + 10) as nat
    } else {
        (c as nat - 'A' as nat + 10) as nat
    }
}

/// Every character of `s` is a hexadecimal digit, and there is at least one.
pub open spec fn is_hex_string(s: Seq<char>) -> bool {
    s.len() > 0 && forall|i: int| 0 <= i < s.len() ==> is_hex_digit(#[trigger] s[i])
}

/// The number that a string of hexadecimal digits stands for.
pub open spec fn hex_value(s: Seq<char>) -> nat
    decreases s.len(),
{
    if s.len() == 0 {
        0
    } else {
        hex_value(s.drop_last()) * 16 + hex_digit_value(s.last())
    }
}

/// The value of a prefix of a byte string does not exceed that of the whole.
pub proof fn lemma_be_value_prefix(s: Seq<u8>, n: int)
    requires
        0 <= n <= s.len(),
    ensures
        be_value(s.take(n)) <= be_value(s),
    decreases s.len() - n,
{
    if n == s.len() {
        assert(s.take(n) =~= s);
    } else {
        lemma_be_value_prefix(s, n + 1);
        assert(s.take(n + 1).drop_last() =~= s.take(n));
    }
}

/// A natural number of any size.
#[derive(Debug)]
pub struct Natural {
    bytes: Vec<u8>,
}

impl View for Natural {
    type V = nat;

    closed spec fn view(&self) -> nat {
        be_value(self.bytes@)
    }
}

impl Clone for Natural {
    fn clone(&self) -> (r: Self)
        ensures
            r@ == self@,
    {
        Natural { bytes: self.bytes.clone() }
    }
}

impl Natural {
    /// The number written in `bytes`, most significant byte first.
    pub fn from_bytes_be(bytes: &[u8]) -> (r: Natural)
        ensures
            r@ == be_value(bytes@),
    {
        Natural { bytes: slice_to_vec(bytes) }
    }

    /// The number as bytes, most significant byte first.
    pub fn to_bytes_be(&self) -> (r: Vec<u8>)
        ensures
            be_value(r@) == self@,
    {
        self.bytes.clone()
    }

    /// The number `x`.
    pub fn from_u64(x: u64) -> (r: Natural)
        ensures
            r@ == x,
    {
        let mut bytes: Vec<u8> = Vec::new();
        let mut shift: u32 = 64;
        proof {
            lemma2_to64();
            assert(x as nat / pow2(64) == 0);
        }
        while shift > 0
            invariant
                shift <= 64,
                shift % 8 == 0,
                be_value(bytes@) == x as nat / pow2(shift as nat),
            decreases shift,
        {
            proof {
                lemma_shift_byte(x, shift);
            }
            shift = shift - 8;
            let b: u8 = ((x >> shift) & 0xff) as u8;
            proof {
                assert(bytes@.push(b).drop_last() =~= bytes@);
            }
            bytes.push(b);
        }
        proof {
            assert(pow2(shift as nat) == 1);
            assert(x as nat / 1 == x as nat);
        }
        Natural { bytes }
    }

    /// The number as a `u64`, where it is small enough for one.
    pub fn to_u64(&self) -> (r: Option<u64>)
        ensures
            self@ <= u64::MAX ==> r == Some(self@ as u64),
            self@ > u64::MAX ==> r is None,
    {
        let mut acc: u64 = 0;
        let mut i: usize = 0;
        while i < self.bytes.len()
            invariant
                i <= self.bytes.len(),
                acc == be_value(self.bytes@.take(i as int)),
            decreases self.bytes.len() - i,
        {
            let b: u64 = self.bytes[i] as u64;
            proof {
                assert(self.bytes@.take(i + 1).drop_last() =~= self.bytes@.take(i as int));
                lemma_be_value_prefix(self.bytes@, i + 1);
            }
            if acc > (u64::MAX - b) / 256 {
                return None;
            }
            acc = acc * 256 + b;
            i = i + 1;
        }
        proof {
            assert(self.bytes@.take(i as int) =~= self.bytes@);
        }
        Some(acc)
    }
}

proof fn lemma_shift_byte(x: u64, shift: u32)
    requires
        0 < shift <= 64,
        shift % 8 == 0,
    ensures
        ((x >> ((shift - 8) as u32)) & 0xff) as nat == (x as nat / pow2((shift - 8) as nat)) % 256,
        x as nat / pow2((shift - 8) as nat) == (x as nat / pow2(shift as nat)) * 256 + (x as nat
            / pow2((shift - 8) as nat)) % 256,
{
    let lo = (shift - 8) as u32;
    let y = x >> lo;
    assert(y & 0xff == y % 256) by (bit_vector);
    vstd::bits::lemma_u64_shr_is_div(x, lo as u64);
    // x / 2^shift == (x / 2^lo) / 256
    lemma_pow2_adds(lo as nat, 8);
    lemma2_to64();
    lemma_pow2_pos(lo as nat);
    vstd::arithmetic::div_mod::lemma_div_denominator(x as int, pow2(lo as nat) as int, 256);
    vstd::arithmetic::div_mod::lemma_fundamental_div_mod(x as int / pow2(lo as nat) as int, 256);
}

/// `BigUint`'s `+`: the sum.
#[verifier::external_body]
pub(crate) fn nat_add(a: &Natural, b: &Natural) -> (r: Natural)
    ensures
        r@ == a@ + b@,
{
    let sum = BigUint::from_bytes_be(&a.bytes) + BigUint::from_bytes_be(&b.bytes);
    Natural { bytes: sum.to_bytes_be() }
}

/// `BigUint`'s `-`: the difference. It aborts where the result would be
/// negative, which `requires` leaves out.
#[verifier::external_body]
pub(crate) fn nat_sub(a: &Natural, b: &Natural) -> (r: Natural)
    requires
        a@ >= b@,
    ensures
        r@ == a@ - b@,
{
    let difference = BigUint::from_bytes_be(&a.bytes) - BigUint::from_bytes_be(&b.bytes);
    Natural { bytes: difference.to_bytes_be() }
}

/// `BigUint`'s `*`: the product.
#[verifier::external_body]
pub(crate) fn nat_mul(a: &Natural, b: &Natural) -> (r: Natural)
    ensures
        r@ == a@ * b@,
{
    let product = BigUint::from_bytes_be(&a.bytes) * BigUint::from_bytes_be(&b.bytes);
    Natural { bytes: product.to_bytes_be() }
}

/// `BigUint`'s `/`: the quotient, rounded down. It aborts on a zero divisor,
/// which `requires` leaves out.
#[verifier::external_body]
pub(crate) fn nat_div(a: &Natural, b: &Natural) -> (r: Natural)
    requires
        b@ != 0,
    ensures
        r@ == a@ / b@,
{
    let quotient = BigUint::from_bytes_be(&a.bytes) / BigUint::from_bytes_be(&b.bytes);
    Natural { bytes: quotient.to_bytes_be() }
}

/// `BigUint`'s `%`: the remainder. It aborts on a zero divisor, which
/// `requires` leaves out.
#[verifier::external_body]
pub(crate) fn nat_rem(a: &Natural, b: &Natural) -> (r: Natural)
    requires
        b@ != 0,
    ensures
        r@ == a@ % b@,
{
    let remainder = BigUint::from_bytes_be(&a.bytes) % BigUint::from_bytes_be(&b.bytes);
    Natural { bytes: remainder.to_bytes_be() }
}

/// `BigUint`'s `==`: whether the two numbers are the same.
#[verifier::external_body]
pub(crate) fn nat_eq(a: &Natural, b: &Natural) -> (r: bool)
    ensures
        r == (a@ == b@),
{
    BigUint::from_bytes_be(&a.bytes) == BigUint::from_bytes_be(&b.bytes)
}

/// `BigUint`'s `<=`: whether the first number is at most the second.
#[verifier::external_body]
pub(crate) fn nat_le(a: &Natural, b: &Natural) -> (r: bool)
    ensures
        r == (a@ <= b@),
{
    BigUint::from_bytes_be(&a.bytes) <= BigUint::from_bytes_be(&b.bytes)
}

/// `BigUint::modpow`: the power reduced modulo `m`. It aborts on a zero
/// modulus, which `requires` leaves out.
#[verifier::external_body]
pub(crate) fn nat_modpow(base: &Natural, exp: &Natural, m: &Natural) -> (r: Natural)
    requires
        m@ != 0,
    ensures
        r@ == mod_pow(base@, exp@, m@),
{
    let power = BigUint::from_bytes_be(&base.bytes).modpow(
        &BigUint::from_bytes_be(&exp.bytes),
        &BigUint::from_bytes_be(&m.bytes),
    );
    Natural { bytes: power.to_bytes_be() }
}

/// `BigUint::from_str_radix` with radix 16: a string of hexadecimal digits
/// gives the number it stands for. Of other strings nothing is stated.
#[verifier::external_body]
pub(crate) fn nat_from_hex(s: &str) -> (r: Option<Natural>)
    ensures
        is_hex_string(s@) ==> r is Some && r->Some_0@ == hex_value(s@),
{
    match BigUint::from_str_radix(s, 16) {
        Ok(n) => Some(Natural { bytes: n.to_bytes_be() }),
        Err(_) => None,
    }
}

/// `num_bigint_dig::algorithms::mod_inverse`: the inverse of `a` modulo `m`
/// in `[0, m)`, which exists exactly when the two have no common divisor but
/// one.
#[verifier::external_body]
pub(crate) fn nat_mod_inverse(a: &Natural, m: &Natural) -> (r: Option<Natural>)
    requires
        m@ != 0,
    ensures
        r is Some <==> has_inverse(a@, m@),
        r is Some ==> is_inverse(a@, r->Some_0@, m@),
{
    let g = num_bigint_dig::BigUint::from_bytes_be(&a.bytes);
    let n = num_bigint_dig::BigUint::from_bytes_be(&m.bytes);
    match num_bigint_dig::algorithms::mod_inverse(Cow::Owned(g), Cow::Owned(n)) {
        Some(x) => match x.to_biguint() {
            Some(u) => Some(Natural { bytes: u.to_bytes_be() }),
            None => None,
        },
        None => None,
    }
}

/// `num_primes::Verification::is_prime`: whether `n` passed the crate's
/// primality tests. The answer depends on the bases that the tests draw, so
/// only this is stated: a number that passed is odd, and nothing from two to
/// 17863 that is smaller than it divides it; the first test divides by the
/// primes up to there. The tests abort on the number three, which `requires`
/// leaves out with all below five.
#[verifier::external_body]
pub(crate) fn nat_is_probable_prime(n: &Natural) -> (r: bool)
    requires
        n@ >= 5,
    ensures
        r ==> n@ % 2 == 1 && no_small_divisor(n@),
{
    num_primes::Verification::is_prime(&num_primes::BigUint::from_bytes_be(&n.bytes))
}

/// `num_primes::Generator::new_uint`: a random number below `2^bits`.
#[verifier::external_body]
pub(crate) fn nat_random(bits: usize) -> (r: Natural)
    ensures
        r@ < pow2(bits as nat),
{
    Natural { bytes: num_primes::Generator::new_uint(bits).to_bytes_be() }
}

} // verus!
