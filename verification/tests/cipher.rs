use elgamal::cipher::{decrypt, encrypt};
use elgamal::error::Error;
use elgamal::natural::Natural;

fn num(x: u64) -> Natural {
    Natural::from_u64(x)
}

fn pair(c: &(Natural, Natural)) -> (u64, u64) {
    (c.0.to_u64().unwrap(), c.1.to_u64().unwrap())
}

#[test]
fn encrypt_gives_commitment_and_masked_message() {
    // p = 467, g = 2, private key 127, public key 2^127 mod 467 = 132
    let c = encrypt(&num(100), &num(213), &num(132), &num(2), &num(467));
    assert_eq!(pair(&c), (29, 375));
}

#[test]
fn decrypt_recovers_the_message() {
    let m = decrypt(&(num(29), num(375)), &num(127), &num(467));
    assert_eq!(m.ok().and_then(|m| m.to_u64()), Some(100));
}

#[test]
fn round_trip_for_every_message() {
    let (p, g, private_key, public_key) = (num(467), num(2), num(127), num(132));
    for m in 0u64..467 {
        for k in [1u64, 2, 213, 465] {
            let c = encrypt(&num(m), &num(k), &public_key, &g, &p);
            let back = decrypt(&c, &private_key, &p).ok().and_then(|m| m.to_u64());
            assert_eq!(back, Some(m));
        }
    }
}

#[test]
fn message_not_below_the_modulus_wraps() {
    let text = Natural::from_bytes_be(b"Hello, ElGamal!");
    let (p, g, private_key, public_key) = (num(467), num(2), num(127), num(132));
    let c = encrypt(&text, &num(213), &public_key, &g, &p);
    let back = decrypt(&c, &private_key, &p).ok().and_then(|m| m.to_u64());
    // 375902487384808154621474164468444193 mod 467
    assert_eq!(back, Some(295));
}

#[test]
fn decrypt_reports_a_secret_without_inverse() {
    // 6^1 mod 12 = 6 shares a factor with 12
    let r = decrypt(&(num(6), num(5)), &num(1), &num(12));
    assert_eq!(r.err(), Some(Error::InversionFailure));
    // a zero commitment gives a zero secret
    let r = decrypt(&(num(0), num(5)), &num(3), &num(467));
    assert_eq!(r.err(), Some(Error::InversionFailure));
}

#[test]
fn decrypt_modulo_one() {
    let r = decrypt(&(num(5), num(7)), &num(3), &num(1));
    assert_eq!(r.ok().and_then(|m| m.to_u64()), Some(0));
}

#[test]
fn decrypt_with_a_composite_modulus() {
    // 5^2 mod 12 = 1, whose inverse is 1
    let r = decrypt(&(num(5), num(7)), &num(2), &num(12));
    assert_eq!(r.ok().and_then(|m| m.to_u64()), Some(7));
    // 5^1 mod 12 = 5, whose inverse is 5: 7 * 5 mod 12 = 11
    let r = decrypt(&(num(5), num(7)), &num(1), &num(12));
    assert_eq!(r.ok().and_then(|m| m.to_u64()), Some(11));
}

fn gcd(a: u64, b: u64) -> u64 {
    if b == 0 {
        a
    } else {
        gcd(b, a % b)
    }
}

#[test]
fn decrypt_inverts_exactly_what_is_coprime() {
    // with the private key 1 and y = 1 the answer is the inverse of x modulo m
    for m in 1u64..60 {
        for x in 0u64..(3 * m) {
            let r = decrypt(&(num(x), num(1)), &num(1), &num(m)).map(|v| v.to_u64().unwrap());
            if gcd(x % m, m) == 1 {
                let inverse = r.unwrap();
                assert!(inverse < m);
                assert_eq!((x * inverse) % m, 1 % m);
            } else {
                assert_eq!(r, Err(Error::InversionFailure));
            }
        }
    }
}

#[test]
fn decrypt_inverts_large_numbers() {
    // 2^127 - 1 is prime; the inverse of 2 modulo it is 2^126
    let mut modulus = vec![0x7fu8];
    modulus.extend([0xffu8; 15]);
    let mut expected = vec![0x40u8];
    expected.extend([0u8; 15]);
    let p = Natural::from_bytes_be(&modulus);
    let r = decrypt(&(num(2), num(1)), &num(1), &p).unwrap();
    assert_eq!(r.to_bytes_be(), expected);
}
