use elgamal::error::Error;
use elgamal::group::{find_primitive_root, generate_prime, is_primitive_root, prime_factors};
use elgamal::natural::Natural;

fn factors_of(n: u64) -> Vec<u64> {
    prime_factors(&Natural::from_u64(n)).iter().map(|f| f.to_u64().unwrap()).collect()
}

fn is_root(candidate: u64, p: u64) -> bool {
    is_primitive_root(&Natural::from_u64(candidate), &Natural::from_u64(p))
}

#[test]
fn prime_factors_of_small_numbers() {
    assert_eq!(factors_of(0), Vec::<u64>::new());
    assert_eq!(factors_of(1), Vec::<u64>::new());
    assert_eq!(factors_of(2), vec![2]);
    assert_eq!(factors_of(3), vec![3]);
    assert_eq!(factors_of(4), vec![2, 2]);
    assert_eq!(factors_of(10), vec![2, 5]);
    assert_eq!(factors_of(15), vec![3, 5]);
    assert_eq!(factors_of(60), vec![2, 2, 3, 5]);
    assert_eq!(factors_of(97), vec![97]);
    assert_eq!(factors_of(1024), vec![2; 10]);
}

#[test]
fn prime_factors_keeps_a_large_last_factor() {
    assert_eq!(factors_of(3 * 1_000_000_007), vec![3, 1_000_000_007]);
    assert_eq!(factors_of(466), vec![2, 233]);
}

#[test]
fn prime_factors_multiply_back() {
    for n in 1u64..500 {
        let factors = factors_of(n);
        assert_eq!(factors.iter().product::<u64>(), n);
        assert!(factors.windows(2).all(|w| w[0] <= w[1]));
    }
}

#[test]
fn primitive_roots_of_eleven() {
    let accepted: Vec<u64> = (2..=9).filter(|c| is_root(*c, 11)).collect();
    assert_eq!(accepted, vec![2, 6, 7, 8]);
}

#[test]
fn root_test_depends_on_the_residue_only_through_powers() {
    assert!(is_root(13, 11));
    assert!(!is_root(12, 11));
    assert!(!is_root(1, 11));
    assert!(!is_root(10, 11));
}

#[test]
fn root_test_accepts_multiples_of_the_modulus() {
    assert!(is_root(0, 11));
    assert!(is_root(11, 11));
    assert!(is_root(22, 11));
}

#[test]
fn root_test_with_nothing_to_check() {
    // p - 1 is 0 or 1: there is no prime factor to test
    assert!(is_root(5, 1));
    assert!(is_root(0, 1));
    assert!(is_root(1, 2));
    assert!(is_root(0, 2));
}

#[test]
fn root_test_modulo_467() {
    let accepted: Vec<u64> = (2..12).filter(|c| is_root(*c, 467)).collect();
    assert_eq!(accepted, vec![2, 5, 6, 8, 11]);
}

fn is_prime(p: u64) -> bool {
    p >= 2 && (2..p).take_while(|d| d * d <= p).all(|d| p % d != 0)
}

#[test]
fn generated_prime_is_in_range() {
    for bits in [32usize, 64, 128] {
        let p = generate_prime(bits, 1_000_000).unwrap();
        let value = num_bigint::BigUint::from_bytes_be(&p.to_bytes_be());
        assert!(value >= num_bigint::BigUint::from(5u32));
        assert_eq!(value.bits(), bits as u64);
        assert!(value.bit(0));
    }
}

#[test]
fn generated_prime_of_few_bits_is_prime() {
    for bits in [3usize, 4, 8, 16, 28] {
        for _ in 0..20 {
            let p = generate_prime(bits, 1_000_000).unwrap().to_u64().unwrap();
            assert!(p >= 5);
            assert!(1u64 << (bits - 1) <= p && p < 1u64 << bits);
            assert!(is_prime(p));
        }
    }
}

#[test]
fn generated_prime_of_three_bits() {
    for _ in 0..50 {
        let p = generate_prime(3, 1_000_000).unwrap().to_u64().unwrap();
        assert!(p == 5 || p == 7);
    }
}

#[test]
fn prime_generation_gives_up() {
    assert_eq!(generate_prime(64, 0).err(), Some(Error::GenerationFailure));
    // below three bits no draw reaches five
    for bits in [0usize, 1, 2] {
        assert_eq!(generate_prime(bits, 1_000).err(), Some(Error::GenerationFailure));
    }
}

#[test]
fn found_root_passes_the_test() {
    let p = Natural::from_u64(467);
    for bits in [4usize, 10, 33] {
        let g = find_primitive_root(&p, bits, 1_000_000).unwrap();
        assert!(is_primitive_root(&g, &p));
        let value = g.to_u64().unwrap();
        assert!(5 <= value);
        assert!(1u64 << (bits - 2) <= value && value < 1u64 << (bits - 1));
        assert!(value % 2 == 1);
    }
}

#[test]
fn root_search_gives_up() {
    let p = Natural::from_u64(467);
    assert_eq!(find_primitive_root(&p, 33, 0).err(), Some(Error::GenerationFailure));
    // with fewer than four bits there is no candidate to draw
    for bits in [1usize, 2, 3] {
        assert_eq!(find_primitive_root(&p, bits, 1_000).err(), Some(Error::GenerationFailure));
    }
}

#[test]
fn root_search_among_two_candidates() {
    // 9 - 1 = 2^3, so a candidate passes unless its fourth power is 1 modulo 9.
    // Three bits leave the candidates 5 and 7: 5^4 = 4 and 7^4 = 7 modulo 9.
    let p = Natural::from_u64(9);
    let g = find_primitive_root(&p, 4, 1_000_000).unwrap().to_u64().unwrap();
    assert!(g == 5 || g == 7);
}
