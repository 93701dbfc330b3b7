//! ElGamal over the multiplicative group modulo a prime: key generation,
//! encryption and decryption, and a signature scheme.
//!
//! Every function states what it returns over natural numbers, and Verus
//! proves the statement:
//!
//! - [`natural`]: the numbers, and the calls into the crates that compute with
//!   them;
//! - [`numtheory`]: divisibility, primes, modular powers and inverses;
//! - [`group`]: the prime modulus, trial division, the root test and the search
//!   for a generator;
//! - [`keys`]: key pairs;
//! - [`cipher`]: encryption and decryption, and the proof that one undoes the
//!   other;
//! - [`signature`]: hashing, signing and verification;
//! - [`error`]: the faults that are reported.
//!
//! What is not proved is what the outside crates do: big-number arithmetic,
//! SHA-256 and the drawing of random numbers. Each call into them stands in a
//! function of its own, whose documentation says what is taken on trust.

pub mod cipher;
pub mod error;
pub mod group;
pub mod keys;
pub mod natural;
pub mod numtheory;
pub mod signature;
