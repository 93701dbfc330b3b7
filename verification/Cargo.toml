[package]
name = "elgamal"
version = "0.1.0"
edition = "2021"
publish = false

[dependencies]
crypto-hash = "*"
num-bigint = "*"
num-bigint-dig = "*"
num-primes = "*"
num-traits = "*"
