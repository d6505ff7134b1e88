[package]
name = "rug_miller_rabin"
version = "0.1.0"
edition = "2021"
publish = false

[dependencies]
rug = { version = "=1.19.2", default-features = false, features = ["integer", "rand"] }
gmp-mpfr-sys = { version = "~1.5", default-features = false, features = ["use-system-libs"] }
rand = "=0.8.8"
rayon = "=1.12.0"
