//! The Miller-Rabin primality test on arbitrary-precision integers.
//!
//! [`is_prime`] tells whether an integer is probably prime. Integers are
//! held as limbs ([`Natural`], [`BigInt`]); modular exponentiation and the
//! random choice of bases are left to `rug`, and the rounds of one test run
//! in parallel on `rayon`'s thread pool unless asked otherwise.

pub mod backend;
pub mod bigint;
pub mod decomposition;
pub mod limbs;
pub mod miller_rabin;
pub mod natural;
pub mod primes;
pub mod witness;

pub use backend::MAX_LIMBS;
pub use bigint::BigInt;
pub use decomposition::decompose;
pub use miller_rabin::{is_prime, is_prime_with, verdict, Evaluation, DETERMINISTIC_LIMIT};
pub use natural::Natural;
pub use witness::miller_rabin_iteration;
