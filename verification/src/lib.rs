//! Finding the largest prime strictly below a 64-bit bound.
//!
//! The crate is organised in three layers, leaves first:
//! - [`modular`]: exact modular multiplication and exponentiation over
//!   64-bit operands, free of overflow;
//! - [`primality`]: a deterministic Miller–Rabin primality decision for
//!   every `u64`, built on the modular layer;
//! - [`search`]: the downward search for the largest prime below a bound,
//!   built on the primality oracle.

pub mod modular;
pub mod primality;
pub mod search;

pub use modular::mod_mul;
pub use modular::mod_pow;
pub use primality::is_prime;
pub use search::largest_prime_below;
