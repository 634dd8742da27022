//! Mersenne numbers and a Miller-Rabin probable-prime test on arbitrary-precision
//! unsigned integers.
//!
//! Every function is pure: the results depend on the arguments alone.
pub mod mersenne;
pub mod modpow;
pub mod natural;
pub mod primality;

pub use mersenne::mersenne_number;
pub use modpow::bmodpow;
pub use natural::{Natural, ParseError};
pub use primality::{is_prime, is_prime_from_str};
