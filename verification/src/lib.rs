//! Greatest common divisor of unsigned integers, computed by the Euclidean
//! algorithm and proved against the number-theoretic definition.
//!
//! * [`divisor`] defines divisibility on the natural numbers.
//! * [`gcd`] defines the greatest common divisor and states its laws.
//! * [`euclid`] holds the executable algorithm.

pub mod divisor;
pub mod euclid;
pub mod gcd;

pub use euclid::find_gcd;
