//! Seat apportionment by the Sainte-Laguë (Webster) divisor method.
//!
//! Votes and quotients are carried as the IEEE-754 bit patterns of the
//! doubles they stand for (see [`float`]), so that every comparison the method
//! makes is one on plain integers.

pub mod error;
pub mod float;
pub mod count;
pub mod cutoff;
mod draw;
pub mod apportion;
pub mod laws;

pub use apportion::distribute;
pub use error::DistributionError;
