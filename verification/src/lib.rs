//! Jump consistent hashing: a key is mapped to one of `n` numbered slots so
//! that, when `n` grows, a key either keeps its slot or moves to one of the
//! added slots.
//!
//! - [`hasher`] holds the two hashers, which digest a key and hand the digest
//!   to the recurrence.
//! - [`jump`] holds the recurrence, from a digest and a slot count to a slot,
//!   and what is proved of it.
//! - [`rounding`] holds the binary64 rounding that the recurrence is defined
//!   with, computed on integers.

pub mod hasher;
pub mod jump;
pub mod rounding;

pub use hasher::{CustomJumpHasher, Error, JumpHasher};
