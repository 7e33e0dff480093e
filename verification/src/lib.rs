//! A Bloom filter: a fixed-size bit array that answers "possibly a member"
//! or "definitely not a member" for a stream of hashable elements. A false
//! positive is possible; a false negative is not.
//!
//! - [`model`] says what inserting, querying and clearing mean for a sequence
//!   of bits, and proves what follows from that.
//! - [`store`] is the bit array, kept in a `bitvec` vector.
//! - [`bloom`] is the filter: it derives two base hashes per element and
//!   probes `k` cells of `m` with them, `(h1 + i * h2) mod m` in round `i`.

pub mod bloom;
mod hashing;
pub mod model;
pub mod store;

pub use bloom::{Bloom, ConfigError};
