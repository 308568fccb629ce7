//! A compact redirect resolver: request paths are looked up in a succinct key
//! index, the matching target is decoded from a front-coded dictionary, and a
//! trailing status code may be carried inside the target string. Paths that are
//! not indexed fall back to an ordered list of prefix rules. A signer for
//! time-limited URL tokens sits beside it.
pub mod dictionary;
pub mod encoding;
pub mod fallback;
pub mod framing;
pub mod index;
pub mod resolver;
pub mod token;
