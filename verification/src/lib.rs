//! The core of a versioned, content-addressed, encrypted file system: names
//! committed to RSA accumulators, a mergeable forest that indexes ciphertext
//! blocks under those names, per-revision keys, and the file nodes that are
//! stored through them.

pub mod accumulator;
pub mod cid;
pub mod error;
pub mod forest;
pub mod keyset;
pub mod lex;
pub mod metadata;
pub mod name;
pub mod number;
pub mod private;
pub mod public;
pub mod traits;
pub mod utils;
pub mod version;
