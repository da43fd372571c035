//! A Bloom-filter style membership index over a small corpus of text files.
//!
//! Every file is summed up in a 64-bit signature of its vocabulary. A query
//! word is first tested against the signatures, which can prove the word
//! absent; only where a signature admits the word is the file itself
//! consulted. The library reads no file: callers hand it what they read.

pub mod entry;
pub mod hashing;
pub mod search;
pub mod signature;
pub mod store;
pub mod text;
pub mod theorems;

pub use crate::entry::Entry;
pub use crate::search::{Classification, Search};
pub use crate::signature::{BfIndex, HASH_N};
pub use crate::store::DataStore;
