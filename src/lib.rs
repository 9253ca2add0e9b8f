//! Key and value codecs for inspecting a column-family key-value store.
//!
//! `key` turns an operator-supplied key string into the bytes that the store is
//! queried with, `value` lays out every plausible reading of a stored value, and
//! `count` tallies the entries of a column family as a scan hands them over.

pub mod count;
pub mod key;
pub mod text;
pub mod value;
pub mod words;
