//! Decoder for the Nix Archive (NAR) binary serialization format: a
//! self-describing, length-prefixed, 8-byte-aligned encoding of a
//! filesystem tree of regular files, symbolic links and directories.
//!
//! The decoder is a recursive-descent parser over an immutable byte buffer.
//! Its grammar is stated as spec functions over byte sequences, and every
//! executable decode step is proved to return exactly what the grammar
//! says: the decoded node together with the first unconsumed offset, a
//! suspension (`Incomplete`) when more bytes are needed, or a permanent
//! error on malformed input. Decoded trees hold views (offset ranges) into
//! the original buffer; payload bytes are never copied.

pub mod grammar;
pub mod laws;
pub mod outcome;
pub mod primitives;
pub mod tags;
pub mod tree;
pub mod truncation;

pub use grammar::nar;
pub use outcome::NarError;
pub use primitives::{padded_bytes, padded_tag, padding, ByteRange};
pub use tree::Entry;
