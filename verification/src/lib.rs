//! Builds a software-identity tag for an immutable filesystem snapshot: every
//! directory and regular file in the tree is described, each file with the
//! SHA-256 digest of its content, and the finished tag is encoded as a compact
//! CBOR document.

pub mod assembler;
pub mod codec;
pub mod decoder;
pub mod hashing;
pub mod model;
pub mod one_or_many;
pub mod store;
pub mod walker;
