//! Crib-dragging analysis for ciphertexts that share a keystream.
//!
//! When two ciphertexts were produced with the same keystream, XOR-ing them
//! cancels the key and leaves the XOR of the two plaintexts. Sliding a
//! guessed plaintext fragment (a "crib") across that XOR buffer and keeping
//! every offset where the combination is printable ASCII points at places
//! where the crib may be a true substring of one plaintext, with the
//! recovered text a substring of the other.
//!
//! The crate provides the hex decoding of ciphertexts, the byte-wise XOR,
//! the crib-dragging sweep itself, and the rendering of its results as a
//! text report. Reading and writing files is left to the caller.

pub mod ascii;
pub mod drag;
pub mod hex;
pub mod report;
pub mod xor;
