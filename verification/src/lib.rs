//! An authenticated sparse key-value tree of fixed depth 256.
//!
//! A [`digest::Digest`] is a 256-bit value used both as an address into the
//! key space and as a node hash.  The tree maintains a root commitment over
//! the whole key space; every address holds the canonical default value until
//! it is overwritten through [`machine::Interpreter::insert`], either directly
//! or through a proof-gated state transition.

pub mod digest;
pub mod hashes;
pub mod inttype;
pub mod laws;
pub mod machine;
pub mod store;
pub mod table;
pub mod tree;
pub mod txn;
