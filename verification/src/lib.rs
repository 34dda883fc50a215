//! A typed, allocation-conscious model of JSON literal trees.
//!
//! A literal tree is built once out of nested leaf, slot and pair nodes and
//! then traversed in two ways: *emission* walks it depth-first, left to
//! right, and writes one token per leaf (repeatable, read-only), while
//! *pull-consumption* answers external "next key" / "next value" / "next
//! element" requests by consuming the tree from the front, exactly once per
//! element, and reports a protocol error on misuse.

pub mod backend;
pub mod decode;
pub mod dynamic;
pub mod emit;
pub mod errors;
pub mod model;
pub mod pull;
pub mod scalar;
pub mod text;
pub mod tree;
