//! Selection of a platform-specific launch configuration out of a
//! pre-parsed game-metadata database.
//!
//! The database is an in-memory tree of dynamically typed values
//! ([`value::Value`]). Given such a tree, the library locates one
//! application by its numeric identifier, keeps the launch entries that
//! match a host platform, and rebuilds a minimal record that carries only
//! the recognized fields. Loading the tree from disk is a caller's
//! concern; everything in this crate is a pure function of its inputs.

pub mod filter;
pub mod laws;
pub mod locate;
pub mod strutil;
pub mod value;
