//! Duplicate-code detection over syntax trees: structural fingerprints,
//! an index from fingerprints to subtrees, and a query for maximal clones.

pub mod digest;
pub mod engine;
pub mod hash;
pub mod id;
pub mod identity;
pub mod language_id;
pub mod languages;
pub mod merkle;
pub mod node;
pub mod server;
pub mod syntax;
pub mod text;
pub mod tree;
pub mod workspace;

pub use engine::Engine;
pub use id::Id;
pub use node::Point;
