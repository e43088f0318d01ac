//! Deterministic synthetic directory trees: a seeded build produces a
//! fixed tree of directories and files whose contents are regenerated on
//! demand from a small per-file seed, never stored, and served either to
//! a materializer that writes them to disk or live through a read-only
//! filesystem adapter -- byte for byte the same either way.

pub mod mount;
pub mod parse;
pub mod random;
pub mod stream;
pub mod tree;

pub use mount::TreeFs;
pub use random::ContextBuilder;
pub use tree::DirEntry;
