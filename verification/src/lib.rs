//! pssh - Simple tool to manage SSH connexions
//!
//! The crate's core is a hierarchical configuration-resolution engine: it
//! turns a nested namespace tree of connection records into a flat map from
//! colon-joined path to record, and resolves, for every named machine, the
//! effective profile obtained by merging group and global defaults with the
//! machine's own overrides.

/// Assembly of the final per-machine profiles.
pub mod assemble;
/// The flat path-to-record mapping.
pub mod config_map;
/// Verified decimal rendering of numbers.
pub mod digits;
/// The raw document and its interpretation.
pub mod document;
/// The configuration error taxonomy.
pub mod error;
/// The namespace tree and its flattening.
pub mod tree;
/// The connection record and its merge operator.
pub mod record;
/// Resolution of defaults along the ancestor chain.
pub mod resolve;
/// Verified helpers on strings and paths.
pub mod strings;
/// Command lines for the external tools.
pub mod wrapper;
