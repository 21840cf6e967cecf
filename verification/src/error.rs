//! The ways a configuration load can fail. Every failure is fatal to the
//! whole load: no partial result is ever handed out.
use vstd::prelude::*;

verus! {

/// A fatal configuration error.
#[derive(Debug, PartialEq)]
pub enum ConfigError {
    /// A label used as a path segment holds the path delimiter; the offending
    /// label is carried along.
    InvalidNamespace(String),
    /// The document is not shaped as a mapping with a tree under `defaults`
    /// and a tree under `machines`.
    MalformedDocument,
}

} // verus!
