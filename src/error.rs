//! The ways a scan can fail.
use vstd::prelude::*;

verus! {

/// Every error ends the whole scan.
#[derive(Debug, Clone, Copy, PartialEq, Eq, Structural)]
pub enum ScanError {
    /// No root directory was given.
    Config,
    /// A directory entry could not be read, or its path is not text.
    Traversal,
    /// The platform's attribute call failed (an absent attribute is no error).
    AttributeLookup,
    /// The attribute value holds a byte outside the single-byte text range.
    AttributeDecode,
    /// A stream's derived path could not be opened or read as text.
    StreamRead,
}

} // verus!
