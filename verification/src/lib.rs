use vstd::prelude::*;

pub mod args;
pub mod gate;
pub mod scanner;
pub mod tree;

verus! {

/// How a scan can fail as a whole. Only the root listing and the
/// configuration are hard failure surfaces: a failure inside one child's
/// subtree never aborts the scan, it only drops that child.
#[derive(Clone, Copy, Debug, PartialEq, Eq, Structural)]
pub enum ScanError {
    /// The root path does not exist.
    NotFound,
    /// Reading metadata or listing a directory failed for another reason,
    /// or a size sum does not fit in 64 bits.
    Io,
    /// The concurrency bound was not a positive number.
    Config,
}

} // verus!
