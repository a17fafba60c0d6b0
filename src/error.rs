use vstd::prelude::*;

verus! {

/// The ways in which a request on a control grid can be malformed.
#[derive(Debug, Clone, Copy, PartialEq, Eq, Structural)]
pub enum MeshError {
    /// Grid dimensions below two, or a color list of the wrong length.
    InvalidInput,
    /// A control point or patch coordinate outside the grid.
    IndexOutOfRange,
}

} // verus!
