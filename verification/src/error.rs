//! What can be wrong with the data handed to the library.

use vstd::prelude::*;

verus! {

/// Why a list of vertices and faces is not a mesh.
#[derive(Clone, Copy, Debug, PartialEq, Eq, Structural)]
pub enum Error {
    /// Face number `face` has fewer than three corners.
    FaceTooSmall { face: usize },
    /// Corner number `corner` of face number `face` names a vertex that the
    /// mesh does not have.
    IndexOutOfRange { face: usize, corner: usize },
}

} // verus!
