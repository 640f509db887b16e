//! The per-cell voxel classification.

use vstd::prelude::*;

verus! {

/// One cell of a voxel grid: binary occupancy.
///
/// The classification is pure and total: every cell of a grid, padding
/// included, is either solid or not.
#[derive(Clone, Copy, PartialEq, Eq, Structural, Debug)]
pub struct Block {
    pub solid: bool,
}

impl Block {
    /// A cell is empty exactly when it is not solid.
    pub fn is_empty(&self) -> (r: bool)
        ensures
            r == !self.solid,
    {
        !self.solid
    }

    /// In this binary model a cell occludes its neighbours exactly when it
    /// is solid.
    pub fn is_opaque(&self) -> (r: bool)
        ensures
            r == self.solid,
    {
        self.solid
    }

    /// The key that decides whether two neighbouring occupied cells belong
    /// to the same quad: here the occupancy flag itself.
    pub fn merge_value(&self) -> (r: bool)
        ensures
            r == self.solid,
    {
        self.solid
    }
}

} // verus!
