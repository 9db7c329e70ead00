//! A bone of a skeleton.

use vstd::prelude::*;

verus! {

/// A bone: its rest pose relative to its parent, and the slot of the output
/// matrix array that its animated matrix goes to. `X` is the rest pose with
/// whatever is derived from it.
#[derive(Debug)]
pub struct Bone<X> {
    /// The rest pose, relative to the parent
    pub transformation: X,
    /// Index into the matrix array to put this bone's animated matrix
    pub matrix_index: usize,
}

impl<X> Bone<X> {
    /// Create a new bone with a given rest pose.
    pub fn new(transformation: X, matrix_index: usize) -> (b: Self)
        ensures
            b.transformation == transformation,
            b.matrix_index == matrix_index,
    {
        Bone { transformation, matrix_index }
    }

    /// Borrow the rest pose.
    pub fn borrow_transformation(&self) -> (t: &X)
        ensures
            *t == self.transformation,
    {
        &self.transformation
    }

    /// Set the rest pose of the bone.
    pub fn set_transformation(self, transformation: X) -> (b: Self)
        ensures
            b.transformation == transformation,
            b.matrix_index == self.matrix_index,
    {
        Bone { transformation, matrix_index: self.matrix_index }
    }
}

} // verus!
