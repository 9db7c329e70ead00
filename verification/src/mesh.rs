//! A mesh: primitives that are drawn from first to last.

use vstd::prelude::*;
use crate::primitive::Primitive;

verus! {

/// A mesh provides an array of primitives, notionally drawn from first to
/// last. The materials and vertices that they name live in the object.
#[derive(Debug)]
pub struct Mesh {
    /// The primitives
    pub primitives: Vec<Primitive>,
}

impl View for Mesh {
    type V = Seq<Primitive>;

    open spec fn view(&self) -> Seq<Primitive> {
        self.primitives@
    }
}

impl Default for Mesh {
    fn default() -> (m: Self)
        ensures
            m@ == Seq::<Primitive>::empty(),
    {
        Mesh { primitives: Vec::new() }
    }
}

impl Mesh {
    /// Create a mesh without primitives.
    pub fn new() -> (m: Self)
        ensures
            m@ == Seq::<Primitive>::empty(),
    {
        Mesh { primitives: Vec::new() }
    }

    /// Add a primitive to the mesh, after those it has.
    pub fn add_primitive(&mut self, primitive: Primitive)
        ensures
            final(self)@ == old(self)@.push(primitive),
    {
        self.primitives.push(primitive);
    }
}

} // verus!
