//! A component of an object's hierarchy.

use vstd::prelude::*;
use crate::mesh::Mesh;

verus! {

/// A component of an object's hierarchy: a mesh, and the transformation, if
/// any, that places it relative to its parent. `X` is the transformation.
///
/// Frequently an object contains a single component with no transformation,
/// just the mesh.
#[derive(Debug)]
pub struct Component<X> {
    /// The transformation to apply to the whole mesh
    pub transformation: Option<X>,
    /// The mesh associated with the component
    pub mesh: Mesh,
}

impl<X> Component<X> {
    /// Create a new component.
    pub fn new(transformation: Option<X>, mesh: Mesh) -> (c: Self)
        ensures
            c.transformation == transformation,
            c.mesh == mesh,
    {
        Component { transformation, mesh }
    }
}

} // verus!
