//! A tetrahedron, drawn as one strip of triangles.

use vstd::prelude::*;
use crate::mesh::Mesh;
use crate::primitive::Primitive;
use crate::types::{PrimitiveType, ShortIndex};

verus! {

/// The primitive that draws the tetrahedron: a strip of six indices from the
/// start of the vertices `v_id`, with the material `m_id`.
pub open spec fn spec_primitive(p: Primitive, v_id: usize, m_id: usize) -> bool {
    &&& p.spec_primitive_type() == PrimitiveType::TriangleStrip
    &&& p.spec_vertices_index()@ == Some(v_id as nat)
    &&& p.spec_byte_offset() == 0
    &&& p.spec_index_count() == 6
    &&& p.spec_material_index()@ == Some(m_id as nat)
}

/// Create the mesh of the tetrahedron from the index of its vertices and of
/// its material within an object; both must be below 65535.
pub fn mesh(v_id: usize, m_id: usize) -> (m: Mesh)
    requires
        v_id < 65535,
        m_id < 65535,
    ensures
        m@.len() == 1,
        spec_primitive(m@[0], v_id, m_id),
{
    let mut mesh = Mesh::new();
    mesh.add_primitive(
        Primitive::new(
            PrimitiveType::TriangleStrip,
            ShortIndex::of_usize(v_id),
            0,
            6,
            ShortIndex::of_usize(m_id),
        ),
    );
    mesh
}

} // verus!
