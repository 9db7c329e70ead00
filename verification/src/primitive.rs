//! A primitive: what to draw, from which vertices, with which material.

use vstd::prelude::*;
use crate::types::{PrimitiveType, ShortIndex};

verus! {

/// A primitive consisting of a material and a subset of vertices using a
/// particular range of indices.
///
/// It holds indices into the vectors of the object that it belongs to; it
/// owns neither vertices nor material.
#[derive(Debug, Clone, Copy, PartialEq, Eq, Structural)]
pub struct Primitive {
    /// Byte offset to the first index to use
    byte_offset: u32,
    /// Number of indices to use
    index_count: u32,
    /// Material to be used in drawing, as an index within the object
    material_index: ShortIndex,
    /// Vertices to use, as an index within the object; may be absent
    vertices_index: ShortIndex,
    /// Type of the primitive
    primitive_type: PrimitiveType,
}

impl Primitive {
    /// The type of the primitive.
    pub closed spec fn spec_primitive_type(&self) -> PrimitiveType {
        self.primitive_type
    }

    /// The index of the vertices.
    pub closed spec fn spec_vertices_index(&self) -> ShortIndex {
        self.vertices_index
    }

    /// The index of the material.
    pub closed spec fn spec_material_index(&self) -> ShortIndex {
        self.material_index
    }

    /// The number of indices.
    pub closed spec fn spec_index_count(&self) -> u32 {
        self.index_count
    }

    /// The byte offset of the first index.
    pub closed spec fn spec_byte_offset(&self) -> u32 {
        self.byte_offset
    }

    /// Create a new primitive.
    pub fn new(
        primitive_type: PrimitiveType,
        vertices_index: ShortIndex,
        byte_offset: u32,
        index_count: u32,
        material_index: ShortIndex,
    ) -> (p: Self)
        ensures
            p.spec_primitive_type() == primitive_type,
            p.spec_vertices_index() == vertices_index,
            p.spec_byte_offset() == byte_offset,
            p.spec_index_count() == index_count,
            p.spec_material_index() == material_index,
    {
        Primitive { byte_offset, index_count, material_index, vertices_index, primitive_type }
    }

    /// Retrieve the data for the vertices in the primitive: the vertices
    /// index if there is one, the byte offset, and the index count.
    pub fn vertices(&self) -> (v: (Option<usize>, u32, u32))
        ensures
            v.0.is_some() == self.spec_vertices_index()@.is_some(),
            v.0 matches Some(n) ==> self.spec_vertices_index()@ == Some(n as nat),
            v.1 == self.spec_byte_offset(),
            v.2 == self.spec_index_count(),
    {
        (self.vertices_index.as_option(), self.byte_offset, self.index_count)
    }

    /// Retrieve the material for the primitive, as an index within the object.
    pub fn material(&self) -> (m: ShortIndex)
        ensures
            m == self.spec_material_index(),
    {
        self.material_index
    }

    /// Retrieve the type of the primitive.
    pub fn primitive_type(&self) -> (t: PrimitiveType)
        ensures
            t == self.spec_primitive_type(),
    {
        self.primitive_type
    }

    /// Retrieve the index into the vertices of the object that this
    /// primitive uses.
    pub fn vertices_index(&self) -> (v: ShortIndex)
        ensures
            v == self.spec_vertices_index(),
    {
        self.vertices_index
    }

    /// Retrieve the index into the materials of the object that this
    /// primitive uses.
    pub fn material_index(&self) -> (m: ShortIndex)
        ensures
            m == self.spec_material_index(),
    {
        self.material_index
    }

    /// Get the number of indices required to draw this primitive.
    pub fn index_count(&self) -> (n: u32)
        ensures
            n == self.spec_index_count(),
    {
        self.index_count
    }

    /// Get the byte offset within the indices to the first byte used by
    /// this primitive.
    pub fn byte_offset(&self) -> (n: u32)
        ensures
            n == self.spec_byte_offset(),
    {
        self.byte_offset
    }
}

} // verus!
