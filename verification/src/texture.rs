//! A texture: borrowed bytes with their dimensions and element type.

use vstd::prelude::*;
use crate::types::BufferElementType;

verus! {

/// A texture of up to three dimensions, held as borrowed bytes.
pub struct Texture<'texture> {
    /// The bytes of the texture
    pub data: &'texture [u8],
    /// Width, height and depth; a depth of 0 makes it two-dimensional, and a
    /// height of 0 one-dimensional
    pub dims: (usize, usize, usize),
    /// Number of elements per texel
    pub elements_per_data: u32,
    /// The type of each element
    pub ele_type: BufferElementType,
}

impl<'texture> Texture<'texture> {
    /// Create a new texture.
    pub fn new(
        data: &'texture [u8],
        dims: (usize, usize, usize),
        ele_type: BufferElementType,
        elements_per_data: u32,
    ) -> (t: Self)
        ensures
            t.data@ == data@,
            t.dims == dims,
            t.ele_type == ele_type,
            t.elements_per_data == elements_per_data,
    {
        Texture { data, dims, elements_per_data, ele_type }
    }

    /// Get the dimensions of the texture.
    pub fn dims(&self) -> (d: &(usize, usize, usize))
        ensures
            *d == self.dims,
    {
        &self.dims
    }

    /// Get the bytes of the texture.
    pub fn data(&self) -> (d: &[u8])
        ensures
            d@ == self.data@,
    {
        self.data
    }

    /// Get the number of elements per texel and the type of each element.
    pub fn data_type(&self) -> (t: (u32, BufferElementType))
        ensures
            t.0 == self.elements_per_data,
            t.1 == self.ele_type,
    {
        (self.elements_per_data, self.ele_type)
    }
}

} // verus!
