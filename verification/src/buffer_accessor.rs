//! A view of buffer data as elements of one type.

use vstd::prelude::*;
use crate::buffer_data::BufferData;
use crate::types::BufferElementType;

verus! {

/// A subset of a `BufferData`: the positions of the vertices of a model,
/// say, or their texture coordinates.
pub struct BufferAccessor<'a> {
    /// The data that the accessor reads
    pub data: &'a BufferData<'a>,
    /// Number of elements that make up one item
    pub elements_per_data: u32,
    /// The type of each element
    pub ele_type: BufferElementType,
    /// Offset from the start of the data to the first byte of interest
    pub byte_offset: u32,
    /// Stride of the items; 0 stands for the size of one item
    pub stride: u32,
}

impl<'a> BufferAccessor<'a> {
    /// Create a new accessor of `data`: items of `count` elements of type
    /// `ele_type`, the first at `byte_offset`, one every `stride` bytes.
    pub fn new(
        data: &'a BufferData<'a>,
        count: u32,
        ele_type: BufferElementType,
        byte_offset: u32,
        stride: u32,
    ) -> (a: Self)
        ensures
            a.data == data,
            a.elements_per_data == count,
            a.ele_type == ele_type,
            a.byte_offset == byte_offset,
            a.stride == stride,
    {
        BufferAccessor { data, elements_per_data: count, ele_type, byte_offset, stride }
    }

    /// The number of bytes from one item to the next: the stride, or the
    /// size of an item where no stride was given.
    pub open spec fn spec_item_stride(&self) -> int {
        if self.stride == 0 {
            self.elements_per_data * self.ele_type.spec_byte_length()
        } else {
            self.stride as int
        }
    }

    /// Return the number of bytes from one item to the next, or `None` if it
    /// does not fit in 32 bits.
    pub fn item_stride(&self) -> (s: Option<u32>)
        ensures
            s.is_some() == (self.spec_item_stride() <= u32::MAX),
            s matches Some(n) ==> n == self.spec_item_stride(),
    {
        if self.stride == 0 {
            let size: u32 = match self.ele_type {
                BufferElementType::Float32 => 4,
                BufferElementType::Float16 => 2,
                BufferElementType::Int8 => 1,
                BufferElementType::Int16 => 2,
                BufferElementType::Int32 => 4,
            };
            self.elements_per_data.checked_mul(size)
        } else {
            Some(self.stride)
        }
    }
}

} // verus!
