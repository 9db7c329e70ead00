//! A part of a byte buffer that holds model data.

use vstd::prelude::*;
use vstd::slice::slice_subrange;
use crate::byte_buffer::ByteBuffer;

verus! {

/// A borrowed part of a byte buffer, given by an offset and a length. It may
/// hold floats, integers or a mix of them: accessors say what lies where.
pub struct BufferData<'a> {
    /// The whole buffer that the data is part of
    data: &'a [u8],
    /// Offset of the part within the buffer
    pub byte_offset: u32,
    /// Length of the part in bytes
    pub byte_length: u32,
}

impl<'a> BufferData<'a> {
    /// The whole buffer that the data is part of.
    pub closed spec fn source(&self) -> Seq<u8> {
        self.data@
    }

    /// The offset of the part within the buffer.
    pub closed spec fn spec_byte_offset(&self) -> u32 {
        self.byte_offset
    }

    /// The length of the part.
    pub closed spec fn spec_byte_length(&self) -> u32 {
        self.byte_length
    }

    /// The part lies inside the buffer.
    pub open spec fn wf(&self) -> bool {
        self.spec_byte_offset() + self.spec_byte_length() <= self.source().len()
    }

    /// The bytes of the part.
    pub open spec fn view(&self) -> Seq<u8> {
        self.source().subrange(
            self.spec_byte_offset() as int,
            self.spec_byte_offset() + self.spec_byte_length(),
        )
    }

    /// Create the part of `data` that starts at `byte_offset` and is
    /// `byte_length` bytes long; a length of 0 takes all that follows the
    /// offset. The part must lie inside the buffer, whose length must fit in
    /// 32 bits.
    pub fn new<B: ByteBuffer>(data: &'a B, byte_offset: u32, byte_length: u32) -> (b: Self)
        requires
            data.bytes().len() <= u32::MAX,
            byte_offset + byte_length <= data.bytes().len(),
        ensures
            b.wf(),
            b.source() == data.bytes(),
            b.spec_byte_offset() == byte_offset,
            b.spec_byte_length() == (if byte_length == 0 {
                data.bytes().len() - byte_offset
            } else {
                byte_length as int
            }),
    {
        let byte_length = if byte_length == 0 {
            (data.byte_length() as u32) - byte_offset
        } else {
            byte_length
        };
        let data = data.borrow_bytes();
        BufferData { data, byte_offset, byte_length }
    }

    /// Borrow the bytes of the part.
    pub fn as_slice(&self) -> (s: &[u8])
        requires
            self.wf(),
        ensures
            s@ == self.view(),
    {
        let total = self.data.len();
        let start = self.byte_offset as usize;
        assert(start + self.byte_length <= total);
        let end = start + self.byte_length as usize;
        slice_subrange(self.data, start, end)
    }
}

} // verus!
