//! Data that can be borrowed as bytes.

use vstd::prelude::*;

verus! {

/// A buffer that model data can be taken from: anything that can be
/// borrowed as a slice of bytes.
pub trait ByteBuffer {
    /// The bytes of the buffer.
    spec fn bytes(&self) -> Seq<u8>;

    /// Get the length of the data buffer in bytes.
    fn byte_length(&self) -> (n: usize)
        ensures
            n == self.bytes().len(),
    ;

    /// Borrow the data as an array of bytes.
    fn borrow_bytes(&self) -> (b: &[u8])
        ensures
            b@ == self.bytes(),
    ;
}

impl ByteBuffer for Vec<u8> {
    open spec fn bytes(&self) -> Seq<u8> {
        self@
    }

    fn byte_length(&self) -> (n: usize) {
        self.len()
    }

    fn borrow_bytes(&self) -> (b: &[u8]) {
        self.as_slice()
    }
}

} // verus!
