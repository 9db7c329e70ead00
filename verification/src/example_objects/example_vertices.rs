//! A builder for the vertices of example objects: it owns byte buffers and
//! describes, by index, the buffer data, accessors and vertices that are
//! made of them.

use vstd::prelude::*;
use crate::buffer_accessor::BufferAccessor;
use crate::buffer_data::BufferData;
use crate::byte_buffer::ByteBuffer;
use crate::types::{BufferElementType, VertexAttr};
use crate::vertices::Vertices;

verus! {

/// The byte buffers of an example object, by index.
pub struct Buffers {
    /// The buffers
    buffers: Vec<Vec<u8>>,
}

impl View for Buffers {
    type V = Seq<Seq<u8>>;

    closed spec fn view(&self) -> Seq<Seq<u8>> {
        Seq::new(self.buffers@.len(), |i: int| self.buffers@[i]@)
    }
}

impl Buffers {
    /// Create an empty set of buffers.
    pub fn new() -> (b: Self)
        ensures
            b@.len() == 0,
    {
        Buffers { buffers: Vec::new() }
    }

    /// Return the number of buffers.
    pub fn len(&self) -> (n: usize)
        ensures
            n == self@.len(),
    {
        self.buffers.len()
    }

    /// Add a buffer and return its index.
    pub fn push(&mut self, buffer: Vec<u8>) -> (n: usize)
        ensures
            n == old(self)@.len(),
            final(self)@ == old(self)@.push(buffer@),
    {
        let n = self.buffers.len();
        self.buffers.push(buffer);
        assert(self@ =~= old(self)@.push(buffer@));
        n
    }

    /// Borrow the buffer with a given index, which must be one that `push`
    /// returned.
    pub fn buffer(&self, n: usize) -> (b: &Vec<u8>)
        requires
            n < self@.len(),
        ensures
            b@ == self@[n as int],
    {
        &self.buffers[n]
    }
}

/// A part of one of the buffers.
#[derive(Debug, Clone, Copy, PartialEq, Eq, Structural)]
pub struct DataPart {
    /// The index of the buffer
    pub buffer: usize,
    /// Offset of the part within the buffer
    pub byte_offset: u32,
    /// Length of the part in bytes
    pub byte_length: u32,
}

/// An accessor of one of the parts.
#[derive(Debug, Clone, Copy, PartialEq, Eq, Structural)]
pub struct AccessorPart {
    /// The index of the part
    pub data: usize,
    /// Number of elements that make up one item
    pub count: u32,
    /// The type of each element
    pub ele_type: BufferElementType,
    /// Offset from the start of the part to the first byte of interest
    pub byte_offset: u32,
    /// Stride of the items; 0 stands for the size of one item
    pub stride: u32,
}

/// The parts of buffers and the accessors of an example object, by index.
pub struct DataAccessors {
    /// The parts
    data: Vec<DataPart>,
    /// The accessors
    accessors: Vec<AccessorPart>,
}

impl DataAccessors {
    /// The parts, by index.
    pub closed spec fn parts(&self) -> Seq<DataPart> {
        self.data@
    }

    /// The accessors, by index.
    pub closed spec fn accessor_parts(&self) -> Seq<AccessorPart> {
        self.accessors@
    }

    /// Every part lies inside its buffer, and every accessor names a part.
    pub open spec fn wf(&self, buffers: Seq<Seq<u8>>) -> bool {
        &&& forall|i: int|
            0 <= i < self.parts().len() ==> {
                &&& (#[trigger] self.parts()[i]).buffer < buffers.len()
                &&& buffers[self.parts()[i].buffer as int].len() <= u32::MAX
                &&& self.parts()[i].byte_length > 0
                &&& self.parts()[i].byte_offset + self.parts()[i].byte_length
                    <= buffers[self.parts()[i].buffer as int].len()
            }
        &&& forall|i: int|
            0 <= i < self.accessor_parts().len() ==> (#[trigger] self.accessor_parts()[i]).data
                < self.parts().len()
    }

    /// Create an empty set.
    pub fn new() -> (d: Self)
        ensures
            d.parts().len() == 0,
            d.accessor_parts().len() == 0,
    {
        DataAccessors { data: Vec::new(), accessors: Vec::new() }
    }

    /// Add the part of a buffer that starts at `byte_offset` and is
    /// `byte_length` bytes long, and return its index. A length of 0 takes
    /// all that follows the offset, which must be at least one byte. The
    /// part must lie inside the buffer, whose length must fit in 32 bits.
    pub fn push_buffer_data(
        &mut self,
        buffers: &Buffers,
        buffer_n: usize,
        byte_offset: u32,
        byte_length: u32,
    ) -> (n: usize)
        requires
            old(self).wf(buffers@),
            buffer_n < buffers@.len(),
            buffers@[buffer_n as int].len() <= u32::MAX,
            byte_offset + byte_length <= buffers@[buffer_n as int].len(),
            byte_length == 0 ==> byte_offset < buffers@[buffer_n as int].len(),
        ensures
            final(self).wf(buffers@),
            n == old(self).parts().len(),
            final(self).accessor_parts() == old(self).accessor_parts(),
            final(self).parts() == old(self).parts().push(
                DataPart {
                    buffer: buffer_n,
                    byte_offset,
                    byte_length: if byte_length == 0 {
                        (buffers@[buffer_n as int].len() - byte_offset) as u32
                    } else {
                        byte_length
                    },
                },
            ),
    {
        let n = self.data.len();
        let byte_length = if byte_length == 0 {
            (buffers.buffer(buffer_n).byte_length() as u32) - byte_offset
        } else {
            byte_length
        };
        self.data.push(DataPart { buffer: buffer_n, byte_offset, byte_length });
        proof {
            assert forall|i: int| 0 <= i < self.parts().len() implies {
                &&& (#[trigger] self.parts()[i]).buffer < buffers@.len()
                &&& buffers@[self.parts()[i].buffer as int].len() <= u32::MAX
                &&& self.parts()[i].byte_length > 0
                &&& self.parts()[i].byte_offset + self.parts()[i].byte_length
                    <= buffers@[self.parts()[i].buffer as int].len()
            } by {
                if i < n {
                    assert(self.parts()[i] == old(self).parts()[i]);
                }
            }
        }
        n
    }

    /// Add an accessor of a part and return its index. The part must be one
    /// that `push_buffer_data` returned.
    pub fn push_accessor(
        &mut self,
        data: usize,
        num: u32,
        et: BufferElementType,
        ofs: u32,
        stride: u32,
    ) -> (n: usize)
        requires
            data < old(self).parts().len(),
        ensures
            n == old(self).accessor_parts().len(),
            final(self).parts() == old(self).parts(),
            final(self).accessor_parts() == old(self).accessor_parts().push(
                AccessorPart { data, count: num, ele_type: et, byte_offset: ofs, stride },
            ),
            forall|buffers: Seq<Seq<u8>>| old(self).wf(buffers) ==> #[trigger] final(self).wf(buffers),
    {
        let n = self.accessors.len();
        self.accessors.push(
            AccessorPart { data, count: num, ele_type: et, byte_offset: ofs, stride },
        );
        proof {
            assert forall|buffers: Seq<Seq<u8>>| old(self).wf(buffers) implies #[trigger] self.wf(
                buffers,
            ) by {
                assert forall|i: int| 0 <= i < self.accessor_parts().len() implies (
                #[trigger] self.accessor_parts()[i]).data < self.parts().len() by {
                    if i < n {
                        assert(self.accessor_parts()[i] == old(self).accessor_parts()[i]);
                    }
                }
            }
        }
        n
    }

    /// Return the description of an accessor, which must be one that
    /// `push_accessor` returned.
    pub fn accessor(&self, n: usize) -> (a: AccessorPart)
        requires
            n < self.accessor_parts().len(),
        ensures
            a == self.accessor_parts()[n as int],
    {
        self.accessors[n]
    }

    /// Return the number of accessors.
    pub fn accessor_count(&self) -> (n: usize)
        ensures
            n == self.accessor_parts().len(),
    {
        self.accessors.len()
    }

    /// Borrow every part from its buffer, in the order of the parts.
    pub fn buffer_data<'a>(&self, buffers: &'a Buffers) -> (out: Vec<BufferData<'a>>)
        requires
            self.wf(buffers@),
        ensures
            out@.len() == self.parts().len(),
            forall|i: int|
                0 <= i < out@.len() ==> {
                    &&& (#[trigger] out@[i]).wf()
                    &&& out@[i].source() == buffers@[self.parts()[i].buffer as int]
                    &&& out@[i].spec_byte_offset() == self.parts()[i].byte_offset
                    &&& out@[i].spec_byte_length() == self.parts()[i].byte_length
                },
    {
        let mut out: Vec<BufferData<'a>> = Vec::new();
        let n = self.data.len();
        let mut i: usize = 0;
        while i < n
            invariant
                i <= n,
                n == self.parts().len(),
                self.wf(buffers@),
                out@.len() == i,
                forall|j: int|
                    0 <= j < i ==> {
                        &&& (#[trigger] out@[j]).wf()
                        &&& out@[j].source() == buffers@[self.parts()[j].buffer as int]
                        &&& out@[j].spec_byte_offset() == self.parts()[j].byte_offset
                        &&& out@[j].spec_byte_length() == self.parts()[j].byte_length
                    },
            decreases n - i,
        {
            let part = self.data[i];
            assert(part == self.parts()[i as int]);
            let data = BufferData::new(buffers.buffer(part.buffer), part.byte_offset, part.byte_length);
            out.push(data);
            i += 1;
        }
        out
    }

    /// Make every accessor on the parts that `buffer_data` borrowed, in the
    /// order of the accessors.
    pub fn buffer_accessors<'a>(&self, data: &'a Vec<BufferData<'a>>) -> (out: Vec<
        BufferAccessor<'a>,
    >)
        requires
            data@.len() == self.parts().len(),
            forall|i: int|
                0 <= i < self.accessor_parts().len() ==> (#[trigger] self.accessor_parts()[i]).data
                    < self.parts().len(),
        ensures
            out@.len() == self.accessor_parts().len(),
            forall|i: int|
                0 <= i < out@.len() ==> {
                    &&& *(#[trigger] out@[i]).data == data@[self.accessor_parts()[i].data as int]
                    &&& out@[i].elements_per_data == self.accessor_parts()[i].count
                    &&& out@[i].ele_type == self.accessor_parts()[i].ele_type
                    &&& out@[i].byte_offset == self.accessor_parts()[i].byte_offset
                    &&& out@[i].stride == self.accessor_parts()[i].stride
                },
    {
        let mut out: Vec<BufferAccessor<'a>> = Vec::new();
        let n = self.accessors.len();
        let mut i: usize = 0;
        while i < n
            invariant
                i <= n,
                n == self.accessor_parts().len(),
                data@.len() == self.parts().len(),
                forall|j: int|
                    0 <= j < self.accessor_parts().len() ==> (
                    #[trigger] self.accessor_parts()[j]).data < self.parts().len(),
                out@.len() == i,
                forall|j: int|
                    0 <= j < i ==> {
                        &&& *(#[trigger] out@[j]).data == data@[self.accessor_parts()[j].data as int]
                        &&& out@[j].elements_per_data == self.accessor_parts()[j].count
                        &&& out@[j].ele_type == self.accessor_parts()[j].ele_type
                        &&& out@[j].byte_offset == self.accessor_parts()[j].byte_offset
                        &&& out@[j].stride == self.accessor_parts()[j].stride
                    },
            decreases n - i,
        {
            let part = self.accessors[i];
            assert(part == self.accessor_parts()[i as int]);
            let accessor = BufferAccessor::new(
                &data[part.data],
                part.count,
                part.ele_type,
                part.byte_offset,
                part.stride,
            );
            out.push(accessor);
            i += 1;
        }
        out
    }
}

/// The accessors that make up one set of vertices, by index.
pub struct VerticesPart {
    /// The accessor of the indices
    pub indices: usize,
    /// The accessor of the positions
    pub positions: usize,
    /// The accessors of the other attributes
    pub attrs: Vec<(VertexAttr, usize)>,
}

impl VerticesPart {
    /// Every accessor that the set names is below `count`.
    pub open spec fn wf(&self, count: nat) -> bool {
        &&& self.indices < count
        &&& self.positions < count
        &&& forall|i: int| 0 <= i < self.attrs@.len() ==> (#[trigger] self.attrs@[i]).1 < count
    }
}

/// The vertices of example objects: byte buffers, and what is made of them.
pub struct ExampleVertices {
    /// The buffers
    buffers: Buffers,
    /// The parts of the buffers, and their accessors
    accessors: DataAccessors,
    /// The sets of vertices
    vertices: Vec<VerticesPart>,
}

impl ExampleVertices {
    /// The buffers.
    pub closed spec fn spec_buffers(&self) -> Buffers {
        self.buffers
    }

    /// The parts of the buffers, and their accessors.
    pub closed spec fn spec_accessors(&self) -> DataAccessors {
        self.accessors
    }

    /// The sets of vertices, by index.
    pub closed spec fn spec_vertices(&self) -> Seq<VerticesPart> {
        self.vertices@
    }

    /// Every part lies inside its buffer, every accessor names a part, and
    /// every set of vertices names accessors.
    pub open spec fn wf(&self) -> bool {
        &&& self.spec_accessors().wf(self.spec_buffers()@)
        &&& forall|i: int|
            0 <= i < self.spec_vertices().len() ==> (#[trigger] self.spec_vertices()[i]).wf(
                self.spec_accessors().accessor_parts().len(),
            )
    }

    /// Create a new, empty builder.
    pub fn new() -> (e: Self)
        ensures
            e.wf(),
            e.spec_buffers()@.len() == 0,
            e.spec_accessors().parts().len() == 0,
            e.spec_accessors().accessor_parts().len() == 0,
            e.spec_vertices().len() == 0,
    {
        ExampleVertices {
            buffers: Buffers::new(),
            accessors: DataAccessors::new(),
            vertices: Vec::new(),
        }
    }

    /// Add a buffer, which must not be empty and whose length must fit in 32
    /// bits, and all of it as a part; return the index of the part.
    pub fn push_byte_buffer(&mut self, buffer: Vec<u8>) -> (n: usize)
        requires
            old(self).wf(),
            0 < buffer@.len() <= u32::MAX,
        ensures
            final(self).wf(),
            n == old(self).spec_accessors().parts().len(),
            final(self).spec_buffers()@ == old(self).spec_buffers()@.push(buffer@),
            final(self).spec_accessors().parts() == old(self).spec_accessors().parts().push(
                DataPart {
                    buffer: old(self).spec_buffers()@.len() as usize,
                    byte_offset: 0,
                    byte_length: buffer@.len() as u32,
                },
            ),
            final(self).spec_accessors().accessor_parts() == old(self).spec_accessors().accessor_parts(),
            final(self).spec_vertices() == old(self).spec_vertices(),
    {
        let ghost before = self.buffers@;
        let buffer_n = self.buffers.push(buffer);
        proof {
            let now = self.buffers@;
            assert forall|i: int| 0 <= i < self.accessors.parts().len() implies {
                &&& (#[trigger] self.accessors.parts()[i]).buffer < now.len()
                &&& now[self.accessors.parts()[i].buffer as int].len() <= u32::MAX
                &&& self.accessors.parts()[i].byte_length > 0
                &&& self.accessors.parts()[i].byte_offset + self.accessors.parts()[i].byte_length
                    <= now[self.accessors.parts()[i].buffer as int].len()
            } by {
                let b = self.accessors.parts()[i].buffer as int;
                assert(b < before.len());
                assert(now[b] == before[b]);
            }
        }
        let n = self.accessors.push_buffer_data(&self.buffers, buffer_n, 0, 0);
        proof {
            assert forall|i: int| 0 <= i < self.spec_vertices().len() implies (
            #[trigger] self.spec_vertices()[i]).wf(
                self.spec_accessors().accessor_parts().len(),
            ) by {
                assert(old(self).spec_vertices()[i].wf(
                    old(self).spec_accessors().accessor_parts().len(),
                ));
            }
        }
        n
    }

    /// Add an accessor of a part and return its index. The part must be one
    /// that `push_byte_buffer` returned.
    pub fn push_accessor(
        &mut self,
        data: usize,
        num: u32,
        et: BufferElementType,
        ofs: u32,
        stride: u32,
    ) -> (n: usize)
        requires
            old(self).wf(),
            data < old(self).spec_accessors().parts().len(),
        ensures
            final(self).wf(),
            n == old(self).spec_accessors().accessor_parts().len(),
            final(self).spec_buffers() == old(self).spec_buffers(),
            final(self).spec_accessors().parts() == old(self).spec_accessors().parts(),
            final(self).spec_accessors().accessor_parts() == old(self).spec_accessors().accessor_parts().push(
                AccessorPart { data, count: num, ele_type: et, byte_offset: ofs, stride },
            ),
            final(self).spec_vertices() == old(self).spec_vertices(),
    {
        let n = self.accessors.push_accessor(data, num, et, ofs, stride);
        proof {
            assert forall|i: int| 0 <= i < self.spec_vertices().len() implies (
            #[trigger] self.spec_vertices()[i]).wf(
                self.spec_accessors().accessor_parts().len(),
            ) by {
                assert(old(self).spec_vertices()[i].wf(
                    old(self).spec_accessors().accessor_parts().len(),
                ));
            }
        }
        n
    }

    /// Add a set of vertices made of the accessor of its indices, that of
    /// its positions, and those of its other attributes, and return its
    /// index. Each accessor must be one that `push_accessor` returned.
    pub fn push_vertices(
        &mut self,
        indices: usize,
        positions: usize,
        attrs: &[(VertexAttr, usize)],
    ) -> (n: usize)
        requires
            old(self).wf(),
            indices < old(self).spec_accessors().accessor_parts().len(),
            positions < old(self).spec_accessors().accessor_parts().len(),
            forall|i: int|
                0 <= i < attrs@.len() ==> (#[trigger] attrs@[i]).1 < old(self).spec_accessors().accessor_parts().len(),
        ensures
            final(self).wf(),
            n == old(self).spec_vertices().len(),
            final(self).spec_buffers() == old(self).spec_buffers(),
            final(self).spec_accessors() == old(self).spec_accessors(),
            final(self).spec_vertices().len() == n + 1,
            forall|i: int|
                0 <= i < n ==> final(self).spec_vertices()[i] == old(self).spec_vertices()[i],
            final(self).spec_vertices()[n as int].indices == indices,
            final(self).spec_vertices()[n as int].positions == positions,
            final(self).spec_vertices()[n as int].attrs@ == attrs@,
    {
        let n = self.vertices.len();
        let mut list: Vec<(VertexAttr, usize)> = Vec::new();
        let mut i: usize = 0;
        while i < attrs.len()
            invariant
                i <= attrs@.len(),
                list@ == attrs@.take(i as int),
            decreases attrs@.len() - i,
        {
            list.push(attrs[i]);
            assert(list@ =~= attrs@.take(i + 1));
            i += 1;
        }
        assert(attrs@.take(attrs@.len() as int) =~= attrs@);
        self.vertices.push(VerticesPart { indices, positions, attrs: list });
        proof {
            assert forall|j: int| 0 <= j < self.spec_vertices().len() implies (
            #[trigger] self.spec_vertices()[j]).wf(
                self.spec_accessors().accessor_parts().len(),
            ) by {
                if j < n {
                    assert(self.spec_vertices()[j] == old(self).spec_vertices()[j]);
                }
            }
        }
        n
    }

    /// Borrow the buffers.
    pub fn borrow_buffers(&self) -> (b: &Buffers)
        ensures
            *b == self.spec_buffers(),
    {
        &self.buffers
    }

    /// Borrow the parts of the buffers and their accessors.
    pub fn borrow_accessors(&self) -> (a: &DataAccessors)
        ensures
            *a == self.spec_accessors(),
    {
        &self.accessors
    }

    /// Make the set of vertices with a given index, which must be one that
    /// `push_vertices` returned, on the accessors that `buffer_accessors`
    /// made.
    pub fn borrow_vertices<'a>(&self, accessors: &'a Vec<BufferAccessor<'a>>, vertices: usize) -> (v:
        Vertices<'a>)
        requires
            self.wf(),
            vertices < self.spec_vertices().len(),
            accessors@.len() == self.spec_accessors().accessor_parts().len(),
        ensures
            *v.spec_indices() == accessors@[self.spec_vertices()[vertices as int].indices as int],
            *v.spec_position() == accessors@[self.spec_vertices()[vertices as int].positions as int],
            v.spec_attrs().len() == self.spec_vertices()[vertices as int].attrs@.len(),
            forall|i: int|
                0 <= i < v.spec_attrs().len() ==> {
                    &&& (#[trigger] v.spec_attrs()[i]).0
                        == self.spec_vertices()[vertices as int].attrs@[i].0
                    &&& *v.spec_attrs()[i].1
                        == accessors@[self.spec_vertices()[vertices as int].attrs@[i].1 as int]
                },
    {
        let part = &self.vertices[vertices];
        assert(part.wf(accessors@.len()));
        let mut v = Vertices::new(&accessors[part.indices], &accessors[part.positions]);
        let n = part.attrs.len();
        let mut i: usize = 0;
        while i < n
            invariant
                i <= n,
                n == part.attrs@.len(),
                part.wf(accessors@.len()),
                *v.spec_indices() == accessors@[part.indices as int],
                *v.spec_position() == accessors@[part.positions as int],
                v.spec_attrs().len() == i,
                forall|j: int|
                    0 <= j < i ==> {
                        &&& (#[trigger] v.spec_attrs()[j]).0 == part.attrs@[j].0
                        &&& *v.spec_attrs()[j].1 == accessors@[part.attrs@[j].1 as int]
                    },
            decreases n - i,
        {
            let (attr, accessor) = part.attrs[i];
            v.add_attr(attr, &accessors[accessor]);
            i += 1;
        }
        v
    }
}

} // verus!
