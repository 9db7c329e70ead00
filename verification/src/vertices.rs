//! The vertices of a model: its indices, its positions and its other
//! attributes, each an accessor of buffer data.

use vstd::prelude::*;
use crate::buffer_accessor::BufferAccessor;
use crate::types::VertexAttr;

verus! {

/// The position of the first entry of `attrs` for `attr`, if there is one.
pub open spec fn first_attr<'v>(
    attrs: Seq<(VertexAttr, &'v BufferAccessor<'v>)>,
    attr: VertexAttr,
) -> Option<int> {
    if exists|i: int| 0 <= i < attrs.len() && (#[trigger] attrs[i]).0 == attr {
        Some(
            choose|i: int|
                0 <= i < attrs.len() && (#[trigger] attrs[i]).0 == attr && forall|j: int|
                    0 <= j < i ==> (#[trigger] attrs[j]).0 != attr,
        )
    } else {
        None
    }
}

/// A set of vertices: an accessor for the indices, one for the positions,
/// and one for each further attribute that the model provides.
pub struct Vertices<'vertices> {
    /// The indices of the vertices
    indices: &'vertices BufferAccessor<'vertices>,
    /// The positions of the vertices
    position: &'vertices BufferAccessor<'vertices>,
    /// The other attributes, in the order in which they were added
    attrs: Vec<(VertexAttr, &'vertices BufferAccessor<'vertices>)>,
}

impl<'vertices> Vertices<'vertices> {
    /// The accessor of the indices.
    pub closed spec fn spec_indices(&self) -> &'vertices BufferAccessor<'vertices> {
        self.indices
    }

    /// The accessor of the positions.
    pub closed spec fn spec_position(&self) -> &'vertices BufferAccessor<'vertices> {
        self.position
    }

    /// The other attributes, in the order in which they were added.
    pub closed spec fn spec_attrs(&self) -> Seq<(VertexAttr, &'vertices BufferAccessor<'vertices>)> {
        self.attrs@
    }

    /// Create a new set of vertices, which must have indices and positions.
    pub fn new(
        indices: &'vertices BufferAccessor<'vertices>,
        position: &'vertices BufferAccessor<'vertices>,
    ) -> (v: Self)
        ensures
            v.spec_indices() == indices,
            v.spec_position() == position,
            v.spec_attrs().len() == 0,
    {
        Vertices { indices, position, attrs: Vec::new() }
    }

    /// Add an accessor for an attribute, after those already there.
    pub fn add_attr(&mut self, attr: VertexAttr, accessor: &'vertices BufferAccessor<'vertices>)
        ensures
            final(self).spec_indices() == old(self).spec_indices(),
            final(self).spec_position() == old(self).spec_position(),
            final(self).spec_attrs() == old(self).spec_attrs().push((attr, accessor)),
    {
        self.attrs.push((attr, accessor));
    }

    /// Borrow the accessor of the indices.
    pub fn borrow_indices<'a>(&'a self) -> (a: &'a BufferAccessor<'vertices>)
        ensures
            a == self.spec_indices(),
    {
        self.indices
    }

    /// Borrow the accessor of the positions.
    pub fn borrow_position<'a>(&'a self) -> (a: &'a BufferAccessor<'vertices>)
        ensures
            a == self.spec_position(),
    {
        self.position
    }

    /// Borrow the accessor of an attribute: the first that was added for it,
    /// or `None` if none was.
    pub fn borrow_attr<'a>(&'a self, attr: VertexAttr) -> (r: Option<
        &'a BufferAccessor<'vertices>,
    >)
        ensures
            match first_attr(self.spec_attrs(), attr) {
                Some(i) => r == Some(self.spec_attrs()[i].1),
                None => r.is_none(),
            },
            r.is_some() <==> exists|i: int|
                0 <= i < self.spec_attrs().len() && (#[trigger] self.spec_attrs()[i]).0 == attr,
    {
        let n = self.attrs.len();
        let mut i: usize = 0;
        while i < n
            invariant
                i <= n,
                n == self.attrs@.len(),
                forall|j: int| 0 <= j < i ==> (#[trigger] self.attrs@[j]).0 != attr,
            decreases n - i,
        {
            if self.attrs[i].0 == attr {
                proof {
                    let attrs = self.attrs@;
                    let w = i as int;
                    assert(attrs[w].0 == attr);
                    let c = first_attr(attrs, attr).unwrap();
                    assert(0 <= c < attrs.len() && attrs[c].0 == attr && forall|j: int|
                        0 <= j < c ==> (#[trigger] attrs[j]).0 != attr);
                    assert(c == w) by {
                        if c < w {
                            assert(attrs[c].0 != attr);
                        }
                        if w < c {
                            assert(attrs[w].0 != attr);
                        }
                    }
                }
                return Some(self.attrs[i].1);
            }
            i += 1;
        }
        None
    }

    /// Borrow the attributes and their accessors, in the order in which they
    /// were added.
    pub fn iter_attrs(&self) -> (a: &Vec<(VertexAttr, &'vertices BufferAccessor<'vertices>)>)
        ensures
            a@ == self.spec_attrs(),
    {
        &self.attrs
    }
}

} // verus!
