//! Small value types shared by the whole library.

use vstd::prelude::*;

verus! {

/// The type of an element in a buffer.
#[derive(Debug, Clone, Copy, PartialEq, Eq, Structural)]
pub enum BufferElementType {
    /// 32-bit floating point
    Float32,
    /// 16-bit floating point
    Float16,
    /// 8-bit integers
    Int8,
    /// 16-bit integers
    Int16,
    /// 32-bit integers
    Int32,
}

impl BufferElementType {
    /// The number of bytes that one element of this type occupies.
    pub open spec fn spec_byte_length(self) -> nat {
        match self {
            BufferElementType::Float32 => 4,
            BufferElementType::Float16 => 2,
            BufferElementType::Int8 => 1,
            BufferElementType::Int16 => 2,
            BufferElementType::Int32 => 4,
        }
    }

    /// Get the length in bytes of the element type.
    pub fn byte_length(self) -> (n: usize)
        ensures
            n == self.spec_byte_length(),
    {
        match self {
            BufferElementType::Float32 => 4,
            BufferElementType::Float16 => 2,
            BufferElementType::Int8 => 1,
            BufferElementType::Int16 => 2,
            BufferElementType::Int32 => 4,
        }
    }
}

/// A vertex attribute that a renderer can use; a vertex always has a
/// position, the other attributes may or may not be provided by a model.
#[derive(Debug, Clone, Copy, PartialEq, Eq, Structural)]
pub enum VertexAttr {
    /// Indices
    Indices,
    /// Position of the point
    Position,
    /// Normal at the point
    Normal,
    /// Color at the point
    Color,
    /// Tangent at the point
    Tangent,
    /// A set of joints
    Joints,
    /// Weights to apply to each joint
    Weights,
    /// Texture coordinates, first set
    TexCoords0,
    /// Texture coordinates, second set
    TexCoords1,
    /// Texture coordinates, third set
    TexCoords2,
}

/// Type of a primitive, in the order that glTF gives them.
#[derive(Debug, Clone, Copy, PartialEq, Eq, Structural)]
pub enum PrimitiveType {
    /// Points
    Points,
    /// Lines (ab, cd, ef, ...)
    Lines,
    /// Closed loop of lines (ab, bc, ..., za)
    LineLoop,
    /// Connected lines (ab, bc, cd, ...)
    LineStrip,
    /// Individual triangles, one for every three indices
    Triangles,
    /// Strip of triangles (abc, bcd, cde, ...)
    TriangleStrip,
    /// Fan of triangles (abc, acd, ade, ...)
    TriangleFan,
}

impl Default for PrimitiveType {
    fn default() -> (t: Self)
        ensures
            t == PrimitiveType::Triangles,
    {
        PrimitiveType::Triangles
    }
}

/// The aspect of a material.
#[derive(Debug, Clone, Copy, PartialEq, Eq, Structural)]
pub enum MaterialAspect {
    /// Color
    Color,
    /// Normal
    Normal,
    /// Metallic and roughness
    MetallicRoughness,
    /// Occlusion
    Occlusion,
    /// Emission
    Emission,
}

/// The raw value that stands for an absent index.
pub const SHORT_INDEX_NONE: u16 = 65535;

/// An optional index below 65535, kept in sixteen bits.
///
/// It indexes the vectors of textures, vertices and materials of an object;
/// the value 65535 stands for "no index".
#[derive(Debug, Clone, Copy, PartialEq, Eq, Structural)]
pub struct ShortIndex(u16);

impl View for ShortIndex {
    type V = Option<nat>;

    /// `None` for the absent index, else the index itself.
    open spec fn view(&self) -> Option<nat> {
        if self.raw() == SHORT_INDEX_NONE {
            None
        } else {
            Some(self.raw() as nat)
        }
    }
}

impl Default for ShortIndex {
    fn default() -> (s: Self)
        ensures
            s@ == None::<nat>,
    {
        ShortIndex(SHORT_INDEX_NONE)
    }
}

impl From<ShortIndex> for Option<usize> {
    /// The index as an option.
    fn from(index: ShortIndex) -> (r: Option<usize>) {
        index.as_option()
    }
}

impl vstd::std_specs::convert::FromSpecImpl<ShortIndex> for Option<usize> {
    open spec fn obeys_from_spec() -> bool {
        true
    }

    open spec fn from_spec(index: ShortIndex) -> Option<usize> {
        match index@ {
            Some(n) => Some(n as usize),
            None => None,
        }
    }
}

impl ShortIndex {
    /// The sixteen bits that are stored.
    pub closed spec fn raw(self) -> u16 {
        self.0
    }

    /// The absent index.
    pub closed spec fn spec_none() -> ShortIndex {
        ShortIndex(SHORT_INDEX_NONE)
    }

    /// Create the absent index.
    pub fn none() -> (s: Self)
        ensures
            s@ == None::<nat>,
            s == Self::spec_none(),
    {
        ShortIndex(SHORT_INDEX_NONE)
    }

    /// Create a present index; `index` must be below 65535.
    pub fn of_usize(index: usize) -> (s: Self)
        requires
            index < 65535,
        ensures
            s@ == Some(index as nat),
    {
        ShortIndex(index as u16)
    }

    /// Create an index from an optional value, which must be below 65535
    /// where it is present.
    pub fn of_option(index: Option<usize>) -> (s: Self)
        requires
            index matches Some(i) ==> i < 65535,
        ensures
            s@ == match index {
                Some(i) => Some(i as nat),
                None => None,
            },
    {
        match index {
            Some(i) => ShortIndex(i as u16),
            None => ShortIndex(SHORT_INDEX_NONE),
        }
    }

    /// Return the index, which must be present.
    pub fn as_usize(self) -> (n: usize)
        requires
            self@.is_some(),
        ensures
            Some(n as nat) == self@,
    {
        self.0 as usize
    }

    /// Return the index as an option.
    pub fn as_option(self) -> (r: Option<usize>)
        ensures
            r.is_some() == self@.is_some(),
            r matches Some(n) ==> self@ == Some(n as nat),
            r == (match self@ {
                Some(n) => Some(n as usize),
                None => None,
            }),
    {
        if self.0 == SHORT_INDEX_NONE {
            None
        } else {
            Some(self.0 as usize)
        }
    }

    /// Return true if the index is absent.
    pub fn is_none(self) -> (b: bool)
        ensures
            b == self@.is_none(),
    {
        self.0 == SHORT_INDEX_NONE
    }

    /// Return true if the index is present.
    pub fn is_some(self) -> (b: bool)
        ensures
            b == self@.is_some(),
    {
        self.0 != SHORT_INDEX_NONE
    }
}

} // verus!
