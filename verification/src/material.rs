//! Abstract materials that any 3D model can use.

use vstd::prelude::*;
use crate::types::{MaterialAspect, ShortIndex};

verus! {

/// Four bytes packed into 32 bits, the first in the lowest byte.
pub open spec fn pack_rgba(r: u8, g: u8, b: u8, a: u8) -> u32 {
    (r as u32) | ((g as u32) << 8) | ((b as u32) << 16) | ((a as u32) << 24)
}

/// The byte of `word` that starts at bit `shift`.
pub open spec fn byte_at(word: u32, shift: u32) -> u8 {
    ((word >> shift) & 0xff) as u8
}

/// Packing four bytes and taking the word apart again gives them back.
pub proof fn lemma_pack_unpack(r: u8, g: u8, b: u8, a: u8)
    ensures
        byte_at(pack_rgba(r, g, b, a), 0) == r,
        byte_at(pack_rgba(r, g, b, a), 8) == g,
        byte_at(pack_rgba(r, g, b, a), 16) == b,
        byte_at(pack_rgba(r, g, b, a), 24) == a,
{
    assert((((r as u32) | ((g as u32) << 8) | ((b as u32) << 16) | ((a as u32) << 24)) >> 0u32)
        & 0xff == r as u32) by (bit_vector);
    assert((((r as u32) | ((g as u32) << 8) | ((b as u32) << 16) | ((a as u32) << 24)) >> 8u32)
        & 0xff == g as u32) by (bit_vector);
    assert((((r as u32) | ((g as u32) << 8) | ((b as u32) << 16) | ((a as u32) << 24)) >> 16u32)
        & 0xff == b as u32) by (bit_vector);
    assert((((r as u32) | ((g as u32) << 8) | ((b as u32) << 16) | ((a as u32) << 24)) >> 24u32)
        & 0xff == a as u32) by (bit_vector);
}

/// Taking a word apart and packing its four bytes gives the word back.
pub proof fn lemma_unpack_pack(word: u32)
    ensures
        pack_rgba(byte_at(word, 0), byte_at(word, 8), byte_at(word, 16), byte_at(word, 24))
            == word,
{
    assert(((((word >> 0u32) & 0xff) as u8) as u32) | (((((word >> 8u32) & 0xff) as u8) as u32)
        << 8) | (((((word >> 16u32) & 0xff) as u8) as u32) << 16) | (((((word >> 24u32)
        & 0xff) as u8) as u32) << 24) == word) by (bit_vector);
}

/// The basic data of a material, packed in four words.
#[derive(Debug, Clone, Copy, PartialEq, Eq, Structural)]
pub struct BaseData {
    /// Color: red, green, blue and alpha, red in the lowest byte
    pub rgba: u32,
    /// Metallic in the low half and roughness in the high half, each scaled
    /// to 16 bits
    pub metallic_roughness: u32,
    /// The emissive color: red, green and blue, red in the lowest byte
    pub emissive_rgb: u32,
    /// Reserved
    pub alpha_etc: u32,
}

impl Default for BaseData {
    fn default() -> (d: Self)
        ensures
            d == BaseData::spec_of_word(0xffff_ffff),
    {
        BaseData::of_word(0xffff_ffff)
    }
}

impl From<u32> for BaseData {
    /// Create the data from a packed color.
    fn from(rgba: u32) -> (d: Self) {
        BaseData { rgba, metallic_roughness: 0, emissive_rgb: 0, alpha_etc: 0 }
    }
}

impl vstd::std_specs::convert::FromSpecImpl<u32> for BaseData {
    open spec fn obeys_from_spec() -> bool {
        true
    }

    open spec fn from_spec(rgba: u32) -> Self {
        BaseData::spec_of_word(rgba)
    }
}

impl BaseData {
    /// The data with a packed color and nothing else.
    pub open spec fn spec_of_word(rgba: u32) -> BaseData {
        BaseData { rgba, metallic_roughness: 0, emissive_rgb: 0, alpha_etc: 0 }
    }

    /// Create the data from a packed color.
    pub fn of_word(rgba: u32) -> (d: Self)
        ensures
            d == Self::spec_of_word(rgba),
    {
        BaseData { rgba, metallic_roughness: 0, emissive_rgb: 0, alpha_etc: 0 }
    }

    /// Create the data from a color given as (red, green, blue, alpha).
    pub fn of_rgba(color: (u8, u8, u8, u8)) -> (d: Self)
        ensures
            d == Self::spec_of_word(pack_rgba(color.0, color.1, color.2, color.3)),
    {
        let (r, g, b, a) = color;
        let rgba: u32 = (r as u32) | ((g as u32) << 8) | ((b as u32) << 16) | ((a as u32) << 24);
        BaseData::of_word(rgba)
    }

    /// Set the color; the rest stays.
    pub fn set_rgba(&mut self, color: (u8, u8, u8, u8))
        ensures
            *final(self) == (BaseData {
                rgba: pack_rgba(color.0, color.1, color.2, color.3),
                ..*old(self)
            }),
    {
        let (r, g, b, a) = color;
        let rgba: u32 = (r as u32) | ((g as u32) << 8) | ((b as u32) << 16) | ((a as u32) << 24);
        self.rgba = rgba;
    }

    /// Set the emissive color; the rest stays.
    pub fn set_emissive_rgb(&mut self, color: (u8, u8, u8))
        ensures
            *final(self) == (BaseData {
                emissive_rgb: pack_rgba(color.0, color.1, color.2, 0),
                ..*old(self)
            }),
    {
        let (r, g, b) = color;
        let rgb: u32 = (r as u32) | ((g as u32) << 8) | ((b as u32) << 16);
        assert(((r as u32) | ((g as u32) << 8) | ((b as u32) << 16)) == ((r as u32) | ((g as u32)
            << 8) | ((b as u32) << 16) | ((0u8 as u32) << 24))) by (bit_vector);
        self.emissive_rgb = rgb;
    }

    /// Return the color as (red, green, blue, alpha).
    pub fn rgba_tuple(&self) -> (t: (u8, u8, u8, u8))
        ensures
            t.0 == byte_at(self.rgba, 0),
            t.1 == byte_at(self.rgba, 8),
            t.2 == byte_at(self.rgba, 16),
            t.3 == byte_at(self.rgba, 24),
            pack_rgba(t.0, t.1, t.2, t.3) == self.rgba,
    {
        let word = self.rgba;
        let r = word & 0xff;
        let g = (word >> 8) & 0xff;
        let b = (word >> 16) & 0xff;
        let a = (word >> 24) & 0xff;
        proof {
            assert(word >> 0u32 == word) by (bit_vector);
            assert(word & 0xff < 256) by (bit_vector);
            assert((word >> 8u32) & 0xff < 256) by (bit_vector);
            assert((word >> 16u32) & 0xff < 256) by (bit_vector);
            assert((word >> 24u32) & 0xff < 256) by (bit_vector);
            lemma_unpack_pack(word);
        }
        (r as u8, g as u8, b as u8, a as u8)
    }
}

/// A material: something that has base data and may name textures.
pub trait Material {
    /// The base data of the material.
    spec fn spec_base_data(&self) -> BaseData;

    /// The texture of the material for an aspect, absent where it has none.
    spec fn spec_texture(&self, aspect: MaterialAspect) -> ShortIndex;

    /// Borrow the base data of the material.
    fn base_data(&self) -> (d: &BaseData)
        ensures
            *d == self.spec_base_data(),
    ;

    /// Get the index of the texture for an aspect of the material.
    fn texture(&self, aspect: MaterialAspect) -> (t: ShortIndex)
        ensures
            t == self.spec_texture(aspect),
    ;
}

/// A material with a color, without textures.
#[derive(Debug)]
pub struct BaseMaterial {
    /// The base data of the material
    base_data: BaseData,
}

impl BaseMaterial {
    /// Create a new material of a packed color.
    pub fn of_rgba(rgba: u32) -> (m: Self)
        ensures
            m.spec_base_data() == BaseData::spec_of_word(rgba),
    {
        BaseMaterial { base_data: BaseData::of_word(rgba) }
    }
}

impl Material for BaseMaterial {
    closed spec fn spec_base_data(&self) -> BaseData {
        self.base_data
    }

    open spec fn spec_texture(&self, aspect: MaterialAspect) -> ShortIndex {
        ShortIndex::spec_none()
    }

    fn base_data(&self) -> (d: &BaseData) {
        &self.base_data
    }

    fn texture(&self, aspect: MaterialAspect) -> (t: ShortIndex) {
        ShortIndex::none()
    }
}

/// A physically-based material: base data, and a texture for each aspect
/// that has one.
#[derive(Debug)]
pub struct PbrMaterial {
    /// The base data of the material
    base_data: BaseData,
    /// The color texture
    base_texture: ShortIndex,
    /// The normal texture
    normal_texture: ShortIndex,
    /// The metallic and roughness texture
    mr_texture: ShortIndex,
    /// The occlusion texture
    occlusion_texture: ShortIndex,
    /// The emission texture
    emission_texture: ShortIndex,
}

impl Default for PbrMaterial {
    fn default() -> (m: Self)
        ensures
            m.spec_base_data() == BaseData::spec_of_word(0xffff_ffff),
            forall|aspect: MaterialAspect| #[trigger]
                m.spec_texture(aspect) == ShortIndex::spec_none(),
    {
        PbrMaterial::of_rgba(0xffff_ffff)
    }
}

impl PbrMaterial {
    /// Create a new material of a packed color, without textures.
    pub fn of_rgba(rgba: u32) -> (m: Self)
        ensures
            m.spec_base_data() == BaseData::spec_of_word(rgba),
            forall|aspect: MaterialAspect| #[trigger]
                m.spec_texture(aspect) == ShortIndex::spec_none(),
    {
        PbrMaterial {
            base_data: BaseData::of_word(rgba),
            base_texture: ShortIndex::none(),
            normal_texture: ShortIndex::none(),
            mr_texture: ShortIndex::none(),
            occlusion_texture: ShortIndex::none(),
            emission_texture: ShortIndex::none(),
        }
    }

    /// Set the color; the rest stays.
    pub fn set_rgba(&mut self, color: (u8, u8, u8, u8))
        ensures
            final(self).spec_base_data() == (BaseData {
                rgba: pack_rgba(color.0, color.1, color.2, color.3),
                ..old(self).spec_base_data()
            }),
            forall|aspect: MaterialAspect| #[trigger]
                final(self).spec_texture(aspect) == old(self).spec_texture(aspect),
    {
        self.base_data.set_rgba(color);
    }

    /// Set the emissive color; the rest stays.
    pub fn set_emissive_rgb(&mut self, color: (u8, u8, u8))
        ensures
            final(self).spec_base_data() == (BaseData {
                emissive_rgb: pack_rgba(color.0, color.1, color.2, 0),
                ..old(self).spec_base_data()
            }),
            forall|aspect: MaterialAspect| #[trigger]
                final(self).spec_texture(aspect) == old(self).spec_texture(aspect),
    {
        self.base_data.set_emissive_rgb(color);
    }

    /// Set the base data; the textures stay.
    pub fn set_base_data(&mut self, base_data: &BaseData)
        ensures
            final(self).spec_base_data() == *base_data,
            forall|aspect: MaterialAspect| #[trigger]
                final(self).spec_texture(aspect) == old(self).spec_texture(aspect),
    {
        self.base_data = *base_data;
    }

    /// Set the texture of one aspect; the others and the base data stay.
    pub fn set_texture(&mut self, aspect: MaterialAspect, index: ShortIndex)
        ensures
            final(self).spec_base_data() == old(self).spec_base_data(),
            final(self).spec_texture(aspect) == index,
            forall|other: MaterialAspect|
                other != aspect ==> #[trigger] final(self).spec_texture(other) == old(self).spec_texture(other),
    {
        match aspect {
            MaterialAspect::Color => {
                self.base_texture = index;
            },
            MaterialAspect::Normal => {
                self.normal_texture = index;
            },
            MaterialAspect::MetallicRoughness => {
                self.mr_texture = index;
            },
            MaterialAspect::Occlusion => {
                self.occlusion_texture = index;
            },
            MaterialAspect::Emission => {
                self.emission_texture = index;
            },
        }
    }
}

impl Material for PbrMaterial {
    closed spec fn spec_base_data(&self) -> BaseData {
        self.base_data
    }

    closed spec fn spec_texture(&self, aspect: MaterialAspect) -> ShortIndex {
        match aspect {
            MaterialAspect::Color => self.base_texture,
            MaterialAspect::Normal => self.normal_texture,
            MaterialAspect::MetallicRoughness => self.mr_texture,
            MaterialAspect::Occlusion => self.occlusion_texture,
            MaterialAspect::Emission => self.emission_texture,
        }
    }

    fn base_data(&self) -> (d: &BaseData) {
        &self.base_data
    }

    fn texture(&self, aspect: MaterialAspect) -> (t: ShortIndex) {
        match aspect {
            MaterialAspect::Color => self.base_texture,
            MaterialAspect::Normal => self.normal_texture,
            MaterialAspect::MetallicRoughness => self.mr_texture,
            MaterialAspect::Occlusion => self.occlusion_texture,
            MaterialAspect::Emission => self.emission_texture,
        }
    }
}

} // verus!
