use model3d_base::material::BaseData;
use model3d_base::{
    BaseMaterial, BufferAccessor, BufferData, BufferElementType, ByteBuffer, Material,
    MaterialAspect, PbrMaterial, Primitive, PrimitiveType, ShortIndex, Texture, VertexAttr,
    Vertices,
};

#[test]
fn byte_length_of_each_element_type() {
    assert_eq!(BufferElementType::Float32.byte_length(), 4);
    assert_eq!(BufferElementType::Float16.byte_length(), 2);
    assert_eq!(BufferElementType::Int8.byte_length(), 1);
    assert_eq!(BufferElementType::Int16.byte_length(), 2);
    assert_eq!(BufferElementType::Int32.byte_length(), 4);
}

#[test]
fn short_index_none_and_some() {
    let none = ShortIndex::none();
    assert!(none.is_none());
    assert!(!none.is_some());
    assert_eq!(none, ShortIndex::default());
    assert_eq!(none.as_option(), None);
    let some = ShortIndex::of_usize(65534);
    assert!(some.is_some());
    assert!(!some.is_none());
    assert_eq!(some.as_usize(), 65534);
    assert_eq!(some.as_option(), Some(65534));
    assert_eq!(ShortIndex::of_option(Some(7)).as_usize(), 7);
    assert!(ShortIndex::of_option(None).is_none());
    assert_eq!(ShortIndex::of_usize(0).as_usize(), 0);
    let as_option: Option<usize> = ShortIndex::of_usize(12).into();
    assert_eq!(as_option, Some(12));
    let absent: Option<usize> = ShortIndex::none().into();
    assert_eq!(absent, None);
}

#[test]
fn primitive_type_defaults_to_triangles() {
    assert_eq!(PrimitiveType::default(), PrimitiveType::Triangles);
}

#[test]
fn primitive_getters_return_what_was_given() {
    let p = Primitive::new(
        PrimitiveType::TriangleFan,
        ShortIndex::of_usize(2),
        12,
        30,
        ShortIndex::none(),
    );
    assert_eq!(p.primitive_type(), PrimitiveType::TriangleFan);
    assert_eq!(p.vertices_index().as_usize(), 2);
    assert_eq!(p.byte_offset(), 12);
    assert_eq!(p.index_count(), 30);
    assert!(p.material_index().is_none());
    assert!(p.material().is_none());
    assert_eq!(p.vertices(), (Some(2), 12, 30));
    let q = Primitive::new(PrimitiveType::Points, ShortIndex::none(), 1, 2, ShortIndex::none());
    assert_eq!(q.vertices(), (None, 1, 2));
}

#[test]
fn base_data_packs_red_in_the_lowest_byte() {
    let d = BaseData::of_rgba((0x11, 0x22, 0x33, 0x44));
    assert_eq!(d.rgba, 0x4433_2211);
    assert_eq!(d.metallic_roughness, 0);
    assert_eq!(d.emissive_rgb, 0);
    assert_eq!(d.alpha_etc, 0);
    assert_eq!(d.rgba_tuple(), (0x11, 0x22, 0x33, 0x44));
    assert_eq!(BaseData::default().rgba, 0xffff_ffff);
    assert_eq!(BaseData::default().rgba_tuple(), (255, 255, 255, 255));
    assert_eq!(BaseData::of_word(0x0102_0304).rgba_tuple(), (4, 3, 2, 1));
    assert_eq!(BaseData::from(0x0a0b_0c0d), BaseData::of_word(0x0a0b_0c0d));
}

#[test]
fn base_data_setters_change_one_word() {
    let mut d = BaseData::of_rgba((1, 2, 3, 4));
    d.set_emissive_rgb((0xaa, 0xbb, 0xcc));
    assert_eq!(d.emissive_rgb, 0x00cc_bbaa);
    assert_eq!(d.rgba, 0x0403_0201);
    d.set_rgba((255, 0, 0, 128));
    assert_eq!(d.rgba, 0x8000_00ff);
    assert_eq!(d.emissive_rgb, 0x00cc_bbaa);
}

#[test]
fn base_material_has_no_textures() {
    let m = BaseMaterial::of_rgba(0xff00_00ff);
    assert_eq!(m.base_data().rgba, 0xff00_00ff);
    assert_eq!(m.base_data().rgba_tuple(), (255, 0, 0, 255));
    assert!(m.texture(MaterialAspect::Color).is_none());
    assert!(m.texture(MaterialAspect::Emission).is_none());
}

#[test]
fn pbr_material_keeps_a_texture_for_each_aspect() {
    let mut m = PbrMaterial::of_rgba(0x0102_0304);
    assert_eq!(m.base_data().rgba, 0x0102_0304);
    assert!(m.texture(MaterialAspect::Normal).is_none());
    m.set_texture(MaterialAspect::Color, ShortIndex::of_usize(1));
    m.set_texture(MaterialAspect::Normal, ShortIndex::of_usize(2));
    m.set_texture(MaterialAspect::MetallicRoughness, ShortIndex::of_usize(3));
    m.set_texture(MaterialAspect::Occlusion, ShortIndex::of_usize(4));
    m.set_texture(MaterialAspect::Emission, ShortIndex::of_usize(5));
    assert_eq!(m.texture(MaterialAspect::Color).as_usize(), 1);
    assert_eq!(m.texture(MaterialAspect::Normal).as_usize(), 2);
    assert_eq!(m.texture(MaterialAspect::MetallicRoughness).as_usize(), 3);
    assert_eq!(m.texture(MaterialAspect::Occlusion).as_usize(), 4);
    assert_eq!(m.texture(MaterialAspect::Emission).as_usize(), 5);
    m.set_rgba((9, 8, 7, 6));
    m.set_emissive_rgb((1, 1, 1));
    assert_eq!(m.base_data().rgba, 0x0607_0809);
    assert_eq!(m.base_data().emissive_rgb, 0x0001_0101);
    assert_eq!(m.texture(MaterialAspect::Occlusion).as_usize(), 4);
    let other = BaseData::of_rgba((1, 2, 3, 4));
    m.set_base_data(&other);
    assert_eq!(*m.base_data(), other);
    assert_eq!(PbrMaterial::default().base_data().rgba, 0xffff_ffff);
}

#[test]
fn buffer_data_of_length_zero_takes_the_rest() {
    let bytes: Vec<u8> = (0..10).collect();
    assert_eq!(bytes.byte_length(), 10);
    assert_eq!(bytes.borrow_bytes(), &bytes[..]);
    let all = BufferData::new(&bytes, 0, 0);
    assert_eq!((all.byte_offset, all.byte_length), (0, 10));
    assert_eq!(all.as_slice(), &bytes[..]);
    let tail = BufferData::new(&bytes, 4, 0);
    assert_eq!((tail.byte_offset, tail.byte_length), (4, 6));
    assert_eq!(tail.as_slice(), &[4, 5, 6, 7, 8, 9]);
    let part = BufferData::new(&bytes, 2, 3);
    assert_eq!(part.as_slice(), &[2, 3, 4]);
    let end = BufferData::new(&bytes, 10, 0);
    assert_eq!(end.as_slice(), &[] as &[u8]);
}

#[test]
fn accessor_stride_defaults_to_item_size() {
    let bytes: Vec<u8> = vec![0; 64];
    let data = BufferData::new(&bytes, 0, 0);
    let a = BufferAccessor::new(&data, 3, BufferElementType::Float32, 12, 0);
    assert_eq!(a.elements_per_data, 3);
    assert_eq!(a.ele_type, BufferElementType::Float32);
    assert_eq!(a.byte_offset, 12);
    assert_eq!(a.stride, 0);
    assert_eq!(a.item_stride(), Some(12));
    let b = BufferAccessor::new(&data, 3, BufferElementType::Float32, 0, 24);
    assert_eq!(b.item_stride(), Some(24));
    let c = BufferAccessor::new(&data, u32::MAX, BufferElementType::Int16, 0, 0);
    assert_eq!(c.item_stride(), None);
}

#[test]
fn texture_getters_return_what_was_given() {
    let bytes: Vec<u8> = vec![1, 2, 3, 4];
    let t = Texture::new(&bytes, (2, 2, 0), BufferElementType::Int8, 1);
    assert_eq!(t.dims(), &(2, 2, 0));
    assert_eq!(t.data(), &[1, 2, 3, 4]);
    assert_eq!(t.data_type(), (1, BufferElementType::Int8));
}

#[test]
fn vertices_find_the_first_accessor_of_an_attribute() {
    let bytes: Vec<u8> = vec![0; 64];
    let data = BufferData::new(&bytes, 0, 0);
    let indices = BufferAccessor::new(&data, 3, BufferElementType::Int8, 0, 0);
    let position = BufferAccessor::new(&data, 3, BufferElementType::Float32, 4, 0);
    let normal_a = BufferAccessor::new(&data, 3, BufferElementType::Float32, 16, 0);
    let normal_b = BufferAccessor::new(&data, 3, BufferElementType::Float32, 28, 0);
    let color = BufferAccessor::new(&data, 4, BufferElementType::Int8, 40, 0);
    let mut v = Vertices::new(&indices, &position);
    assert!(v.borrow_attr(VertexAttr::Normal).is_none());
    v.add_attr(VertexAttr::Normal, &normal_a);
    v.add_attr(VertexAttr::Color, &color);
    v.add_attr(VertexAttr::Normal, &normal_b);
    assert_eq!(v.borrow_indices().byte_offset, 0);
    assert_eq!(v.borrow_position().byte_offset, 4);
    assert_eq!(v.borrow_attr(VertexAttr::Normal).unwrap().byte_offset, 16);
    assert_eq!(v.borrow_attr(VertexAttr::Color).unwrap().byte_offset, 40);
    assert!(v.borrow_attr(VertexAttr::Tangent).is_none());
    let attrs: Vec<VertexAttr> = v.iter_attrs().iter().map(|(a, _)| *a).collect();
    assert_eq!(
        attrs,
        vec![VertexAttr::Normal, VertexAttr::Color, VertexAttr::Normal]
    );
}
