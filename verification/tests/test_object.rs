use model3d_base::example_objects::{tetrahedron, triangle};
use model3d_base::ExampleVertices;
use model3d_base::hierarchy::{Hierarchy, HierarchyError};
use model3d_base::{
    BaseMaterial, BufferAccessor, BufferElementType, Component, Instantiable, Material,
    MaterialAspect, MatrixSource, Mesh, Object, Primitive, PrimitiveType, RenderRecipe,
    ShortIndex, VertexAttr,
};

type Translation = [f32; 3];

fn mat4(t: &Translation) -> [f32; 16] {
    let mut m: [f32; 16] = geo_nd::matrix::identity4();
    m[12] = t[0];
    m[13] = t[1];
    m[14] = t[2];
    m
}

fn matrices(recipe: &RenderRecipe, components: &Hierarchy<Component<Translation>>) -> Vec<[f32; 16]> {
    let mut out: Vec<[f32; 16]> = Vec::new();
    for source in &recipe.matrices {
        let m = match source {
            MatrixSource::Identity => geo_nd::matrix::identity4(),
            MatrixSource::Product { base, node } => {
                let t = components.borrow_node(*node).transformation.unwrap();
                geo_nd::matrix::multiply4(&out[*base], &mat4(&t))
            }
        };
        out.push(m);
    }
    out
}

fn bytes_of(values: &[f32]) -> Vec<u8> {
    values.iter().flat_map(|v| v.to_le_bytes()).collect()
}

fn one_primitive_mesh(index_count: u32) -> Mesh {
    let mut mesh = Mesh::new();
    mesh.add_primitive(Primitive::new(
        PrimitiveType::Triangles,
        ShortIndex::of_usize(0),
        0,
        index_count,
        ShortIndex::of_usize(0),
    ));
    mesh
}

#[test]
fn test0() {
    let size = 0.5f32;
    let vertex_data = bytes_of(&[
        -size, -size, 0.0, size, -size, 0.0, 0.0, size, 0.0, 0., 0., 1., 0., 0., 1., 0., 0., 1.,
    ]);
    let index_data: Vec<u8> = vec![0, 1, 2];
    let mut triangle = ExampleVertices::new();
    let data_indices = triangle.push_byte_buffer(index_data);
    let data_vertices = triangle.push_byte_buffer(vertex_data);
    let indices = triangle.push_accessor(data_indices, 3, BufferElementType::Int8, 0, 0);
    let vertices = triangle.push_accessor(data_vertices, 3, BufferElementType::Float32, 0, 0);
    let normals = triangle.push_accessor(data_vertices, 3, BufferElementType::Float32, 9 * 4, 0);
    triangle.push_vertices(indices, vertices, &[(VertexAttr::Normal, normals)]);
    let data = triangle.borrow_accessors().buffer_data(triangle.borrow_buffers());
    let accessors = triangle.borrow_accessors().buffer_accessors(&data);
    let triangle_vertices = triangle.borrow_vertices(&accessors, 0);

    let material = BaseMaterial::of_rgba(0xff0000ff);
    let mut obj: Object<BaseMaterial, Translation> = Object::new();
    let v_id = obj.add_vertices(&triangle_vertices);
    let m_id = obj.add_material(&material);
    let mesh = triangle::mesh(v_id.as_usize(), m_id.as_usize());
    obj.add_component(None, None, mesh).unwrap();
    obj.analyze();
    let p: &BufferAccessor = obj.vertices(v_id).borrow_indices();
    assert_eq!(p.elements_per_data, 3);
    let t = obj.material(m_id).texture(MaterialAspect::Normal);
    assert!(t.is_none());
    let inst = obj.into_instantiable();
    let r = &inst.render_recipe;
    assert_eq!(r.matrices.len(), 1, "Expected only an identity matrix");
    assert_eq!(
        matrices(r, &inst.components)[0],
        [1., 0., 0., 0., 0., 1., 0., 0., 0., 0., 1., 0., 0., 0., 0., 1.],
        "Expected only an identity matrix"
    );
    assert_eq!(r.primitives.len(), 1, "Expected only one primitive");
    assert_eq!(
        r.matrix_for_primitives.len(),
        1,
        "Expected only one primitive"
    );
    assert_eq!(
        r.matrix_for_primitives[0], 0,
        "Expected primitive to use identity"
    );
}

#[test]
fn example_vertices_are_made_of_their_buffers() {
    let mut eg = ExampleVertices::new();
    let a = eg.push_byte_buffer(vec![0, 1, 2, 3, 0, 1]);
    let b = eg.push_byte_buffer(bytes_of(&[1.0, 2.0, 3.0, 4.0, 5.0, 6.0]));
    assert_eq!((a, b), (0, 1));
    let indices = eg.push_accessor(a, 6, BufferElementType::Int8, 0, 0);
    let normals = eg.push_accessor(b, 3, BufferElementType::Float32, 12, 24);
    let positions = eg.push_accessor(b, 3, BufferElementType::Float32, 0, 24);
    assert_eq!((indices, normals, positions), (0, 1, 2));
    assert_eq!(
        eg.push_vertices(indices, positions, &[(VertexAttr::Normal, normals)]),
        0
    );
    assert_eq!(eg.push_vertices(indices, positions, &[]), 1);
    assert_eq!(eg.borrow_buffers().len(), 2);
    assert_eq!(eg.borrow_buffers().buffer(0), &vec![0, 1, 2, 3, 0, 1]);
    assert_eq!(eg.borrow_accessors().accessor_count(), 3);
    assert_eq!(eg.borrow_accessors().accessor(1).byte_offset, 12);
    let data = eg.borrow_accessors().buffer_data(eg.borrow_buffers());
    assert_eq!(data.len(), 2);
    assert_eq!(data[0].as_slice(), &[0, 1, 2, 3, 0, 1]);
    assert_eq!((data[1].byte_offset, data[1].byte_length), (0, 24));
    let accessors = eg.borrow_accessors().buffer_accessors(&data);
    assert_eq!(accessors.len(), 3);
    assert_eq!(accessors[1].data.byte_length, 24);
    assert_eq!(accessors[1].item_stride(), Some(24));
    let v = eg.borrow_vertices(&accessors, 0);
    assert_eq!(v.borrow_indices().elements_per_data, 6);
    assert_eq!(v.borrow_position().byte_offset, 0);
    assert_eq!(v.borrow_attr(VertexAttr::Normal).unwrap().byte_offset, 12);
    let w = eg.borrow_vertices(&accessors, 1);
    assert!(w.borrow_attr(VertexAttr::Normal).is_none());
}

#[test]
fn single_component_flattens_to_identity_and_one_primitive() {
    let mut components: Hierarchy<Component<Translation>> = Hierarchy::new();
    components
        .add_node(Component::new(None, triangle::mesh(0, 0)))
        .unwrap();
    components.find_roots();
    let r = RenderRecipe::from_component_hierarchy(&components);
    assert_eq!(r.matrices, vec![MatrixSource::Identity]);
    assert_eq!(r.primitives.len(), 1);
    assert_eq!(r.primitives[0].primitive_type(), PrimitiveType::Triangles);
    assert_eq!(r.primitives[0].index_count(), 3);
    assert_eq!(r.matrix_for_primitives, vec![0]);
}

#[test]
fn child_without_transformation_shares_parent_matrix() {
    let mut obj: Object<BaseMaterial, Translation> = Object::new();
    let parent = obj
        .add_component(None, Some([1., 2., 3.]), one_primitive_mesh(3))
        .unwrap();
    let child = obj
        .add_component(Some(parent), None, one_primitive_mesh(6))
        .unwrap();
    assert_eq!((parent, child), (0, 1));
    let inst = obj.into_instantiable();
    let r = &inst.render_recipe;
    assert_eq!(
        r.matrices,
        vec![MatrixSource::Identity, MatrixSource::Product { base: 0, node: 0 }]
    );
    assert_eq!(r.matrix_for_primitives, vec![1, 1]);
    assert_eq!(r.primitives[0].index_count(), 3);
    assert_eq!(r.primitives[1].index_count(), 6);
    let m = matrices(r, &inst.components);
    assert_eq!(
        m[1],
        [1., 0., 0., 0., 0., 1., 0., 0., 0., 0., 1., 0., 1., 2., 3., 1.]
    );
}

#[test]
fn nested_transformations_compose_and_siblings_restore() {
    let mut obj: Object<BaseMaterial, Translation> = Object::new();
    let root = obj.add_component(None, None, one_primitive_mesh(1)).unwrap();
    let a = obj
        .add_component(Some(root), Some([1., 0., 0.]), one_primitive_mesh(2))
        .unwrap();
    let a1 = obj
        .add_component(Some(a), Some([0., 1., 0.]), one_primitive_mesh(3))
        .unwrap();
    let a2 = obj.add_component(Some(a), None, Mesh::new()).unwrap();
    let b = obj.add_component(Some(root), None, one_primitive_mesh(4)).unwrap();
    let c = obj
        .add_component(Some(root), Some([0., 0., 1.]), one_primitive_mesh(5))
        .unwrap();
    assert_eq!((a1, a2, b, c), (2, 3, 4, 5));
    let inst = obj.into_instantiable();
    let r = &inst.render_recipe;
    assert_eq!(
        r.matrices,
        vec![
            MatrixSource::Identity,
            MatrixSource::Product { base: 0, node: 1 },
            MatrixSource::Product { base: 1, node: 2 },
            MatrixSource::Product { base: 0, node: 5 },
        ]
    );
    let counts: Vec<u32> = r.primitives.iter().map(|p| p.index_count()).collect();
    assert_eq!(counts, vec![1, 2, 3, 4, 5]);
    assert_eq!(r.matrix_for_primitives, vec![0, 1, 2, 0, 3]);
    let m = matrices(r, &inst.components);
    assert_eq!(
        m[2],
        [1., 0., 0., 0., 0., 1., 0., 0., 0., 0., 1., 0., 1., 1., 0., 1.]
    );
}

#[test]
fn each_root_starts_from_the_identity() {
    let mut obj: Object<BaseMaterial, Translation> = Object::new();
    obj.add_component(None, Some([1., 0., 0.]), one_primitive_mesh(1))
        .unwrap();
    obj.add_component(None, None, one_primitive_mesh(2)).unwrap();
    obj.add_component(None, Some([0., 1., 0.]), one_primitive_mesh(3))
        .unwrap();
    let inst = obj.into_instantiable();
    let r = &inst.render_recipe;
    assert_eq!(
        r.matrices,
        vec![
            MatrixSource::Identity,
            MatrixSource::Product { base: 0, node: 0 },
            MatrixSource::Product { base: 0, node: 2 },
        ]
    );
    assert_eq!(r.matrix_for_primitives, vec![1, 0, 2]);
}

#[test]
fn empty_hierarchy_gives_only_the_identity() {
    let mut components: Hierarchy<Component<Translation>> = Hierarchy::new();
    components.find_roots();
    let r = RenderRecipe::from_component_hierarchy(&components);
    assert_eq!(r.matrices, vec![MatrixSource::Identity]);
    assert!(r.primitives.is_empty());
    assert!(r.matrix_for_primitives.is_empty());
    let empty = RenderRecipe::new();
    assert!(empty.matrices.is_empty());
}

#[test]
fn component_with_several_primitives_keeps_their_order() {
    let mut mesh = Mesh::new();
    for count in [7u32, 8, 9] {
        mesh.add_primitive(Primitive::new(
            PrimitiveType::Lines,
            ShortIndex::none(),
            count * 2,
            count,
            ShortIndex::of_usize(1),
        ));
    }
    let inst: Instantiable<Translation> = {
        let mut components = Hierarchy::new();
        components
            .add_node(Component::new(Some([0., 0., 0.]), mesh))
            .unwrap();
        Instantiable::new(None, components)
    };
    let r = &inst.render_recipe;
    let counts: Vec<u32> = r.primitives.iter().map(|p| p.index_count()).collect();
    assert_eq!(counts, vec![7, 8, 9]);
    assert_eq!(r.matrix_for_primitives, vec![1, 1, 1]);
    assert_eq!(inst.num_bone_matrices, 0);
    assert!(inst.skeleton.is_none());
}

#[test]
fn add_component_refuses_unknown_parent_and_resolved_object() {
    let mut obj: Object<BaseMaterial, Translation> = Object::new();
    assert_eq!(
        obj.add_component(Some(0), None, Mesh::new()),
        Err(HierarchyError::OutOfRange)
    );
    assert_eq!(obj.components.len(), 0);
    assert_eq!(obj.add_component(None, None, Mesh::new()), Ok(0));
    assert_eq!(obj.add_component(None, None, Mesh::new()), Ok(1));
    assert_eq!(obj.relate(0, 1), Ok(()));
    assert_eq!(obj.relate(1, 0), Err(HierarchyError::Cycle));
    obj.analyze();
    assert_eq!(
        obj.add_component(None, None, Mesh::new()),
        Err(HierarchyError::Resolved)
    );
    assert_eq!(obj.components.borrow_roots(), &vec![0]);
}

#[test]
fn example_meshes_name_their_vertices_and_material() {
    let t = triangle::mesh(3, 4);
    assert_eq!(t.primitives.len(), 1);
    assert_eq!(t.primitives[0].vertices(), (Some(3), 0, 3));
    assert_eq!(t.primitives[0].material(), ShortIndex::of_usize(4));
    assert_eq!(t.primitives[0].primitive_type(), PrimitiveType::Triangles);
    let h = tetrahedron::mesh(1, 2);
    assert_eq!(h.primitives[0].vertices(), (Some(1), 0, 6));
    assert_eq!(h.primitives[0].material_index().as_usize(), 2);
    assert_eq!(h.primitives[0].primitive_type(), PrimitiveType::TriangleStrip);
}
