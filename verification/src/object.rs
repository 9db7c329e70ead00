//! An object under construction: its vertices, textures and materials, and
//! the hierarchy of its components.

use vstd::prelude::*;
use crate::component::Component;
use crate::hierarchy::shape::Shape;
use crate::hierarchy::tree::{Hierarchy, HierarchyError};
use crate::instantiable::Instantiable;
use crate::material::Material;
use crate::mesh::Mesh;
use crate::render_laws::slots_follow_parents;
use crate::render_recipe::{compile_roots, flat_primitives, flat_slots};
use crate::skeleton::Skeleton;
use crate::texture::Texture;
use crate::types::ShortIndex;
use crate::vertices::Vertices;

verus! {

/// A 3D object as it is built: the vertices, textures and materials that its
/// meshes name by index, an optional skeleton, and its components.
pub struct Object<'object, M, X> {
    /// Skeleton
    pub skeleton: Option<Skeleton<X>>,
    /// All the vertices used
    pub vertices: Vec<&'object Vertices<'object>>,
    /// All the textures used
    pub textures: Vec<&'object Texture<'object>>,
    /// All the materials used
    pub materials: Vec<&'object M>,
    /// The meshes etc that make up the object
    pub components: Hierarchy<Component<X>>,
}

impl<'object, M: Material, X> Object<'object, M, X> {
    /// The invariant of an object: its components form a forest.
    pub open spec fn wf(&self) -> bool {
        self.components.wf()
    }

    /// What `add_component` answers for a parent.
    pub open spec fn add_component_outcome(&self, parent: Option<usize>) -> Result<
        usize,
        HierarchyError,
    > {
        if self.components.resolved() {
            Err(HierarchyError::Resolved)
        } else if parent matches Some(p) && p >= self.components.spec_len() {
            Err(HierarchyError::OutOfRange)
        } else {
            Ok(self.components.spec_len() as usize)
        }
    }

    /// The components after a component has been added below `parent`.
    pub open spec fn shape_with_component(&self, parent: Option<usize>) -> Shape {
        match parent {
            Some(p) => self.components.shape().with_node().with_edge(
                p,
                self.components.spec_len() as usize,
            ),
            None => self.components.shape().with_node(),
        }
    }

    /// Create a new, empty object.
    pub fn new() -> (o: Self)
        ensures
            o.wf(),
            o.skeleton.is_none(),
            o.vertices@.len() == 0,
            o.textures@.len() == 0,
            o.materials@.len() == 0,
            o.components.shape() == Shape::empty(),
            !o.components.resolved(),
    {
        Object {
            skeleton: None,
            vertices: Vec::new(),
            textures: Vec::new(),
            materials: Vec::new(),
            components: Hierarchy::new(),
        }
    }

    /// Borrow the vertices with a given index, which must be one that
    /// `add_vertices` returned.
    pub fn vertices(&self, n: ShortIndex) -> (v: &Vertices<'object>)
        requires
            n@ matches Some(i) && i < self.vertices@.len(),
        ensures
            v == self.vertices@[n@.unwrap() as int],
    {
        self.vertices[n.as_usize()]
    }

    /// Borrow the texture with a given index, which must be one that
    /// `add_texture` returned.
    pub fn texture(&self, n: ShortIndex) -> (t: &Texture<'object>)
        requires
            n@ matches Some(i) && i < self.textures@.len(),
        ensures
            t == self.textures@[n@.unwrap() as int],
    {
        self.textures[n.as_usize()]
    }

    /// Borrow the material with a given index, which must be one that
    /// `add_material` returned.
    pub fn material(&self, n: ShortIndex) -> (m: &M)
        requires
            n@ matches Some(i) && i < self.materials@.len(),
        ensures
            m == self.materials@[n@.unwrap() as int],
    {
        self.materials[n.as_usize()]
    }

    /// Add vertices to the object and return their index. There must be
    /// fewer than 65535 of them already.
    pub fn add_vertices(&mut self, vertices: &'object Vertices<'object>) -> (n: ShortIndex)
        requires
            old(self).vertices@.len() < 65535,
        ensures
            n@ == Some(old(self).vertices@.len()),
            final(self).vertices@ == old(self).vertices@.push(vertices),
            final(self).textures == old(self).textures,
            final(self).materials == old(self).materials,
            final(self).components == old(self).components,
            final(self).skeleton == old(self).skeleton,
    {
        let n = self.vertices.len();
        self.vertices.push(vertices);
        ShortIndex::of_usize(n)
    }

    /// Add a texture to the object and return its index. There must be fewer
    /// than 65535 of them already.
    pub fn add_texture(&mut self, texture: &'object Texture<'object>) -> (n: ShortIndex)
        requires
            old(self).textures@.len() < 65535,
        ensures
            n@ == Some(old(self).textures@.len()),
            final(self).textures@ == old(self).textures@.push(texture),
            final(self).vertices == old(self).vertices,
            final(self).materials == old(self).materials,
            final(self).components == old(self).components,
            final(self).skeleton == old(self).skeleton,
    {
        let n = self.textures.len();
        self.textures.push(texture);
        ShortIndex::of_usize(n)
    }

    /// Add a material to the object and return its index. There must be
    /// fewer than 65535 of them already.
    pub fn add_material(&mut self, material: &'object M) -> (n: ShortIndex)
        requires
            old(self).materials@.len() < 65535,
        ensures
            n@ == Some(old(self).materials@.len()),
            final(self).materials@ == old(self).materials@.push(material),
            final(self).vertices == old(self).vertices,
            final(self).textures == old(self).textures,
            final(self).components == old(self).components,
            final(self).skeleton == old(self).skeleton,
    {
        let n = self.materials.len();
        self.materials.push(material);
        ShortIndex::of_usize(n)
    }

    /// Add a component to the hierarchy, as the last child of `parent` if one
    /// is given, and return its index.
    ///
    /// Nothing is added where the roots of the components have been found,
    /// or where the parent is not a component.
    pub fn add_component(
        &mut self,
        parent: Option<usize>,
        transformation: Option<X>,
        mesh: Mesh,
    ) -> (r: Result<usize, HierarchyError>)
        requires
            old(self).wf(),
        ensures
            final(self).wf(),
            r == old(self).add_component_outcome(parent),
            r.is_ok() ==> final(self).components.shape() == old(self).shape_with_component(parent)
                && final(self).components.payloads() == old(self).components.payloads().push(
                Component { transformation, mesh },
            ),
            r.is_err() ==> final(self).components.shape() == old(self).components.shape()
                && final(self).components.payloads() == old(self).components.payloads(),
            final(self).components.resolved() == old(self).components.resolved(),
            final(self).vertices == old(self).vertices,
            final(self).textures == old(self).textures,
            final(self).materials == old(self).materials,
            final(self).skeleton == old(self).skeleton,
    {
        if self.components.is_resolved() {
            return Err(HierarchyError::Resolved);
        }
        let n = self.components.len();
        if let Some(p) = parent {
            if p >= n {
                return Err(HierarchyError::OutOfRange);
            }
        }
        let node = Component::new(transformation, mesh);
        let added = self.components.add_node(node);
        if let Some(p) = parent {
            proof {
                old(self).components.shape().lemma_fresh_node_unreachable(p as int);
            }
            let related = self.components.relate(p, n);
            assert(related.is_ok());
        }
        Ok(n)
    }

    /// Relate a parent component to a child component, by their indices.
    pub fn relate(&mut self, parent: usize, child: usize) -> (r: Result<(), HierarchyError>)
        requires
            old(self).wf(),
        ensures
            final(self).wf(),
            r == old(self).components.relate_outcome(parent, child),
            r.is_ok() ==> final(self).components.shape() == old(self).components.shape().with_edge(
                parent,
                child,
            ),
            r.is_err() ==> final(self).components.shape() == old(self).components.shape(),
            final(self).components.payloads() == old(self).components.payloads(),
            final(self).components.resolved() == old(self).components.resolved(),
            final(self).vertices == old(self).vertices,
            final(self).textures == old(self).textures,
            final(self).materials == old(self).materials,
            final(self).skeleton == old(self).skeleton,
    {
        self.components.relate(parent, child)
    }

    /// Analyze the object once it has been completely built: find the roots
    /// of its components.
    pub fn analyze(&mut self)
        requires
            old(self).wf(),
        ensures
            final(self).wf(),
            final(self).components.resolved(),
            final(self).components.shape() == old(self).components.shape(),
            final(self).components.payloads() == old(self).components.payloads(),
            final(self).components.shape().lists_roots(final(self).components.roots()),
            final(self).vertices == old(self).vertices,
            final(self).textures == old(self).textures,
            final(self).materials == old(self).materials,
            final(self).skeleton == old(self).skeleton,
    {
        self.components.find_roots();
    }

    /// Turn the object into what instances are made of: its skeleton, and
    /// its components with their render recipe.
    pub fn into_instantiable(self) -> (i: Instantiable<X>)
        requires
            self.wf(),
        ensures
            i.skeleton == self.skeleton,
            i.num_bone_matrices == 0,
            i.components.wf(),
            i.components.resolved(),
            i.components.shape() == self.components.shape(),
            i.components.payloads() == self.components.payloads(),
            i.components.shape().lists_roots(i.components.roots()),
            ({
                let c = compile_roots(
                    i.components.shape(),
                    i.components.roots(),
                    i.components.payloads(),
                );
                &&& i.render_recipe.matrices@ == c.matrices
                &&& i.render_recipe.primitives@ == flat_primitives(
                    c.meshes,
                    i.components.payloads(),
                )
                &&& i.render_recipe.matrix_for_primitives@ == flat_slots(
                    c.meshes,
                    i.components.payloads(),
                )
                &&& slots_follow_parents(i.components.shape(), i.components.payloads(), c)
            }),
    {
        Instantiable::new(self.skeleton, self.components)
    }
}

} // verus!
