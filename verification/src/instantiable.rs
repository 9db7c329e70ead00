//! An object made ready for drawing.

use vstd::prelude::*;
use crate::component::Component;
use crate::hierarchy::tree::Hierarchy;
use crate::render_laws::slots_follow_parents;
use crate::render_recipe::{compile_roots, flat_primitives, flat_slots, RenderRecipe};
use crate::skeleton::Skeleton;

verus! {

/// A 3D model that instances can be made of: its skeleton if it has one, its
/// components with their roots found, and the render recipe made of them.
pub struct Instantiable<X> {
    /// Skeleton
    pub skeleton: Option<Skeleton<X>>,
    /// The components, whose transformations the matrices of the render
    /// recipe are made from
    pub components: Hierarchy<Component<X>>,
    /// Render recipe
    pub render_recipe: RenderRecipe,
    /// Number of bone matrices required for all the bone sets in the object
    pub num_bone_matrices: usize,
}

impl<X> Instantiable<X> {
    /// Create a new instantiable from a skeleton and a hierarchy of
    /// components: find the roots of the components, and compile their
    /// render recipe.
    pub fn new(skeleton: Option<Skeleton<X>>, components: Hierarchy<Component<X>>) -> (i: Self)
        requires
            components.wf(),
        ensures
            i.skeleton == skeleton,
            i.num_bone_matrices == 0,
            i.components.wf(),
            i.components.resolved(),
            i.components.shape() == components.shape(),
            i.components.payloads() == components.payloads(),
            i.components.shape().lists_roots(i.components.roots()),
            ({
                let c = compile_roots(
                    i.components.shape(),
                    i.components.roots(),
                    i.components.payloads(),
                );
                &&& i.render_recipe.matrices@ == c.matrices
                &&& i.render_recipe.primitives@ == flat_primitives(c.meshes, components.payloads())
                &&& i.render_recipe.matrix_for_primitives@ == flat_slots(
                    c.meshes,
                    components.payloads(),
                )
                &&& slots_follow_parents(i.components.shape(), i.components.payloads(), c)
            }),
    {
        let mut components = components;
        components.find_roots();
        let render_recipe = RenderRecipe::from_component_hierarchy(&components);
        Instantiable { skeleton, components, render_recipe, num_bone_matrices: 0 }
    }
}

} // verus!
