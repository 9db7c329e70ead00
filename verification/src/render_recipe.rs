//! The flat form of a hierarchy of components, for a render loop that does
//! not walk the hierarchy.

use vstd::prelude::*;
use crate::component::Component;
use crate::hierarchy::ops::{
    entered, lemma_entered_concat, nesting, NodeEnumOp,
};
use crate::hierarchy::shape::Shape;
use crate::hierarchy::tree::Hierarchy;
use crate::primitive::Primitive;
use crate::render_laws::{lemma_slots_follow_parents, slots_follow_parents};

verus! {

/// Where a matrix of a render recipe comes from.
#[derive(Debug, Clone, Copy, PartialEq, Eq, Structural)]
pub enum MatrixSource {
    /// The identity matrix
    Identity,
    /// The matrix in slot `base`, an earlier slot, times the matrix of the
    /// transformation of the component `node`
    Product {
        /// The slot of the matrix that is in effect around the component
        base: usize,
        /// The component whose transformation is applied
        node: usize,
    },
}

/// The state of the compiler while it replays a walk.
pub struct Compiling {
    /// The matrices so far
    pub matrices: Seq<MatrixSource>,
    /// The slot of the matrix in effect
    pub current: usize,
    /// The slots that were in effect when the components now entered were
    /// entered, the innermost last
    pub stack: Seq<usize>,
    /// The components entered so far, each with the slot of its matrix
    pub meshes: Seq<(usize, usize)>,
}

/// The component has a transformation of its own.
pub open spec fn transforms<X>(components: Seq<Component<X>>, node: int) -> bool {
    0 <= node < components.len() && components[node].transformation.is_some()
}

/// The state after one operation. Entering a component saves the slot in
/// effect; a component with a transformation gets a new matrix, made from
/// the one in effect, and any other keeps the one in effect. Leaving a
/// component restores the slot that was in effect around it.
pub open spec fn compile_step<X>(
    c: Compiling,
    op: NodeEnumOp,
    components: Seq<Component<X>>,
) -> Compiling {
    match op {
        NodeEnumOp::Push(n, _) => {
            if transforms(components, n as int) {
                Compiling {
                    matrices: c.matrices.push(MatrixSource::Product { base: c.current, node: n }),
                    current: c.matrices.len() as usize,
                    stack: c.stack.push(c.current),
                    meshes: c.meshes.push((n, c.matrices.len() as usize)),
                }
            } else {
                Compiling {
                    matrices: c.matrices,
                    current: c.current,
                    stack: c.stack.push(c.current),
                    meshes: c.meshes.push((n, c.current)),
                }
            }
        },
        NodeEnumOp::Pop(_, _) => {
            if c.stack.len() > 0 {
                Compiling {
                    matrices: c.matrices,
                    current: c.stack.last(),
                    stack: c.stack.drop_last(),
                    meshes: c.meshes,
                }
            } else {
                c
            }
        },
    }
}

/// The state after a sequence of operations.
pub open spec fn compile_ops<X>(
    start: Compiling,
    ops: Seq<NodeEnumOp>,
    components: Seq<Component<X>>,
) -> Compiling
    decreases ops.len(),
{
    if ops.len() == 0 {
        start
    } else {
        compile_step(compile_ops(start, ops.drop_last(), components), ops.last(), components)
    }
}

/// The state after the walks of `roots`, one after the other. Slot 0 holds
/// the identity, and the walk of each root starts with it in effect.
pub open spec fn compile_roots<X>(
    shape: Shape,
    roots: Seq<usize>,
    components: Seq<Component<X>>,
) -> Compiling
    decreases roots.len(),
{
    if roots.len() == 0 {
        Compiling {
            matrices: seq![MatrixSource::Identity],
            current: 0,
            stack: Seq::empty(),
            meshes: Seq::empty(),
        }
    } else {
        let before = compile_roots(shape, roots.drop_last(), components);
        compile_ops(
            Compiling {
                matrices: before.matrices,
                current: 0,
                stack: Seq::empty(),
                meshes: before.meshes,
            },
            shape.subtree_ops(roots.last() as int),
            components,
        )
    }
}

/// The primitives of the components that `meshes` names, in order.
pub open spec fn flat_primitives<X>(
    meshes: Seq<(usize, usize)>,
    components: Seq<Component<X>>,
) -> Seq<Primitive>
    decreases meshes.len(),
{
    if meshes.len() == 0 {
        Seq::empty()
    } else {
        flat_primitives(meshes.drop_last(), components) + components[meshes.last().0 as int].mesh@
    }
}

/// For each of those primitives, the matrix slot of its component.
pub open spec fn flat_slots<X>(
    meshes: Seq<(usize, usize)>,
    components: Seq<Component<X>>,
) -> Seq<usize>
    decreases meshes.len(),
{
    if meshes.len() == 0 {
        Seq::empty()
    } else {
        flat_slots(meshes.drop_last(), components) + Seq::new(
            components[meshes.last().0 as int].mesh@.len(),
            |i: int| meshes.last().1,
        )
    }
}

/// What the compiler keeps true: every slot it names exists, and a product
/// is made from an earlier slot.
pub open spec fn compiling_sound(c: Compiling, bound: nat) -> bool {
    &&& c.matrices.len() > 0
    &&& c.matrices[0] == MatrixSource::Identity
    &&& c.current < c.matrices.len()
    &&& forall|k: int| 0 <= k < c.stack.len() ==> #[trigger] c.stack[k] < c.matrices.len()
    &&& forall|k: int|
        0 <= k < c.meshes.len() ==> (#[trigger] c.meshes[k]).1 < c.matrices.len()
            && c.meshes[k].0 < bound
    &&& forall|k: int|
        0 <= k < c.matrices.len() ==> match #[trigger] c.matrices[k] {
            MatrixSource::Identity => true,
            MatrixSource::Product { base, node } => base < k && node < bound,
        }
}

/// A render recipe for a hierarchy of components: the matrices to use, the
/// primitives of all the components, and for each primitive the slot of its
/// matrix.
#[derive(Debug)]
pub struct RenderRecipe {
    /// Matrices to use; the first is the identity matrix
    pub matrices: Vec<MatrixSource>,
    /// The primitives of the components, in the order of the walk
    pub primitives: Vec<Primitive>,
    /// For each primitive, the slot of the matrix to draw it with
    pub matrix_for_primitives: Vec<usize>,
}

impl Default for RenderRecipe {
    fn default() -> (r: Self)
        ensures
            r.matrices@.len() == 0,
            r.primitives@.len() == 0,
            r.matrix_for_primitives@.len() == 0,
    {
        RenderRecipe::new()
    }
}

impl RenderRecipe {
    /// Create a new, empty render recipe.
    pub fn new() -> (r: Self)
        ensures
            r.matrices@.len() == 0,
            r.primitives@.len() == 0,
            r.matrix_for_primitives@.len() == 0,
    {
        RenderRecipe {
            matrices: Vec::new(),
            primitives: Vec::new(),
            matrix_for_primitives: Vec::new(),
        }
    }

    /// Build a render recipe from a hierarchy of components, whose roots
    /// must have been found.
    ///
    /// The walk of each root is replayed with the identity in effect. A
    /// component with a transformation adds a matrix, made from the matrix
    /// of its parent; a component without one uses the matrix of its parent,
    /// so that no matrix occurs twice. The primitives of every component
    /// follow in the order of the walk, each with the slot of the matrix of
    /// its component.
    pub fn from_component_hierarchy<X>(components: &Hierarchy<Component<X>>) -> (recipe: Self)
        requires
            components.wf(),
            components.resolved(),
        ensures
            ({
                let c = compile_roots(
                    components.shape(),
                    components.roots(),
                    components.payloads(),
                );
                &&& recipe.matrices@ == c.matrices
                &&& recipe.primitives@ == flat_primitives(c.meshes, components.payloads())
                &&& recipe.matrix_for_primitives@ == flat_slots(c.meshes, components.payloads())
            }),
            slots_follow_parents(
                components.shape(),
                components.payloads(),
                compile_roots(components.shape(), components.roots(), components.payloads()),
            ),
            recipe.matrices@.len() > 0,
            recipe.matrices@[0] == MatrixSource::Identity,
            recipe.matrix_for_primitives@.len() == recipe.primitives@.len(),
            forall|i: int|
                0 <= i < recipe.matrix_for_primitives@.len()
                    ==> #[trigger] recipe.matrix_for_primitives@[i] < recipe.matrices@.len(),
            forall|k: int|
                0 <= k < recipe.matrices@.len() ==> match #[trigger] recipe.matrices@[k] {
                    MatrixSource::Identity => true,
                    MatrixSource::Product { base, node } => base < k && node
                        < components.spec_len(),
                },
    {
        let ghost shape = components.shape();
        let ghost roots = components.roots();
        let ghost data = components.payloads();
        let n = components.len();
        let mut matrices: Vec<MatrixSource> = Vec::new();
        matrices.push(MatrixSource::Identity);
        let mut meshes: Vec<(usize, usize)> = Vec::new();
        let n_roots = components.borrow_roots().len();
        let mut r: usize = 0;
        let ghost mut state = compile_roots(shape, roots.take(0), data);
        proof {
            assert(roots.take(0) =~= Seq::<usize>::empty());
            assert(state.matrices =~= matrices@);
            assert(state.meshes =~= meshes@);
        }
        while r < n_roots
            invariant
                r <= n_roots,
                n_roots == roots.len(),
                n == shape.len(),
                components.wf(),
                components.resolved(),
                shape == components.shape(),
                roots == components.roots(),
                data == components.payloads(),
                state == compile_roots(shape, roots.take(r as int), data),
                matrices@ == state.matrices,
                meshes@ == state.meshes,
                compiling_sound(
                    Compiling {
                        matrices: state.matrices,
                        current: 0,
                        stack: Seq::empty(),
                        meshes: state.meshes,
                    },
                    n as nat,
                ),
            decreases n_roots - r,
        {
            let root = components.borrow_roots()[r];
            assert(shape.is_root(roots[r as int] as int));
            let mut trans_index: usize = 0;
            let mut mesh_stack: Vec<usize> = Vec::new();
            let mut walk = components.enum_from(root);
            let ghost total = shape.subtree_ops(root as int);
            let ghost done = Seq::<NodeEnumOp>::empty();
            let ghost start = Compiling {
                matrices: state.matrices,
                current: 0,
                stack: Seq::empty(),
                meshes: state.meshes,
            };
            let ghost mut cur = start;
            proof {
                shape.lemma_subtree_entered(root as int);
                shape.lemma_subtree_balanced(root as int);
                assert(done + walk.remaining() =~= total);
            }
            loop
                invariant_except_break
                    done + walk.remaining() == total,
                invariant
                    walk.wf(),
                    n == shape.len(),
                    components.wf(),
                    shape == components.shape(),
                    data == components.payloads(),
                    total == shape.subtree_ops(root as int),
                    crate::hierarchy::ops::never_negative(total),
                    forall|x: usize| #[trigger] entered(total).contains(x) ==> x < n,
                    cur == compile_ops(start, done, data),
                    matrices@ == cur.matrices,
                    meshes@ == cur.meshes,
                    mesh_stack@ == cur.stack,
                    trans_index == cur.current,
                    cur.stack.len() == nesting(done),
                    compiling_sound(cur, n as nat),
                ensures
                    done == total,
                decreases walk.remaining().len(),
            {
                let ghost left = walk.remaining();
                match walk.next_op() {
                    None => {
                        proof {
                            assert(done + left =~= done);
                        }
                        break ;
                    },
                    Some(op) => {
                        let ghost next = done.push(op);
                        proof {
                            assert(next + walk.remaining() =~= total);
                            assert(total.take(next.len() as int) =~= next);
                            assert(0 + nesting(total.take(next.len() as int)) >= 0);
                            assert(next.drop_last() =~= done);
                            assert(next.last() == op);
                            lemma_entered_concat(next, walk.remaining());
                        }
                        match op {
                            NodeEnumOp::Push(node, _) => {
                                proof {
                                    let e = entered(next);
                                    assert(e.last() == node);
                                    assert(entered(total)[e.len() - 1] == node);
                                    assert(entered(total).contains(node));
                                }
                                mesh_stack.push(trans_index);
                                if components.borrow_node(node).transformation.is_some() {
                                    let source = MatrixSource::Product { base: trans_index, node };
                                    trans_index = matrices.len();
                                    matrices.push(source);
                                }
                                meshes.push((node, trans_index));
                            },
                            NodeEnumOp::Pop(_, _) => {
                                trans_index = mesh_stack.pop().unwrap();
                            },
                        }
                        proof {
                            cur = compile_step(cur, op, data);
                            done = next;
                            assert(matrices@ =~= cur.matrices);
                            assert(meshes@ =~= cur.meshes);
                            assert(mesh_stack@ =~= cur.stack);
                        }
                    },
                }
            }
            proof {
                assert(roots.take(r + 1).drop_last() =~= roots.take(r as int));
                assert(roots.take(r + 1).last() == root);
                state = cur;
            }
            r += 1;
        }
        proof {
            assert(roots.take(n_roots as int) =~= roots);
            assert(matrices.len() <= usize::MAX);
            lemma_slots_follow_parents(shape, roots, data, roots.len() as int);
        }
        let mut primitives: Vec<Primitive> = Vec::new();
        let mut matrix_for_primitives: Vec<usize> = Vec::new();
        let n_meshes = meshes.len();
        let mut m: usize = 0;
        proof {
            assert(meshes@.take(0) =~= Seq::<(usize, usize)>::empty());
            let c = Compiling {
                matrices: state.matrices,
                current: 0,
                stack: Seq::empty(),
                meshes: state.meshes,
            };
            assert forall|k: int| 0 <= k < meshes@.len() implies (#[trigger] meshes@[k]).1
                < matrices@.len() && meshes@[k].0 < n by {
                assert(c.meshes[k].1 < c.matrices.len());
            }
        }
        while m < n_meshes
            invariant
                m <= n_meshes,
                n_meshes == meshes@.len(),
                n == shape.len(),
                components.wf(),
                shape == components.shape(),
                data == components.payloads(),
                meshes@ == state.meshes,
                matrices@ == state.matrices,
                forall|k: int|
                    0 <= k < meshes@.len() ==> (#[trigger] meshes@[k]).1 < matrices@.len()
                        && meshes@[k].0 < n,
                primitives@ == flat_primitives(meshes@.take(m as int), data),
                matrix_for_primitives@ == flat_slots(meshes@.take(m as int), data),
                matrix_for_primitives@.len() == primitives@.len(),
                forall|i: int|
                    0 <= i < matrix_for_primitives@.len() ==> #[trigger] matrix_for_primitives@[i]
                        < matrices@.len(),
            decreases n_meshes - m,
        {
            let (node, slot) = meshes[m];
            let mesh = &components.borrow_node(node).mesh;
            let n_prims = mesh.primitives.len();
            let ghost base_prims = primitives@;
            let ghost base_slots = matrix_for_primitives@;
            let mut j: usize = 0;
            while j < n_prims
                invariant
                    j <= n_prims,
                    n_prims == mesh@.len(),
                    slot < matrices@.len(),
                    primitives@ == base_prims + mesh@.take(j as int),
                    matrix_for_primitives@ == base_slots + Seq::new(j as nat, |i: int| slot),
                    base_slots.len() == base_prims.len(),
                    forall|i: int|
                        0 <= i < base_slots.len() ==> #[trigger] base_slots[i] < matrices@.len(),
                decreases n_prims - j,
            {
                primitives.push(mesh.primitives[j]);
                matrix_for_primitives.push(slot);
                proof {
                    assert(primitives@ =~= base_prims + mesh@.take(j + 1));
                    assert(matrix_for_primitives@ =~= base_slots + Seq::new(
                        (j + 1) as nat,
                        |i: int| slot,
                    ));
                }
                j += 1;
            }
            proof {
                assert(mesh@.take(n_prims as int) =~= mesh@);
                assert(meshes@.take(m + 1).drop_last() =~= meshes@.take(m as int));
                assert(meshes@.take(m + 1).last() == (node, slot));
                assert(data[node as int].mesh@ == mesh@);
            }
            m += 1;
        }
        proof {
            assert(meshes@.take(n_meshes as int) =~= meshes@);
        }
        RenderRecipe { matrices, primitives, matrix_for_primitives }
    }
}

} // verus!
