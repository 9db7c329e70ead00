//! What a render recipe promises of its matrix slots: a component with a
//! transformation gets a matrix made from the slot of its parent, and a
//! component without one draws with the slot of its parent.

use vstd::prelude::*;
use crate::component::Component;
use crate::hierarchy::ops::{open_after, NodeEnumOp};
use crate::hierarchy::shape::Shape;
use crate::render_recipe::{compile_ops, compile_roots, compile_step, transforms, Compiling, MatrixSource};

verus! {

/// The slot of the component `m` is what it has to be where `base` is the
/// slot in effect around it: a matrix made from `base` and the
/// transformation of `m`, or `base` itself where `m` has no transformation.
pub open spec fn slot_follows<X>(
    c: Compiling,
    components: Seq<Component<X>>,
    m: usize,
    slot: usize,
    base: usize,
) -> bool {
    if transforms(components, m as int) {
        slot < c.matrices.len() && c.matrices[slot as int] == (MatrixSource::Product {
            base,
            node: m,
        })
    } else {
        slot == base
    }
}

/// The `k`th entered component has the slot that follows from the slot of
/// its parent, which was entered before it, or from slot 0 where it is a
/// root.
pub open spec fn entry_follows_parent<X>(
    shape: Shape,
    components: Seq<Component<X>>,
    c: Compiling,
    k: int,
) -> bool {
    match shape.parents[c.meshes[k].0 as int] {
        Some(p) => exists|j: int|
            0 <= j < k && (#[trigger] c.meshes[j]).0 == p && slot_follows(
                c,
                components,
                c.meshes[k].0,
                c.meshes[k].1,
                c.meshes[j].1,
            ),
        None => slot_follows(c, components, c.meshes[k].0, c.meshes[k].1, 0),
    }
}

/// Every entered component has the slot that follows from that of its
/// parent.
pub open spec fn slots_follow_parents<X>(
    shape: Shape,
    components: Seq<Component<X>>,
    c: Compiling,
) -> bool {
    forall|k: int|
        0 <= k < c.meshes.len() ==> #[trigger] entry_follows_parent(shape, components, c, k)
}

/// The components that are entered and not yet left after `ops`, each with
/// its slot, the innermost last.
pub open spec fn open_slots<X>(
    start: Compiling,
    ops: Seq<NodeEnumOp>,
    components: Seq<Component<X>>,
) -> Seq<(usize, usize)>
    decreases ops.len(),
{
    if ops.len() == 0 {
        Seq::empty()
    } else {
        let before = open_slots(start, ops.drop_last(), components);
        match ops.last() {
            NodeEnumOp::Push(n, _) => before.push((n, compile_ops(start, ops, components).current)),
            NodeEnumOp::Pop(_, _) => if before.len() > 0 {
                before.drop_last()
            } else {
                before
            },
        }
    }
}

/// What holds of the compiler after `ops` of the walk of a root: the slot in
/// effect is that of the innermost open component, the saved slots are those
/// of the components around it, and every entered component has the slot
/// that follows from that of its parent.
pub open spec fn walk_sound<X>(
    shape: Shape,
    components: Seq<Component<X>>,
    start: Compiling,
    ops: Seq<NodeEnumOp>,
) -> bool {
    let c = compile_ops(start, ops, components);
    let t = open_slots(start, ops, components);
    let open = open_after(Seq::empty(), ops);
    &&& t.len() == open.len()
    &&& c.stack.len() == t.len()
    &&& forall|j: int| 0 <= j < t.len() ==> (#[trigger] t[j]).0 == open[j]
    &&& c.current == (if t.len() > 0 {
        t.last().1
    } else {
        0
    })
    &&& forall|j: int|
        0 <= j < t.len() ==> #[trigger] c.stack[j] == (if j == 0 {
            0
        } else {
            t[j - 1].1
        })
    &&& forall|j: int|
        0 <= j < t.len() ==> exists|i: int| 0 <= i < c.meshes.len() && c.meshes[i] == #[trigger] t[j]
    &&& slots_follow_parents(shape, components, c)
}

/// One more operation of the walk keeps the compiler sound, where a push
/// enters its component under its parent.
pub proof fn lemma_walk_step<X>(
    shape: Shape,
    components: Seq<Component<X>>,
    start: Compiling,
    ops: Seq<NodeEnumOp>,
    op: NodeEnumOp,
)
    requires
        walk_sound(shape, components, start, ops),
        op is Push ==> shape.enters_under_parent(
            open_after(Seq::empty(), ops),
            op.spec_node() as int,
        ),
        compile_ops(start, ops.push(op), components).matrices.len() <= usize::MAX,
    ensures
        walk_sound(shape, components, start, ops.push(op)),
{
    let next = ops.push(op);
    assert(next.drop_last() =~= ops);
    assert(next.last() == op);
    let c = compile_ops(start, ops, components);
    let d = compile_ops(start, next, components);
    assert(d == compile_step(c, op, components));
    let t = open_slots(start, ops, components);
    let u = open_slots(start, next, components);
    let open = open_after(Seq::empty(), ops);
    match op {
        NodeEnumOp::Push(m, _) => {
            let k = c.meshes.len() as int;
            assert(u == t.push((m, d.current)));
            assert(d.meshes[k] == (m, d.current));
            assert forall|j: int| 0 <= j < u.len() implies exists|i: int|
                0 <= i < d.meshes.len() && d.meshes[i] == #[trigger] u[j] by {
                if j < t.len() {
                    let i = choose|i: int| 0 <= i < c.meshes.len() && c.meshes[i] == t[j];
                    assert(d.meshes[i] == u[j]);
                } else {
                    assert(d.meshes[k] == u[j]);
                }
            }
            assert forall|q: int| 0 <= q < d.meshes.len() implies #[trigger] entry_follows_parent(
                shape,
                components,
                d,
                q,
            ) by {
                if q < k {
                    assert(entry_follows_parent(shape, components, c, q));
                    assert(d.meshes[q] == c.meshes[q]);
                    match shape.parents[c.meshes[q].0 as int] {
                        Some(p) => {
                            let j = choose|j: int|
                                0 <= j < q && (#[trigger] c.meshes[j]).0 == p && slot_follows(
                                    c,
                                    components,
                                    c.meshes[q].0,
                                    c.meshes[q].1,
                                    c.meshes[j].1,
                                );
                            assert(d.meshes[j] == c.meshes[j]);
                            assert(slot_follows(
                                d,
                                components,
                                d.meshes[q].0,
                                d.meshes[q].1,
                                d.meshes[j].1,
                            ));
                        },
                        None => {},
                    }
                } else {
                    match shape.parents[m as int] {
                        Some(p) => {
                            assert(open.len() > 0 && open.last() == p);
                            let last = t.len() - 1;
                            assert(t[last].0 == open[last]);
                            let i = choose|i: int| 0 <= i < c.meshes.len() && c.meshes[i] == t[last];
                            assert(d.meshes[i] == c.meshes[i]);
                            assert(d.meshes[i].0 == p);
                            assert(slot_follows(d, components, m, d.current, d.meshes[i].1));
                        },
                        None => {
                            assert(open.len() == 0);
                        },
                    }
                }
            }
            assert forall|j: int| 0 <= j < u.len() implies #[trigger] d.stack[j] == (if j == 0 {
                0
            } else {
                u[j - 1].1
            }) by {
                if j < t.len() {
                    assert(d.stack[j] == c.stack[j]);
                }
            }
            assert forall|j: int| 0 <= j < u.len() implies (#[trigger] u[j]).0 == open_after(
                Seq::empty(),
                next,
            )[j] by {
                if j < t.len() {
                    assert(t[j].0 == open[j]);
                }
            }
        },
        NodeEnumOp::Pop(_, _) => {
            if t.len() > 0 {
                assert(u == t.drop_last());
                assert(d.meshes == c.meshes);
                assert(d.matrices == c.matrices);
                assert forall|j: int| 0 <= j < u.len() implies exists|i: int|
                    0 <= i < d.meshes.len() && d.meshes[i] == #[trigger] u[j] by {
                    let i = choose|i: int| 0 <= i < c.meshes.len() && c.meshes[i] == t[j];
                    assert(d.meshes[i] == u[j]);
                }
                assert forall|j: int| 0 <= j < u.len() implies #[trigger] d.stack[j] == (if j
                    == 0 {
                    0
                } else {
                    u[j - 1].1
                }) by {
                    assert(d.stack[j] == c.stack[j]);
                }
                assert forall|j: int| 0 <= j < u.len() implies (#[trigger] u[j]).0 == open_after(
                    Seq::empty(),
                    next,
                )[j] by {
                    assert(t[j].0 == open[j]);
                }
                assert(c.stack[t.len() - 1] == (if t.len() - 1 == 0 {
                    0
                } else {
                    t[t.len() - 2].1
                }));
                assert forall|q: int| 0 <= q < d.meshes.len() implies #[trigger] entry_follows_parent(
                    shape,
                    components,
                    d,
                    q,
                ) by {
                    assert(entry_follows_parent(shape, components, c, q));
                }
            } else {
                assert(d == c);
            }
        },
    }
}

/// The compiler never takes a matrix away.
pub proof fn lemma_matrices_grow<X>(
    components: Seq<Component<X>>,
    start: Compiling,
    ops: Seq<NodeEnumOp>,
    n: int,
)
    requires
        0 <= n <= ops.len(),
    ensures
        compile_ops(start, ops.take(n), components).matrices.len() <= compile_ops(
            start,
            ops,
            components,
        ).matrices.len(),
    decreases ops.len(),
{
    if n == ops.len() {
        assert(ops.take(n) =~= ops);
    } else {
        assert(ops.drop_last().take(n) =~= ops.take(n));
        lemma_matrices_grow(components, start, ops.drop_last(), n);
    }
}

/// The walk of a tree keeps the compiler sound up to each of its operations.
pub proof fn lemma_walk_prefix<X>(
    shape: Shape,
    components: Seq<Component<X>>,
    start: Compiling,
    ops: Seq<NodeEnumOp>,
    n: int,
)
    requires
        0 <= n <= ops.len(),
        start.current == 0,
        start.stack.len() == 0,
        slots_follow_parents(shape, components, start),
        shape.pushes_under_parents(Seq::empty(), ops),
        compile_ops(start, ops, components).matrices.len() <= usize::MAX,
    ensures
        walk_sound(shape, components, start, ops.take(n)),
    decreases n,
{
    if n == 0 {
        assert(ops.take(0) =~= Seq::<NodeEnumOp>::empty());
    } else {
        lemma_walk_prefix(shape, components, start, ops, n - 1);
        assert(ops.take(n) =~= ops.take(n - 1).push(ops[n - 1]));
        lemma_matrices_grow(components, start, ops, n);
        lemma_walk_step(shape, components, start, ops.take(n - 1), ops[n - 1]);
    }
}

/// In the render recipe of a forest of components, every component has the
/// slot that follows from that of its parent: a component without a
/// transformation draws with the matrix of its parent (with the identity
/// where it is a root), and a component with one draws with a matrix made
/// from the matrix of its parent and its own transformation. This holds
/// after the walks of the first `m` roots, for every `m`, as long as the
/// slots can be counted in a machine word.
pub proof fn lemma_slots_follow_parents<X>(
    shape: Shape,
    roots: Seq<usize>,
    components: Seq<Component<X>>,
    m: int,
)
    requires
        shape.forest(),
        shape.lists_roots(roots),
        0 <= m <= roots.len(),
        compile_roots(shape, roots.take(m), components).matrices.len() <= usize::MAX,
    ensures
        slots_follow_parents(shape, components, compile_roots(shape, roots.take(m), components)),
    decreases m,
{
    if m == 0 {
        assert(roots.take(0) =~= Seq::<usize>::empty());
    } else {
        let r = roots[m - 1];
        assert(roots.take(m).drop_last() =~= roots.take(m - 1));
        assert(roots.take(m).last() == r);
        let before = compile_roots(shape, roots.take(m - 1), components);
        let start = Compiling {
            matrices: before.matrices,
            current: 0,
            stack: Seq::empty(),
            meshes: before.meshes,
        };
        assert(shape.subtree_ops(r as int).take(0) =~= Seq::<NodeEnumOp>::empty());
        lemma_matrices_grow(components, start, shape.subtree_ops(r as int), 0);
        lemma_slots_follow_parents(shape, roots, components, m - 1);
        assert forall|k: int| 0 <= k < start.meshes.len() implies #[trigger] entry_follows_parent(
            shape,
            components,
            start,
            k,
        ) by {
            assert(entry_follows_parent(shape, components, before, k));
        }
        assert(shape.is_root(roots[m - 1] as int));
        let ops = shape.subtree_ops(r as int);
        shape.lemma_subtree_nests(r as int, Seq::empty());
        lemma_walk_prefix(shape, components, start, ops, ops.len() as int);
        assert(ops.take(ops.len() as int) =~= ops);
    }
}

} // verus!
