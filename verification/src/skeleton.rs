//! A skeleton: a hierarchy of bones, resolved once into recorded traversals.

use vstd::prelude::*;
use crate::bone::Bone;
use crate::hierarchy::ops::{
    entered, lemma_entered_concat, lemma_entered_prefix, lemma_scratch_concat, max_nesting,
    replay_steps, scratch_owners, NodeEnumOp, ReplayStep,
};
use crate::hierarchy::recipe::Recipe;
use crate::hierarchy::shape::Shape;
use crate::hierarchy::tree::{Hierarchy, HierarchyError};

verus! {

/// The number of matrix slots that `bones` need: one more than the greatest
/// matrix index among them, 0 without bones.
pub open spec fn max_index_of<X>(bones: Seq<Bone<X>>) -> nat
    decreases bones.len(),
{
    if bones.len() == 0 {
        0
    } else {
        let rest = max_index_of(bones.drop_last());
        if bones.last().matrix_index >= rest {
            (bones.last().matrix_index + 1) as nat
        } else {
            rest
        }
    }
}

/// The greatest depth among `recipes`.
pub open spec fn deepest(recipes: Seq<(usize, Recipe)>) -> int
    decreases recipes.len(),
{
    if recipes.len() == 0 {
        0
    } else {
        let rest = deepest(recipes.drop_last());
        if max_nesting(recipes.last().1@) > rest {
            max_nesting(recipes.last().1@)
        } else {
            rest
        }
    }
}

/// The steps of a replay of `recipes`, one recipe after the other.
pub open spec fn recipes_steps(recipes: Seq<(usize, Recipe)>) -> Seq<ReplayStep>
    decreases recipes.len(),
{
    if recipes.len() == 0 {
        Seq::empty()
    } else {
        recipes_steps(recipes.drop_last()) + replay_steps(recipes.last().1@)
    }
}

/// The bones with new matrix indices: the bone that `order` names at
/// position `k` gets the index `k`. Where `order` names a bone twice, the
/// later position stays.
pub open spec fn renumbered<X>(order: Seq<usize>, bones: Seq<Bone<X>>) -> Seq<Bone<X>>
    decreases order.len(),
{
    if order.len() == 0 {
        bones
    } else {
        let before = renumbered(order.drop_last(), bones);
        let n = order.last() as int;
        if 0 <= n < before.len() {
            before.update(
                n,
                Bone {
                    transformation: before[n].transformation,
                    matrix_index: (order.len() - 1) as usize,
                },
            )
        } else {
            before
        }
    }
}

/// Every matrix index is below the number of slots that the bones need.
pub proof fn lemma_max_index_bounds<X>(bones: Seq<Bone<X>>, i: int)
    requires
        0 <= i < bones.len(),
    ensures
        bones[i].matrix_index < max_index_of(bones),
    decreases bones.len(),
{
    if i < bones.len() - 1 {
        lemma_max_index_bounds(bones.drop_last(), i);
    }
}

/// Where `order` names every bone once, renumbering gives the bone at
/// position `k` of `order` the index `k`: the indices are dense, below the
/// number of bones, and no two bones share one. The rest poses stay.
pub proof fn lemma_renumbered_dense<X>(order: Seq<usize>, bones: Seq<Bone<X>>)
    requires
        order.no_duplicates(),
        order.len() <= usize::MAX,
        forall|k: int| 0 <= k < order.len() ==> (#[trigger] order[k]) < bones.len(),
    ensures
        renumbered(order, bones).len() == bones.len(),
        forall|k: int|
            0 <= k < order.len() ==> (#[trigger] renumbered(order, bones)[order[k] as int]).matrix_index
                == k,
        forall|i: int|
            0 <= i < bones.len() ==> (#[trigger] renumbered(order, bones)[i]).transformation
                == bones[i].transformation,
        forall|i: int|
            0 <= i < bones.len() && !order.contains(i as usize) ==> #[trigger] renumbered(
                order,
                bones,
            )[i] == bones[i],
    decreases order.len(),
{
    if order.len() > 0 {
        let front = order.drop_last();
        lemma_renumbered_dense(front, bones);
        let before = renumbered(front, bones);
        let after = renumbered(order, bones);
        let n = order.last() as int;
        assert(order[order.len() - 1] < bones.len());
        assert(forall|k: int| 0 <= k < front.len() ==> front[k] == order[k]);
        assert(before.len() == bones.len());
        assert(after == before.update(
            n,
            Bone {
                transformation: before[n].transformation,
                matrix_index: (order.len() - 1) as usize,
            },
        ));
        assert forall|k: int| 0 <= k < order.len() implies (#[trigger] after[order[k] as int]).matrix_index
            == k by {
            if k < order.len() - 1 {
                assert(order[k] != order[order.len() - 1]);
                assert(front[k] == order[k]);
                assert(before[front[k] as int].matrix_index == k);
            } else {
                assert(order[k] as int == n);
            }
        }
        assert forall|i: int| 0 <= i < bones.len() implies (#[trigger] after[i]).transformation
            == bones[i].transformation by {
            assert(before[i].transformation == bones[i].transformation);
        }
        assert forall|i: int| 0 <= i < bones.len() && !order.contains(i as usize) implies #[trigger] after[i]
            == bones[i] by {
            assert(i != n);
            if front.contains(i as usize) {
                let k = choose|k: int| 0 <= k < front.len() && front[k] == i as usize;
                assert(order[k] == i as usize);
            }
        }
    }
}

/// A set of related bones, with one or more roots.
///
/// It is built with `add_bone` and `relate`. `resolve` then finds the roots
/// and records one traversal for each; the recorded traversals are what
/// every later pass over the bones replays.
pub struct Skeleton<X> {
    /// The bones, with their hierarchical relationships
    skeleton: Hierarchy<Bone<X>>,
    /// The roots of the bones, each with the recorded traversal of its tree
    roots: Vec<(usize, Recipe)>,
    /// The number of scratch slots that a replay needs
    scratch_len: usize,
    /// The number of matrix slots that the bones need
    max_index: usize,
}

impl<X: Copy> Skeleton<X> {
    /// The hierarchy of the bones.
    pub closed spec fn hierarchy(&self) -> Hierarchy<Bone<X>> {
        self.skeleton
    }

    /// The roots, each with its recorded traversal; empty until resolved.
    pub closed spec fn recipes(&self) -> Seq<(usize, Recipe)> {
        self.roots@
    }

    /// The number of scratch slots that a replay needs.
    pub closed spec fn spec_scratch_len(&self) -> usize {
        self.scratch_len
    }

    /// The number of matrix slots that the bones need.
    pub closed spec fn spec_max_index(&self) -> usize {
        self.max_index
    }

    /// The bones, by index.
    pub open spec fn bones(&self) -> Seq<Bone<X>> {
        self.hierarchy().payloads()
    }

    /// The parent/child structure of the bones.
    pub open spec fn shape(&self) -> Shape {
        self.hierarchy().shape()
    }

    /// The roots have been found and their traversals recorded.
    pub open spec fn resolved(&self) -> bool {
        self.recipes().len() > 0
    }

    /// The `k`th recorded traversal is the walk of the tree below the `k`th
    /// root.
    pub open spec fn recipe_matches(&self, k: int) -> bool {
        &&& self.recipes()[k].0 == self.hierarchy().roots()[k]
        &&& self.recipes()[k].1.wf()
        &&& self.recipes()[k].1@ == self.shape().subtree_ops(self.recipes()[k].0 as int)
    }

    /// The invariant of a skeleton: its bones form a forest, and once it is
    /// resolved its recorded traversals are the walks of its trees, the
    /// scratch space is as deep as the deepest of them, and every matrix
    /// index is below the number of matrix slots.
    pub open spec fn wf(&self) -> bool {
        &&& self.hierarchy().wf()
        &&& forall|i: int|
            0 <= i < self.bones().len() ==> (#[trigger] self.bones()[i]).matrix_index < usize::MAX
        &&& self.resolved() ==> {
            &&& self.hierarchy().resolved()
            &&& self.recipes().len() == self.hierarchy().roots().len()
            &&& forall|k: int| 0 <= k < self.recipes().len() ==> #[trigger] self.recipe_matches(k)
            &&& self.spec_scratch_len() == deepest(self.recipes())
            &&& forall|i: int|
                0 <= i < self.bones().len() ==> (#[trigger] self.bones()[i]).matrix_index
                    < self.spec_max_index()
        }
    }

    /// The operations of all the recorded traversals, one root after the
    /// other.
    pub open spec fn all_ops(&self) -> Seq<NodeEnumOp> {
        self.shape().forest_ops(self.hierarchy().roots())
    }

    /// Create a new set of bones.
    pub fn new() -> (s: Self)
        ensures
            s.wf(),
            !s.resolved(),
            s.bones() == Seq::<Bone<X>>::empty(),
            s.shape() == Shape::empty(),
    {
        Skeleton { skeleton: Hierarchy::new(), roots: Vec::new(), scratch_len: 0, max_index: 0 }
    }

    /// Return the number of bones.
    pub fn len(&self) -> (n: usize)
        requires
            self.wf(),
        ensures
            n == self.bones().len(),
            n == self.shape().len(),
    {
        self.skeleton.len()
    }

    /// Return true if the skeleton has been resolved.
    pub fn is_resolved(&self) -> (b: bool)
        ensures
            b == self.resolved(),
    {
        self.roots.len() != 0
    }

    /// Return the number of matrix slots that the bones need, as found when
    /// the skeleton was last resolved or its indices rewritten.
    pub fn max_index(&self) -> (n: usize)
        ensures
            n == self.spec_max_index(),
    {
        self.max_index
    }

    /// Return the number of scratch slots that a replay needs.
    pub fn scratch_len(&self) -> (n: usize)
        ensures
            n == self.spec_scratch_len(),
    {
        self.scratch_len
    }

    /// Borrow the hierarchy of the bones.
    pub fn borrow_hierarchy(&self) -> (h: &Hierarchy<Bone<X>>)
        ensures
            *h == self.hierarchy(),
    {
        &self.skeleton
    }

    /// Borrow the roots and their recorded traversals.
    pub fn borrow_roots(&self) -> (r: &Vec<(usize, Recipe)>)
        ensures
            r@ == self.recipes(),
    {
        &self.roots
    }

    /// Add a bone with a given rest pose relative to its parent (if it has
    /// one), and the index of the matrix slot that it will use. Returns the
    /// index of the bone.
    ///
    /// What was resolved is forgotten: the skeleton has to be resolved again.
    pub fn add_bone(&mut self, transformation: X, matrix_index: usize) -> (n: usize)
        requires
            old(self).wf(),
            matrix_index < usize::MAX,
        ensures
            final(self).wf(),
            !final(self).resolved(),
            n == old(self).bones().len(),
            final(self).bones() == old(self).bones().push(Bone { transformation, matrix_index }),
            final(self).shape() == old(self).shape().with_node(),
            !final(self).hierarchy().resolved(),
    {
        self.roots = Vec::new();
        self.skeleton.clear_roots();
        let n = self.skeleton.len();
        let bone = Bone::new(transformation, matrix_index);
        let r = self.skeleton.add_node(bone);
        proof {
            assert(r.is_ok());
            assert forall|i: int| 0 <= i < self.bones().len() implies (
            #[trigger] self.bones()[i]).matrix_index < usize::MAX by {
                if i < old(self).bones().len() {
                    assert(self.bones()[i] == old(self).bones()[i]);
                }
            }
        }
        n
    }

    /// Replace the rest pose of a bone. The structure and the matrix indices
    /// stay as they are.
    pub fn set_transformation(&mut self, bone: usize, transformation: X)
        requires
            old(self).wf(),
            bone < old(self).bones().len(),
        ensures
            final(self).wf(),
            final(self).hierarchy().roots() == old(self).hierarchy().roots(),
            final(self).hierarchy().resolved() == old(self).hierarchy().resolved(),
            final(self).recipes() == old(self).recipes(),
            final(self).shape() == old(self).shape(),
            final(self).spec_max_index() == old(self).spec_max_index(),
            final(self).spec_scratch_len() == old(self).spec_scratch_len(),
            final(self).bones() == old(self).bones().update(
                bone as int,
                Bone { transformation, matrix_index: old(self).bones()[bone as int].matrix_index },
            ),
    {
        let matrix_index = self.skeleton.borrow_node(bone).matrix_index;
        self.skeleton.set_node(bone, Bone { transformation, matrix_index });
        proof {
            assert forall|k: int| 0 <= k < self.recipes().len() implies #[trigger] self.recipe_matches(
                k,
            ) by {
                assert(old(self).recipe_matches(k));
            }
        }
    }

    /// Relate a parent bone to a child bone, by their indices. A resolved
    /// skeleton refuses; so does a hierarchy that would no longer be a
    /// forest.
    pub fn relate(&mut self, parent: usize, child: usize) -> (r: Result<(), HierarchyError>)
        requires
            old(self).wf(),
        ensures
            final(self).wf(),
            r == old(self).hierarchy().relate_outcome(parent, child),
            final(self).bones() == old(self).bones(),
            final(self).recipes() == old(self).recipes(),
            final(self).spec_max_index() == old(self).spec_max_index(),
            final(self).spec_scratch_len() == old(self).spec_scratch_len(),
            r.is_ok() ==> final(self).shape() == old(self).shape().with_edge(parent, child),
            r.is_err() ==> final(self).shape() == old(self).shape(),
    {
        let r = self.skeleton.relate(parent, child);
        proof {
            assert(self.bones() == old(self).bones());
            assert forall|i: int| 0 <= i < self.bones().len() implies (
            #[trigger] self.bones()[i]).matrix_index < usize::MAX by {
                assert(old(self).bones()[i].matrix_index < usize::MAX);
            }
            if self.resolved() {
                assert forall|i: int| 0 <= i < self.bones().len() implies (
                #[trigger] self.bones()[i]).matrix_index < self.spec_max_index() by {
                    assert(old(self).bones()[i].matrix_index < old(self).spec_max_index());
                }
                assert(r.is_err());
                assert forall|k: int| 0 <= k < self.recipes().len() implies #[trigger] self.recipe_matches(
                    k,
                ) by {
                    assert(old(self).recipe_matches(k));
                }
            }
        }
        r
    }

    /// Find the number of matrix slots that the bones need.
    fn find_max_matrix_index(&mut self)
        requires
            old(self).hierarchy().wf(),
            forall|i: int|
                0 <= i < old(self).bones().len() ==> (#[trigger] old(self).bones()[i]).matrix_index
                    < usize::MAX,
        ensures
            final(self).hierarchy() == old(self).hierarchy(),
            final(self).recipes() == old(self).recipes(),
            final(self).spec_scratch_len() == old(self).spec_scratch_len(),
            final(self).spec_max_index() == max_index_of(old(self).bones()),
    {
        let mut max_index: usize = 0;
        let n = self.skeleton.len();
        let mut i: usize = 0;
        assert(self.bones().take(0) =~= Seq::<Bone<X>>::empty());
        while i < n
            invariant
                i <= n,
                n == self.bones().len(),
                *self == *old(self),
                self.hierarchy().wf(),
                forall|i: int|
                    0 <= i < self.bones().len() ==> (#[trigger] self.bones()[i]).matrix_index
                        < usize::MAX,
                max_index == max_index_of(self.bones().take(i as int)),
            decreases n - i,
        {
            let index = self.skeleton.borrow_node(i).matrix_index;
            proof {
                assert(self.bones().take(i + 1).drop_last() =~= self.bones().take(i as int));
                assert(self.bones().take(i + 1).last() == self.bones()[i as int]);
            }
            if index >= max_index {
                max_index = index + 1;
            }
            i += 1;
        }
        assert(self.bones().take(n as int) =~= self.bones());
        self.max_index = max_index;
    }

    /// Resolve the skeleton: find the roots, record the traversal of the
    /// tree below each root, and find how many scratch slots the deepest
    /// traversal needs and how many matrix slots the bones need.
    ///
    /// A skeleton that is resolved stays as it is.
    pub fn resolve(&mut self)
        requires
            old(self).wf(),
        ensures
            final(self).wf(),
            final(self).bones() == old(self).bones(),
            final(self).shape() == old(self).shape(),
            old(self).resolved() ==> *final(self) == *old(self),
            final(self).resolved() <==> final(self).shape().len() > 0,
            final(self).resolved() ==> final(self).spec_scratch_len() == deepest(
                final(self).recipes(),
            ),
            !old(self).resolved() ==> final(self).spec_max_index() == max_index_of(
                final(self).bones(),
            ) && final(self).hierarchy().resolved(),
    {
        if self.roots.len() == 0 {
            self.skeleton.find_roots();
            let n_roots = self.skeleton.borrow_roots().len();
            let ghost h = self.skeleton;
            let mut max_depth: usize = 0;
            let mut k: usize = 0;
            while k < n_roots
                invariant
                    k <= n_roots,
                    self.skeleton == h,
                    h.wf(),
                    h.resolved(),
                    n_roots == h.roots().len(),
                    self.roots@.len() == k,
                    forall|j: int| 0 <= j < k ==> #[trigger] self.recipe_matches(j),
                    max_depth == deepest(self.roots@),
                    h.payloads() == old(self).bones(),
                    h.shape() == old(self).shape(),
                    old(self).wf(),
                decreases n_roots - k,
            {
                let ghost prev = *self;
                let r = self.skeleton.borrow_roots()[k];
                assert(h.shape().is_root(h.roots()[k as int] as int));
                let recipe = Recipe::of_ops(self.skeleton.enum_from(r));
                let d = recipe.depth();
                if d > max_depth {
                    max_depth = d;
                }
                let ghost before = self.roots@;
                self.roots.push((r, recipe));
                proof {
                    assert(self.roots@.drop_last() =~= before);
                    assert forall|j: int| 0 <= j < k + 1 implies #[trigger] self.recipe_matches(
                        j,
                    ) by {
                        if j < k {
                            assert(self.roots@[j] == before[j]);
                            assert(prev.recipe_matches(j));
                        }
                    }
                }
                k += 1;
            }
            let ghost prev = *self;
            self.scratch_len = max_depth;
            proof {
                assert forall|i: int| 0 <= i < self.bones().len() implies (
                #[trigger] self.bones()[i]).matrix_index < usize::MAX by {
                    assert(old(self).bones()[i].matrix_index < usize::MAX);
                }
            }
            self.find_max_matrix_index();
            proof {
                assert forall|j: int| 0 <= j < self.recipes().len() implies #[trigger] self.recipe_matches(
                    j,
                ) by {
                    assert(prev.recipe_matches(j));
                }
                assert forall|i: int| 0 <= i < self.bones().len() implies (
                #[trigger] self.bones()[i]).matrix_index < self.spec_max_index() by {
                    lemma_max_index_bounds(self.bones(), i);
                }
                if self.shape().len() > 0 {
                    let r = self.shape().lemma_reaches_a_root(0);
                    assert(h.roots().contains(r as usize));
                }
                if h.roots().len() > 0 {
                    assert(h.shape().is_root(h.roots()[0] as int));
                }
            }
        } else {
            proof {
                assert(self.shape().is_root(self.hierarchy().roots()[0] as int));
            }
        }
    }

    /// Rewrite the matrix indices of the bones from 0, if they look
    /// unassigned: if the bones need fewer matrix slots than there are
    /// bones. Each bone then gets the position at which the recorded
    /// traversals enter it, and the skeleton needs as many matrix slots as
    /// it has bones.
    pub fn rewrite_indices(&mut self)
        requires
            old(self).wf(),
        ensures
            final(self).wf(),
            final(self).shape() == old(self).shape(),
            final(self).resolved() <==> final(self).shape().len() > 0,
            old(self).resolved() ==> final(self).recipes() == old(self).recipes(),
            ({
                let slots = if old(self).resolved() {
                    old(self).spec_max_index() as nat
                } else {
                    max_index_of(old(self).bones())
                };
                if slots < old(self).bones().len() {
                    &&& final(self).bones() == renumbered(
                        entered(final(self).all_ops()),
                        old(self).bones(),
                    )
                    &&& final(self).spec_max_index() == old(self).bones().len()
                    &&& forall|a: int, b: int|
                        0 <= a < b < final(self).bones().len() ==> (
                        #[trigger] final(self).bones()[a]).matrix_index != (
                        #[trigger] final(self).bones()[b]).matrix_index
                } else {
                    &&& final(self).bones() == old(self).bones()
                    &&& final(self).spec_max_index() == slots
                }
            }),
    {
        self.resolve();
        let n = self.skeleton.len();
        if self.max_index < n {
            let ghost start = self.bones();
            let ghost s = self.shape();
            let ghost roots = self.hierarchy().roots();
            let ghost recipes = self.recipes();
            let ghost scratch = self.spec_scratch_len();
            let n_roots = self.roots.len();
            assert(start.len() == n);
            let mut bone_count: usize = 0;
            let mut k: usize = 0;
            proof {
                s.lemma_forest_entered(roots);
                assert(roots.take(0) =~= Seq::<usize>::empty());
            }
            while k < n_roots
                invariant
                    k <= n_roots,
                    n_roots == recipes.len(),
                    n_roots == roots.len(),
                    n == s.len(),
                    self.hierarchy().wf(),
                    self.hierarchy().resolved(),
                    self.hierarchy().roots() == roots,
                    self.shape() == s,
                    self.recipes() == recipes,
                    self.spec_scratch_len() == scratch,
                    scratch == deepest(recipes),
                    forall|j: int| 0 <= j < recipes.len() ==> #[trigger] self.recipe_matches(j),
                    s.forest(),
                    s.lists_roots(roots),
                    entered(s.forest_ops(roots)).len() == n,
                    bone_count == entered(s.forest_ops(roots.take(k as int))).len(),
                    self.bones() == renumbered(
                        entered(s.forest_ops(roots.take(k as int))),
                        start,
                    ),
                    self.bones().len() == n,
                    start.len() == n,
                decreases n_roots - k,
            {
                let ghost done = entered(s.forest_ops(roots.take(k as int)));
                let ghost ops = recipes[k as int].1@;
                proof {
                    assert(self.recipe_matches(k as int));
                    assert(roots.take(k + 1).drop_last() =~= roots.take(k as int));
                    assert(roots.take(k + 1).last() == roots[k as int]);
                    lemma_entered_concat(s.forest_ops(roots.take(k as int)), ops);
                    Self::lemma_forest_prefix(s, roots, k + 1);
                    assert(ops.take(0) =~= Seq::<NodeEnumOp>::empty());
                    assert(done + entered(ops.take(0)) =~= done);
                    s.lemma_subtree_entered(roots[k as int] as int);
                }
                let n_ops = self.roots[k].1.borrow_ops().len();
                let mut j: usize = 0;
                while j < n_ops
                    invariant
                        j <= n_ops,
                        k < n_roots,
                        n_roots == recipes.len(),
                        n_ops == ops.len(),
                        ops == recipes[k as int].1@,
                        n == s.len(),
                        self.hierarchy().wf(),
                        self.hierarchy().resolved(),
                        self.hierarchy().roots() == roots,
                        self.shape() == s,
                        self.recipes() == recipes,
                        self.spec_scratch_len() == scratch,
                        forall|j: int| 0 <= j < recipes.len() ==> #[trigger] self.recipe_matches(j),
                        done.len() + entered(ops).len() <= n,
                        forall|x: usize| #[trigger] entered(ops).contains(x) ==> x < n,
                        bone_count == done.len() + entered(ops.take(j as int)).len(),
                        self.bones() == renumbered(done + entered(ops.take(j as int)), start),
                        self.bones().len() == n,
                        start.len() == n,
                    decreases n_ops - j,
                {
                    let op = self.roots[k].1.borrow_ops()[j];
                    proof {
                        let next = ops.take(j + 1);
                        assert(next.drop_last() =~= ops.take(j as int));
                        assert(next.last() == op);
                        lemma_entered_prefix(ops, j + 1);
                    }
                    match op {
                        NodeEnumOp::Push(node, _) => {
                            proof {
                                let e = entered(ops.take(j + 1));
                                let order = done + e;
                                assert(order.drop_last() =~= done + entered(ops.take(j as int)));
                                assert(order.last() == node);
                                assert(ops.take(j + 1) + ops.skip(j + 1) =~= ops);
                                lemma_entered_concat(ops.take(j + 1), ops.skip(j + 1));
                                assert(entered(ops)[e.len() - 1] == node);
                                assert(entered(ops).contains(node));
                            }
                            let ghost prev = *self;
                            let transformation = self.skeleton.borrow_node(node).transformation;
                            self.skeleton.set_node(
                                node,
                                Bone { transformation, matrix_index: bone_count },
                            );
                            proof {
                                assert forall|q: int|
                                    0 <= q < recipes.len() implies #[trigger] self.recipe_matches(
                                    q,
                                ) by {
                                    assert(prev.recipe_matches(q));
                                }
                            }
                            bone_count += 1;
                        },
                        NodeEnumOp::Pop(_, _) => {},
                    }
                    j += 1;
                }
                proof {
                    assert(ops.take(n_ops as int) =~= ops);
                }
                k += 1;
            }
            let ghost prev = *self;
            self.max_index = bone_count;
            proof {
                assert(roots.take(n_roots as int) =~= roots);
                assert forall|q: int| 0 <= q < recipes.len() implies #[trigger] self.recipe_matches(
                    q,
                ) by {
                    assert(prev.recipe_matches(q));
                }
                let order = entered(s.forest_ops(roots));
                assert forall|q: int| 0 <= q < order.len() implies (#[trigger] order[q])
                    < start.len() by {
                    assert(order.contains(order[q]));
                }
                lemma_renumbered_dense(order, start);
                assert forall|i: int| 0 <= i < self.bones().len() implies (
                #[trigger] self.bones()[i]).matrix_index < n by {
                    let e = entered(s.forest_ops(roots));
                    assert(e.contains(i as usize));
                    let q = choose|q: int| 0 <= q < e.len() && e[q] == i as usize;
                    assert(self.bones()[e[q] as int].matrix_index == q);
                }
                assert forall|a: int, b: int| 0 <= a < b < self.bones().len() implies (
                #[trigger] self.bones()[a]).matrix_index != (
                #[trigger] self.bones()[b]).matrix_index by {
                    let e = entered(s.forest_ops(roots));
                    assert(e.contains(a as usize));
                    assert(e.contains(b as usize));
                    let qa = choose|q: int| 0 <= q < e.len() && e[q] == a as usize;
                    let qb = choose|q: int| 0 <= q < e.len() && e[q] == b as usize;
                    assert(self.bones()[e[qa] as int].matrix_index == qa);
                    assert(self.bones()[e[qb] as int].matrix_index == qb);
                }
            }
        }
    }

    /// The walks of the first `m` roots enter no more nodes than the walks
    /// of all of them.
    proof fn lemma_forest_prefix(s: Shape, roots: Seq<usize>, m: int)
        requires
            0 <= m <= roots.len(),
        ensures
            entered(s.forest_ops(roots.take(m))).len() <= entered(s.forest_ops(roots)).len(),
        decreases roots.len() - m,
    {
        if m == roots.len() {
            assert(roots.take(m) =~= roots);
        } else {
            Self::lemma_forest_prefix(s, roots, m + 1);
            assert(roots.take(m + 1).drop_last() =~= roots.take(m));
            lemma_entered_concat(
                s.forest_ops(roots.take(m)),
                s.subtree_ops(roots.take(m + 1).last() as int),
            );
        }
    }

    /// Derive the order in which the matrices of the bones are derived: the
    /// bones as the recorded traversals enter them, each with its depth.
    ///
    /// A bone at depth 0 is a root. The matrix of any other bone is derived
    /// from the scratch slot one shallower than its depth, and every bone
    /// leaves its matrix in the scratch slot of its depth, which is below
    /// the number of scratch slots. The skeleton must be resolved.
    pub fn derive_matrices(&self) -> (steps: Vec<ReplayStep>)
        requires
            self.wf(),
            self.resolved(),
        ensures
            steps@ == recipes_steps(self.recipes()),
            forall|k: int|
                0 <= k < steps@.len() ==> (#[trigger] steps@[k]).depth < self.spec_scratch_len(),
    {
        let mut steps: Vec<ReplayStep> = Vec::new();
        let n_roots = self.roots.len();
        let mut k: usize = 0;
        assert(self.recipes().take(0) =~= Seq::<(usize, Recipe)>::empty());
        while k < n_roots
            invariant
                k <= n_roots,
                n_roots == self.recipes().len(),
                self.wf(),
                self.resolved(),
                steps@ == recipes_steps(self.recipes().take(k as int)),
                forall|j: int|
                    0 <= j < steps@.len() ==> (#[trigger] steps@[j]).depth
                        < self.spec_scratch_len(),
            decreases n_roots - k,
        {
            proof {
                assert(self.recipe_matches(k as int));
                assert(self.recipes().take(k + 1).drop_last() =~= self.recipes().take(k as int));
                assert(self.recipes().take(k + 1).last() == self.recipes()[k as int]);
                Self::lemma_deepest_bounds(self.recipes(), k as int);
            }
            let mut part = self.roots[k].1.steps();
            steps.append(&mut part);
            k += 1;
        }
        assert(self.recipes().take(n_roots as int) =~= self.recipes());
        steps
    }

    /// No recipe is deeper than the deepest.
    proof fn lemma_deepest_bounds(recipes: Seq<(usize, Recipe)>, k: int)
        requires
            0 <= k < recipes.len(),
        ensures
            max_nesting(recipes[k].1@) <= deepest(recipes),
        decreases recipes.len(),
    {
        if k < recipes.len() - 1 {
            Self::lemma_deepest_bounds(recipes.drop_last(), k);
        }
    }

    /// In the order that `derive_matrices` gives, every bone finds what its
    /// parent wrote: the depth of a bone is its depth in the hierarchy, a
    /// bone at depth 0 is a root, and when any other bone is reached, the
    /// scratch slot one shallower than its depth was last written by its
    /// parent. This holds after the replay of the first `m`
    /// recorded traversals, for every `m`, and whatever the scratch slots
    /// held before.
    pub proof fn lemma_steps_read_parents(&self, start: Seq<Option<usize>>, m: int)
        requires
            self.wf(),
            self.resolved(),
            start.len() == self.spec_scratch_len(),
            0 <= m <= self.recipes().len(),
        ensures
            forall|j: int|
                0 <= j < recipes_steps(self.recipes().take(m)).len()
                    ==> #[trigger] self.shape().step_reads_parent(
                    start,
                    recipes_steps(self.recipes().take(m)),
                    j,
                ),
        decreases m,
    {
        let shape = self.shape();
        let steps = recipes_steps(self.recipes().take(m));
        if m > 0 {
            let front = self.recipes().take(m - 1);
            assert(self.recipes().take(m).drop_last() =~= front);
            assert(self.recipes().take(m).last() == self.recipes()[m - 1]);
            assert(self.recipe_matches(m - 1));
            self.lemma_steps_read_parents(start, m - 1);
            Self::lemma_deepest_bounds(self.recipes(), m - 1);
            let root = self.recipes()[m - 1].0;
            let ops = self.recipes()[m - 1].1@;
            let a = recipes_steps(front);
            let b = replay_steps(ops);
            assert(steps == a + b);
            let roots = self.hierarchy().roots();
            assert(shape.is_root(roots[m - 1] as int));
            shape.lemma_subtree_nests(root as int, Seq::empty());
            shape.lemma_subtree_balanced(root as int);
            lemma_scratch_concat(start, a, Seq::empty());
            let mid = scratch_owners(start, a);
            assert(ops.take(ops.len() as int) =~= ops);
            shape.lemma_replay_prefix(mid, ops, ops.len() as int);
            assert forall|j: int| 0 <= j < steps.len() implies #[trigger] shape.step_reads_parent(
                start,
                steps,
                j,
            ) by {
                if j < a.len() {
                    assert(shape.step_reads_parent(start, a, j));
                    assert(steps.take(j) =~= a.take(j));
                } else {
                    let i = j - a.len();
                    assert(steps.take(j) =~= a + b.take(i));
                    lemma_scratch_concat(start, a, b.take(i));
                    assert(shape.step_reads_parent(mid, b, i));
                    assert(steps[j] == b[i]);
                }
            }
        } else {
            assert(self.recipes().take(0) =~= Seq::<(usize, Recipe)>::empty());
        }
    }

    /// Return the indices of the root bones, in rising order.
    pub fn iter_roots(&self) -> (r: Vec<usize>)
        ensures
            r@.len() == self.recipes().len(),
            forall|k: int| 0 <= k < r@.len() ==> r@[k] == (#[trigger] self.recipes()[k]).0,
    {
        let mut r: Vec<usize> = Vec::new();
        let n = self.roots.len();
        let mut k: usize = 0;
        while k < n
            invariant
                k <= n,
                n == self.roots@.len(),
                r@.len() == k,
                forall|j: int| 0 <= j < k ==> r@[j] == (#[trigger] self.roots@[j]).0,
            decreases n - k,
        {
            r.push(self.roots[k].0);
            k += 1;
        }
        r
    }
}

} // verus!
