//! A walk keeps the ancestors of a node open while it is below them: when a
//! node is entered, the innermost node that is entered and not yet left is
//! its parent.

use vstd::prelude::*;
use crate::hierarchy::ops::{
    lemma_open_concat, lemma_open_single, lemma_prefix_nesting_bounded, max_nesting, nesting,
    never_negative, open_after, replay_steps, scratch_owners, NodeEnumOp, ReplayStep,
};
use crate::hierarchy::shape::Shape;

verus! {

impl Shape {
    /// `open` is what is open when the node `m` is entered as the tree
    /// demands: the innermost open node is the parent of `m`, or nothing is
    /// open where `m` is a root.
    pub open spec fn enters_under_parent(self, open: Seq<usize>, m: int) -> bool {
        &&& self.has(m)
        &&& match self.parents[m] {
            Some(p) => open.len() > 0 && open.last() == p,
            None => open.len() == 0,
        }
    }

    /// Every push of `ops`, replayed from `start`, enters its node under its
    /// parent.
    pub open spec fn pushes_under_parents(self, start: Seq<usize>, ops: Seq<NodeEnumOp>) -> bool {
        forall|k: int|
            0 <= k < ops.len() && (#[trigger] ops[k]) is Push ==> self.enters_under_parent(
                open_after(start, ops.take(k)),
                ops[k].spec_node() as int,
            )
    }

    /// The walk of a tree, begun where its root is entered under its parent,
    /// enters every node under its parent, and leaves open what was open.
    pub proof fn lemma_subtree_nests(self, node: int, start: Seq<usize>)
        requires
            self.forest(),
            self.has(node),
            self.enters_under_parent(start, node),
        ensures
            open_after(start, self.subtree_ops(node)) == start,
            self.pushes_under_parents(start, self.subtree_ops(node)),
        decreases self.limit - self.depths[node], self.children[node].len() + 1,
    {
        let push = NodeEnumOp::Push(node as usize, self.has_children(node));
        let pop = NodeEnumOp::Pop(node as usize, self.has_children(node));
        let mid = self.children_ops(node, 0);
        let ops = self.subtree_ops(node);
        let inner = start.push(node as usize);
        self.lemma_children_nest(node, 0, inner);
        lemma_open_single(start, push);
        lemma_open_single(inner, pop);
        lemma_open_concat(start, seq![push], mid);
        lemma_open_concat(start, seq![push] + mid, seq![pop]);
        assert(inner.drop_last() =~= start);
        assert forall|k: int| 0 <= k < ops.len() && (#[trigger] ops[k]) is Push implies self.enters_under_parent(
            open_after(start, ops.take(k)),
            ops[k].spec_node() as int,
        ) by {
            if k == 0 {
                assert(ops.take(0) =~= Seq::<NodeEnumOp>::empty());
            } else if k <= mid.len() {
                assert(ops.take(k) =~= seq![push] + mid.take(k - 1));
                lemma_open_concat(start, seq![push], mid.take(k - 1));
                assert(ops[k] == mid[k - 1]);
            }
        }
    }

    /// The walks of the children of a node, begun with the node innermost
    /// open, enter every node under its parent, and leave open what was
    /// open.
    pub proof fn lemma_children_nest(self, node: int, k: int, start: Seq<usize>)
        requires
            self.forest(),
            self.has(node),
            0 <= k <= self.children[node].len(),
            start.len() > 0,
            start.last() == node as usize,
        ensures
            open_after(start, self.children_ops(node, k)) == start,
            self.pushes_under_parents(start, self.children_ops(node, k)),
        decreases self.limit - self.depths[node], self.children[node].len() - k,
    {
        let ops = self.children_ops(node, k);
        if k < self.children[node].len() {
            let c = self.children[node][k] as int;
            self.lemma_child_below(node, k);
            assert(self.parents[c] == Some(node as usize));
            self.lemma_subtree_nests(c, start);
            self.lemma_children_nest(node, k + 1, start);
            let a = self.subtree_ops(c);
            let b = self.children_ops(node, k + 1);
            lemma_open_concat(start, a, b);
            assert forall|j: int| 0 <= j < ops.len() && (#[trigger] ops[j]) is Push implies self.enters_under_parent(
                open_after(start, ops.take(j)),
                ops[j].spec_node() as int,
            ) by {
                if j < a.len() {
                    assert(ops.take(j) =~= a.take(j));
                    assert(ops[j] == a[j]);
                } else {
                    assert(ops.take(j) =~= a + b.take(j - a.len()));
                    lemma_open_concat(start, a, b.take(j - a.len()));
                    assert(ops[j] == b[j - a.len()]);
                }
            }
        }
    }

    /// The walks of the roots of a forest, one after the other, enter every
    /// node under its parent, and leave nothing open.
    pub proof fn lemma_forest_nests(self, roots: Seq<usize>, m: int)
        requires
            self.forest(),
            self.lists_roots(roots),
            0 <= m <= roots.len(),
        ensures
            open_after(Seq::empty(), self.forest_ops(roots.take(m))) == Seq::<usize>::empty(),
            self.pushes_under_parents(Seq::empty(), self.forest_ops(roots.take(m))),
        decreases m,
    {
        let none = Seq::<usize>::empty();
        let ops = self.forest_ops(roots.take(m));
        if m == 0 {
            assert(roots.take(0) =~= Seq::<usize>::empty());
        } else {
            let r = roots[m - 1] as int;
            assert(roots.take(m).drop_last() =~= roots.take(m - 1));
            assert(roots.take(m).last() == roots[m - 1]);
            assert(self.is_root(roots[m - 1] as int));
            self.lemma_forest_nests(roots, m - 1);
            self.lemma_subtree_nests(r, none);
            let a = self.forest_ops(roots.take(m - 1));
            let b = self.subtree_ops(r);
            lemma_open_concat(none, a, b);
            assert forall|j: int| 0 <= j < ops.len() && (#[trigger] ops[j]) is Push implies self.enters_under_parent(
                open_after(none, ops.take(j)),
                ops[j].spec_node() as int,
            ) by {
                if j < a.len() {
                    assert(ops.take(j) =~= a.take(j));
                    assert(ops[j] == a[j]);
                } else {
                    assert(ops.take(j) =~= a + b.take(j - a.len()));
                    lemma_open_concat(none, a, b.take(j - a.len()));
                    assert(ops[j] == b[j - a.len()]);
                }
            }
        }
    }

    /// The step `j` of a replay reads what it should: its depth is the depth
    /// of its node in the forest, and either its node is a root, or the
    /// scratch slot one shallower than its depth was last written by the
    /// parent of its node. `start` says who had written the scratch slots
    /// before the replay.
    pub open spec fn step_reads_parent(
        self,
        start: Seq<Option<usize>>,
        steps: Seq<ReplayStep>,
        j: int,
    ) -> bool {
        let scratch = scratch_owners(start, steps.take(j));
        &&& self.has(steps[j].node as int)
        &&& steps[j].depth == self.depths[steps[j].node as int]
        &&& match self.parents[steps[j].node as int] {
            Some(p) => steps[j].depth > 0 && steps[j].depth - 1 < scratch.len()
                && scratch[steps[j].depth - 1] == Some(p),
            None => steps[j].depth == 0,
        }
    }

    /// What holds after `ops` of a replay: the scratch slots below the
    /// nesting were last written by the nodes that are open, in order, each
    /// open node lies as deep in the forest as in the nesting, and every
    /// step so far read what its parent wrote.
    pub open spec fn replay_sound(self, start: Seq<Option<usize>>, ops: Seq<NodeEnumOp>) -> bool {
        let open = open_after(Seq::empty(), ops);
        let steps = replay_steps(ops);
        let scratch = scratch_owners(start, steps);
        &&& open.len() == nesting(ops)
        &&& scratch.len() == start.len()
        &&& open.len() <= scratch.len()
        &&& forall|d: int| 0 <= d < open.len() ==> #[trigger] scratch[d] == Some(open[d])
        &&& forall|d: int| 0 <= d < open.len() ==> self.depths[#[trigger] open[d] as int] == d
        &&& forall|j: int|
            0 <= j < steps.len() ==> #[trigger] self.step_reads_parent(start, steps, j)
    }

    /// One more operation keeps a replay sound, where a push enters its node
    /// under its parent and finds a scratch slot for it, and a pop closes a
    /// push.
    pub proof fn lemma_replay_step(self, start: Seq<Option<usize>>, ops: Seq<NodeEnumOp>, op: NodeEnumOp)
        requires
            self.forest(),
            self.replay_sound(start, ops),
            start.len() <= usize::MAX,
            op is Push ==> nesting(ops) < start.len() && self.enters_under_parent(
                open_after(Seq::empty(), ops),
                op.spec_node() as int,
            ),
            op is Pop ==> nesting(ops) > 0,
        ensures
            self.replay_sound(start, ops.push(op)),
    {
        let next = ops.push(op);
        assert(next.drop_last() =~= ops);
        assert(next.last() == op);
        let open = open_after(Seq::empty(), ops);
        let steps = replay_steps(ops);
        let scratch = scratch_owners(start, steps);
        let after = replay_steps(next);
        match op {
            NodeEnumOp::Push(m, _) => {
                let d = nesting(ops);
                let step = ReplayStep { node: m, depth: d as usize };
                assert(after == steps.push(step));
                assert(after.drop_last() =~= steps);
                assert(after.last() == step);
                assert(scratch_owners(start, after) == scratch.update(d, Some(m)));
                assert forall|j: int| 0 <= j < after.len() implies #[trigger] self.step_reads_parent(
                    start,
                    after,
                    j,
                ) by {
                    if j < steps.len() {
                        assert(self.step_reads_parent(start, steps, j));
                        assert(after.take(j) =~= steps.take(j));
                    } else {
                        assert(after.take(j) =~= steps);
                        match self.parents[m as int] {
                            Some(p) => {
                                assert(scratch[d - 1] == Some(open[d - 1]));
                            },
                            None => {},
                        }
                    }
                }
                let open2 = open_after(Seq::empty(), next);
                let scratch2 = scratch_owners(start, after);
                assert forall|q: int| 0 <= q < open2.len() implies #[trigger] scratch2[q] == Some(
                    open2[q],
                ) by {
                    if q < open.len() {
                        assert(scratch[q] == Some(open[q]));
                    }
                }
                assert forall|q: int| 0 <= q < open2.len() implies self.depths[
                #[trigger] open2[q] as int] == q by {
                    if q < open.len() {
                        assert(self.depths[open[q] as int] == q);
                    } else {
                        match self.parents[m as int] {
                            Some(p) => {
                                assert(self.depths[open[d - 1] as int] == d - 1);
                            },
                            None => {},
                        }
                    }
                }
            },
            NodeEnumOp::Pop(_, _) => {
                assert(after == steps);
                let open2 = open_after(Seq::empty(), next);
                assert(open2 == open.drop_last());
                assert forall|q: int| 0 <= q < open2.len() implies #[trigger] scratch[q] == Some(
                    open2[q],
                ) by {
                    assert(scratch[q] == Some(open[q]));
                }
                assert forall|q: int| 0 <= q < open2.len() implies self.depths[
                #[trigger] open2[q] as int] == q by {
                    assert(self.depths[open[q] as int] == q);
                }
            },
        }
    }

    /// A replay of a walk that enters every node under its parent, on
    /// scratch space as deep as its greatest nesting, is sound up to each of
    /// its operations.
    pub proof fn lemma_replay_prefix(self, start: Seq<Option<usize>>, ops: Seq<NodeEnumOp>, n: int)
        requires
            self.forest(),
            0 <= n <= ops.len(),
            self.pushes_under_parents(Seq::empty(), ops),
            never_negative(ops),
            max_nesting(ops) <= start.len(),
            start.len() <= usize::MAX,
        ensures
            self.replay_sound(start, ops.take(n)),
        decreases n,
    {
        if n == 0 {
            assert(ops.take(0) =~= Seq::<NodeEnumOp>::empty());
        } else {
            self.lemma_replay_prefix(start, ops, n - 1);
            assert(ops.take(n) =~= ops.take(n - 1).push(ops[n - 1]));
            assert(ops.take(n).drop_last() =~= ops.take(n - 1));
            assert(ops.take(n).last() == ops[n - 1]);
            lemma_prefix_nesting_bounded(ops, n);
            assert(0 + nesting(ops.take(n)) >= 0);
            self.lemma_replay_step(start, ops.take(n - 1), ops[n - 1]);
        }
    }
}

} // verus!
