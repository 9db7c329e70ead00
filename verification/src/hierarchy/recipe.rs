//! A traversal recorded once, to be replayed without walking the tree.

use vstd::prelude::*;
use crate::hierarchy::ops::{
    lemma_count_bound, lemma_prefix_nesting_bounded, max_nesting, nesting, never_negative,
    replay_steps, NodeEnumOp, ReplayStep,
};
use crate::hierarchy::walk::NodeEnum;

verus! {

/// A recorded traversal: the operations in order, and the greatest nesting
/// that they reach, which is the size of the scratch space a replay needs.
pub struct Recipe {
    /// The operations, in order
    ops: Vec<NodeEnumOp>,
    /// The greatest nesting reached so far
    max_depth: usize,
    /// The nesting after the last operation
    cur_depth: usize,
}

impl View for Recipe {
    type V = Seq<NodeEnumOp>;

    closed spec fn view(&self) -> Seq<NodeEnumOp> {
        self.ops@
    }
}

impl Recipe {
    /// The recorded greatest nesting.
    pub closed spec fn spec_depth(&self) -> usize {
        self.max_depth
    }

    /// The recorded nesting after the last operation.
    pub closed spec fn spec_current(&self) -> usize {
        self.cur_depth
    }

    /// The invariant of a recipe: it never pops more than it pushed, and
    /// the two recorded depths are those of its operations.
    pub open spec fn wf(&self) -> bool {
        &&& never_negative(self@)
        &&& self.spec_current() == nesting(self@)
        &&& self.spec_depth() == max_nesting(self@)
    }

    /// Create an empty recipe.
    pub fn new() -> (r: Self)
        ensures
            r.wf(),
            r@ == Seq::<NodeEnumOp>::empty(),
    {
        let r = Recipe { ops: Vec::new(), max_depth: 0, cur_depth: 0 };
        assert forall|k: int| 0 <= k <= r@.len() implies 0 + nesting(#[trigger] r@.take(k))
            >= 0 by {
            assert(r@.take(k) =~= Seq::<NodeEnumOp>::empty());
        }
        r
    }

    /// Record one more operation. A pop needs a push that it closes.
    pub fn add_op(&mut self, op: NodeEnumOp)
        requires
            old(self).wf(),
            op is Pop ==> nesting(old(self)@) > 0,
        ensures
            final(self).wf(),
            final(self)@ == old(self)@.push(op),
    {
        self.ops.push(op);
        proof {
            let before = old(self)@;
            let after = self.ops@;
            assert(after.drop_last() =~= before);
            assert(after.last() == op);
            lemma_count_bound(before);
            assert(self.ops.len() == before.len() + 1);
            assert forall|k: int| 0 <= k <= after.len() implies 0 + nesting(
                #[trigger] after.take(k),
            ) >= 0 by {
                if k == after.len() {
                    assert(after.take(k) =~= after);
                } else {
                    assert(after.take(k) =~= before.take(k));
                }
            }
        }
        match op {
            NodeEnumOp::Push(_, _) => {
                self.cur_depth = self.cur_depth + 1;
                if self.cur_depth > self.max_depth {
                    self.max_depth = self.cur_depth;
                }
            },
            NodeEnumOp::Pop(_, _) => {
                self.cur_depth = self.cur_depth - 1;
            },
        }
    }

    /// Return the greatest nesting of the recorded operations: the number of
    /// scratch slots that a replay needs.
    pub fn depth(&self) -> (d: usize)
        requires
            self.wf(),
        ensures
            d == max_nesting(self@),
    {
        self.max_depth
    }

    /// Borrow the recorded operations.
    pub fn borrow_ops(&self) -> (ops: &Vec<NodeEnumOp>)
        ensures
            ops@ == self@,
    {
        &self.ops
    }

    /// Take the recipe apart: its greatest nesting and its operations.
    pub fn take(self) -> (r: (usize, Vec<NodeEnumOp>))
        requires
            self.wf(),
        ensures
            r.0 == max_nesting(self@),
            r.1@ == self@,
    {
        (self.max_depth, self.ops)
    }

    /// Replay the recipe: return its pushes in order, each with the depth at
    /// which it happens. Every depth is below `depth()`, so that scratch space
    /// of that size is never left.
    pub fn steps(&self) -> (steps: Vec<ReplayStep>)
        requires
            self.wf(),
        ensures
            steps@ == replay_steps(self@),
            forall|k: int| 0 <= k < steps@.len() ==> (#[trigger] steps@[k]).depth < max_nesting(self@),
    {
        let mut steps: Vec<ReplayStep> = Vec::new();
        let mut depth: usize = 0;
        let n = self.ops.len();
        let mut j: usize = 0;
        assert(self@.take(0) =~= Seq::<NodeEnumOp>::empty());
        while j < n
            invariant
                j <= n,
                n == self.ops.len(),
                self.wf(),
                depth == nesting(self@.take(j as int)),
                steps@ == replay_steps(self@.take(j as int)),
                forall|k: int| 0 <= k < steps@.len() ==> (#[trigger] steps@[k]).depth < max_nesting(
                    self@,
                ),
            decreases n - j,
        {
            let op = self.ops[j];
            proof {
                let next = self@.take(j + 1);
                assert(next.drop_last() =~= self@.take(j as int));
                assert(next.last() == op);
                lemma_prefix_nesting_bounded(self@, j + 1);
                assert(0 + nesting(next) >= 0);
            }
            match op {
                NodeEnumOp::Push(node, _) => {
                    steps.push(ReplayStep { node, depth });
                    depth = depth + 1;
                },
                NodeEnumOp::Pop(_, _) => {
                    depth = depth - 1;
                },
            }
            j += 1;
        }
        assert(self@.take(n as int) =~= self@);
        steps
    }

    /// Record what is left of a walk. The walk must not pop more than it
    /// pushes, which holds of every walk that has not yet started.
    pub fn of_ops<T>(iter: NodeEnum<'_, T>) -> (r: Self)
        requires
            iter.wf(),
            never_negative(iter.remaining()),
        ensures
            r.wf(),
            r@ == iter.remaining(),
    {
        let mut walk = iter;
        let mut recipe = Recipe::new();
        let ghost total = iter.remaining();
        loop
            invariant_except_break
                recipe@ + walk.remaining() == total,
            invariant
                walk.wf(),
                recipe.wf(),
                never_negative(total),
                total == iter.remaining(),
            ensures
                recipe@ == total,
            decreases walk.remaining().len(),
        {
            let ghost left = walk.remaining();
            match walk.next_op() {
                None => {
                    assert(recipe@ + left =~= recipe@);
                    break ;
                },
                Some(op) => {
                    proof {
                        let next = recipe@.push(op);
                        assert(next + walk.remaining() =~= total);
                        assert(total.take(next.len() as int) =~= next);
                        assert(0 + nesting(total.take(next.len() as int)) >= 0);
                        assert(next.drop_last() =~= recipe@);
                        assert(next.last() == op);
                    }
                    recipe.add_op(op);
                },
            }
        }
        recipe
    }
}

} // verus!
