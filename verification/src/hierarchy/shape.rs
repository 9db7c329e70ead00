//! The mathematical model of a hierarchy: who is whose parent, and the
//! sequence of operations that a depth-first walk of it produces.

use vstd::prelude::*;
use crate::hierarchy::ops::{
    lemma_count_bound, lemma_count_concat, lemma_count_single, lemma_stays_above_concat,
    lemma_stays_above_single, nesting, never_negative, pops, pushes, stays_above, NodeEnumOp,
};

verus! {

/// The parent/child structure of a hierarchy, without the data of its nodes.
///
/// `depths` gives each node its distance from the root of its tree, and
/// `limit` is a bound above every depth; the two are what makes a walk up or
/// down the structure finite.
pub struct Shape {
    /// The parent of each node, if it has one
    pub parents: Seq<Option<usize>>,
    /// The children of each node, in the order in which they were related
    pub children: Seq<Seq<usize>>,
    /// The depth of each node: 0 for a root, one more than its parent's otherwise
    pub depths: Seq<nat>,
    /// A bound above every depth
    pub limit: nat,
}

impl Shape {
    /// The number of nodes.
    pub open spec fn len(self) -> nat {
        self.parents.len()
    }

    /// `i` is the index of a node.
    pub open spec fn has(self, i: int) -> bool {
        0 <= i < self.parents.len()
    }

    /// `i` is a node without a parent.
    pub open spec fn is_root(self, i: int) -> bool {
        self.has(i) && self.parents[i].is_none()
    }

    /// The shape with no nodes.
    pub open spec fn empty() -> Shape {
        Shape { parents: Seq::empty(), children: Seq::empty(), depths: Seq::empty(), limit: 1 }
    }

    /// The shape with one more node, unrelated to the others.
    pub open spec fn with_node(self) -> Shape {
        Shape {
            parents: self.parents.push(None),
            children: self.children.push(Seq::empty()),
            depths: self.depths.push(0),
            limit: self.limit,
        }
    }

    /// The shape after `child`, so far a root, has become the last child of
    /// `parent`: the whole tree below `child` moves down by the depth of
    /// `parent` plus one.
    pub open spec fn with_edge(self, parent: usize, child: usize) -> Shape {
        Shape {
            parents: self.parents.update(child as int, Some(parent)),
            children: self.children.update(
                parent as int,
                self.children[parent as int].push(child),
            ),
            depths: Seq::new(
                self.depths.len(),
                |i: int|
                    if self.reaches(i, child as int) {
                        self.depths[i] + self.depths[parent as int] + 1
                    } else {
                        self.depths[i]
                    },
            ),
            limit: self.limit + self.depths[parent as int] + 1,
        }
    }

    /// The structure is a forest: parents and children agree, no node is
    /// listed twice under its parent, and the depths grow by one from parent
    /// to child, so that there is no cycle.
    pub open spec fn forest(self) -> bool {
        &&& self.parents.len() <= usize::MAX
        &&& self.children.len() == self.parents.len()
        &&& self.depths.len() == self.parents.len()
        &&& forall|i: int| 0 <= i < self.parents.len() ==> #[trigger] self.depths[i] < self.limit
        &&& forall|i: int|
            0 <= i < self.parents.len() ==> match #[trigger] self.parents[i] {
                None => self.depths[i] == 0,
                Some(p) => p < self.parents.len() && self.depths[i] == self.depths[p as int] + 1
                    && self.children[p as int].contains(i as usize),
            }
        &&& forall|i: int, k: int|
            0 <= i < self.parents.len() && 0 <= k < self.children[i].len() ==> {
                &&& (#[trigger] self.children[i][k]) < self.parents.len()
                &&& self.parents[self.children[i][k] as int] == Some(i as usize)
            }
        &&& forall|i: int|
            0 <= i < self.parents.len() ==> (#[trigger] self.children[i]).no_duplicates()
    }

    /// `a` is `i` itself or one of its ancestors.
    pub open spec fn reaches(self, i: int, a: int) -> bool
        decreases self.depths[i],
    {
        if i == a {
            true
        } else if 0 <= i < self.parents.len() {
            match self.parents[i] {
                Some(p) => if p < self.parents.len() && self.depths[p as int] < self.depths[i] {
                    self.reaches(p as int, a)
                } else {
                    false
                },
                None => false,
            }
        } else {
            false
        }
    }

    /// `c` is a node that a walk may descend to from `node`.
    pub open spec fn below(self, node: int, c: int) -> bool {
        &&& 0 <= c < self.children.len()
        &&& c < self.depths.len()
        &&& 0 <= node < self.depths.len()
        &&& self.depths[node] < self.depths[c]
        &&& self.depths[c] < self.limit
    }

    /// The node has at least one child.
    pub open spec fn has_children(self, node: int) -> bool {
        self.children[node].len() > 0
    }

    /// The operations of a depth-first walk of the tree below `node`: a push
    /// of the node, the walks of its children in order, and a pop of the node.
    pub open spec fn subtree_ops(self, node: int) -> Seq<NodeEnumOp>
        decreases self.limit - self.depths[node], self.children[node].len() + 1,
    {
        if 0 <= node < self.children.len() {
            seq![NodeEnumOp::Push(node as usize, self.has_children(node))]
                + self.children_ops(node, 0)
                + seq![NodeEnumOp::Pop(node as usize, self.has_children(node))]
        } else {
            Seq::empty()
        }
    }

    /// The operations of the walks of the children of `node` from its `k`th on.
    pub open spec fn children_ops(self, node: int, k: int) -> Seq<NodeEnumOp>
        decreases self.limit - self.depths[node], self.children[node].len() - k,
    {
        if 0 <= node < self.children.len() && 0 <= k < self.children[node].len() {
            let c = self.children[node][k] as int;
            if self.below(node, c) {
                self.subtree_ops(c) + self.children_ops(node, k + 1)
            } else {
                Seq::empty()
            }
        } else {
            Seq::empty()
        }
    }

    /// `roots` lists the nodes without a parent, each once, in rising order.
    pub open spec fn lists_roots(self, roots: Seq<usize>) -> bool {
        &&& forall|a: int, b: int| 0 <= a < b < roots.len() ==> roots[a] < roots[b]
        &&& forall|k: int| 0 <= k < roots.len() ==> self.is_root(#[trigger] roots[k] as int)
        &&& forall|i: int| self.is_root(i) ==> roots.contains(i as usize)
    }

    /// A forest with one more unrelated node is a forest.
    pub proof fn lemma_with_node_forest(self)
        requires
            self.forest(),
            self.limit > 0,
            self.len() < usize::MAX,
        ensures
            self.with_node().forest(),
    {
        let t = self.with_node();
        assert forall|i: int| 0 <= i < t.parents.len() implies match #[trigger] t.parents[i] {
            None => t.depths[i] == 0,
            Some(p) => p < t.parents.len() && t.depths[i] == t.depths[p as int] + 1
                && t.children[p as int].contains(i as usize),
        } by {
            if i < self.parents.len() {
                match self.parents[i] {
                    None => {},
                    Some(p) => {
                        assert(t.children[p as int] == self.children[p as int]);
                    },
                }
            }
        }
        assert forall|i: int, k: int|
            0 <= i < t.parents.len() && 0 <= k < t.children[i].len() implies {
            &&& (#[trigger] t.children[i][k]) < t.parents.len()
            &&& t.parents[t.children[i][k] as int] == Some(i as usize)
        } by {
            assert(i < self.parents.len());
            assert(t.children[i] == self.children[i]);
            assert(self.children[i][k] < self.parents.len());
        }
        assert forall|i: int| 0 <= i < t.parents.len() implies (#[trigger] t.children[i]).no_duplicates() by {
            if i < self.parents.len() {
                assert(t.children[i] == self.children[i]);
            }
        }
    }

    /// A node that has just been added lies above no other node.
    pub proof fn lemma_fresh_node_unreachable(self, i: int)
        requires
            self.forest(),
            self.has(i),
        ensures
            !self.with_node().reaches(i, self.len() as int),
        decreases self.depths[i],
    {
        match self.parents[i] {
            None => {},
            Some(p) => {
                self.lemma_fresh_node_unreachable(p as int);
            },
        }
    }

    /// A forest stays a forest when one of its roots becomes the last child
    /// of a node that is not below it.
    pub proof fn lemma_with_edge_forest(self, parent_node: usize, child_node: usize)
        requires
            self.forest(),
            self.has(parent_node as int),
            self.is_root(child_node as int),
            !self.reaches(parent_node as int, child_node as int),
        ensures
            self.with_edge(parent_node, child_node).forest(),
    {
        let t = self.with_edge(parent_node, child_node);
        let parent = parent_node as int;
        let child = child_node as int;
        assert(self.reaches(child, child));
        assert(parent != child);
        assert forall|i: int| 0 <= i < t.parents.len() implies #[trigger] t.depths[i] < t.limit by {
            assert(self.depths[i] < self.limit);
        }
        assert forall|i: int| 0 <= i < t.parents.len() implies match #[trigger] t.parents[i] {
            None => t.depths[i] == 0,
            Some(p) => p < t.parents.len() && t.depths[i] == t.depths[p as int] + 1
                && t.children[p as int].contains(i as usize),
        } by {
            if i == child {
                let last = self.children[parent].len() as int;
                assert(t.children[parent][last] == child as usize);
            } else {
                match self.parents[i] {
                    None => {
                        assert(!self.reaches(i, child));
                    },
                    Some(p) => {
                        assert(self.reaches(i, child) == self.reaches(p as int, child));
                        let k = choose|k: int|
                            0 <= k < self.children[p as int].len() && self.children[p as int][k]
                                == i as usize;
                        assert(t.children[p as int][k] == i as usize);
                    },
                }
            }
        }
        assert forall|i: int, k: int|
            0 <= i < t.parents.len() && 0 <= k < t.children[i].len() implies {
            &&& (#[trigger] t.children[i][k]) < t.parents.len()
            &&& t.parents[t.children[i][k] as int] == Some(i as usize)
        } by {
            if i == parent && k == self.children[parent].len() {
            } else {
                assert(t.children[i][k] == self.children[i][k]);
                assert(self.parents[self.children[i][k] as int] == Some(i as usize));
            }
        }
        assert forall|i: int| 0 <= i < t.parents.len() implies (#[trigger] t.children[i]).no_duplicates() by {
            assert(self.children[i].no_duplicates());
            if i == parent {
                assert forall|a: int, b: int|
                    0 <= a < t.children[i].len() && 0 <= b < t.children[i].len() && a != b implies t.children[i][a]
                    != t.children[i][b] by {
                    let n = self.children[parent].len() as int;
                    if a < n {
                        assert(self.parents[self.children[parent][a] as int] == Some(
                            parent as usize,
                        ));
                    }
                    if b < n {
                        assert(self.parents[self.children[parent][b] as int] == Some(
                            parent as usize,
                        ));
                    }
                }
            }
        }
    }

    /// What is left of the walk of `node` once its first `k` children are
    /// done: the walks of the other children, and the pop of the node.
    pub open spec fn rest_ops(self, node: int, k: int) -> Seq<NodeEnumOp> {
        self.children_ops(node, k) + seq![NodeEnumOp::Pop(node as usize, self.has_children(node))]
    }

    /// What is left of a walk that stands at the last of `frames`, each frame
    /// a node that has been entered and the number of its children that are
    /// done or entered.
    pub open spec fn frames_ops(self, frames: Seq<(usize, usize)>) -> Seq<NodeEnumOp>
        decreases frames.len(),
    {
        if frames.len() == 0 {
            Seq::empty()
        } else {
            self.rest_ops(frames.last().0 as int, frames.last().1 as int) + self.frames_ops(
                frames.drop_last(),
            )
        }
    }

    /// Every frame names a node and a position among its children.
    pub open spec fn frames_valid(self, frames: Seq<(usize, usize)>) -> bool {
        forall|j: int|
            0 <= j < frames.len() ==> (#[trigger] frames[j]).0 < self.len() && frames[j].1
                <= self.children[frames[j].0 as int].len()
    }

    /// In a forest a child lies below its parent.
    pub proof fn lemma_child_below(self, node: int, k: int)
        requires
            self.forest(),
            self.has(node),
            0 <= k < self.children[node].len(),
        ensures
            self.below(node, self.children[node][k] as int),
            self.has(self.children[node][k] as int),
    {
        let c = self.children[node][k];
        assert(self.parents[c as int] == Some(node as usize));
        assert(self.depths[c as int] < self.limit);
    }

    /// The walk of a tree nests like the tree: it pushes as often as it pops,
    /// and no prefix of it pops more than it pushed.
    pub proof fn lemma_subtree_balanced(self, node: int)
        requires
            self.forest(),
            self.has(node),
        ensures
            never_negative(self.subtree_ops(node)),
            nesting(self.subtree_ops(node)) == 0,
            pushes(self.subtree_ops(node)) == pops(self.subtree_ops(node)),
            self.subtree_ops(node).len() == 2 * pushes(self.subtree_ops(node)),
            self.subtree_ops(node).len() >= 2,
        decreases self.limit - self.depths[node], self.children[node].len() + 1,
    {
        let push = NodeEnumOp::Push(node as usize, self.has_children(node));
        let pop = NodeEnumOp::Pop(node as usize, self.has_children(node));
        let mid = self.children_ops(node, 0);
        self.lemma_children_balanced(node, 0);
        lemma_count_single(push);
        lemma_count_single(pop);
        lemma_count_concat(seq![push], mid);
        lemma_count_concat(seq![push] + mid, seq![pop]);
        lemma_stays_above_single(push, 0);
        assert(stays_above(mid, 1)) by {
            assert forall|k: int| 0 <= k <= mid.len() implies 1 + nesting(#[trigger] mid.take(k))
                >= 0 by {
                assert(0 + nesting(mid.take(k)) >= 0);
            }
        }
        lemma_stays_above_concat(seq![push], mid, 0);
        lemma_stays_above_single(pop, 1);
        lemma_stays_above_concat(seq![push] + mid, seq![pop], 0);
        lemma_count_bound(self.subtree_ops(node));
    }

    /// The walks of the children of a node, one after the other, nest too.
    pub proof fn lemma_children_balanced(self, node: int, k: int)
        requires
            self.forest(),
            self.has(node),
            0 <= k <= self.children[node].len(),
        ensures
            never_negative(self.children_ops(node, k)),
            nesting(self.children_ops(node, k)) == 0,
        decreases self.limit - self.depths[node], self.children[node].len() - k,
    {
        if k < self.children[node].len() {
            let c = self.children[node][k] as int;
            self.lemma_child_below(node, k);
            self.lemma_subtree_balanced(c);
            self.lemma_children_balanced(node, k + 1);
            lemma_count_concat(self.subtree_ops(c), self.children_ops(node, k + 1));
            lemma_stays_above_concat(self.subtree_ops(c), self.children_ops(node, k + 1), 0);
        } else {
            let e = self.children_ops(node, k);
            assert forall|j: int| 0 <= j <= e.len() implies 0 + nesting(#[trigger] e.take(j))
                >= 0 by {
                assert(e.take(j) =~= Seq::<NodeEnumOp>::empty());
            }
        }
    }

    /// The operations of a walk of every tree of the forest, one root after
    /// the other.
    pub open spec fn forest_ops(self, roots: Seq<usize>) -> Seq<NodeEnumOp>
        decreases roots.len(),
    {
        if roots.len() == 0 {
            Seq::empty()
        } else {
            self.forest_ops(roots.drop_last()) + self.subtree_ops(roots.last() as int)
        }
    }
}

} // verus!
