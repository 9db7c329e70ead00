//! The depth-first walk of a tree of the hierarchy, one operation at a time.

use vstd::prelude::*;
use crate::hierarchy::ops::{balanced, NodeEnumOp};
use crate::hierarchy::shape::Shape;
use crate::hierarchy::tree::Hierarchy;

verus! {

/// A walk of the tree below one node, which hands out its operations one by
/// one: a push when a node is entered, a pop when it is left, the children
/// of a node in the order in which they were related.
///
/// The walk keeps its own stack and can be started again from any node.
pub struct NodeEnum<'a, T> {
    /// The hierarchy that is walked
    hierarchy: &'a Hierarchy<T>,
    /// The node to start at, until the walk has entered it
    start: Option<usize>,
    /// The nodes that have been entered and not left, each with the number
    /// of its children that the walk has entered
    stack: Vec<(usize, usize)>,
}

impl<'a, T> NodeEnum<'a, T> {
    /// The structure that is walked.
    pub closed spec fn shape(&self) -> Shape {
        self.hierarchy.shape()
    }

    /// The hierarchy that is walked.
    pub closed spec fn source(&self) -> &'a Hierarchy<T> {
        self.hierarchy
    }

    /// The node at which the walk will start, while it has not started.
    pub closed spec fn pending(&self) -> Option<usize> {
        self.start
    }

    /// The nodes that have been entered and not left, the innermost last.
    pub closed spec fn frames(&self) -> Seq<(usize, usize)> {
        self.stack@
    }

    /// The invariant of the walk.
    pub open spec fn wf(&self) -> bool {
        &&& self.source().wf()
        &&& self.shape() == self.source().shape()
        &&& self.shape().frames_valid(self.frames())
        &&& match self.pending() {
            Some(root) => root < self.shape().len() && self.frames().len() == 0,
            None => true,
        }
    }

    /// The operations that the walk has yet to hand out.
    pub open spec fn remaining(&self) -> Seq<NodeEnumOp> {
        match self.pending() {
            Some(root) => self.shape().subtree_ops(root as int),
            None => self.shape().frames_ops(self.frames()),
        }
    }

    /// Start a walk of the tree below `root`.
    pub fn new(hierarchy: &'a Hierarchy<T>, root: usize) -> (walk: Self)
        requires
            hierarchy.wf(),
            root < hierarchy.spec_len(),
        ensures
            walk.wf(),
            walk.source() == hierarchy,
            walk.remaining() == hierarchy.shape().subtree_ops(root as int),
            balanced(walk.remaining()),
    {
        proof {
            hierarchy.shape().lemma_subtree_balanced(root as int);
        }
        NodeEnum { hierarchy, start: Some(root), stack: Vec::new() }
    }

    /// Hand out the next operation of the walk, or `None` once the walk is
    /// over.
    pub fn next_op(&mut self) -> (r: Option<NodeEnumOp>)
        requires
            old(self).wf(),
        ensures
            final(self).wf(),
            final(self).source() == old(self).source(),
            old(self).remaining().len() == 0 ==> r.is_none() && final(self).remaining() == old(self).remaining(),
            old(self).remaining().len() > 0 ==> r == Some(old(self).remaining()[0]) && final(self).remaining() == old(self).remaining().skip(1),
            r.is_some() ==> r.unwrap().spec_node() < old(self).source().spec_len(),
    {
        let ghost s = self.shape();
        if let Some(root) = self.start {
            let has_children = self.hierarchy.children_of(root).len() > 0;
            self.start = None;
            self.stack.push((root, 0));
            proof {
                let frames = self.stack@;
                assert(frames.drop_last() =~= Seq::<(usize, usize)>::empty());
                assert(s.frames_ops(frames.drop_last()) =~= Seq::<NodeEnumOp>::empty());
                assert(s.frames_ops(frames) =~= s.rest_ops(root as int, 0));
                assert(old(self).remaining().skip(1) =~= s.frames_ops(frames));
            }
            return Some(NodeEnumOp::Push(root, has_children));
        }
        match self.stack.pop() {
            None => {
                assert(self.stack@ =~= old(self).frames());
                None
            },
            Some((node, k)) => {
                let ghost below = self.stack@;
                assert(old(self).frames().last() == (node, k));
                assert(old(self).frames().drop_last() =~= below);
                assert(old(self).frames()[old(self).frames().len() - 1] == (node, k));
                let children = self.hierarchy.children_of(node);
                if k < children.len() {
                    let c = children[k];
                    proof {
                        s.lemma_child_below(node as int, k as int);
                    }
                    let has_children = self.hierarchy.children_of(c).len() > 0;
                    self.stack.push((node, k + 1));
                    self.stack.push((c, 0));
                    proof {
                        let mid = below.push((node, (k + 1) as usize));
                        let frames = self.stack@;
                        assert(frames.drop_last() =~= mid);
                        assert(mid.drop_last() =~= below);
                        assert(frames.last() == (c, 0usize));
                        assert(mid.last() == (node, (k + 1) as usize));
                        assert(s.frames_ops(frames) == s.rest_ops(c as int, 0) + s.frames_ops(mid));
                        assert(s.frames_ops(mid) == s.rest_ops(node as int, k + 1) + s.frames_ops(
                            below,
                        ));
                        assert(s.children_ops(node as int, k as int) == s.subtree_ops(c as int)
                            + s.children_ops(node as int, k + 1));
                        assert(old(self).remaining() == s.rest_ops(node as int, k as int)
                            + s.frames_ops(below));
                        assert(old(self).remaining().skip(1) =~= s.frames_ops(frames));
                        assert(old(self).remaining()[0] == NodeEnumOp::Push(c, has_children));
                        assert forall|j: int| 0 <= j < frames.len() implies (
                        #[trigger] frames[j]).0 < s.len() && frames[j].1
                            <= s.children[frames[j].0 as int].len() by {
                            if j < below.len() {
                                assert(frames[j] == old(self).frames()[j]);
                            }
                        }
                    }
                    Some(NodeEnumOp::Push(c, has_children))
                } else {
                    let has_children = children.len() > 0;
                    proof {
                        assert(s.children_ops(node as int, k as int) =~= Seq::<
                            NodeEnumOp,
                        >::empty());
                        assert(old(self).remaining() == s.rest_ops(node as int, k as int)
                            + s.frames_ops(below));
                        assert(old(self).remaining().skip(1) =~= s.frames_ops(below));
                        assert forall|j: int| 0 <= j < below.len() implies (#[trigger] below[j]).0
                            < s.len() && below[j].1 <= s.children[below[j].0 as int].len() by {
                            assert(below[j] == old(self).frames()[j]);
                        }
                    }
                    Some(NodeEnumOp::Pop(node, has_children))
                }
            },
        }
    }
}

impl<'a, T> NodeEnum<'a, T> {
    /// Hand out the next operation of the walk together with the data of
    /// its node, or `None` once the walk is over.
    pub fn next_node(&mut self) -> (r: Option<(NodeEnumOp, &'a T)>)
        requires
            old(self).wf(),
        ensures
            final(self).wf(),
            final(self).source() == old(self).source(),
            old(self).remaining().len() == 0 ==> r.is_none() && final(self).remaining() == old(self).remaining(),
            old(self).remaining().len() > 0 ==> r.is_some() && final(self).remaining() == old(self).remaining().skip(1),
            r matches Some(pair) ==> {
                &&& pair.0 == old(self).remaining()[0]
                &&& pair.0.spec_node() < old(self).source().payloads().len()
                &&& *pair.1 == old(self).source().payloads()[pair.0.spec_node() as int]
            },
    {
        let next = self.next_op();
        match next {
            None => None,
            Some(op) => {
                let data = self.hierarchy.borrow_node(op.node());
                Some((op, data))
            },
        }
    }
}

impl<T> Hierarchy<T> {
    /// Start a walk of the tree below `root` that hands out the data of each
    /// node with its operations.
    pub fn iter_from(&self, root: usize) -> (walk: NodeEnum<'_, T>)
        requires
            self.wf(),
            root < self.spec_len(),
        ensures
            walk.wf(),
            walk.source() == self,
            walk.remaining() == self.shape().subtree_ops(root as int),
            balanced(walk.remaining()),
    {
        NodeEnum::new(self, root)
    }

    /// Start a walk of the tree below `root`.
    pub fn enum_from(&self, root: usize) -> (walk: NodeEnum<'_, T>)
        requires
            self.wf(),
            root < self.spec_len(),
        ensures
            walk.wf(),
            walk.source() == self,
            walk.remaining() == self.shape().subtree_ops(root as int),
            balanced(walk.remaining()),
    {
        NodeEnum::new(self, root)
    }
}

} // verus!
