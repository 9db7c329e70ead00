//! The arena: nodes that own their data and are related by indices.

use vstd::prelude::*;
use crate::hierarchy::shape::Shape;

verus! {

/// Why a hierarchy refused a change to its structure.
#[derive(Debug, Clone, Copy, PartialEq, Eq, Structural)]
pub enum HierarchyError {
    /// The roots have been found; the structure no longer changes
    Resolved,
    /// An index does not name a node
    OutOfRange,
    /// The child already has a parent
    HasParent,
    /// The child is the parent itself or one of its ancestors
    Cycle,
}

/// A node of the arena: its data, its parent and its children by index.
pub struct Node<T> {
    /// The parent, if the node has one
    parent: Option<usize>,
    /// The children, in the order in which they were related
    children: Vec<usize>,
    /// The data of the node
    data: T,
}

impl<T> Node<T> {
    /// The parent of the node, if it has one.
    pub closed spec fn spec_parent(&self) -> Option<usize> {
        self.parent
    }

    /// The data of the node.
    pub closed spec fn spec_data(&self) -> T {
        self.data
    }

    /// The children of the node, in order.
    pub closed spec fn spec_children(&self) -> Seq<usize> {
        self.children@
    }

    /// Create a node without children.
    pub fn new(data: T, parent: Option<usize>) -> (node: Self)
        ensures
            node.spec_data() == data,
            node.spec_parent() == parent,
            node.spec_children() == Seq::<usize>::empty(),
    {
        Node { parent, children: Vec::new(), data }
    }

    /// Return the parent of the node, if it has one.
    pub fn parent(&self) -> (p: Option<usize>)
        ensures
            p == self.spec_parent(),
    {
        self.parent
    }

    /// Return true if the node has a parent.
    pub fn has_parent(&self) -> (b: bool)
        ensures
            b == self.spec_parent().is_some(),
    {
        self.parent.is_some()
    }

    /// Return true if the node has children.
    pub fn has_children(&self) -> (b: bool)
        ensures
            b == (self.spec_children().len() > 0),
    {
        self.children.len() > 0
    }

    /// Borrow the children of the node.
    pub fn children(&self) -> (c: &Vec<usize>)
        ensures
            c@ == self.spec_children(),
    {
        &self.children
    }

    /// Borrow the data of the node.
    pub fn borrow(&self) -> (d: &T)
        ensures
            *d == self.spec_data(),
    {
        &self.data
    }
}

/// An arena of nodes with parent/child relations that form a forest.
///
/// It is built with `add_node` and `relate`; `find_roots` then records the
/// roots and closes the structure, while the data of the nodes stays
/// writable.
pub struct Hierarchy<T> {
    /// The nodes, by index
    elements: Vec<Node<T>>,
    /// The nodes without a parent, once they have been found
    roots: Vec<usize>,
    /// Whether the roots have been found
    resolved: bool,
    /// The depth of each node
    depths: Ghost<Seq<nat>>,
    /// A bound above every depth
    limit: Ghost<nat>,
}

impl<T> Hierarchy<T> {
    /// The parent/child structure.
    pub closed spec fn shape(&self) -> Shape {
        Shape {
            parents: Seq::new(self.elements@.len(), |i: int| self.elements@[i].parent),
            children: Seq::new(self.elements@.len(), |i: int| self.elements@[i].children@),
            depths: self.depths@,
            limit: self.limit@,
        }
    }

    /// The data of the nodes, by index.
    pub closed spec fn payloads(&self) -> Seq<T> {
        Seq::new(self.elements@.len(), |i: int| self.elements@[i].data)
    }

    /// The nodes, by index.
    pub closed spec fn nodes(&self) -> Seq<Node<T>> {
        self.elements@
    }

    /// The recorded roots; empty until they have been found.
    pub closed spec fn roots(&self) -> Seq<usize> {
        self.roots@
    }

    /// The roots have been found and the structure is closed.
    pub closed spec fn resolved(&self) -> bool {
        self.resolved
    }

    /// The number of nodes.
    pub open spec fn spec_len(&self) -> nat {
        self.shape().len()
    }

    /// The invariant of the hierarchy: its structure is a forest, and the
    /// recorded roots, once found, are the nodes without a parent.
    pub open spec fn wf(&self) -> bool {
        &&& self.shape().forest()
        &&& self.shape().limit > 0
        &&& self.payloads().len() == self.shape().len()
        &&& self.nodes().len() == self.shape().len()
        &&& forall|i: int|
            0 <= i < self.nodes().len() ==> {
                &&& (#[trigger] self.nodes()[i]).spec_parent() == self.shape().parents[i]
                &&& self.nodes()[i].spec_children() == self.shape().children[i]
                &&& self.nodes()[i].spec_data() == self.payloads()[i]
            }
        &&& if self.resolved() {
            self.shape().lists_roots(self.roots())
        } else {
            self.roots().len() == 0
        }
    }

    /// What `relate` answers for a parent and a child.
    pub open spec fn relate_outcome(&self, parent: usize, child: usize) -> Result<
        (),
        HierarchyError,
    > {
        if self.resolved() {
            Err(HierarchyError::Resolved)
        } else if parent >= self.spec_len() || child >= self.spec_len() {
            Err(HierarchyError::OutOfRange)
        } else if self.shape().parents[child as int].is_some() {
            Err(HierarchyError::HasParent)
        } else if self.shape().reaches(parent as int, child as int) {
            Err(HierarchyError::Cycle)
        } else {
            Ok(())
        }
    }

    /// Create an empty hierarchy.
    pub fn new() -> (h: Self)
        ensures
            h.wf(),
            h.shape() == Shape::empty(),
            h.payloads() == Seq::<T>::empty(),
            !h.resolved(),
    {
        let h = Hierarchy {
            elements: Vec::new(),
            roots: Vec::new(),
            resolved: false,
            depths: Ghost(Seq::empty()),
            limit: Ghost(1),
        };
        assert(h.shape().parents =~= Seq::empty());
        assert(h.shape().children =~= Seq::empty());
        assert(h.payloads() =~= Seq::empty());
        h
    }

    /// Return the number of nodes.
    pub fn len(&self) -> (n: usize)
        ensures
            n == self.spec_len(),
    {
        self.elements.len()
    }

    /// Return true if the roots have been found.
    pub fn is_resolved(&self) -> (b: bool)
        ensures
            b == self.resolved(),
    {
        self.resolved
    }

    /// Add a node with its data and return its index. A hierarchy whose
    /// roots have been found takes no more nodes.
    pub fn add_node(&mut self, data: T) -> (r: Result<usize, HierarchyError>)
        requires
            old(self).wf(),
        ensures
            final(self).wf(),
            final(self).resolved() == old(self).resolved(),
            final(self).roots() == old(self).roots(),
            old(self).resolved() ==> r == Err::<usize, HierarchyError>(HierarchyError::Resolved)
                && final(self).shape() == old(self).shape() && final(self).payloads() == old(self).payloads(),
            !old(self).resolved() ==> r == Ok::<usize, HierarchyError>(
                old(self).spec_len() as usize,
            ) && final(self).shape() == old(self).shape().with_node() && final(self).payloads()
                == old(self).payloads().push(data),
    {
        if self.resolved {
            return Err(HierarchyError::Resolved);
        }
        let n = self.elements.len();
        self.elements.push(Node::new(data, None));
        proof {
            assert(self.elements.len() == n + 1);
            old(self).shape().lemma_with_node_forest();
        }
        self.depths = Ghost(self.depths@.push(0));
        proof {
            assert(self.shape().parents =~= old(self).shape().with_node().parents);
            assert(self.shape().children =~= old(self).shape().with_node().children);
            assert(self.payloads() =~= old(self).payloads().push(data));
        }
        Ok(n)
    }

    /// Make `child` the last child of `parent`.
    ///
    /// The child must be a node without a parent, and must not be the parent
    /// or one of its ancestors; the structure must still be open.
    pub fn relate(&mut self, parent: usize, child: usize) -> (r: Result<(), HierarchyError>)
        requires
            old(self).wf(),
        ensures
            final(self).wf(),
            r == old(self).relate_outcome(parent, child),
            final(self).payloads() == old(self).payloads(),
            final(self).resolved() == old(self).resolved(),
            final(self).roots() == old(self).roots(),
            r.is_ok() ==> final(self).shape() == old(self).shape().with_edge(parent, child),
            r.is_err() ==> final(self).shape() == old(self).shape(),
    {
        if self.resolved {
            return Err(HierarchyError::Resolved);
        }
        let n = self.elements.len();
        if parent >= n || child >= n {
            return Err(HierarchyError::OutOfRange);
        }
        if self.elements[child].parent.is_some() {
            return Err(HierarchyError::HasParent);
        }
        let ghost s = self.shape();
        let mut cur = parent;
        loop
            invariant_except_break
                s.reaches(parent as int, child as int) == s.reaches(cur as int, child as int),
            invariant
                self.wf(),
                s == self.shape(),
                *self == *old(self),
                !old(self).resolved(),
                cur < n,
                n == self.elements.len(),
                child < n,
                parent < n,
                s.parents[child as int].is_none(),
            ensures
                !s.reaches(parent as int, child as int),
            decreases s.depths[cur as int],
        {
            if cur == child {
                return Err(HierarchyError::Cycle);
            }
            match self.elements[cur].parent {
                None => {
                    break ;
                },
                Some(p) => {
                    assert(s.parents[cur as int] == Some(p));
                    cur = p;
                },
            }
        }
        proof {
            s.lemma_with_edge_forest(parent, child);
        }
        self.elements[parent].children.push(child);
        self.elements[child].parent = Some(parent);
        self.depths = Ghost(s.with_edge(parent, child).depths);
        self.limit = Ghost(s.with_edge(parent, child).limit);
        proof {
            let t = s.with_edge(parent, child);
            assert(self.shape().parents =~= t.parents);
            assert(self.shape().children =~= t.children);
            assert(self.payloads() =~= old(self).payloads());
        }
        Ok(())
    }

    /// Find the nodes without a parent and record them, in rising order.
    /// This closes the structure. Calling it again changes nothing.
    pub fn find_roots(&mut self)
        requires
            old(self).wf(),
        ensures
            final(self).wf(),
            final(self).resolved(),
            final(self).shape() == old(self).shape(),
            final(self).payloads() == old(self).payloads(),
            final(self).nodes() == old(self).nodes(),
            old(self).resolved() ==> final(self).roots() == old(self).roots(),
            final(self).shape().lists_roots(final(self).roots()),
    {
        if self.resolved {
            return ;
        }
        let mut roots: Vec<usize> = Vec::new();
        let n = self.elements.len();
        let ghost s = self.shape();
        let mut i: usize = 0;
        while i < n
            invariant
                i <= n,
                n == self.elements.len(),
                *self == *old(self),
                s == self.shape(),
                self.wf(),
                forall|a: int, b: int| 0 <= a < b < roots@.len() ==> roots@[a] < roots@[b],
                forall|k: int| 0 <= k < roots@.len() ==> s.is_root(#[trigger] roots@[k] as int) && roots@[k] < i,
                forall|j: int| 0 <= j < i && s.is_root(j) ==> roots@.contains(j as usize),
            decreases n - i,
        {
            if self.elements[i].parent.is_none() {
                let ghost before = roots@;
                roots.push(i);
                proof {
                    assert(roots@[before.len() as int] == i);
                    assert forall|j: int| 0 <= j < i + 1 && s.is_root(j) implies roots@.contains(
                        j as usize,
                    ) by {
                        if j < i {
                            let k = choose|k: int| 0 <= k < before.len() && before[k] == j as usize;
                            assert(roots@[k] == j as usize);
                        }
                    }
                }
            }
            i += 1;
        }
        self.roots = roots;
        self.resolved = true;
        proof {
            assert(self.shape().parents =~= s.parents);
            assert(self.shape().children =~= s.children);
        }
    }

    /// Once the roots have been found, they are as many as the nodes without
    /// a parent, and every node lies below exactly one of them.
    pub proof fn lemma_roots_found(&self, x: int)
        requires
            self.wf(),
            self.resolved(),
            0 <= x < self.spec_len(),
        ensures
            self.roots().len() == Set::new(|r: usize| self.shape().is_root(r as int)).len(),
            exists|k: int|
                0 <= k < self.roots().len() && #[trigger] self.shape().reaches(
                    x,
                    self.roots()[k] as int,
                ),
            forall|a: int, b: int|
                0 <= a < self.roots().len() && 0 <= b < self.roots().len()
                    && #[trigger] self.shape().reaches(x, self.roots()[a] as int)
                    && #[trigger] self.shape().reaches(x, self.roots()[b] as int) ==> a == b,
    {
        self.shape().lemma_root_count(self.roots());
        self.shape().lemma_one_root(self.roots(), x);
    }

    /// Forget the recorded roots and open the structure again.
    pub fn clear_roots(&mut self)
        requires
            old(self).wf(),
        ensures
            final(self).wf(),
            !final(self).resolved(),
            final(self).roots() == Seq::<usize>::empty(),
            final(self).shape() == old(self).shape(),
            final(self).payloads() == old(self).payloads(),
            final(self).nodes() == old(self).nodes(),
    {
        self.roots = Vec::new();
        self.resolved = false;
    }

    /// Borrow the recorded roots.
    pub fn borrow_roots(&self) -> (r: &Vec<usize>)
        ensures
            r@ == self.roots(),
    {
        &self.roots
    }

    /// Borrow the nodes.
    pub fn borrow_elements(&self) -> (e: &Vec<Node<T>>)
        ensures
            e@ == self.nodes(),
    {
        &self.elements
    }

    /// Borrow the data of a node.
    pub fn borrow_node(&self, index: usize) -> (d: &T)
        requires
            index < self.spec_len(),
        ensures
            *d == self.payloads()[index as int],
    {
        &self.elements[index].data
    }

    /// Replace the data of a node. The structure stays as it is.
    pub fn set_node(&mut self, index: usize, data: T)
        requires
            old(self).wf(),
            index < old(self).spec_len(),
        ensures
            final(self).wf(),
            final(self).shape() == old(self).shape(),
            final(self).roots() == old(self).roots(),
            final(self).resolved() == old(self).resolved(),
            final(self).payloads() == old(self).payloads().update(index as int, data),
    {
        self.elements[index].data = data;
        proof {
            assert(self.shape().parents =~= old(self).shape().parents);
            assert(self.shape().children =~= old(self).shape().children);
            assert(self.payloads() =~= old(self).payloads().update(index as int, data));
        }
    }

    /// Return the parent of a node, if it has one.
    pub fn parent_of(&self, index: usize) -> (p: Option<usize>)
        requires
            index < self.spec_len(),
        ensures
            p == self.shape().parents[index as int],
    {
        self.elements[index].parent
    }

    /// Borrow the children of a node.
    pub fn children_of(&self, index: usize) -> (c: &Vec<usize>)
        requires
            index < self.spec_len(),
        ensures
            c@ == self.shape().children[index as int],
    {
        &self.elements[index].children
    }
}

} // verus!
