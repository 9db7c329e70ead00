//! Which nodes a walk enters: the walk of a tree enters each node below its
//! root once, and the walks of all the roots enter every node of a forest
//! once.

use vstd::prelude::*;
use vstd::seq_lib::lemma_no_dup_in_concat;
use vstd::set_lib::{lemma_int_range, lemma_map_size, set_int_range};
use crate::hierarchy::ops::{
    entered, lemma_entered_concat, lemma_entered_len, lemma_entered_single, never_negative,
    pops, pushes, NodeEnumOp,
};
use crate::hierarchy::shape::Shape;

verus! {

impl Shape {
    /// `x` is one of the children of `node` from the `k`th on, or lies below
    /// one of them.
    pub open spec fn under_children(self, node: int, k: int, x: int) -> bool {
        exists|j: int|
            k <= j < self.children[node].len() && #[trigger] self.reaches(
                x,
                self.children[node][j] as int,
            )
    }

    /// `x` is one of the first `m` of `roots` or lies below one of them.
    pub open spec fn under_roots(self, roots: Seq<usize>, m: int, x: int) -> bool {
        exists|j: int| 0 <= j < m && #[trigger] self.reaches(x, roots[j] as int)
    }

    /// An ancestor is a node, and is no deeper than its descendant.
    pub proof fn lemma_reaches_depth(self, x: int, a: int)
        requires
            self.forest(),
            self.has(x),
            self.reaches(x, a),
        ensures
            self.has(a),
            self.depths[a] <= self.depths[x],
        decreases self.depths[x],
    {
        if x != a {
            let p = self.parents[x].unwrap();
            self.lemma_reaches_depth(p as int, a);
        }
    }

    /// A node has one ancestor at each depth.
    pub proof fn lemma_reaches_same_depth(self, x: int, a: int, b: int)
        requires
            self.forest(),
            self.has(x),
            self.reaches(x, a),
            self.reaches(x, b),
            self.depths[a] == self.depths[b],
        ensures
            a == b,
        decreases self.depths[x],
    {
        self.lemma_reaches_depth(x, a);
        self.lemma_reaches_depth(x, b);
        if x == a {
            if x != b {
                let p = self.parents[x].unwrap();
                self.lemma_reaches_depth(p as int, b);
            }
        } else if x == b {
            let p = self.parents[x].unwrap();
            self.lemma_reaches_depth(p as int, a);
        } else {
            let p = self.parents[x].unwrap();
            self.lemma_reaches_same_depth(p as int, a, b);
        }
    }

    /// What lies below a child lies below its parent.
    pub proof fn lemma_reaches_through_child(self, x: int, node: int, k: int)
        requires
            self.forest(),
            self.has(x),
            self.has(node),
            0 <= k < self.children[node].len(),
            self.reaches(x, self.children[node][k] as int),
        ensures
            self.reaches(x, node),
        decreases self.depths[x],
    {
        let c = self.children[node][k] as int;
        self.lemma_child_below(node, k);
        assert(self.parents[c] == Some(node as usize));
        if x == c {
            assert(self.reaches(node, node));
        } else if x != node {
            let p = self.parents[x].unwrap();
            self.lemma_reaches_through_child(p as int, node, k);
        }
    }

    /// What lies below a node, and is not the node, lies below one of its
    /// children.
    pub proof fn lemma_reaches_some_child(self, x: int, node: int)
        requires
            self.forest(),
            self.has(x),
            self.has(node),
            self.reaches(x, node),
            x != node,
        ensures
            self.under_children(node, 0, x),
        decreases self.depths[x],
    {
        let p = self.parents[x].unwrap();
        if p == node {
            let k = choose|k: int|
                0 <= k < self.children[node].len() && self.children[node][k] == x as usize;
            assert(self.reaches(x, self.children[node][k] as int));
        } else {
            self.lemma_reaches_some_child(p as int, node);
            let j = choose|j: int|
                0 <= j < self.children[node].len() && #[trigger] self.reaches(
                    p as int,
                    self.children[node][j] as int,
                );
            assert(self.reaches(x, self.children[node][j] as int));
        }
    }

    /// Every node lies below a root.
    pub proof fn lemma_reaches_a_root(self, x: int) -> (r: int)
        requires
            self.forest(),
            self.has(x),
        ensures
            self.is_root(r),
            self.reaches(x, r),
        decreases self.depths[x],
    {
        match self.parents[x] {
            None => x,
            Some(p) => {
                let r = self.lemma_reaches_a_root(p as int);
                r
            },
        }
    }

    /// The walk of a tree enters the nodes below its root, each once.
    pub proof fn lemma_subtree_entered(self, node: int)
        requires
            self.forest(),
            self.has(node),
        ensures
            entered(self.subtree_ops(node)).no_duplicates(),
            forall|x: usize| #[trigger]
                entered(self.subtree_ops(node)).contains(x) <==> self.has(x as int)
                    && self.reaches(x as int, node),
        decreases self.limit - self.depths[node], self.children[node].len() + 1,
    {
        let push = NodeEnumOp::Push(node as usize, self.has_children(node));
        let pop = NodeEnumOp::Pop(node as usize, self.has_children(node));
        let mid = self.children_ops(node, 0);
        let head = seq![node as usize];
        let e = entered(self.subtree_ops(node));
        self.lemma_children_entered(node, 0);
        lemma_entered_single(push);
        lemma_entered_single(pop);
        lemma_entered_concat(seq![push], mid);
        lemma_entered_concat(seq![push] + mid, seq![pop]);
        assert(e =~= head + entered(mid));
        assert forall|i: int, j: int| 0 <= i < head.len() && 0 <= j < entered(mid).len() implies head[i]
            != entered(mid)[j] by {
            let x = entered(mid)[j];
            assert(entered(mid).contains(x));
            if x == node as usize {
                let c = choose|c: int|
                    0 <= c < self.children[node].len() && #[trigger] self.reaches(
                        x as int,
                        self.children[node][c] as int,
                    );
                self.lemma_child_below(node, c);
                self.lemma_reaches_depth(node, self.children[node][c] as int);
            }
        }
        lemma_no_dup_in_concat(head, entered(mid));
        assert forall|x: usize| #[trigger] e.contains(x) <==> self.has(x as int) && self.reaches(
            x as int,
            node,
        ) by {
            if e.contains(x) {
                let i = choose|i: int| 0 <= i < e.len() && e[i] == x;
                if i >= 1 {
                    assert(entered(mid)[i - 1] == x);
                    assert(entered(mid).contains(x));
                    let c = choose|c: int|
                        0 <= c < self.children[node].len() && #[trigger] self.reaches(
                            x as int,
                            self.children[node][c] as int,
                        );
                    self.lemma_reaches_through_child(x as int, node, c);
                }
            }
            if self.has(x as int) && self.reaches(x as int, node) {
                if x as int == node {
                    assert(e[0] == x);
                } else {
                    self.lemma_reaches_some_child(x as int, node);
                    assert(entered(mid).contains(x));
                    let i = choose|i: int| 0 <= i < entered(mid).len() && entered(mid)[i] == x;
                    assert(e[i + 1] == x);
                }
            }
        }
    }

    /// The walks of the children of a node enter what lies below them, each
    /// node once.
    pub proof fn lemma_children_entered(self, node: int, k: int)
        requires
            self.forest(),
            self.has(node),
            0 <= k <= self.children[node].len(),
        ensures
            entered(self.children_ops(node, k)).no_duplicates(),
            forall|x: usize| #[trigger]
                entered(self.children_ops(node, k)).contains(x) <==> self.has(x as int)
                    && self.under_children(node, k, x as int),
        decreases self.limit - self.depths[node], self.children[node].len() - k,
    {
        let e = entered(self.children_ops(node, k));
        if k < self.children[node].len() {
            let c = self.children[node][k] as int;
            self.lemma_child_below(node, k);
            self.lemma_subtree_entered(c);
            self.lemma_children_entered(node, k + 1);
            let a = entered(self.subtree_ops(c));
            let b = entered(self.children_ops(node, k + 1));
            lemma_entered_concat(self.subtree_ops(c), self.children_ops(node, k + 1));
            assert(e == a + b);
            assert forall|i: int, j: int| 0 <= i < a.len() && 0 <= j < b.len() implies a[i]
                != b[j] by {
                if a[i] == b[j] {
                    let x = a[i];
                    assert(a.contains(x));
                    assert(b.contains(x));
                    let m = choose|m: int|
                        k + 1 <= m < self.children[node].len() && #[trigger] self.reaches(
                            x as int,
                            self.children[node][m] as int,
                        );
                    self.lemma_child_below(node, m);
                    assert(self.parents[self.children[node][m] as int] == Some(node as usize));
                    assert(self.parents[c] == Some(node as usize));
                    self.lemma_reaches_same_depth(x as int, c, self.children[node][m] as int);
                    assert(self.children[node].no_duplicates());
                }
            }
            lemma_no_dup_in_concat(a, b);
            assert forall|x: usize| #[trigger] e.contains(x) <==> self.has(x as int)
                && self.under_children(node, k, x as int) by {
                if e.contains(x) {
                    let i = choose|i: int| 0 <= i < e.len() && e[i] == x;
                    if i < a.len() {
                        assert(a[i] == x);
                        assert(a.contains(x));
                        assert(self.reaches(x as int, self.children[node][k] as int));
                    } else {
                        assert(b[i - a.len()] == x);
                        assert(b.contains(x));
                        let m = choose|m: int|
                            k + 1 <= m < self.children[node].len() && #[trigger] self.reaches(
                                x as int,
                                self.children[node][m] as int,
                            );
                        assert(self.reaches(x as int, self.children[node][m] as int));
                    }
                }
                if self.has(x as int) && self.under_children(node, k, x as int) {
                    let m = choose|m: int|
                        k <= m < self.children[node].len() && #[trigger] self.reaches(
                            x as int,
                            self.children[node][m] as int,
                        );
                    if m == k {
                        assert(a.contains(x));
                        let i = choose|i: int| 0 <= i < a.len() && a[i] == x;
                        assert(e[i] == x);
                    } else {
                        assert(self.under_children(node, k + 1, x as int));
                        assert(b.contains(x));
                        let i = choose|i: int| 0 <= i < b.len() && b[i] == x;
                        assert(e[a.len() + i] == x);
                    }
                }
            }
        } else {
            assert(e =~= Seq::<usize>::empty());
        }
    }

    /// The nodes that lie below `node`, the node itself among them.
    pub open spec fn descendants(self, node: int) -> Set<usize> {
        Set::new(|x: usize| self.has(x as int) && self.reaches(x as int, node))
    }

    /// The walk of a tree pushes once, and pops once, for each node below its
    /// root, and at no point has it popped more often than pushed.
    pub proof fn lemma_subtree_count(self, node: int)
        requires
            self.forest(),
            self.has(node),
        ensures
            self.descendants(node).finite(),
            pushes(self.subtree_ops(node)) == self.descendants(node).len(),
            pops(self.subtree_ops(node)) == self.descendants(node).len(),
            never_negative(self.subtree_ops(node)),
    {
        let e = entered(self.subtree_ops(node));
        self.lemma_subtree_entered(node);
        self.lemma_subtree_balanced(node);
        lemma_entered_len(self.subtree_ops(node));
        assert(e.to_set() =~= self.descendants(node)) by {
            assert forall|x: usize| e.to_set().contains(x) <==> self.descendants(node).contains(
                x,
            ) by {
                assert(e.to_set().contains(x) <==> e.contains(x));
            }
        }
        e.unique_seq_to_set();
    }

    /// The walks of the first `m` roots enter what lies below them, each node
    /// once.
    pub proof fn lemma_roots_entered(self, roots: Seq<usize>, m: int)
        requires
            self.forest(),
            self.lists_roots(roots),
            0 <= m <= roots.len(),
        ensures
            entered(self.forest_ops(roots.take(m))).no_duplicates(),
            forall|x: usize| #[trigger]
                entered(self.forest_ops(roots.take(m))).contains(x) <==> self.has(x as int)
                    && self.under_roots(roots, m, x as int),
        decreases m,
    {
        let e = entered(self.forest_ops(roots.take(m)));
        if m == 0 {
            assert(roots.take(0) =~= Seq::<usize>::empty());
            assert(e =~= Seq::<usize>::empty());
        } else {
            let r = roots[m - 1];
            assert(roots.take(m).drop_last() =~= roots.take(m - 1));
            assert(roots.take(m).last() == r);
            self.lemma_roots_entered(roots, m - 1);
            assert(self.is_root(r as int));
            self.lemma_subtree_entered(r as int);
            let a = entered(self.forest_ops(roots.take(m - 1)));
            let b = entered(self.subtree_ops(r as int));
            lemma_entered_concat(self.forest_ops(roots.take(m - 1)), self.subtree_ops(r as int));
            assert(e == a + b);
            assert forall|i: int, j: int| 0 <= i < a.len() && 0 <= j < b.len() implies a[i]
                != b[j] by {
                if a[i] == b[j] {
                    let x = a[i];
                    assert(a.contains(x));
                    assert(b.contains(x));
                    let q = choose|q: int|
                        0 <= q < m - 1 && #[trigger] self.reaches(x as int, roots[q] as int);
                    assert(self.is_root(roots[q] as int));
                    self.lemma_reaches_same_depth(x as int, roots[q] as int, r as int);
                }
            }
            lemma_no_dup_in_concat(a, b);
            assert forall|x: usize| #[trigger] e.contains(x) <==> self.has(x as int)
                && self.under_roots(roots, m, x as int) by {
                if e.contains(x) {
                    let i = choose|i: int| 0 <= i < e.len() && e[i] == x;
                    if i < a.len() {
                        assert(a[i] == x);
                        assert(a.contains(x));
                        let q = choose|q: int|
                            0 <= q < m - 1 && #[trigger] self.reaches(x as int, roots[q] as int);
                        assert(self.reaches(x as int, roots[q] as int));
                    } else {
                        assert(b[i - a.len()] == x);
                        assert(b.contains(x));
                        assert(self.reaches(x as int, roots[m - 1] as int));
                    }
                }
                if self.has(x as int) && self.under_roots(roots, m, x as int) {
                    let q = choose|q: int|
                        0 <= q < m && #[trigger] self.reaches(x as int, roots[q] as int);
                    if q == m - 1 {
                        assert(b.contains(x));
                        let i = choose|i: int| 0 <= i < b.len() && b[i] == x;
                        assert(e[a.len() + i] == x);
                    } else {
                        assert(self.under_roots(roots, m - 1, x as int));
                        assert(a.contains(x));
                        let i = choose|i: int| 0 <= i < a.len() && a[i] == x;
                        assert(e[i] == x);
                    }
                }
            }
        }
    }

    /// Every node lies below exactly one of the listed roots.
    pub proof fn lemma_one_root(self, roots: Seq<usize>, x: int)
        requires
            self.forest(),
            self.lists_roots(roots),
            self.has(x),
        ensures
            exists|k: int| 0 <= k < roots.len() && #[trigger] self.reaches(x, roots[k] as int),
            forall|a: int, b: int|
                0 <= a < roots.len() && 0 <= b < roots.len() && #[trigger] self.reaches(
                    x,
                    roots[a] as int,
                ) && #[trigger] self.reaches(x, roots[b] as int) ==> a == b,
    {
        let r = self.lemma_reaches_a_root(x);
        assert(roots.contains(r as usize));
        let k = choose|k: int| 0 <= k < roots.len() && roots[k] == r as usize;
        assert(self.reaches(x, roots[k] as int));
        assert forall|a: int, b: int|
            0 <= a < roots.len() && 0 <= b < roots.len() && #[trigger] self.reaches(
                x,
                roots[a] as int,
            ) && #[trigger] self.reaches(x, roots[b] as int) implies a == b by {
            assert(self.is_root(roots[a] as int));
            assert(self.is_root(roots[b] as int));
            self.lemma_reaches_same_depth(x, roots[a] as int, roots[b] as int);
        }
    }

    /// The walks of all the roots of a forest enter every node, each once:
    /// they push, and pop, as often as the forest has nodes.
    pub proof fn lemma_forest_entered(self, roots: Seq<usize>)
        requires
            self.forest(),
            self.lists_roots(roots),
        ensures
            entered(self.forest_ops(roots)).no_duplicates(),
            forall|x: usize| #[trigger]
                entered(self.forest_ops(roots)).contains(x) <==> self.has(x as int),
            entered(self.forest_ops(roots)).len() == self.len(),
            pushes(self.forest_ops(roots)) == self.len(),
    {
        let e = entered(self.forest_ops(roots));
        assert(roots.take(roots.len() as int) =~= roots);
        self.lemma_roots_entered(roots, roots.len() as int);
        assert forall|x: usize| #[trigger] e.contains(x) <==> self.has(x as int) by {
            if self.has(x as int) {
                self.lemma_one_root(roots, x as int);
            }
        }
        let n = self.len() as int;
        let f = |i: int| i as usize;
        lemma_int_range(0, n);
        assert(set_int_range(0, n).map(f) =~= e.to_set()) by {
            assert forall|x: usize| set_int_range(0, n).map(f).contains(x) <==> e.to_set().contains(
                x,
            ) by {
                if e.to_set().contains(x) {
                    assert(e.contains(x));
                    assert(set_int_range(0, n).contains(x as int));
                    assert(f(x as int) == x);
                }
                if set_int_range(0, n).map(f).contains(x) {
                    let i = choose|i: int| set_int_range(0, n).contains(i) && f(i) == x;
                    assert(self.has(x as int));
                    assert(e.contains(x));
                }
            }
        }
        lemma_map_size(set_int_range(0, n), e.to_set(), f);
        e.unique_seq_to_set();
        lemma_entered_len(self.forest_ops(roots));
    }

    /// The listed roots are as many as the nodes without a parent.
    pub proof fn lemma_root_count(self, roots: Seq<usize>)
        requires
            self.forest(),
            self.lists_roots(roots),
        ensures
            roots.no_duplicates(),
            roots.to_set() == Set::new(|r: usize| self.is_root(r as int)),
            roots.len() == Set::new(|r: usize| self.is_root(r as int)).len(),
    {
        assert forall|a: int, b: int| 0 <= a < roots.len() && 0 <= b < roots.len() && a != b implies roots[a]
            != roots[b] by {
            if a < b {
                assert(roots[a] < roots[b]);
            } else {
                assert(roots[b] < roots[a]);
            }
        }
        assert(roots.to_set() =~= Set::new(|r: usize| self.is_root(r as int))) by {
            assert forall|r: usize| roots.to_set().contains(r) <==> self.is_root(r as int) by {
                if roots.to_set().contains(r) {
                    assert(roots.contains(r));
                    let k = choose|k: int| 0 <= k < roots.len() && roots[k] == r;
                    assert(self.is_root(roots[k] as int));
                }
                if self.is_root(r as int) {
                    assert(roots.contains(r));
                }
            }
        }
        roots.unique_seq_to_set();
    }
}

} // verus!
