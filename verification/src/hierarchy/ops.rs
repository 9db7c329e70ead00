//! The operations of a traversal, and what it means for a sequence of them
//! to nest like a tree.

use vstd::prelude::*;

verus! {

/// One step of a depth-first walk: a node is entered or left. The flag says
/// whether the node has children.
#[derive(Debug, Clone, Copy, PartialEq, Eq, Structural)]
pub enum NodeEnumOp {
    /// Entering a node, before any of its children
    Push(usize, bool),
    /// Leaving a node, after all of its children
    Pop(usize, bool),
}

impl NodeEnumOp {
    /// The node that is entered or left.
    pub open spec fn spec_node(self) -> usize {
        match self {
            NodeEnumOp::Push(n, _) => n,
            NodeEnumOp::Pop(n, _) => n,
        }
    }

    /// The operation leaves a node.
    pub open spec fn spec_is_pop(self) -> bool {
        self is Pop
    }

    /// Return true if the operation leaves a node.
    pub fn is_pop(&self) -> (b: bool)
        ensures
            b == self.spec_is_pop(),
    {
        match self {
            NodeEnumOp::Push(_, _) => false,
            NodeEnumOp::Pop(_, _) => true,
        }
    }

    /// Return the node that is entered or left.
    pub fn node(&self) -> (n: usize)
        ensures
            n == self.spec_node(),
    {
        match self {
            NodeEnumOp::Push(n, _) => *n,
            NodeEnumOp::Pop(n, _) => *n,
        }
    }

    /// Return whether the node has children.
    pub fn has_children(&self) -> (b: bool)
        ensures
            b == match *self {
                NodeEnumOp::Push(_, c) => c,
                NodeEnumOp::Pop(_, c) => c,
            },
    {
        match self {
            NodeEnumOp::Push(_, c) => *c,
            NodeEnumOp::Pop(_, c) => *c,
        }
    }
}

/// The number of pushes in `ops`.
pub open spec fn pushes(ops: Seq<NodeEnumOp>) -> nat
    decreases ops.len(),
{
    if ops.len() == 0 {
        0
    } else if ops.last() is Push {
        pushes(ops.drop_last()) + 1
    } else {
        pushes(ops.drop_last())
    }
}

/// The number of pops in `ops`.
pub open spec fn pops(ops: Seq<NodeEnumOp>) -> nat
    decreases ops.len(),
{
    if ops.len() == 0 {
        0
    } else if ops.last() is Pop {
        pops(ops.drop_last()) + 1
    } else {
        pops(ops.drop_last())
    }
}

/// The nodes that `ops` enters, in the order of their pushes.
pub open spec fn entered(ops: Seq<NodeEnumOp>) -> Seq<usize>
    decreases ops.len(),
{
    if ops.len() == 0 {
        Seq::empty()
    } else {
        match ops.last() {
            NodeEnumOp::Push(n, _) => entered(ops.drop_last()).push(n),
            NodeEnumOp::Pop(_, _) => entered(ops.drop_last()),
        }
    }
}

/// One step of a replay: a node is entered at a nesting depth. The scratch
/// slot of that depth is the node's to write, and the slot one shallower,
/// where the depth is not 0, holds what its parent wrote.
#[derive(Debug, Clone, Copy, PartialEq, Eq, Structural)]
pub struct ReplayStep {
    /// The node that is entered
    pub node: usize,
    /// The number of nodes that are entered and not yet left at that moment
    pub depth: usize,
}

/// The steps of a replay of `ops`: its pushes in order, each with the
/// nesting at which it happens.
pub open spec fn replay_steps(ops: Seq<NodeEnumOp>) -> Seq<ReplayStep>
    decreases ops.len(),
{
    if ops.len() == 0 {
        Seq::empty()
    } else {
        match ops.last() {
            NodeEnumOp::Push(n, _) => replay_steps(ops.drop_last()).push(
                ReplayStep { node: n, depth: nesting(ops.drop_last()) as usize },
            ),
            NodeEnumOp::Pop(_, _) => replay_steps(ops.drop_last()),
        }
    }
}

/// The nodes that are entered and not yet left after `ops`, the innermost
/// last, where those of `start` were so before.
pub open spec fn open_after(start: Seq<usize>, ops: Seq<NodeEnumOp>) -> Seq<usize>
    decreases ops.len(),
{
    if ops.len() == 0 {
        start
    } else {
        let before = open_after(start, ops.drop_last());
        match ops.last() {
            NodeEnumOp::Push(n, _) => before.push(n),
            NodeEnumOp::Pop(_, _) => if before.len() > 0 {
                before.drop_last()
            } else {
                before
            },
        }
    }
}

/// Who wrote each scratch slot last, after `steps` on scratch space that
/// `start` describes: each step writes the slot of its depth.
pub open spec fn scratch_owners(start: Seq<Option<usize>>, steps: Seq<ReplayStep>) -> Seq<
    Option<usize>,
>
    decreases steps.len(),
{
    if steps.len() == 0 {
        start
    } else {
        let before = scratch_owners(start, steps.drop_last());
        if steps.last().depth < before.len() {
            before.update(steps.last().depth as int, Some(steps.last().node))
        } else {
            before
        }
    }
}

/// The nesting after `ops`: pushes less pops.
pub open spec fn nesting(ops: Seq<NodeEnumOp>) -> int {
    pushes(ops) - pops(ops)
}

/// Starting from a nesting of `base`, no prefix of `ops` takes the nesting
/// below zero.
pub open spec fn stays_above(ops: Seq<NodeEnumOp>, base: int) -> bool {
    forall|k: int| 0 <= k <= ops.len() ==> base + nesting(#[trigger] ops.take(k)) >= 0
}

/// No prefix of `ops` has more pops than pushes.
pub open spec fn never_negative(ops: Seq<NodeEnumOp>) -> bool {
    stays_above(ops, 0)
}

/// The greatest nesting that any prefix of `ops` reaches.
pub open spec fn max_nesting(ops: Seq<NodeEnumOp>) -> int
    decreases ops.len(),
{
    if ops.len() == 0 {
        0
    } else {
        let before = max_nesting(ops.drop_last());
        if nesting(ops) > before {
            nesting(ops)
        } else {
            before
        }
    }
}

/// `ops` nests like a forest: it never pops more than it pushed, and ends
/// with as many pops as pushes.
pub open spec fn balanced(ops: Seq<NodeEnumOp>) -> bool {
    never_negative(ops) && nesting(ops) == 0
}

/// Pushes and pops of a concatenation add up.
pub proof fn lemma_count_concat(a: Seq<NodeEnumOp>, b: Seq<NodeEnumOp>)
    ensures
        pushes(a + b) == pushes(a) + pushes(b),
        pops(a + b) == pops(a) + pops(b),
        nesting(a + b) == nesting(a) + nesting(b),
    decreases b.len(),
{
    if b.len() == 0 {
        assert(a + b =~= a);
    } else {
        assert((a + b).drop_last() =~= a + b.drop_last());
        assert((a + b).last() == b.last());
        lemma_count_concat(a, b.drop_last());
    }
}

/// The nodes entered by a concatenation are those of its parts, in order.
pub proof fn lemma_entered_concat(a: Seq<NodeEnumOp>, b: Seq<NodeEnumOp>)
    ensures
        entered(a + b) == entered(a) + entered(b),
    decreases b.len(),
{
    if b.len() == 0 {
        assert(a + b =~= a);
        assert(entered(a) + entered(b) =~= entered(a));
    } else {
        assert((a + b).drop_last() =~= a + b.drop_last());
        assert((a + b).last() == b.last());
        lemma_entered_concat(a, b.drop_last());
        match b.last() {
            NodeEnumOp::Push(n, _) => {
                assert(entered(a + b) =~= entered(a) + entered(b));
            },
            NodeEnumOp::Pop(_, _) => {},
        }
    }
}

/// As many nodes are entered as there are pushes.
pub proof fn lemma_entered_len(ops: Seq<NodeEnumOp>)
    ensures
        entered(ops).len() == pushes(ops),
    decreases ops.len(),
{
    if ops.len() > 0 {
        lemma_entered_len(ops.drop_last());
    }
}

/// The nodes entered by one operation.
pub proof fn lemma_entered_single(op: NodeEnumOp)
    ensures
        entered(seq![op]) == (match op {
            NodeEnumOp::Push(n, _) => seq![n],
            NodeEnumOp::Pop(_, _) => Seq::<usize>::empty(),
        }),
{
    let s = seq![op];
    assert(s.drop_last() =~= Seq::<NodeEnumOp>::empty());
    assert(s.last() == op);
    assert(entered(s.drop_last()) =~= Seq::<usize>::empty());
    match op {
        NodeEnumOp::Push(n, _) => {
            assert(entered(s) =~= seq![n]);
        },
        NodeEnumOp::Pop(_, _) => {},
    }
}

/// A prefix enters no more nodes than the whole.
pub proof fn lemma_entered_prefix(ops: Seq<NodeEnumOp>, k: int)
    requires
        0 <= k <= ops.len(),
    ensures
        entered(ops.take(k)).len() <= entered(ops).len(),
{
    assert(ops.take(k) + ops.skip(k) =~= ops);
    lemma_entered_concat(ops.take(k), ops.skip(k));
}

/// What is open after a concatenation is what is open after its second part,
/// starting from what is open after its first.
pub proof fn lemma_open_concat(start: Seq<usize>, a: Seq<NodeEnumOp>, b: Seq<NodeEnumOp>)
    ensures
        open_after(start, a + b) == open_after(open_after(start, a), b),
    decreases b.len(),
{
    if b.len() == 0 {
        assert(a + b =~= a);
    } else {
        assert((a + b).drop_last() =~= a + b.drop_last());
        assert((a + b).last() == b.last());
        lemma_open_concat(start, a, b.drop_last());
    }
}

/// What is open after one operation.
pub proof fn lemma_open_single(start: Seq<usize>, op: NodeEnumOp)
    ensures
        open_after(start, seq![op]) == (match op {
            NodeEnumOp::Push(n, _) => start.push(n),
            NodeEnumOp::Pop(_, _) => if start.len() > 0 {
                start.drop_last()
            } else {
                start
            },
        }),
{
    let s = seq![op];
    assert(s.drop_last() =~= Seq::<NodeEnumOp>::empty());
    assert(s.last() == op);
    assert(open_after(start, s.drop_last()) == start);
}

/// The scratch slots after a concatenation of steps are those after its
/// second part, starting from those after its first. The number of slots
/// never changes.
pub proof fn lemma_scratch_concat(
    start: Seq<Option<usize>>,
    a: Seq<ReplayStep>,
    b: Seq<ReplayStep>,
)
    ensures
        scratch_owners(start, a + b) == scratch_owners(scratch_owners(start, a), b),
        scratch_owners(start, a).len() == start.len(),
    decreases b.len(), a.len(),
{
    if a.len() > 0 {
        lemma_scratch_concat(start, a.drop_last(), Seq::empty());
    }
    if b.len() == 0 {
        assert(a + b =~= a);
    } else {
        assert((a + b).drop_last() =~= a + b.drop_last());
        assert((a + b).last() == b.last());
        lemma_scratch_concat(start, a, b.drop_last());
    }
}

/// Pushes and pops of one operation.
pub proof fn lemma_count_single(op: NodeEnumOp)
    ensures
        pushes(seq![op]) == (if op is Push { 1nat } else { 0nat }),
        pops(seq![op]) == (if op is Pop { 1nat } else { 0nat }),
{
    let s = seq![op];
    assert(s.drop_last() =~= Seq::<NodeEnumOp>::empty());
    assert(s.last() == op);
    assert(pushes(s.drop_last()) == 0);
    assert(pops(s.drop_last()) == 0);
}

/// Neither count exceeds the length, and together they make it up.
pub proof fn lemma_count_bound(ops: Seq<NodeEnumOp>)
    ensures
        pushes(ops) + pops(ops) == ops.len(),
    decreases ops.len(),
{
    if ops.len() > 0 {
        lemma_count_bound(ops.drop_last());
    }
}

/// A concatenation stays above zero where its first part does and its second
/// part does from the nesting that the first part ends with.
pub proof fn lemma_stays_above_concat(a: Seq<NodeEnumOp>, b: Seq<NodeEnumOp>, base: int)
    requires
        stays_above(a, base),
        stays_above(b, base + nesting(a)),
    ensures
        stays_above(a + b, base),
{
    assert forall|k: int| 0 <= k <= (a + b).len() implies base + nesting(
        #[trigger] (a + b).take(k),
    ) >= 0 by {
        if k <= a.len() {
            assert((a + b).take(k) =~= a.take(k));
        } else {
            assert((a + b).take(k) =~= a + b.take(k - a.len()));
            lemma_count_concat(a, b.take(k - a.len()));
        }
    }
}

/// One operation stays above zero from `base` where `base` has room for it.
pub proof fn lemma_stays_above_single(op: NodeEnumOp, base: int)
    requires
        base >= 0,
        op is Pop ==> base >= 1,
    ensures
        stays_above(seq![op], base),
{
    let s = seq![op];
    lemma_count_single(op);
    assert forall|k: int| 0 <= k <= s.len() implies base + nesting(#[trigger] s.take(k)) >= 0 by {
        if k == 0 {
            assert(s.take(0) =~= Seq::<NodeEnumOp>::empty());
        } else {
            assert(s.take(1) =~= s);
        }
    }
}

/// The nesting of every prefix is at most the greatest nesting.
pub proof fn lemma_prefix_nesting_bounded(ops: Seq<NodeEnumOp>, k: int)
    requires
        0 <= k <= ops.len(),
    ensures
        nesting(ops.take(k)) <= max_nesting(ops),
        0 <= max_nesting(ops),
    decreases ops.len(),
{
    if ops.len() == 0 {
        assert(ops.take(k) =~= ops);
    } else if k == ops.len() {
        assert(ops.take(k) =~= ops);
        lemma_prefix_nesting_bounded(ops.drop_last(), 0);
    } else {
        assert(ops.take(k) =~= ops.drop_last().take(k));
        lemma_prefix_nesting_bounded(ops.drop_last(), k);
    }
}

/// Some prefix reaches the greatest nesting: the bound is met, not only kept.
pub proof fn lemma_max_nesting_reached(ops: Seq<NodeEnumOp>)
    ensures
        exists|k: int| 0 <= k <= ops.len() && nesting(#[trigger] ops.take(k)) == max_nesting(ops),
    decreases ops.len(),
{
    if ops.len() == 0 {
        assert(ops.take(0) =~= ops);
    } else if nesting(ops) > max_nesting(ops.drop_last()) {
        assert(ops.take(ops.len() as int) =~= ops);
    } else {
        lemma_max_nesting_reached(ops.drop_last());
        let k = choose|k: int|
            0 <= k <= ops.drop_last().len() && nesting(#[trigger] ops.drop_last().take(k))
                == max_nesting(ops.drop_last());
        assert(ops.take(k) =~= ops.drop_last().take(k));
    }
}

} // verus!
