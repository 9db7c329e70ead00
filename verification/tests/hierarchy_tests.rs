use model3d_base::hierarchy::{Hierarchy, HierarchyError, NodeEnumOp, Recipe};

fn six_node_tree() -> Hierarchy<u32> {
    let mut h: Hierarchy<u32> = Hierarchy::new();
    let b0 = h.add_node(0).unwrap();
    let b1 = h.add_node(1).unwrap();
    let b2 = h.add_node(2).unwrap();
    let b3 = h.add_node(3).unwrap();
    let b21 = h.add_node(21).unwrap();
    let b22 = h.add_node(22).unwrap();
    assert_eq!(h.relate(b0, b1), Ok(()));
    assert_eq!(h.relate(b0, b2), Ok(()));
    assert_eq!(h.relate(b0, b3), Ok(()));
    assert_eq!(h.relate(b2, b21), Ok(()));
    assert_eq!(h.relate(b2, b22), Ok(()));
    h
}

#[test]
fn add_node_returns_rising_indices() {
    let mut h: Hierarchy<u32> = Hierarchy::new();
    assert_eq!(h.add_node(7), Ok(0));
    assert_eq!(h.add_node(8), Ok(1));
    assert_eq!(h.len(), 2);
    assert_eq!(*h.borrow_node(1), 8);
}

#[test]
fn find_roots_lists_parentless_nodes() {
    let mut h = six_node_tree();
    let lone = h.add_node(99).unwrap();
    h.find_roots();
    assert_eq!(h.borrow_roots(), &vec![0, lone]);
    assert!(h.is_resolved());
}

#[test]
fn find_roots_twice_changes_nothing() {
    let mut h = six_node_tree();
    h.find_roots();
    let first = h.borrow_roots().clone();
    h.find_roots();
    assert_eq!(h.borrow_roots(), &first);
}

#[test]
fn walk_is_depth_first_in_insertion_order() {
    let h = six_node_tree();
    let mut walk = h.enum_from(0);
    let mut ops = Vec::new();
    while let Some(op) = walk.next_op() {
        ops.push(op);
    }
    assert_eq!(
        ops,
        vec![
            NodeEnumOp::Push(0, true),
            NodeEnumOp::Push(1, false),
            NodeEnumOp::Pop(1, false),
            NodeEnumOp::Push(2, true),
            NodeEnumOp::Push(4, false),
            NodeEnumOp::Pop(4, false),
            NodeEnumOp::Push(5, false),
            NodeEnumOp::Pop(5, false),
            NodeEnumOp::Pop(2, true),
            NodeEnumOp::Push(3, false),
            NodeEnumOp::Pop(3, false),
            NodeEnumOp::Pop(0, true),
        ]
    );
    assert_eq!(walk.next_op(), None);
}

#[test]
fn walk_of_a_leaf_is_one_push_and_one_pop() {
    let h = six_node_tree();
    let recipe = Recipe::of_ops(h.enum_from(4));
    assert_eq!(
        recipe.borrow_ops(),
        &vec![NodeEnumOp::Push(4, false), NodeEnumOp::Pop(4, false)]
    );
    assert_eq!(recipe.depth(), 1);
}

#[test]
fn recipe_pushes_equal_pops_equal_nodes() {
    let h = six_node_tree();
    let recipe = Recipe::of_ops(h.enum_from(0));
    let pushes = recipe.borrow_ops().iter().filter(|op| !op.is_pop()).count();
    let pops = recipe.borrow_ops().iter().filter(|op| op.is_pop()).count();
    assert_eq!(pushes, 6);
    assert_eq!(pops, 6);
    let mut nesting: i64 = 0;
    for op in recipe.borrow_ops() {
        nesting += if op.is_pop() { -1 } else { 1 };
        assert!(nesting >= 0);
    }
    assert_eq!(nesting, 0);
}

#[test]
fn recipe_depth_is_greatest_nesting() {
    let h = six_node_tree();
    let recipe = Recipe::of_ops(h.enum_from(0));
    assert_eq!(recipe.depth(), 3);
    let sub = Recipe::of_ops(h.enum_from(2));
    assert_eq!(sub.depth(), 2);
    let (depth, ops) = recipe.take();
    assert_eq!(depth, 3);
    assert_eq!(ops.len(), 12);
}

#[test]
fn recipe_steps_give_each_node_its_depth() {
    let h = six_node_tree();
    let recipe = Recipe::of_ops(h.enum_from(0));
    let steps: Vec<(usize, usize)> = recipe.steps().iter().map(|s| (s.node, s.depth)).collect();
    assert_eq!(steps, vec![(0, 0), (1, 1), (2, 1), (4, 2), (5, 2), (3, 1)]);
    for (_, depth) in steps {
        assert!(depth < recipe.depth());
    }
}

#[test]
fn add_op_tracks_depth() {
    let mut recipe = Recipe::new();
    assert_eq!(recipe.depth(), 0);
    recipe.add_op(NodeEnumOp::Push(0, true));
    recipe.add_op(NodeEnumOp::Push(1, false));
    assert_eq!(recipe.depth(), 2);
    recipe.add_op(NodeEnumOp::Pop(1, false));
    recipe.add_op(NodeEnumOp::Push(2, false));
    assert_eq!(recipe.depth(), 2);
    recipe.add_op(NodeEnumOp::Pop(2, false));
    recipe.add_op(NodeEnumOp::Pop(0, true));
    assert_eq!(recipe.depth(), 2);
    assert_eq!(recipe.borrow_ops().len(), 6);
}

#[test]
fn relate_refuses_out_of_range() {
    let mut h: Hierarchy<u32> = Hierarchy::new();
    h.add_node(0).unwrap();
    assert_eq!(h.relate(0, 1), Err(HierarchyError::OutOfRange));
    assert_eq!(h.relate(3, 0), Err(HierarchyError::OutOfRange));
}

#[test]
fn relate_refuses_second_parent() {
    let mut h = six_node_tree();
    assert_eq!(h.relate(3, 4), Err(HierarchyError::HasParent));
    assert_eq!(h.parent_of(4), Some(2));
    assert_eq!(h.children_of(3).len(), 0);
}

#[test]
fn relate_refuses_cycle() {
    let mut h: Hierarchy<u32> = Hierarchy::new();
    let a = h.add_node(0).unwrap();
    let b = h.add_node(1).unwrap();
    let c = h.add_node(2).unwrap();
    assert_eq!(h.relate(a, a), Err(HierarchyError::Cycle));
    assert_eq!(h.relate(b, c), Ok(()));
    assert_eq!(h.relate(c, a), Ok(()));
    assert_eq!(h.relate(a, b), Err(HierarchyError::Cycle));
    assert_eq!(h.parent_of(b), None);
}

#[test]
fn resolved_hierarchy_refuses_changes() {
    let mut h = six_node_tree();
    h.find_roots();
    assert_eq!(h.add_node(5), Err(HierarchyError::Resolved));
    assert_eq!(h.relate(1, 0), Err(HierarchyError::Resolved));
    assert_eq!(h.len(), 6);
    h.clear_roots();
    assert!(!h.is_resolved());
    assert_eq!(h.add_node(5), Ok(6));
}

#[test]
fn set_node_keeps_structure() {
    let mut h = six_node_tree();
    h.set_node(2, 200);
    assert_eq!(*h.borrow_node(2), 200);
    assert_eq!(h.children_of(2), &vec![4, 5]);
    assert_eq!(h.parent_of(2), Some(0));
    let node = &h.borrow_elements()[2];
    assert!(node.has_parent());
    assert!(node.has_children());
    assert_eq!(node.parent(), Some(0));
    assert_eq!(*node.borrow(), 200);
    assert_eq!(node.children(), &vec![4, 5]);
}

#[test]
fn every_node_is_entered_once_over_all_roots() {
    let mut h = six_node_tree();
    h.add_node(99).unwrap();
    h.find_roots();
    let mut seen = vec![0usize; h.len()];
    for root in h.borrow_roots().clone() {
        let recipe = Recipe::of_ops(h.enum_from(root));
        for op in recipe.borrow_ops() {
            if !op.is_pop() {
                seen[op.node()] += 1;
            }
        }
    }
    assert_eq!(seen, vec![1; 7]);
}

#[test]
fn iter_from_hands_out_the_data_of_each_node() {
    let h = six_node_tree();
    let mut walk = h.iter_from(2);
    let mut seen = Vec::new();
    while let Some((op, data)) = walk.next_node() {
        seen.push((op.node(), op.is_pop(), op.has_children(), *data));
    }
    assert_eq!(
        seen,
        vec![
            (2, false, true, 2),
            (4, false, false, 21),
            (4, true, false, 21),
            (5, false, false, 22),
            (5, true, false, 22),
            (2, true, true, 2),
        ]
    );
    assert!(walk.next_node().is_none());
}

#[test]
fn walk_can_be_started_again() {
    let h = six_node_tree();
    let first = Recipe::of_ops(h.enum_from(0));
    let second = Recipe::of_ops(h.enum_from(0));
    assert_eq!(first.borrow_ops(), second.borrow_ops());
}

#[test]
fn root_count_equals_parentless_count() {
    let mut h = six_node_tree();
    h.add_node(7).unwrap();
    h.add_node(8).unwrap();
    assert_eq!(h.relate(7, 6), Ok(()));
    h.find_roots();
    let parentless = (0..h.len()).filter(|i| h.parent_of(*i).is_none()).count();
    assert_eq!(h.borrow_roots().len(), parentless);
    assert_eq!(h.borrow_roots(), &vec![0, 7]);
    for node in 0..h.len() {
        let mut top = node;
        while let Some(p) = h.parent_of(top) {
            top = p;
        }
        assert_eq!(h.borrow_roots().iter().filter(|r| **r == top).count(), 1);
    }
}
