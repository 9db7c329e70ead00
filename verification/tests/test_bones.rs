use model3d_base::hierarchy::HierarchyError;
use model3d_base::Skeleton;

type Translation = [f32; 3];

fn build_bone_set() -> Skeleton<Translation> {
    let mut skeleton = Skeleton::new();
    let b0 = skeleton.add_bone([0., 0., 0.], 0);
    let b1 = skeleton.add_bone([1., 0., 0.], 0);
    let b2 = skeleton.add_bone([0., 1., 0.], 0);
    let b3 = skeleton.add_bone([0., 0., 1.], 0);
    let b21 = skeleton.add_bone([0.5, 0., 0.], 0);
    let b22 = skeleton.add_bone([0.0, 0., 0.5], 0);
    skeleton.relate(b0, b1).unwrap();
    skeleton.relate(b0, b2).unwrap();
    skeleton.relate(b0, b3).unwrap();
    skeleton.relate(b2, b21).unwrap();
    skeleton.relate(b2, b22).unwrap();
    skeleton.resolve();
    skeleton.rewrite_indices();
    skeleton
}

fn parent_to_bone(translation: &Translation) -> [f32; 16] {
    let mut m: [f32; 16] = geo_nd::matrix::identity4();
    m[12] = translation[0];
    m[13] = translation[1];
    m[14] = translation[2];
    geo_nd::matrix::inverse4(&m)
}

fn rest_matrices(skeleton: &Skeleton<Translation>) -> Vec<[f32; 16]> {
    let mut scratch = vec![[0.0f32; 16]; skeleton.scratch_len()];
    let mut mtb = vec![[0.0f32; 16]; skeleton.len()];
    for step in skeleton.derive_matrices() {
        let bone = skeleton.borrow_hierarchy().borrow_node(step.node);
        let ptb = parent_to_bone(bone.borrow_transformation());
        let m = if step.depth == 0 {
            ptb
        } else {
            geo_nd::matrix::multiply4(&ptb, &scratch[step.depth - 1])
        };
        scratch[step.depth] = m;
        mtb[step.node] = m;
    }
    mtb
}

#[test]
fn test_0() {
    let skeleton = build_bone_set();
    assert_eq!(1, skeleton.iter_roots().iter().count());
}

#[test]
fn test_1() {
    let skeleton = build_bone_set();
    let mtb = rest_matrices(&skeleton);
    assert_eq!(
        &mtb[4],
        &[1., 0., 0., 0., 0., 1., 0., 0., 0., 0., 1., 0., -0.5, -1., 0., 1.]
    );
    assert_eq!(
        &mtb[5],
        &[1., 0., 0., 0., 0., 1., 0., 0., 0., 0., 1., 0., 0., -1., -0.5, 1.]
    );
}

#[test]
fn resolve_finds_roots_depth_and_slots() {
    let mut skeleton: Skeleton<Translation> = Skeleton::new();
    let a = skeleton.add_bone([0.; 3], 4);
    let b = skeleton.add_bone([0.; 3], 9);
    let c = skeleton.add_bone([0.; 3], 2);
    skeleton.relate(a, b).unwrap();
    assert!(!skeleton.is_resolved());
    skeleton.resolve();
    assert!(skeleton.is_resolved());
    assert_eq!(skeleton.iter_roots(), vec![a, c]);
    assert_eq!(skeleton.max_index(), 10);
    assert_eq!(skeleton.scratch_len(), 2);
    assert_eq!(skeleton.borrow_roots()[0].1.depth(), 2);
    assert_eq!(skeleton.borrow_roots()[1].1.depth(), 1);
}

#[test]
fn resolve_of_empty_skeleton_stays_unresolved() {
    let mut skeleton: Skeleton<Translation> = Skeleton::new();
    skeleton.resolve();
    assert!(!skeleton.is_resolved());
    assert_eq!(skeleton.max_index(), 0);
    assert_eq!(skeleton.len(), 0);
}

#[test]
fn rewrite_indices_numbers_bones_in_traversal_order() {
    let skeleton = build_bone_set();
    let indices: Vec<usize> = (0..6)
        .map(|i| skeleton.borrow_hierarchy().borrow_node(i).matrix_index)
        .collect();
    assert_eq!(indices, vec![0, 1, 2, 5, 3, 4]);
    assert_eq!(skeleton.max_index(), 6);
}

#[test]
fn rewrite_indices_keeps_assigned_indices() {
    let mut skeleton: Skeleton<Translation> = Skeleton::new();
    let a = skeleton.add_bone([0.; 3], 1);
    let b = skeleton.add_bone([0.; 3], 0);
    skeleton.relate(a, b).unwrap();
    skeleton.rewrite_indices();
    assert_eq!(skeleton.borrow_hierarchy().borrow_node(a).matrix_index, 1);
    assert_eq!(skeleton.borrow_hierarchy().borrow_node(b).matrix_index, 0);
    assert_eq!(skeleton.max_index(), 2);
}

#[test]
fn rewrite_indices_keeps_rest_poses() {
    let skeleton = build_bone_set();
    assert_eq!(
        skeleton.borrow_hierarchy().borrow_node(4).borrow_transformation(),
        &[0.5, 0., 0.]
    );
}

#[test]
fn derive_matrices_gives_each_bone_its_depth() {
    let skeleton = build_bone_set();
    let steps: Vec<(usize, usize)> = skeleton
        .derive_matrices()
        .iter()
        .map(|s| (s.node, s.depth))
        .collect();
    assert_eq!(steps, vec![(0, 0), (1, 1), (2, 1), (4, 2), (5, 2), (3, 1)]);
    assert_eq!(skeleton.scratch_len(), 3);
}

#[test]
fn derive_matrices_restarts_at_each_root() {
    let mut skeleton: Skeleton<Translation> = Skeleton::new();
    let a = skeleton.add_bone([0.; 3], 0);
    let b = skeleton.add_bone([0.; 3], 0);
    let c = skeleton.add_bone([0.; 3], 0);
    skeleton.relate(c, a).unwrap();
    skeleton.resolve();
    let steps: Vec<(usize, usize)> = skeleton
        .derive_matrices()
        .iter()
        .map(|s| (s.node, s.depth))
        .collect();
    assert_eq!(steps, vec![(b, 0), (c, 0), (a, 1)]);
}

#[test]
fn add_bone_after_resolve_forces_new_resolve() {
    let mut skeleton = build_bone_set();
    let extra = skeleton.add_bone([0.; 3], 7);
    assert_eq!(extra, 6);
    assert!(!skeleton.is_resolved());
    skeleton.relate(5, extra).unwrap();
    skeleton.resolve();
    assert_eq!(skeleton.iter_roots(), vec![0]);
    assert_eq!(skeleton.scratch_len(), 4);
    assert_eq!(skeleton.max_index(), 8);
}

#[test]
fn resolved_skeleton_refuses_relate() {
    let mut skeleton = build_bone_set();
    assert_eq!(skeleton.relate(1, 3), Err(HierarchyError::Resolved));
    assert!(skeleton.is_resolved());
}

#[test]
fn skeleton_relate_reports_structure_errors() {
    let mut skeleton: Skeleton<Translation> = Skeleton::new();
    let a = skeleton.add_bone([0.; 3], 0);
    let b = skeleton.add_bone([0.; 3], 0);
    assert_eq!(skeleton.relate(a, 5), Err(HierarchyError::OutOfRange));
    assert_eq!(skeleton.relate(a, b), Ok(()));
    assert_eq!(skeleton.relate(a, b), Err(HierarchyError::HasParent));
    assert_eq!(skeleton.relate(b, a), Err(HierarchyError::Cycle));
}

#[test]
fn set_transformation_keeps_index_and_recipes() {
    let mut skeleton = build_bone_set();
    skeleton.set_transformation(4, [2., 0., 0.]);
    let bone = skeleton.borrow_hierarchy().borrow_node(4);
    assert_eq!(bone.borrow_transformation(), &[2., 0., 0.]);
    assert_eq!(bone.matrix_index, 3);
    assert!(skeleton.is_resolved());
    let mtb = rest_matrices(&skeleton);
    assert_eq!(
        &mtb[4],
        &[1., 0., 0., 0., 0., 1., 0., 0., 0., 0., 1., 0., -2., -1., 0., 1.]
    );
}
