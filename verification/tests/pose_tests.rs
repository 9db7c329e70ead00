use model3d_base::{Skeleton, SkeletonPose};

fn chain() -> Skeleton<u8> {
    let mut skeleton = Skeleton::new();
    let a = skeleton.add_bone(0, 2);
    let b = skeleton.add_bone(0, 0);
    let c = skeleton.add_bone(0, 1);
    skeleton.relate(a, b).unwrap();
    skeleton.relate(b, c).unwrap();
    skeleton.resolve();
    skeleton
}

#[test]
fn new_pose_has_a_slot_for_each_matrix_index() {
    let skeleton = chain();
    let pose = SkeletonPose::new(&skeleton);
    assert_eq!(pose.pose_count(), 3);
    assert_eq!(pose.data_len(), 3);
    assert_eq!(pose.last_updated(), 0);
}

#[test]
fn update_with_new_tick_says_what_to_compute() {
    let skeleton = chain();
    let mut pose = SkeletonPose::new(&skeleton);
    let update = pose.update(1).unwrap();
    let steps: Vec<(usize, usize)> = update.steps.iter().map(|s| (s.node, s.depth)).collect();
    assert_eq!(steps, vec![(0, 0), (1, 1), (2, 2)]);
    assert_eq!(update.slots, vec![2, 0, 1]);
    assert_eq!(pose.last_updated(), 1);
}

#[test]
fn update_with_same_tick_does_nothing() {
    let skeleton = chain();
    let mut pose = SkeletonPose::new(&skeleton);
    let mut recomputed = 0;
    let mut data = vec![0usize; pose.data_len()];
    for tick in [5, 5, 5, 6, 6] {
        if let Some(update) = pose.update(tick) {
            recomputed += 1;
            for (bone, slot) in update.slots.iter().enumerate() {
                data[*slot] = tick * 10 + bone;
            }
        }
        if tick == 5 {
            assert_eq!(data, vec![51, 52, 50]);
        }
    }
    assert_eq!(recomputed, 2);
    assert_eq!(data, vec![61, 62, 60]);
    assert_eq!(pose.last_updated(), 6);
}

#[test]
fn first_update_with_tick_zero_is_a_cache_hit() {
    let skeleton = chain();
    let mut pose = SkeletonPose::new(&skeleton);
    assert!(pose.update(0).is_none());
    assert!(pose.update(1).is_some());
    assert!(pose.update(0).is_some());
}

#[test]
fn derive_animation_replays_like_derive_matrices() {
    let skeleton = chain();
    let pose = SkeletonPose::new(&skeleton);
    assert_eq!(pose.derive_animation(), skeleton.derive_matrices());
    for step in pose.derive_animation() {
        assert!(step.depth < skeleton.scratch_len());
    }
}
