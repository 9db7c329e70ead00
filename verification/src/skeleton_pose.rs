//! The pose of a skeleton: what has to be recomputed for a tick, and when.

use vstd::prelude::*;
use crate::hierarchy::ops::ReplayStep;
use crate::skeleton::{recipes_steps, Skeleton};

verus! {

/// What an update of a pose has to compute.
pub struct PoseUpdate {
    /// The bones in the order in which their animated matrices are derived,
    /// each with the scratch depth at which this happens
    pub steps: Vec<ReplayStep>,
    /// For each bone, by index, the slot of the output array that its
    /// animated matrix is copied to
    pub slots: Vec<usize>,
}

/// A pose for a complete skeleton: one pose for each bone, an output array
/// with one matrix for each matrix slot of the skeleton, and the tick of
/// the last update.
pub struct SkeletonPose<'a, X> {
    /// The skeleton that the pose corresponds to
    skeleton: &'a Skeleton<X>,
    /// The number of bone poses
    pose_count: usize,
    /// The length of the output array
    data_len: usize,
    /// The tick for which the output array was last computed
    last_updated: usize,
}

impl<'a, X: Copy> SkeletonPose<'a, X> {
    /// The skeleton that the pose corresponds to.
    pub closed spec fn skeleton(&self) -> &'a Skeleton<X> {
        self.skeleton
    }

    /// The number of bone poses.
    pub closed spec fn spec_pose_count(&self) -> usize {
        self.pose_count
    }

    /// The length of the output array.
    pub closed spec fn spec_data_len(&self) -> usize {
        self.data_len
    }

    /// The tick for which the output array was last computed.
    pub closed spec fn spec_last_updated(&self) -> usize {
        self.last_updated
    }

    /// The invariant of a pose: its skeleton is resolved, there is a pose for
    /// each bone, and the output array has a slot for each matrix index.
    pub open spec fn wf(&self) -> bool {
        &&& self.skeleton().wf()
        &&& self.skeleton().resolved()
        &&& self.spec_pose_count() == self.skeleton().bones().len()
        &&& self.spec_data_len() == self.skeleton().spec_max_index()
    }

    /// Create a new pose for a skeleton, which must have been resolved.
    pub fn new(skeleton: &'a Skeleton<X>) -> (pose: Self)
        requires
            skeleton.wf(),
            skeleton.resolved(),
        ensures
            pose.wf(),
            pose.skeleton() == skeleton,
            pose.spec_last_updated() == 0,
    {
        SkeletonPose {
            skeleton,
            pose_count: skeleton.len(),
            data_len: skeleton.max_index(),
            last_updated: 0,
        }
    }

    /// Return the number of bone poses.
    pub fn pose_count(&self) -> (n: usize)
        ensures
            n == self.spec_pose_count(),
    {
        self.pose_count
    }

    /// Return the length of the output array.
    pub fn data_len(&self) -> (n: usize)
        ensures
            n == self.spec_data_len(),
    {
        self.data_len
    }

    /// Return the tick for which the output array was last computed.
    pub fn last_updated(&self) -> (t: usize)
        ensures
            t == self.spec_last_updated(),
    {
        self.last_updated
    }

    /// Derive the order in which the animated matrices of the bones are
    /// derived: the recorded traversals of the skeleton are replayed as they
    /// are for its rest matrices, with scratch space of the same depth.
    pub fn derive_animation(&self) -> (steps: Vec<ReplayStep>)
        requires
            self.wf(),
        ensures
            steps@ == recipes_steps(self.skeleton().recipes()),
            forall|k: int|
                0 <= k < steps@.len() ==> (#[trigger] steps@[k]).depth
                    < self.skeleton().spec_scratch_len(),
    {
        self.skeleton.derive_matrices()
    }

    /// Update the pose for a tick.
    ///
    /// For the tick of the last update there is nothing to do: the answer is
    /// `None` and the pose stays as it is. For any other tick the pose takes
    /// the tick, and the answer says what to compute: the order in which the
    /// animated matrices are derived, and for each bone the slot of the
    /// output array, always inside the array, that its matrix goes to.
    pub fn update(&mut self, tick: usize) -> (r: Option<PoseUpdate>)
        requires
            old(self).wf(),
        ensures
            final(self).wf(),
            final(self).skeleton() == old(self).skeleton(),
            final(self).spec_last_updated() == tick,
            tick == old(self).spec_last_updated() ==> r.is_none() && *final(self) == *old(self),
            tick != old(self).spec_last_updated() ==> r.is_some(),
            r matches Some(u) ==> {
                &&& u.steps@ == recipes_steps(old(self).skeleton().recipes())
                &&& forall|k: int|
                    0 <= k < u.steps@.len() ==> (#[trigger] u.steps@[k]).depth < old(self).skeleton().spec_scratch_len()
                &&& u.slots@.len() == old(self).skeleton().bones().len()
                &&& forall|i: int|
                    0 <= i < u.slots@.len() ==> #[trigger] u.slots@[i] == old(self).skeleton().bones()[i].matrix_index
                &&& forall|i: int|
                    0 <= i < u.slots@.len() ==> #[trigger] u.slots@[i] < old(self).spec_data_len()
            },
    {
        if tick == self.last_updated {
            return None;
        }
        self.last_updated = tick;
        let steps = self.derive_animation();
        let hierarchy = self.skeleton.borrow_hierarchy();
        let mut slots: Vec<usize> = Vec::new();
        let n = self.pose_count;
        let mut i: usize = 0;
        while i < n
            invariant
                i <= n,
                self.wf(),
                n == self.skeleton().bones().len(),
                *hierarchy == self.skeleton().hierarchy(),
                slots@.len() == i,
                forall|j: int|
                    0 <= j < i ==> #[trigger] slots@[j] == self.skeleton().bones()[j].matrix_index,
                forall|j: int| 0 <= j < i ==> #[trigger] slots@[j] < self.spec_data_len(),
            decreases n - i,
        {
            let slot = hierarchy.borrow_node(i).matrix_index;
            assert(self.skeleton().bones()[i as int].matrix_index < self.spec_data_len());
            slots.push(slot);
            i += 1;
        }
        Some(PoseUpdate { steps, slots })
    }
}

} // verus!
