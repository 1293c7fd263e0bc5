//! The rigid skeleton.
//!
//! The core consumes a decoded skeleton: a joint count, a parent index
//! per joint (with a sentinel for roots), a leaf predicate and an ordered
//! joint-name table.  Decoding the on-disk form is outside the core.

use vstd::prelude::*;

verus! {

/// Sentinel parent index for root joints.
pub const NO_PARENT: usize = usize::MAX;

/// Most joints a skeleton may have.
pub const MAX_JOINTS: usize = 1_000_000;

pub struct Skeleton {
    /// Parent joint index per joint; `NO_PARENT` for roots.
    pub parents: Vec<usize>,
    /// Joint names, in joint-index order.
    pub joint_names: Vec<String>,
}

impl Skeleton {
    /// Number of joints.
    pub open spec fn spec_num_joints(self) -> int {
        self.parents@.len() as int
    }

    /// Number of SoA records: four joints per record, rounded up.
    pub open spec fn spec_num_soa_joints(self) -> int {
        (self.spec_num_joints() + 3) / 4
    }

    /// One name per joint, a bounded joint count, and every non-root
    /// parent index in range.
    pub open spec fn wf(self) -> bool {
        &&& self.joint_names@.len() == self.parents@.len()
        &&& self.parents@.len() <= MAX_JOINTS
        &&& forall|i: int|
            0 <= i < self.parents@.len() ==> (#[trigger] self.parents@[i]) == NO_PARENT
                || self.parents@[i] < self.parents@.len()
    }

    /// Build a skeleton from decoded parent indices and joint names.
    pub fn new(parents: Vec<usize>, joint_names: Vec<String>) -> (r: Skeleton)
        requires
            joint_names@.len() == parents@.len(),
            parents@.len() <= MAX_JOINTS,
            forall|i: int|
                0 <= i < parents@.len() ==> (#[trigger] parents@[i]) == NO_PARENT || parents@[i]
                    < parents@.len(),
        ensures
            r.wf(),
            r.parents@ == parents@,
            r.joint_names@ == joint_names@,
    {
        Skeleton { parents, joint_names }
    }

    pub fn num_joints(&self) -> (r: usize)
        ensures
            r == self.spec_num_joints(),
    {
        self.parents.len()
    }

    pub fn num_soa_joints(&self) -> (r: usize)
        requires
            self.wf(),
        ensures
            r == self.spec_num_soa_joints(),
    {
        (self.parents.len() + 3) / 4
    }

    /// The parent of joint `i`, `NO_PARENT` for roots.
    pub fn joint_parent(&self, i: usize) -> (r: usize)
        requires
            i < self.spec_num_joints(),
        ensures
            r == self.parents@[i as int],
    {
        self.parents[i]
    }

    /// A joint is a leaf when no joint names it as parent.
    pub fn is_leaf(&self, i: usize) -> (r: bool)
        ensures
            r == forall|j: int|
                0 <= j < self.parents@.len() ==> (#[trigger] self.parents@[j]) != i,
    {
        let mut j: usize = 0;
        while j < self.parents.len()
            invariant
                j <= self.parents@.len(),
                forall|x: int| 0 <= x < j ==> (#[trigger] self.parents@[x]) != i,
            decreases self.parents@.len() - j,
        {
            if self.parents[j] == i {
                return false;
            }
            j = j + 1;
        }
        true
    }

    /// The ordered joint-name table.
    pub fn joint_names(&self) -> (r: &Vec<String>)
        ensures
            r@ == self.joint_names@,
    {
        &self.joint_names
    }
}

} // verus!
