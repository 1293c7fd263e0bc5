//! Parameter storage for the animator.
//!
//! A named bag of typed values consumed by transitions and blend trees.
//! Each kind (bool / float / int / trigger) has its own namespace.
//! Triggers are one-shot booleans: `reset_triggers` clears every one of
//! them, and the controller calls it at the end of every update.

use vstd::prelude::*;
use crate::assoc::{amap, keys_distinct, assoc_get, assoc_set};
use crate::fixed::{fx_ok, spec_clamp, fx_clamp};

verus! {

pub struct Parameters {
    bools: Vec<(String, bool)>,
    floats: Vec<(String, i64)>,
    ints: Vec<(String, i32)>,
    triggers: Vec<(String, bool)>,
}

impl Parameters {
    /// The boolean parameters as a map from name to value.
    pub closed spec fn bools_v(self) -> Map<Seq<char>, bool> {
        amap(self.bools@)
    }

    /// The float (fixed-point) parameters as a map from name to value.
    pub closed spec fn floats_v(self) -> Map<Seq<char>, i64> {
        amap(self.floats@)
    }

    /// The integer parameters as a map from name to value.
    pub closed spec fn ints_v(self) -> Map<Seq<char>, i32> {
        amap(self.ints@)
    }

    /// The pending triggers as a map from name to value.
    pub closed spec fn triggers_v(self) -> Map<Seq<char>, bool> {
        amap(self.triggers@)
    }

    /// Names are distinct within each kind and every stored float is in
    /// the fixed-point range.
    pub closed spec fn wf(self) -> bool {
        &&& keys_distinct(self.bools@)
        &&& keys_distinct(self.floats@)
        &&& keys_distinct(self.ints@)
        &&& keys_distinct(self.triggers@)
        &&& forall|i: int| 0 <= i < self.floats@.len() ==> fx_ok((#[trigger] self.floats@[i]).1)
    }

    /// The value `get_float` reports for a name.
    pub open spec fn spec_float(self, n: Seq<char>) -> Option<i64> {
        if self.floats_v().contains_key(n) {
            Some(self.floats_v()[n])
        } else {
            None
        }
    }

    /// The value `get_trigger` reports for a name: false unless the
    /// trigger is pending.
    pub open spec fn spec_trigger(self, n: Seq<char>) -> bool {
        self.triggers_v().contains_key(n) && self.triggers_v()[n]
    }

    pub fn new() -> (r: Parameters)
        ensures
            r.wf(),
            r.bools_v() == Map::<Seq<char>, bool>::empty(),
            r.floats_v() == Map::<Seq<char>, i64>::empty(),
            r.ints_v() == Map::<Seq<char>, i32>::empty(),
            r.triggers_v() == Map::<Seq<char>, bool>::empty(),
    {
        Parameters { bools: Vec::new(), floats: Vec::new(), ints: Vec::new(), triggers: Vec::new() }
    }

    pub fn get_bool(&self, name: &str) -> (r: Option<bool>)
        requires
            self.wf(),
        ensures
            r == (if self.bools_v().contains_key(name@) {
                Some(self.bools_v()[name@])
            } else {
                None::<bool>
            }),
    {
        assoc_get(&self.bools, name)
    }

    pub fn get_float(&self, name: &str) -> (r: Option<i64>)
        requires
            self.wf(),
        ensures
            r == self.spec_float(name@),
            r matches Some(x) ==> fx_ok(x),
    {
        match assoc_get(&self.floats, name) {
            Some(x) => {
                proof {
                    crate::assoc::lemma_amap_values(self.floats@, name@);
                }
                Some(x)
            },
            None => None,
        }
    }

    pub fn get_int(&self, name: &str) -> (r: Option<i32>)
        requires
            self.wf(),
        ensures
            r == (if self.ints_v().contains_key(name@) {
                Some(self.ints_v()[name@])
            } else {
                None::<i32>
            }),
    {
        assoc_get(&self.ints, name)
    }

    pub fn get_trigger(&self, name: &str) -> (r: bool)
        requires
            self.wf(),
        ensures
            r == self.spec_trigger(name@),
    {
        match assoc_get(&self.triggers, name) {
            Some(x) => x,
            None => false,
        }
    }

    pub fn set_bool(&mut self, name: &str, value: bool)
        requires
            old(self).wf(),
        ensures
            final(self).wf(),
            final(self).bools_v() == old(self).bools_v().insert(name@, value),
            final(self).floats_v() == old(self).floats_v(),
            final(self).ints_v() == old(self).ints_v(),
            final(self).triggers_v() == old(self).triggers_v(),
    {
        assoc_set(&mut self.bools, name, value);
    }

    /// Stores the value saturated into the fixed-point range.
    pub fn set_float(&mut self, name: &str, value: i64)
        requires
            old(self).wf(),
        ensures
            final(self).wf(),
            final(self).floats_v() == old(self).floats_v().insert(name@, spec_clamp(value)),
            final(self).bools_v() == old(self).bools_v(),
            final(self).ints_v() == old(self).ints_v(),
            final(self).triggers_v() == old(self).triggers_v(),
    {
        let v = fx_clamp(value);
        assoc_set(&mut self.floats, name, v);
    }

    pub fn set_int(&mut self, name: &str, value: i32)
        requires
            old(self).wf(),
        ensures
            final(self).wf(),
            final(self).ints_v() == old(self).ints_v().insert(name@, value),
            final(self).bools_v() == old(self).bools_v(),
            final(self).floats_v() == old(self).floats_v(),
            final(self).triggers_v() == old(self).triggers_v(),
    {
        assoc_set(&mut self.ints, name, value);
    }

    /// Arms a one-shot trigger; it reads true until the next
    /// `reset_triggers`.
    pub fn set_trigger(&mut self, name: &str)
        requires
            old(self).wf(),
        ensures
            final(self).wf(),
            final(self).triggers_v() == old(self).triggers_v().insert(name@, true),
            final(self).bools_v() == old(self).bools_v(),
            final(self).floats_v() == old(self).floats_v(),
            final(self).ints_v() == old(self).ints_v(),
    {
        assoc_set(&mut self.triggers, name, true);
    }

    /// Clears every pending trigger.
    pub fn reset_triggers(&mut self)
        requires
            old(self).wf(),
        ensures
            final(self).wf(),
            final(self).triggers_v() == Map::<Seq<char>, bool>::empty(),
            final(self).bools_v() == old(self).bools_v(),
            final(self).floats_v() == old(self).floats_v(),
            final(self).ints_v() == old(self).ints_v(),
    {
        self.triggers = Vec::new();
    }
}

} // verus!
