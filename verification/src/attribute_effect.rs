//! An ordered bundle of buffs that is applied and removed as a unit.

use vstd::prelude::*;
use crate::attribute_buff::AttributeBuff;

verus! {

/// An effect: its buffs, in the order in which they are applied.
#[derive(Debug)]
pub struct AttributeEffect {
    pub buffs: Vec<AttributeBuff>,
}

/// The buffs whose duration is zero.
pub open spec fn instant() -> spec_fn(AttributeBuff) -> bool {
    |b: AttributeBuff| b.duration.spec_is_zero()
}

/// The buffs whose duration is greater than zero.
pub open spec fn lasting() -> spec_fn(AttributeBuff) -> bool {
    |b: AttributeBuff| b.timed()
}

/// The two sequences have the same length and equal buffs at each index.
pub open spec fn same_buffs(left: Seq<AttributeBuff>, right: Seq<AttributeBuff>) -> bool {
    &&& left.len() == right.len()
    &&& forall|i: int| 0 <= i < left.len() ==> (#[trigger] left[i]).same_as(&right[i])
}

impl Default for AttributeEffect {
    /// The effect without buffs.
    fn default() -> (r: AttributeEffect)
        ensures
            r.buffs@.len() == 0,
    {
        AttributeEffect { buffs: Vec::new() }
    }
}

impl vstd::std_specs::cmp::PartialEqSpecImpl for AttributeEffect {
    open spec fn obeys_eq_spec() -> bool {
        true
    }

    open spec fn eq_spec(&self, other: &AttributeEffect) -> bool {
        same_buffs(self.buffs@, other.buffs@)
    }
}

impl PartialEq for AttributeEffect {
    fn eq(&self, other: &AttributeEffect) -> (r: bool) {
        if self.buffs.len() != other.buffs.len() {
            return false;
        }
        let mut i: usize = 0;
        while i < self.buffs.len()
            invariant
                i <= self.buffs.len(),
                self.buffs.len() == other.buffs.len(),
                forall|j: int| 0 <= j < i ==> (#[trigger] self.buffs@[j]).same_as(&other.buffs@[j]),
            decreases self.buffs.len() - i,
        {
            if self.buffs[i] != other.buffs[i] {
                proof {
                    assert(!self.buffs@[i as int].same_as(&other.buffs@[i as int]));
                }
                return false;
            }
            i += 1;
        }
        true
    }
}

impl AttributeEffect {
    /// The buffs of the effect whose duration is zero, in their order.
    pub fn get_instant_buffs(&self) -> (r: Vec<AttributeBuff>)
        ensures
            r@ == self.buffs@.filter(instant()),
    {
        let mut found: Vec<AttributeBuff> = Vec::new();
        let mut i: usize = 0;
        proof {
            assert(self.buffs@.take(0).filter(instant()) == Seq::<AttributeBuff>::empty()) by {
                reveal(Seq::filter);
            }
        }
        while i < self.buffs.len()
            invariant
                i <= self.buffs.len(),
                found@ == self.buffs@.take(i as int).filter(instant()),
            decreases self.buffs.len() - i,
        {
            proof {
                self.buffs@.take(i as int).lemma_filter_push(self.buffs@[i as int], instant());
                assert(self.buffs@.take(i + 1) == self.buffs@.take(i as int).push(
                    self.buffs@[i as int],
                ));
            }
            if self.buffs[i].duration.is_zero() {
                found.push(self.buffs[i].clone());
            }
            i += 1;
        }
        proof {
            assert(self.buffs@.take(i as int) == self.buffs@);
        }
        found
    }

    /// The buffs of the effect whose duration is greater than zero, in their
    /// order.
    pub fn get_timed_buffs(&self) -> (r: Vec<AttributeBuff>)
        ensures
            r@ == self.buffs@.filter(lasting()),
    {
        let mut found: Vec<AttributeBuff> = Vec::new();
        let mut i: usize = 0;
        proof {
            assert(self.buffs@.take(0).filter(lasting()) == Seq::<AttributeBuff>::empty()) by {
                reveal(Seq::filter);
            }
        }
        while i < self.buffs.len()
            invariant
                i <= self.buffs.len(),
                found@ == self.buffs@.take(i as int).filter(lasting()),
            decreases self.buffs.len() - i,
        {
            proof {
                self.buffs@.take(i as int).lemma_filter_push(self.buffs@[i as int], lasting());
                assert(self.buffs@.take(i + 1) == self.buffs@.take(i as int).push(
                    self.buffs@[i as int],
                ));
            }
            if self.buffs[i].is_timed() {
                found.push(self.buffs[i].clone());
            }
            i += 1;
        }
        proof {
            assert(self.buffs@.take(i as int) == self.buffs@);
        }
        found
    }
}

} // verus!
