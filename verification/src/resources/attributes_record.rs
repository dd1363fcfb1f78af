//! The seed values of one attribute.

use vstd::prelude::*;
use crate::scalar::Scalar;

verus! {

/// The seed values of an attribute: its name, its initial value and the
/// bounds between which its value is meant to stay.
#[derive(Debug)]
pub struct AttributesRecord {
    pub attribute_name: String,
    pub initial_value: Scalar,
    pub min_value: Scalar,
    pub max_value: Scalar,
}

/// The record of the given name with every value zero.
pub open spec fn fresh(attribute_name: String) -> AttributesRecord {
    AttributesRecord {
        attribute_name,
        initial_value: Scalar { bits: 0 },
        min_value: Scalar { bits: 0 },
        max_value: Scalar { bits: 0 },
    }
}

impl Default for AttributesRecord {
    /// The record without a name, with every value zero.
    fn default() -> (r: AttributesRecord)
        ensures
            r.attribute_name@.len() == 0,
            r.initial_value.bits == 0,
            r.min_value.bits == 0,
            r.max_value.bits == 0,
    {
        AttributesRecord::new(String::new())
    }
}

impl Clone for AttributesRecord {
    fn clone(&self) -> (r: AttributesRecord)
        ensures
            r == *self,
    {
        AttributesRecord {
            attribute_name: self.attribute_name.clone(),
            initial_value: self.initial_value,
            min_value: self.min_value,
            max_value: self.max_value,
        }
    }
}

impl vstd::std_specs::cmp::PartialEqSpecImpl for AttributesRecord {
    open spec fn obeys_eq_spec() -> bool {
        true
    }

    open spec fn eq_spec(&self, other: &AttributesRecord) -> bool {
        self.same_as(other)
    }
}

impl PartialEq for AttributesRecord {
    fn eq(&self, other: &AttributesRecord) -> (r: bool) {
        self.attribute_name == other.attribute_name && self.initial_value.same_number(
            &other.initial_value,
        ) && self.min_value.same_number(&other.min_value) && self.max_value.same_number(
            &other.max_value,
        )
    }
}

impl AttributesRecord {
    /// What `==` decides: the same name, and values that are the same
    /// numbers.
    pub open spec fn same_as(&self, other: &AttributesRecord) -> bool {
        &&& self.attribute_name@ == other.attribute_name@
        &&& self.initial_value.spec_same_number(&other.initial_value)
        &&& self.min_value.spec_same_number(&other.min_value)
        &&& self.max_value.spec_same_number(&other.max_value)
    }

    /// The record of the given name with every value zero.
    pub fn new(attribute_name: String) -> (r: AttributesRecord)
        ensures
            r == fresh(attribute_name),
    {
        AttributesRecord {
            attribute_name,
            initial_value: Scalar::zero(),
            min_value: Scalar::zero(),
            max_value: Scalar::zero(),
        }
    }
}

} // verus!
