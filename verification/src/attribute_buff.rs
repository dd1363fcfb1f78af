//! A named modifier that targets one attribute.

use vstd::prelude::*;
use crate::attribute_operation::AttributeOperation;
use crate::scalar::{Primitive, Scalar, arithmetic_of, total};

verus! {

/// Whether a buff changes the attribute's own value once, or stays attached
/// and is folded into every reading.
#[derive(Clone, Copy, Debug, PartialEq, Eq, Structural)]
pub enum BuffType {
    Immediate,
    Persistent,
}

impl BuffType {
    /// The type that a stored code stands for. Only the code one stands for
    /// `Persistent`; every other code, known or not, stands for `Immediate`.
    pub open spec fn of_code(code: u8) -> BuffType {
        if code == 1 {
            BuffType::Persistent
        } else {
            BuffType::Immediate
        }
    }

    /// The code under which a type is stored.
    pub open spec fn code(self) -> u8 {
        match self {
            BuffType::Immediate => 0,
            BuffType::Persistent => 1,
        }
    }
}

impl vstd::std_specs::convert::FromSpecImpl<u8> for BuffType {
    open spec fn obeys_from_spec() -> bool {
        true
    }

    open spec fn from_spec(value: u8) -> BuffType {
        BuffType::of_code(value)
    }
}

impl From<u8> for BuffType {
    fn from(value: u8) -> (r: BuffType) {
        match value {
            0 => BuffType::Immediate,
            1 => BuffType::Persistent,
            _ => BuffType::Immediate,
        }
    }
}

impl vstd::std_specs::convert::FromSpecImpl<BuffType> for u8 {
    open spec fn obeys_from_spec() -> bool {
        true
    }

    open spec fn from_spec(value: BuffType) -> u8 {
        value.code()
    }
}

impl From<BuffType> for u8 {
    fn from(value: BuffType) -> (r: u8) {
        match value {
            BuffType::Immediate => 0,
            BuffType::Persistent => 1,
        }
    }
}

/// A buff: the attribute it targets, its own name, its type, how long it
/// lasts in seconds (zero for an instant buff) and the operation it applies.
#[derive(Debug)]
pub struct AttributeBuff {
    pub attribute_name: String,
    pub buff_name: String,
    /// The code of the type; see [`BuffType::of_code`].
    pub buff_type: u8,
    pub duration: Scalar,
    pub operation: AttributeOperation,
}

impl Default for AttributeBuff {
    /// An immediate buff without names or duration that adds zero.
    fn default() -> (r: AttributeBuff)
        ensures
            r.attribute_name@.len() == 0,
            r.buff_name@.len() == 0,
            r.buff_type == 0,
            r.duration.bits == 0,
            r.operation.operand == 0,
            r.operation.value.bits == 0,
    {
        AttributeBuff {
            attribute_name: String::new(),
            buff_name: String::new(),
            buff_type: 0,
            duration: Scalar::zero(),
            operation: AttributeOperation::default(),
        }
    }
}

impl Clone for AttributeBuff {
    fn clone(&self) -> (r: AttributeBuff)
        ensures
            r == *self,
    {
        AttributeBuff {
            attribute_name: self.attribute_name.clone(),
            buff_name: self.buff_name.clone(),
            buff_type: self.buff_type,
            duration: self.duration,
            operation: self.operation,
        }
    }
}

/// A copy of the buffs, in their order.
pub fn clone_buffs(buffs: &Vec<AttributeBuff>) -> (r: Vec<AttributeBuff>)
    ensures
        r@ == buffs@,
{
    let mut copy: Vec<AttributeBuff> = Vec::new();
    let mut i: usize = 0;
    while i < buffs.len()
        invariant
            i <= buffs.len(),
            copy@ == buffs@.take(i as int),
        decreases buffs.len() - i,
    {
        copy.push(buffs[i].clone());
        proof {
            assert(buffs@.take(i + 1) == buffs@.take(i as int).push(buffs@[i as int]));
        }
        i += 1;
    }
    proof {
        assert(buffs@.take(i as int) == buffs@);
    }
    copy
}

impl vstd::std_specs::cmp::PartialEqSpecImpl for AttributeBuff {
    open spec fn obeys_eq_spec() -> bool {
        true
    }

    open spec fn eq_spec(&self, other: &AttributeBuff) -> bool {
        self.same_as(other)
    }
}

impl PartialEq for AttributeBuff {
    fn eq(&self, other: &AttributeBuff) -> (r: bool) {
        self.attribute_name == other.attribute_name && self.operation == other.operation
    }
}

impl AttributeBuff {
    /// What `==` decides: the same target attribute and equal operations.
    /// The buff's own name, its type and its duration play no part.
    pub open spec fn same_as(&self, other: &AttributeBuff) -> bool {
        self.attribute_name@ == other.attribute_name@ && self.operation.same_as(&other.operation)
    }

    /// The buff is attached to its attribute rather than consumed at once.
    pub open spec fn persistent(&self) -> bool {
        BuffType::of_code(self.buff_type) == BuffType::Persistent
    }

    /// The buff lasts for a time and is retired by the queue.
    pub open spec fn timed(&self) -> bool {
        self.duration.spec_is_positive()
    }

    /// Applies the buff's operation to `base_value`.
    pub fn operate<U: Fn(Primitive, Scalar, Scalar) -> Scalar>(
        &self,
        base_value: Scalar,
        unit: &U,
    ) -> (r: Scalar)
        requires
            total(*unit),
        ensures
            self.operation.gives(arithmetic_of(*unit), base_value, r),
    {
        self.operation.operate(base_value, unit)
    }

    /// Whether the buff stays attached to its attribute.
    pub fn is_persistent(&self) -> (r: bool)
        ensures
            r == self.persistent(),
    {
        match BuffType::from(self.buff_type) {
            BuffType::Immediate => false,
            BuffType::Persistent => true,
        }
    }

    /// Whether the buff lasts for a time, so that the queue has to retire it.
    pub fn is_timed(&self) -> (r: bool)
        ensures
            r == self.timed(),
    {
        self.duration.is_positive()
    }

    /// Whether the buff targets the attribute of the given name.
    pub fn targets(&self, attribute_name: &String) -> (r: bool)
        ensures
            r == (self.attribute_name@ == attribute_name@),
    {
        self.attribute_name == *attribute_name
    }
}

} // verus!
