//! The arithmetic rule a buff applies to a base value.

use vstd::prelude::*;
use crate::scalar::{Arithmetic, Primitive, Scalar, arithmetic_of, total, HUNDRED_BITS};

verus! {

/// The kind of an operation.
#[derive(Clone, Copy, Debug, PartialEq, Eq, Structural)]
pub enum Operand {
    Add,
    Divide,
    Multiply,
    Percentage,
    Subtract,
    Unknown,
}

impl Operand {
    /// The kind that a stored code stands for; codes above four stand for no
    /// operation at all.
    pub open spec fn of_code(code: u8) -> Operand {
        if code == 0 {
            Operand::Add
        } else if code == 1 {
            Operand::Divide
        } else if code == 2 {
            Operand::Multiply
        } else if code == 3 {
            Operand::Percentage
        } else if code == 4 {
            Operand::Subtract
        } else {
            Operand::Unknown
        }
    }
}

impl vstd::std_specs::convert::FromSpecImpl<u8> for Operand {
    open spec fn obeys_from_spec() -> bool {
        true
    }

    open spec fn from_spec(value: u8) -> Operand {
        Operand::of_code(value)
    }
}

impl From<u8> for Operand {
    fn from(value: u8) -> (r: Operand) {
        match value {
            0 => Operand::Add,
            1 => Operand::Divide,
            2 => Operand::Multiply,
            3 => Operand::Percentage,
            4 => Operand::Subtract,
            _ => Operand::Unknown,
        }
    }
}

/// An operation: a kind, stored as its code, and the magnitude it works with.
#[derive(Clone, Copy, Debug)]
pub struct AttributeOperation {
    /// The code of the kind; see [`Operand::of_code`].
    pub operand: u8,
    /// The value to operate with.
    pub value: Scalar,
}

impl Default for AttributeOperation {
    /// The addition of zero.
    fn default() -> (r: AttributeOperation)
        ensures
            r.operand == 0,
            r.value.bits == 0,
    {
        AttributeOperation { operand: 0, value: Scalar::zero() }
    }
}

impl vstd::std_specs::cmp::PartialEqSpecImpl for AttributeOperation {
    open spec fn obeys_eq_spec() -> bool {
        true
    }

    open spec fn eq_spec(&self, other: &AttributeOperation) -> bool {
        self.same_as(other)
    }
}

impl PartialEq for AttributeOperation {
    fn eq(&self, other: &AttributeOperation) -> (r: bool) {
        Operand::from(self.operand) == Operand::from(other.operand) && self.value.same_number(
            &other.value,
        )
    }
}

impl AttributeOperation {
    /// What `==` decides: the same kind, and magnitudes that are the same
    /// number. Two codes that stand for no operation are of one kind.
    pub open spec fn same_as(&self, other: &AttributeOperation) -> bool {
        Operand::of_code(self.operand) == Operand::of_code(other.operand)
            && self.value.spec_same_number(&other.value)
    }

    /// An addition of `value`.
    pub fn add(value: Scalar) -> (r: AttributeOperation)
        ensures
            r.operand == 0,
            r.value == value,
    {
        AttributeOperation { operand: 0, value }
    }

    /// A division by `value`.
    pub fn divide(value: Scalar) -> (r: AttributeOperation)
        ensures
            r.operand == 1,
            r.value == value,
    {
        AttributeOperation { operand: 1, value }
    }

    /// A multiplication by `value`.
    pub fn multiply(value: Scalar) -> (r: AttributeOperation)
        ensures
            r.operand == 2,
            r.value == value,
    {
        AttributeOperation { operand: 2, value }
    }

    /// An increase by `value` percent of the base.
    pub fn percentage(value: Scalar) -> (r: AttributeOperation)
        ensures
            r.operand == 3,
            r.value == value,
    {
        AttributeOperation { operand: 3, value }
    }

    /// A subtraction of `value`.
    pub fn subtract(value: Scalar) -> (r: AttributeOperation)
        ensures
            r.operand == 4,
            r.value == value,
    {
        AttributeOperation { operand: 4, value }
    }

    /// `result` is a value the operation may give on `base`: the sum,
    /// quotient, product or difference of the base and the magnitude, or the
    /// base plus the magnitude times a hundredth of the base, each as the
    /// arithmetic may give it; the base itself where the code is unknown.
    pub open spec fn gives(self, arithmetic: Arithmetic, base: Scalar, result: Scalar) -> bool {
        match Operand::of_code(self.operand) {
            Operand::Add => arithmetic(Primitive::Sum, base, self.value, result),
            Operand::Divide => arithmetic(Primitive::Quotient, base, self.value, result),
            Operand::Multiply => arithmetic(Primitive::Product, base, self.value, result),
            Operand::Percentage => exists|hundredth: Scalar, share: Scalar|
                {
                    &&& arithmetic(
                        Primitive::Quotient,
                        base,
                        Scalar { bits: HUNDRED_BITS },
                        hundredth,
                    )
                    &&& #[trigger] arithmetic(Primitive::Product, hundredth, self.value, share)
                    &&& arithmetic(Primitive::Sum, base, share, result)
                },
            Operand::Subtract => arithmetic(Primitive::Difference, base, self.value, result),
            Operand::Unknown => result == base,
        }
    }

    /// Applies the operation to `base_value`: the sum, quotient, product or
    /// difference of the base and the magnitude, or the base plus the
    /// magnitude times a hundredth of the base; an unknown code leaves the
    /// base as it is.
    pub fn operate<U: Fn(Primitive, Scalar, Scalar) -> Scalar>(
        &self,
        base_value: Scalar,
        unit: &U,
    ) -> (r: Scalar)
        requires
            total(*unit),
        ensures
            self.gives(arithmetic_of(*unit), base_value, r),
    {
        match Operand::from(self.operand) {
            Operand::Add => unit(Primitive::Sum, base_value, self.value),
            Operand::Divide => unit(Primitive::Quotient, base_value, self.value),
            Operand::Multiply => unit(Primitive::Product, base_value, self.value),
            Operand::Percentage => {
                let hundredth = unit(Primitive::Quotient, base_value, Scalar::hundred());
                let share = unit(Primitive::Product, hundredth, self.value);
                let sum = unit(Primitive::Sum, base_value, share);
                proof {
                    let arithmetic = arithmetic_of(*unit);
                    assert(arithmetic(
                        Primitive::Quotient,
                        base_value,
                        Scalar { bits: HUNDRED_BITS },
                        hundredth,
                    ));
                    assert(arithmetic(Primitive::Product, hundredth, self.value, share));
                    assert(arithmetic(Primitive::Sum, base_value, share, sum));
                }
                sum
            },
            Operand::Subtract => unit(Primitive::Difference, base_value, self.value),
            Operand::Unknown => base_value,
        }
    }
}

} // verus!
