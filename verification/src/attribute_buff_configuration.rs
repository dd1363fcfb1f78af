//! Rules that decide when a buff may be applied and when it has to go.

use vstd::prelude::*;
use crate::scalar::Scalar;

verus! {

/// A rule for a buff.
pub trait IAttributeBuffConfiguration {
    /// Whether the buff may be applied now.
    fn can_apply(&self) -> bool;

    /// Told that the buff was applied.
    fn on_apply(&mut self);

    /// Whether the buff has to be removed now.
    fn should_remove(&self) -> bool;
}

/// A rule that says nothing.
#[derive(Clone, Copy, Debug)]
pub struct AttributeBuffConfiguration {}

/// The rule of a buff that lasts for a time.
#[derive(Clone, Copy, Debug)]
pub struct TimedAttributeBuffConfiguration {
    /// The seconds that the buff lasts.
    pub time_duration: Scalar,
}

impl Default for AttributeBuffConfiguration {
    fn default() -> (r: AttributeBuffConfiguration) {
        AttributeBuffConfiguration {  }
    }
}

impl Default for TimedAttributeBuffConfiguration {
    /// The rule of a buff that lasts no time.
    fn default() -> (r: TimedAttributeBuffConfiguration)
        ensures
            r.time_duration.bits == 0,
    {
        TimedAttributeBuffConfiguration { time_duration: Scalar::zero() }
    }
}

impl IAttributeBuffConfiguration for TimedAttributeBuffConfiguration {
    /// The buff may be applied while its duration is greater than zero.
    fn can_apply(&self) -> (r: bool)
        ensures
            r == self.time_duration.spec_is_positive(),
    {
        self.time_duration.is_positive()
    }

    /// Applying the buff leaves the rule as it is.
    fn on_apply(&mut self)
        ensures
            *final(self) == *old(self),
    {
    }

    /// The buff has to be removed once its duration is zero or less.
    fn should_remove(&self) -> (r: bool)
        ensures
            r == self.time_duration.spec_at_most_zero(),
    {
        self.time_duration.at_most_zero()
    }
}

} // verus!
