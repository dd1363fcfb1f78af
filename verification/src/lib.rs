//! Gameplay attributes: named scalar values, the ordered stacks of buffs that
//! modify them, and the queue that retires timed buffs.
//!
//! Scalars are IEEE-754 doubles carried by their bit pattern. The library
//! compares them itself; the four arithmetic primitives are supplied by the
//! caller as a function value, and every contract that involves arithmetic is
//! stated over that function's own postcondition.
//!
//! Nothing here calls out to observers. An attribute, a queue, a container,
//! a table and a row each keep the events they raise, oldest first, until
//! the caller takes them.

pub mod scalar;
pub mod search;
pub mod attribute_operation;
pub mod attribute_buff;
pub mod attribute_buff_configuration;
pub mod attribute;
pub mod attribute_effect;
pub mod buff_pool_queue;
pub mod attribute_dictionary;
pub mod attribute_container;
pub mod resources;
