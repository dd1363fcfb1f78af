//! Tables of seed values from which attributes are set up.

pub mod attribute_table;
pub mod attributes_record;
pub mod name_order;
pub mod attributes_table_record;
