//! The services, each with the grammar of its request and of its answer.

pub mod i_am;
pub mod read_property;
pub mod read_property_multiple;
pub mod read_property_multiple_proofs;
pub mod read_range;
pub mod read_range_proofs;
pub mod who_is;
