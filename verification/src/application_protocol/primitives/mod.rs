//! The values that stand behind an application tag.

pub mod data_value;
