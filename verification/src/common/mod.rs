//! The cursors, the tag, and the small codecs that the services share.

pub mod endian;
pub mod error;
pub mod helper;
pub mod io;
pub mod object_id;
pub mod property_id;
pub mod tag;
