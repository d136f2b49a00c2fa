use vstd::prelude::*;

verus! {

/// The number under which the protocol lists a property of an object. The
/// table of names is not part of this codec; the few numbers that a grammar
/// treats specially have a name here.
#[derive(Debug, Clone, Copy, PartialEq, Eq, Structural)]
pub struct PropertyId(pub u32);

/// The description of an object.
pub const PROP_DESCRIPTION: u32 = 28;

/// The name of an object.
pub const PROP_OBJECT_NAME: u32 = 77;

/// The present value of an object.
pub const PROP_PRESENT_VALUE: u32 = 85;

/// The four status flags of an object.
pub const PROP_STATUS_FLAGS: u32 = 111;

/// The time stamps of the last events, whose value grammar this codec does not model.
pub const PROP_EVENT_TIME_STAMPS: u32 = 130;

/// The log buffer of a trend log.
pub const PROP_LOG_BUFFER: u32 = 131;

} // verus!
