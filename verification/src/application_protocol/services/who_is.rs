use vstd::prelude::*;
use crate::common::error::Error;
use crate::common::io::{wrote, Writer};

verus! {

/// The number of the service on the wire.
pub const WHO_IS_SERVICE_CHOICE: u8 = 8;

/// The request by which a device asks which devices are there. It is sent
/// without limits on the device numbers, so that it has no body.
#[derive(Debug, Clone, Copy, PartialEq, Eq, Structural)]
pub struct WhoIs {}

impl WhoIs {
    /// The request on the wire: the number of the service and nothing else.
    pub open spec fn spec_encode(self) -> Seq<u8> {
        seq![WHO_IS_SERVICE_CHOICE]
    }

    pub fn new() -> (r: Self) {
        Self {  }
    }

    /// Writes the number of the service.
    pub fn encode(&self, writer: &mut Writer) -> (r: Result<(), Error>)
        requires
            old(writer).wf(),
        ensures
            wrote(r, old(writer), final(writer), self.spec_encode()),
            final(final(writer).buf)@ == final(old(writer).buf)@,
    {
        writer.push(WHO_IS_SERVICE_CHOICE)
    }

    /// The request behind the number of its service: there is nothing to read.
    pub fn decode() -> (r: Self) {
        Self {  }
    }
}

} // verus!
