use vstd::prelude::*;
use crate::common::error::Error;
use crate::common::helper::{decode_unsigned, spec_decode_unsigned};
use crate::common::io::{read_as, Reader};
use crate::common::object_id::ObjectId;
use crate::common::tag::{ApplicationTagNumber, Tag, TagNumber};

verus! {

/// The number of the service on the wire.
pub const I_AM_SERVICE_CHOICE: u8 = 0;

/// The announcement by which a device answers a `WhoIs`.
#[derive(Debug, Clone, Copy, PartialEq, Eq, Structural)]
pub struct IAm {
    pub device_id: ObjectId,
    pub max_apdu: u32,
    pub segmentation: u32,
    pub vendor_id: u32,
}

/// An unsigned number behind the application tag `kind`.
pub open spec fn spec_decode_application_number(s: Seq<u8>, pos: int, kind: ApplicationTagNumber) -> Result<
    (u32, int),
    Error,
> {
    match Tag::spec_decode_expected(s, pos, TagNumber::Application(kind)) {
        Err(e) => Err(e),
        Ok((tag, p)) => spec_decode_unsigned(tag.value, s, p),
    }
}

fn decode_application_number(reader: &mut Reader, buf: &[u8], kind: ApplicationTagNumber) -> (r:
    Result<u32, Error>)
    ensures
        read_as(
            r,
            spec_decode_application_number(old(reader).region(buf@), old(reader).index as int, kind),
            *old(reader),
            *final(reader),
        ),
{
    let tag = Tag::decode_expected(reader, buf, TagNumber::Application(kind))?;
    decode_unsigned(tag.value, reader, buf)
}

impl IAm {
    /// The announcement that the bytes of `s` from `pos` on spell, behind
    /// the number of the service: the device, the longest message it takes,
    /// its segmentation and its vendor, each behind its application tag.
    #[verifier::opaque]
    pub open spec fn spec_decode(s: Seq<u8>, pos: int) -> Result<(IAm, int), Error> {
        match Tag::spec_decode_expected(
            s,
            pos,
            TagNumber::Application(ApplicationTagNumber::ObjectId),
        ) {
            Err(e) => Err(e),
            Ok((tag, p)) => match ObjectId::spec_decode(tag.value, s, p) {
                Err(e) => Err(e),
                Ok((device_id, p)) => match spec_decode_application_number(
                    s,
                    p,
                    ApplicationTagNumber::UnsignedInt,
                ) {
                    Err(e) => Err(e),
                    Ok((max_apdu, p)) => match spec_decode_application_number(
                        s,
                        p,
                        ApplicationTagNumber::Enumerated,
                    ) {
                        Err(e) => Err(e),
                        Ok((segmentation, p)) => match spec_decode_application_number(
                            s,
                            p,
                            ApplicationTagNumber::UnsignedInt,
                        ) {
                            Err(e) => Err(e),
                            Ok((vendor_id, p)) => Ok(
                                (IAm { device_id, max_apdu, segmentation, vendor_id }, p),
                            ),
                        },
                    },
                },
            },
        }
    }

    /// Reads an announcement, from behind the number of the service on.
    pub fn decode(reader: &mut Reader, buf: &[u8]) -> (r: Result<Self, Error>)
        ensures
            read_as(
                r,
                IAm::spec_decode(old(reader).region(buf@), old(reader).index as int),
                *old(reader),
                *final(reader),
            ),
    {
        proof {
            reveal(IAm::spec_decode);
        }
        let tag = Tag::decode_expected(
            reader,
            buf,
            TagNumber::Application(ApplicationTagNumber::ObjectId),
        )?;
        let device_id = ObjectId::decode(tag.value, reader, buf)?;
        let max_apdu = decode_application_number(reader, buf, ApplicationTagNumber::UnsignedInt)?;
        let segmentation = decode_application_number(reader, buf, ApplicationTagNumber::Enumerated)?;
        let vendor_id = decode_application_number(reader, buf, ApplicationTagNumber::UnsignedInt)?;
        Ok(Self { device_id, max_apdu, segmentation, vendor_id })
    }
}

} // verus!
