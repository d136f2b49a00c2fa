use vstd::prelude::*;
use crate::common::endian::{
    lemma_u32_be_round_trip, spec_u32_be, spec_u32_from_be, u32_from_be, u32_to_be,
};
use crate::common::error::Error;
use crate::common::io::{
    cut_short, lemma_read_bytes_cut, read_as, spec_read_bytes, wrote, Reader, Writer,
};

verus! {

/// The identifier of an object: the number of its type (10 bits on the wire)
/// and its instance number (22 bits).
#[derive(Debug, Clone, Copy, PartialEq, Eq, Structural)]
pub struct ObjectId {
    pub object_type: u16,
    pub id: u32,
}

/// The length of an object identifier on the wire.
pub const OBJECT_ID_LEN: u32 = 4;

impl ObjectId {
    /// Both numbers fit their bits.
    pub open spec fn wf(self) -> bool {
        self.object_type < 1024 && self.id < 4194304
    }

    /// The 32-bit number on the wire: the type in the high ten bits, the
    /// instance in the low 22; bits that do not fit are dropped.
    pub open spec fn spec_value(self) -> u32 {
        ((self.object_type % 1024) * 4194304 + self.id % 4194304) as u32
    }

    /// The identifier that a 32-bit number spells.
    pub open spec fn spec_from_value(value: u32) -> ObjectId {
        ObjectId { object_type: (value / 4194304) as u16, id: value % 4194304 }
    }

    pub open spec fn spec_encode(self) -> Seq<u8> {
        spec_u32_be(self.spec_value())
    }

    /// The identifier in the `size` bytes from `pos` on; `size` must be 4.
    pub open spec fn spec_decode(size: u32, s: Seq<u8>, pos: int) -> Result<(ObjectId, int), Error> {
        if size != OBJECT_ID_LEN {
            Err(Error::InvalidValue)
        } else {
            match spec_read_bytes(s, pos, 4) {
                Err(e) => Err(e),
                Ok((bytes, p)) => Ok((ObjectId::spec_from_value(spec_u32_from_be(bytes)), p)),
            }
        }
    }

    pub fn new(object_type: u16, id: u32) -> (r: Self)
        ensures
            r == (ObjectId { object_type, id }),
    {
        Self { object_type, id }
    }

    pub fn encode(&self, writer: &mut Writer) -> (r: Result<(), Error>)
        requires
            old(writer).wf(),
        ensures
            wrote(r, old(writer), final(writer), self.spec_encode()),
            final(final(writer).buf)@ == final(old(writer).buf)@,
    {
        let value: u32 = (self.object_type as u32 % 1024) * 4194304 + self.id % 4194304;
        let bytes = u32_to_be(value);
        writer.extend_from_slice(bytes.as_slice())
    }

    pub fn decode(size: u32, reader: &mut Reader, buf: &[u8]) -> (r: Result<Self, Error>)
        ensures
            read_as(
                r,
                ObjectId::spec_decode(size, old(reader).region(buf@), old(reader).index as int),
                *old(reader),
                *final(reader),
            ),
    {
        if size != OBJECT_ID_LEN {
            return Err(Error::InvalidValue);
        }
        let value = u32_from_be(reader.read_bytes::<4>(buf)?);
        Ok(Self { object_type: (value / 4194304) as u16, id: value % 4194304 })
    }
}

/// An identifier whose numbers fit their bits is read back as it was written.
pub proof fn lemma_object_id_round_trip(id: ObjectId)
    requires
        id.wf(),
    ensures
        id.spec_encode().len() == 4,
        ObjectId::spec_from_value(spec_u32_from_be(id.spec_encode())) == id,
{
    let v = id.spec_value();
    lemma_u32_be_round_trip(v);
    lemma_type_and_instance(id.object_type as int, id.id as int);
}

/// A type and an instance that are packed into one number come apart again.
proof fn lemma_type_and_instance(object_type: int, id: int)
    requires
        0 <= object_type < 1024,
        0 <= id < 4194304,
    ensures
        object_type % 1024 == object_type,
        id % 4194304 == id,
        0 <= object_type * 4194304 + id < 0x1_0000_0000,
        (object_type * 4194304 + id) / 4194304 == object_type,
        (object_type * 4194304 + id) % 4194304 == id,
{
}

/// Cutting the bytes short does not change what an identifier reads as, so
/// long as the cut lies behind it; a cut through it makes the read fail for
/// want of bytes.
pub proof fn lemma_object_id_decode_cut(size: u32, s: Seq<u8>, pos: int, k: int)
    requires
        0 <= k <= s.len(),
        ObjectId::spec_decode(size, s, pos) is Ok,
    ensures
        ObjectId::spec_decode(size, s.take(k), pos) == cut_short(
            ObjectId::spec_decode(size, s, pos),
            k,
        ),
{
    lemma_read_bytes_cut(s, pos, 4, k);
}

} // verus!
