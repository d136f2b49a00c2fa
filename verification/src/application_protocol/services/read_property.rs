use vstd::prelude::*;
use crate::application_protocol::primitives::data_value::{
    ApplicationDataValue, ApplicationDataValueView,
};
use crate::application_protocol::services::read_property_multiple::{
    PropertyValue, PropertyValueView,
};
use crate::common::error::Error;
use crate::common::helper::{
    lemma_context_object_id_round_trip, lemma_context_unsigned_round_trip,
};
use crate::common::helper::{
    decode_context_object_id, decode_context_property_id, decode_context_unsigned,
    encode_context_enumerated, encode_context_object_id, encode_context_unsigned,
    spec_decode_context_object_id, spec_decode_context_property_id, spec_decode_context_unsigned,
    spec_encode_context_object_id, spec_encode_context_unsigned, BACNET_ARRAY_ALL,
};
use crate::common::io::{holds_at, lemma_holds_at_split};
use crate::common::io::{
    group_writer, lemma_appended_nothing, read_as, read_as_view, wrote, Reader, Writer,
};
use crate::common::object_id::ObjectId;
use crate::common::property_id::PropertyId;
use crate::common::tag::{Tag, TagNumber};

verus! {

broadcast use group_writer;

/// A request for one property of one object.
#[derive(Debug, Clone, Copy, PartialEq, Eq, Structural)]
pub struct ReadProperty {
    pub object_id: ObjectId,  // e.g. a device
    pub property_id: PropertyId,
    pub array_index: u32,  // BACNET_ARRAY_ALL for the whole array
}

pub const READ_PROPERTY_OBJECT_ID_TAG: u8 = 0;

pub const READ_PROPERTY_PROPERTY_ID_TAG: u8 = 1;

pub const READ_PROPERTY_ARRAY_INDEX_TAG: u8 = 2;

pub const READ_PROPERTY_VALUE_TAG: u8 = 3;

impl ReadProperty {
    /// The request on the wire: the object, the property, and the array
    /// index unless it stands for the whole array.
    pub open spec fn spec_encode(self) -> Seq<u8> {
        spec_encode_context_object_id(READ_PROPERTY_OBJECT_ID_TAG, self.object_id)
            + spec_encode_context_unsigned(READ_PROPERTY_PROPERTY_ID_TAG, self.property_id.0) + (
        if self.array_index != BACNET_ARRAY_ALL {
            spec_encode_context_unsigned(READ_PROPERTY_ARRAY_INDEX_TAG, self.array_index)
        } else {
            seq![]
        })
    }

    /// The request that the bytes of `s` from `pos` on spell, which goes on
    /// to the end of `s`: where nothing follows the property, the whole
    /// array is asked for.
    #[verifier::opaque]
    pub open spec fn spec_decode(s: Seq<u8>, pos: int) -> Result<(ReadProperty, int), Error> {
        match spec_decode_context_object_id(s, pos, READ_PROPERTY_OBJECT_ID_TAG) {
            Err(e) => Err(e),
            Ok((object_id, p)) => match spec_decode_context_property_id(
                s,
                p,
                READ_PROPERTY_PROPERTY_ID_TAG,
            ) {
                Err(e) => Err(e),
                Ok((property_id, p)) => if p >= s.len() {
                    Ok((ReadProperty { object_id, property_id, array_index: BACNET_ARRAY_ALL }, p))
                } else {
                    match spec_decode_context_unsigned(s, p, READ_PROPERTY_ARRAY_INDEX_TAG) {
                        Err(e) => Err(e),
                        Ok((array_index, p)) => Ok(
                            (ReadProperty { object_id, property_id, array_index }, p),
                        ),
                    }
                },
            },
        }
    }

    pub fn new(object_id: ObjectId, property_id: PropertyId) -> (r: Self)
        ensures
            r == (ReadProperty { object_id, property_id, array_index: BACNET_ARRAY_ALL }),
    {
        Self { object_id, property_id, array_index: BACNET_ARRAY_ALL }
    }

    pub fn encode(&self, writer: &mut Writer) -> (r: Result<(), Error>)
        requires
            old(writer).wf(),
        ensures
            wrote(r, old(writer), final(writer), self.spec_encode()),
            final(final(writer).buf)@ == final(old(writer).buf)@,
    {
        // object_id
        encode_context_object_id(writer, READ_PROPERTY_OBJECT_ID_TAG, &self.object_id)?;

        // property_id
        encode_context_enumerated(writer, READ_PROPERTY_PROPERTY_ID_TAG, &self.property_id)?;

        // array_index
        if self.array_index != BACNET_ARRAY_ALL {
            encode_context_unsigned(writer, READ_PROPERTY_ARRAY_INDEX_TAG, self.array_index)
        } else {
            proof {
                lemma_appended_nothing(writer);
            }
            Ok(())
        }
    }

    /// Reads a request, which goes on to the end of the region.
    pub fn decode(reader: &mut Reader, buf: &[u8]) -> (r: Result<Self, Error>)
        ensures
            read_as(
                r,
                ReadProperty::spec_decode(old(reader).region(buf@), old(reader).index as int),
                *old(reader),
                *final(reader),
            ),
    {
        proof {
            reveal(ReadProperty::spec_decode);
        }
        let object_id = decode_context_object_id(reader, buf, READ_PROPERTY_OBJECT_ID_TAG)?;
        let property_id = decode_context_property_id(reader, buf, READ_PROPERTY_PROPERTY_ID_TAG)?;
        let array_index = if reader.eof_in(buf) {
            BACNET_ARRAY_ALL
        } else {
            decode_context_unsigned(reader, buf, READ_PROPERTY_ARRAY_INDEX_TAG)?
        };
        Ok(Self { object_id, property_id, array_index })
    }
}

/// The acknowledgement of a `ReadProperty` request: the value of the property.
#[derive(Debug, Clone, Copy)]
pub struct ReadPropertyAck<'a> {
    pub object_id: ObjectId,
    pub property_id: PropertyId,
    pub property_value: PropertyValue<'a>,
}

/// What a `ReadPropertyAck` holds.
pub struct ReadPropertyAckView {
    pub object_id: ObjectId,
    pub property_id: PropertyId,
    pub property_value: PropertyValueView,
}

impl<'a> View for ReadPropertyAck<'a> {
    type V = ReadPropertyAckView;

    open spec fn view(&self) -> ReadPropertyAckView {
        ReadPropertyAckView {
            object_id: self.object_id,
            property_id: self.property_id,
            property_value: self.property_value@,
        }
    }
}

/// A value behind its application tag, in the bracket 3.
pub open spec fn spec_decode_bracketed_value(s: Seq<u8>, pos: int) -> Result<
    (ApplicationDataValueView, int),
    Error,
> {
    match Tag::spec_decode_expected(
        s,
        pos,
        TagNumber::ContextSpecificOpening(READ_PROPERTY_VALUE_TAG),
    ) {
        Err(e) => Err(e),
        Ok((_, p)) => match Tag::spec_decode(s, p) {
            Err(e) => Err(e),
            Ok((tag, p)) => match ApplicationDataValueView::spec_decode(tag, s, p) {
                Err(e) => Err(e),
                Ok((value, p)) => match Tag::spec_decode_expected(
                    s,
                    p,
                    TagNumber::ContextSpecificClosing(READ_PROPERTY_VALUE_TAG),
                ) {
                    Err(e) => Err(e),
                    Ok((_, p)) => Ok((value, p)),
                },
            },
        },
    }
}

impl ReadPropertyAckView {
    /// The acknowledgement that the bytes of `s` from `pos` on spell, behind
    /// the number of the service: the object, the property, and in the
    /// bracket 3 the value.
    #[verifier::opaque]
    pub open spec fn spec_decode(s: Seq<u8>, pos: int) -> Result<(ReadPropertyAckView, int), Error> {
        match spec_decode_context_object_id(s, pos, READ_PROPERTY_OBJECT_ID_TAG) {
            Err(e) => Err(e),
            Ok((object_id, p)) => match spec_decode_context_property_id(
                s,
                p,
                READ_PROPERTY_PROPERTY_ID_TAG,
            ) {
                Err(e) => Err(e),
                Ok((property_id, p)) => match spec_decode_bracketed_value(s, p) {
                    Err(e) => Err(e),
                    Ok((value, p)) => Ok(
                        (
                            ReadPropertyAckView {
                                object_id,
                                property_id,
                                property_value: PropertyValueView::PropValue(value),
                            },
                            p,
                        ),
                    ),
                },
            },
        }
    }
}

impl<'a> ReadPropertyAck<'a> {
    fn decode_bracketed_value(reader: &mut Reader, buf: &'a [u8]) -> (r: Result<
        ApplicationDataValue<'a>,
        Error,
    >)
        ensures
            read_as_view(
                r,
                spec_decode_bracketed_value(old(reader).region(buf@), old(reader).index as int),
                *old(reader),
                *final(reader),
            ),
    {
        Tag::decode_expected(
            reader,
            buf,
            TagNumber::ContextSpecificOpening(READ_PROPERTY_VALUE_TAG),
        )?;
        let tag = Tag::decode(reader, buf)?;
        let value = ApplicationDataValue::decode(&tag, reader, buf)?;
        Tag::decode_expected(
            reader,
            buf,
            TagNumber::ContextSpecificClosing(READ_PROPERTY_VALUE_TAG),
        )?;
        Ok(value)
    }

    /// Reads an acknowledgement, from behind the number of the service on.
    pub fn decode(reader: &mut Reader, buf: &'a [u8]) -> (r: Result<Self, Error>)
        ensures
            read_as_view(
                r,
                ReadPropertyAckView::spec_decode(old(reader).region(buf@), old(reader).index as int),
                *old(reader),
                *final(reader),
            ),
    {
        proof {
            reveal(ReadPropertyAckView::spec_decode);
        }
        let object_id = decode_context_object_id(reader, buf, READ_PROPERTY_OBJECT_ID_TAG)?;
        let property_id = decode_context_property_id(reader, buf, READ_PROPERTY_PROPERTY_ID_TAG)?;
        let value = Self::decode_bracketed_value(reader, buf)?;
        Ok(Self { object_id, property_id, property_value: PropertyValue::PropValue(value) })
    }
}

/// A request whose object identifier fits its bits is read back as it was
/// written, where it stands at the end of the bytes.
pub proof fn lemma_read_property_round_trip(request: ReadProperty, s: Seq<u8>, pos: int)
    requires
        request.object_id.wf(),
        holds_at(s, pos, request.spec_encode()),
        pos + request.spec_encode().len() == s.len(),
    ensures
        ReadProperty::spec_decode(s, pos) == Ok::<(ReadProperty, int), Error>(
            (request, s.len() as int),
        ),
{
    reveal(ReadProperty::spec_decode);
    let object = spec_encode_context_object_id(READ_PROPERTY_OBJECT_ID_TAG, request.object_id);
    let property = spec_encode_context_unsigned(
        READ_PROPERTY_PROPERTY_ID_TAG,
        request.property_id.0,
    );
    let index: Seq<u8> = if request.array_index != BACNET_ARRAY_ALL {
        spec_encode_context_unsigned(READ_PROPERTY_ARRAY_INDEX_TAG, request.array_index)
    } else {
        seq![]
    };
    lemma_holds_at_split(s, pos, object + property, index);
    lemma_holds_at_split(s, pos, object, property);
    lemma_context_object_id_round_trip(READ_PROPERTY_OBJECT_ID_TAG, request.object_id, s, pos);
    lemma_context_unsigned_round_trip(
        READ_PROPERTY_PROPERTY_ID_TAG,
        request.property_id.0,
        s,
        pos + object.len(),
    );
    if request.array_index != BACNET_ARRAY_ALL {
        lemma_context_unsigned_round_trip(
            READ_PROPERTY_ARRAY_INDEX_TAG,
            request.array_index,
            s,
            pos + object.len() + property.len(),
        );
    }
}

} // verus!
