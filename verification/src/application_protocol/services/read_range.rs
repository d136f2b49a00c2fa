use vstd::prelude::*;
use crate::application_protocol::primitives::data_value::{
    BitString, BitStringView, Date, Time, DATE_LEN, TIME_LEN,
};
use crate::common::endian::{spec_u32_be, spec_u32_from_be, u32_from_be, u32_to_be};
use crate::common::error::Error;
use crate::common::helper::{
    decode_context_object_id, decode_context_property_id, decode_context_unsigned, decode_signed,
    decode_unsigned, encode_application_signed, encode_application_unsigned, encode_closing_tag,
    encode_context_enumerated, encode_context_object_id, encode_context_unsigned,
    encode_opening_tag, get_tagged_body_for_tag, lemma_find_closing_bounds,
    spec_decode_context_object_id, spec_decode_context_property_id, spec_decode_context_unsigned,
    spec_decode_signed, spec_decode_unsigned, spec_encode_application_signed,
    spec_encode_application_unsigned, spec_encode_closing_tag, spec_encode_context_object_id,
    spec_encode_context_unsigned, spec_encode_opening_tag, spec_tagged_body, BACNET_ARRAY_ALL,
};
use crate::common::io::{
    group_writer, lemma_appended_nothing, moved_on, read_as, read_as_view, spec_read_bytes, wrote,
    wrote_if, Reader, Writer,
};
use crate::common::object_id::ObjectId;
use crate::common::property_id::PropertyId;
use crate::common::tag::{lemma_tag_decode_bounds, ApplicationTagNumber, Tag, TagNumber};

verus! {

broadcast use group_writer;

/// A request for a range of the items of a list property, such as the
/// records of a trend log's buffer.
#[derive(Debug, Clone, Copy, PartialEq, Eq, Structural)]
pub struct ReadRange {
    pub object_id: ObjectId,  // e.g. a trend log
    pub property_id: PropertyId,  // e.g. its log buffer
    pub array_index: u32,  // BACNET_ARRAY_ALL for the whole array
    pub request_type: ReadRangeRequestType,
}

/// Which items are asked for. Exactly one way of selecting them is taken.
#[derive(Debug, Clone, Copy, PartialEq, Eq, Structural)]
pub enum ReadRangeRequestType {
    ByPosition(ReadRangeByPosition),
    BySequence(ReadRangeBySequence),
    ByTime(ReadRangeByTime),
    All,
}

#[derive(Debug, Clone, Copy, PartialEq, Eq, Structural)]
pub struct ReadRangeByPosition {
    pub index: u32,
    pub count: u32,
}

#[derive(Debug, Clone, Copy, PartialEq, Eq, Structural)]
pub struct ReadRangeBySequence {
    pub sequence_num: u32,
    pub count: u32,
}

#[derive(Debug, Clone, Copy, PartialEq, Eq, Structural)]
pub struct ReadRangeByTime {
    pub date: Date,
    pub time: Time,
    pub count: u32,
}

pub const READ_RANGE_OBJECT_ID_TAG: u8 = 0;

pub const READ_RANGE_PROPERTY_ID_TAG: u8 = 1;

pub const READ_RANGE_ARRAY_INDEX_TAG: u8 = 2;

pub const READ_RANGE_BY_POSITION_TAG: u8 = 3;

pub const READ_RANGE_BY_SEQUENCE_TAG: u8 = 6;

pub const READ_RANGE_BY_TIME_TAG: u8 = 7;

/// A count as the signed number that goes on the wire: a count above the
/// largest signed number wraps round to a negative one.
pub open spec fn spec_count_to_signed(count: u32) -> i32 {
    if count <= 0x7FFF_FFFF {
        count as i32
    } else {
        (count - 0x1_0000_0000) as i32
    }
}

fn count_to_signed(count: u32) -> (r: i32)
    ensures
        r == spec_count_to_signed(count),
{
    if count <= 0x7FFF_FFFF {
        count as i32
    } else {
        (count as i64 - 0x1_0000_0000) as i32
    }
}

/// A count on the wire: an unsigned number, or a signed one that is not negative.
pub open spec fn spec_decode_count(s: Seq<u8>, pos: int) -> Result<(u32, int), Error> {
    match Tag::spec_decode(s, pos) {
        Err(e) => Err(e),
        Ok((tag, p)) => match tag.number {
            TagNumber::Application(ApplicationTagNumber::UnsignedInt) => spec_decode_unsigned(
                tag.value,
                s,
                p,
            ),
            TagNumber::Application(ApplicationTagNumber::SignedInt) => match spec_decode_signed(
                tag.value,
                s,
                p,
            ) {
                Err(e) => Err(e),
                Ok((count, p)) => if count < 0 {
                    Err(Error::InvalidValue)
                } else {
                    Ok((count as u32, p))
                },
            },
            _ => Err(Error::TagNotSupported),
        },
    }
}

/// An unsigned number behind its application tag.
pub open spec fn spec_decode_application_unsigned(s: Seq<u8>, pos: int) -> Result<(u32, int), Error> {
    match Tag::spec_decode_expected(
        s,
        pos,
        TagNumber::Application(ApplicationTagNumber::UnsignedInt),
    ) {
        Err(e) => Err(e),
        Ok((tag, p)) => spec_decode_unsigned(tag.value, s, p),
    }
}

/// A number and a count, then the closing tag `closing`: what stands behind
/// the opening tag of a selection by position or by sequence number.
pub open spec fn spec_decode_number_and_count(s: Seq<u8>, pos: int, closing: u8) -> Result<
    ((u32, u32), int),
    Error,
> {
    match spec_decode_application_unsigned(s, pos) {
        Err(e) => Err(e),
        Ok((number, p)) => match spec_decode_count(s, p) {
            Err(e) => Err(e),
            Ok((count, p)) => match Tag::spec_decode_expected(
                s,
                p,
                TagNumber::ContextSpecificClosing(closing),
            ) {
                Err(e) => Err(e),
                Ok((_, p)) => Ok(((number, count), p)),
            },
        },
    }
}

/// A date, a time and a count, then the closing tag: what stands behind the
/// opening tag of a selection by time.
pub open spec fn spec_decode_by_time(s: Seq<u8>, pos: int) -> Result<(ReadRangeByTime, int), Error> {
    match Date::spec_decode(s, pos) {
        Err(e) => Err(e),
        Ok((date, p)) => match Time::spec_decode(s, p) {
            Err(e) => Err(e),
            Ok((time, p)) => match spec_decode_count(s, p) {
                Err(e) => Err(e),
                Ok((count, p)) => match Tag::spec_decode_expected(
                    s,
                    p,
                    TagNumber::ContextSpecificClosing(READ_RANGE_BY_TIME_TAG),
                ) {
                    Err(e) => Err(e),
                    Ok((_, p)) => Ok((ReadRangeByTime { date, time, count }, p)),
                },
            },
        },
    }
}

impl ReadRangeRequestType {
    /// The wire can hold the selection as it is: a count is no more than
    /// the largest signed number, and a date's year can be written.
    pub open spec fn spec_in_range(self) -> bool {
        match self {
            ReadRangeRequestType::ByPosition(x) => x.count <= 0x7FFF_FFFF,
            ReadRangeRequestType::BySequence(x) => x.count <= 0x7FFF_FFFF,
            ReadRangeRequestType::ByTime(x) => x.count <= 0x7FFF_FFFF && x.date.wf(),
            ReadRangeRequestType::All => true,
        }
    }

    /// The selection on the wire: nothing for all items, else an opening
    /// tag, the fields and the closing tag of the same number.
    pub open spec fn spec_encode(self) -> Seq<u8> {
        match self {
            ReadRangeRequestType::ByPosition(x) => spec_encode_opening_tag(
                READ_RANGE_BY_POSITION_TAG,
            ) + spec_encode_application_unsigned(x.index) + spec_encode_application_signed(
                spec_count_to_signed(x.count),
            ) + spec_encode_closing_tag(READ_RANGE_BY_POSITION_TAG),
            ReadRangeRequestType::BySequence(x) => spec_encode_opening_tag(
                READ_RANGE_BY_SEQUENCE_TAG,
            ) + spec_encode_application_unsigned(x.sequence_num) + spec_encode_application_signed(
                spec_count_to_signed(x.count),
            ) + spec_encode_closing_tag(READ_RANGE_BY_SEQUENCE_TAG),
            ReadRangeRequestType::ByTime(x) => spec_encode_opening_tag(READ_RANGE_BY_TIME_TAG)
                + x.date.spec_encode() + x.time.spec_encode() + spec_encode_application_signed(
                spec_count_to_signed(x.count),
            ) + spec_encode_closing_tag(READ_RANGE_BY_TIME_TAG),
            ReadRangeRequestType::All => seq![],
        }
    }

    pub fn encode(&self, writer: &mut Writer) -> (r: Result<(), Error>)
        requires
            old(writer).wf(),
        ensures
            wrote(r, old(writer), final(writer), self.spec_encode()),
            final(final(writer).buf)@ == final(old(writer).buf)@,
    {
        match self {
            ReadRangeRequestType::ByPosition(x) => {
                encode_opening_tag(writer, READ_RANGE_BY_POSITION_TAG)?;
                encode_application_unsigned(writer, x.index)?;
                encode_application_signed(writer, count_to_signed(x.count))?;
                encode_closing_tag(writer, READ_RANGE_BY_POSITION_TAG)
            },
            ReadRangeRequestType::BySequence(x) => {
                encode_opening_tag(writer, READ_RANGE_BY_SEQUENCE_TAG)?;
                encode_application_unsigned(writer, x.sequence_num)?;
                encode_application_signed(writer, count_to_signed(x.count))?;
                encode_closing_tag(writer, READ_RANGE_BY_SEQUENCE_TAG)
            },
            ReadRangeRequestType::ByTime(x) => {
                encode_opening_tag(writer, READ_RANGE_BY_TIME_TAG)?;
                x.date.encode(writer)?;
                x.time.encode(writer)?;
                encode_application_signed(writer, count_to_signed(x.count))?;
                encode_closing_tag(writer, READ_RANGE_BY_TIME_TAG)
            },
            ReadRangeRequestType::All => {
                proof {
                    lemma_appended_nothing(writer);
                }
                Ok(())
            },
        }
    }

    /// The selection that follows the tag `tag`, which was read up to `pos`:
    /// the tag must open one of the three selections.
    pub open spec fn spec_decode_after(tag: Tag, s: Seq<u8>, pos: int) -> Result<
        (ReadRangeRequestType, int),
        Error,
    > {
        if tag.number == TagNumber::ContextSpecificOpening(READ_RANGE_BY_POSITION_TAG) {
            match spec_decode_number_and_count(s, pos, READ_RANGE_BY_POSITION_TAG) {
                Err(e) => Err(e),
                Ok(((index, count), p)) => Ok(
                    (ReadRangeRequestType::ByPosition(ReadRangeByPosition { index, count }), p),
                ),
            }
        } else if tag.number == TagNumber::ContextSpecificOpening(READ_RANGE_BY_SEQUENCE_TAG) {
            match spec_decode_number_and_count(s, pos, READ_RANGE_BY_SEQUENCE_TAG) {
                Err(e) => Err(e),
                Ok(((sequence_num, count), p)) => Ok(
                    (
                        ReadRangeRequestType::BySequence(
                            ReadRangeBySequence { sequence_num, count },
                        ),
                        p,
                    ),
                ),
            }
        } else if tag.number == TagNumber::ContextSpecificOpening(READ_RANGE_BY_TIME_TAG) {
            match spec_decode_by_time(s, pos) {
                Err(e) => Err(e),
                Ok((x, p)) => Ok((ReadRangeRequestType::ByTime(x), p)),
            }
        } else {
            Err(Error::TagNotSupported)
        }
    }

    /// The selection from `pos` on: all items where the bytes end there.
    pub open spec fn spec_decode(s: Seq<u8>, pos: int) -> Result<(ReadRangeRequestType, int), Error> {
        if pos >= s.len() {
            Ok((ReadRangeRequestType::All, pos))
        } else {
            match Tag::spec_decode(s, pos) {
                Err(e) => Err(e),
                Ok((tag, p)) => Self::spec_decode_after(tag, s, p),
            }
        }
    }
}

impl ReadRange {
    /// The wire can hold the request as it is.
    pub open spec fn spec_in_range(self) -> bool {
        self.object_id.wf() && self.request_type.spec_in_range()
    }

    /// The object, the property, and the array index unless it stands for
    /// the whole array.
    pub open spec fn spec_encode_head(self) -> Seq<u8> {
        spec_encode_context_object_id(READ_RANGE_OBJECT_ID_TAG, self.object_id)
            + spec_encode_context_unsigned(READ_RANGE_PROPERTY_ID_TAG, self.property_id.0) + (
        if self.array_index != BACNET_ARRAY_ALL {
            spec_encode_context_unsigned(READ_RANGE_ARRAY_INDEX_TAG, self.array_index)
        } else {
            seq![]
        })
    }

    /// The request on the wire: the object, the property, the array index
    /// unless it stands for the whole array, and the selection.
    pub open spec fn spec_encode(self) -> Seq<u8> {
        self.spec_encode_head() + self.request_type.spec_encode()
    }

    /// What follows the property: the array index, if there is one, and the
    /// selection. Where the bytes end, the whole array and all items are
    /// asked for.
    pub open spec fn spec_decode_index_and_selection(s: Seq<u8>, pos: int) -> Result<
        ((u32, ReadRangeRequestType), int),
        Error,
    > {
        if pos >= s.len() {
            Ok(((BACNET_ARRAY_ALL, ReadRangeRequestType::All), pos))
        } else {
            match Tag::spec_decode(s, pos) {
                Err(e) => Err(e),
                Ok((tag, p)) => if tag.number == TagNumber::ContextSpecific(
                    READ_RANGE_ARRAY_INDEX_TAG,
                ) {
                    match spec_decode_unsigned(tag.value, s, p) {
                        Err(e) => Err(e),
                        Ok((array_index, p)) => match ReadRangeRequestType::spec_decode(s, p) {
                            Err(e) => Err(e),
                            Ok((request_type, p)) => Ok(((array_index, request_type), p)),
                        },
                    }
                } else {
                    match ReadRangeRequestType::spec_decode_after(tag, s, p) {
                        Err(e) => Err(e),
                        Ok((request_type, p)) => Ok(((BACNET_ARRAY_ALL, request_type), p)),
                    }
                },
            }
        }
    }

    /// The request that the bytes of `s` from `pos` on spell. The request
    /// goes on to the end of `s`: where nothing follows the property (or the
    /// array index), all items are asked for.
    #[verifier::opaque]
    pub open spec fn spec_decode(s: Seq<u8>, pos: int) -> Result<(ReadRange, int), Error> {
        match spec_decode_context_object_id(s, pos, READ_RANGE_OBJECT_ID_TAG) {
            Err(e) => Err(e),
            Ok((object_id, p)) => match spec_decode_context_property_id(
                s,
                p,
                READ_RANGE_PROPERTY_ID_TAG,
            ) {
                Err(e) => Err(e),
                Ok((property_id, p)) => match Self::spec_decode_index_and_selection(s, p) {
                    Err(e) => Err(e),
                    Ok(((array_index, request_type), p)) => Ok(
                        (ReadRange { object_id, property_id, array_index, request_type }, p),
                    ),
                },
            },
        }
    }

    pub fn new(object_id: ObjectId, property_id: PropertyId, request_type: ReadRangeRequestType) -> (r:
        Self)
        ensures
            r == (ReadRange { object_id, property_id, array_index: BACNET_ARRAY_ALL, request_type }),
    {
        Self { object_id, property_id, array_index: BACNET_ARRAY_ALL, request_type }
    }

    /// Reads a request, which goes on to the end of the region.
    pub fn decode(reader: &mut Reader, buf: &[u8]) -> (r: Result<Self, Error>)
        ensures
            read_as(
                r,
                ReadRange::spec_decode(old(reader).region(buf@), old(reader).index as int),
                *old(reader),
                *final(reader),
            ),
    {
        proof {
            reveal(ReadRange::spec_decode);
        }
        let object_id = decode_context_object_id(reader, buf, READ_RANGE_OBJECT_ID_TAG)?;
        let property_id = decode_context_property_id(reader, buf, READ_RANGE_PROPERTY_ID_TAG)?;

        if reader.eof_in(buf) {
            return Ok(
                Self {
                    object_id,
                    property_id,
                    array_index: BACNET_ARRAY_ALL,
                    request_type: ReadRangeRequestType::All,
                },
            );
        }
        let tag = Tag::decode(reader, buf)?;
        if tag.number == TagNumber::ContextSpecific(READ_RANGE_ARRAY_INDEX_TAG) {
            let array_index = decode_unsigned(tag.value, reader, buf)?;
            let request_type = if reader.eof_in(buf) {
                ReadRangeRequestType::All
            } else {
                let tag = Tag::decode(reader, buf)?;
                Self::decode_request_type(tag, reader, buf)?
            };
            Ok(Self { object_id, property_id, array_index, request_type })
        } else {
            let request_type = Self::decode_request_type(tag, reader, buf)?;
            Ok(Self { object_id, property_id, array_index: BACNET_ARRAY_ALL, request_type })
        }
    }

    /// Reads the selection that the opening tag `tag` starts.
    fn decode_request_type(tag: Tag, reader: &mut Reader, buf: &[u8]) -> (r: Result<
        ReadRangeRequestType,
        Error,
    >)
        ensures
            read_as(
                r,
                ReadRangeRequestType::spec_decode_after(
                    tag,
                    old(reader).region(buf@),
                    old(reader).index as int,
                ),
                *old(reader),
                *final(reader),
            ),
    {
        match tag.number {
            TagNumber::ContextSpecificOpening(READ_RANGE_BY_POSITION_TAG) => {
                let (index, count) = Self::decode_number_and_count(
                    reader,
                    buf,
                    READ_RANGE_BY_POSITION_TAG,
                )?;
                Ok(ReadRangeRequestType::ByPosition(ReadRangeByPosition { index, count }))
            },
            TagNumber::ContextSpecificOpening(READ_RANGE_BY_SEQUENCE_TAG) => {
                let (sequence_num, count) = Self::decode_number_and_count(
                    reader,
                    buf,
                    READ_RANGE_BY_SEQUENCE_TAG,
                )?;
                Ok(ReadRangeRequestType::BySequence(ReadRangeBySequence { sequence_num, count }))
            },
            TagNumber::ContextSpecificOpening(READ_RANGE_BY_TIME_TAG) => {
                let date = Date::decode(reader, buf)?;
                let time = Time::decode(reader, buf)?;
                let count = Self::decode_count(reader, buf)?;
                Tag::decode_expected(
                    reader,
                    buf,
                    TagNumber::ContextSpecificClosing(READ_RANGE_BY_TIME_TAG),
                )?;
                Ok(ReadRangeRequestType::ByTime(ReadRangeByTime { date, time, count }))
            },
            _ => Err(Error::TagNotSupported),
        }
    }

    /// Reads an unsigned number, a count and the closing tag `closing`.
    fn decode_number_and_count(reader: &mut Reader, buf: &[u8], closing: u8) -> (r: Result<
        (u32, u32),
        Error,
    >)
        ensures
            read_as(
                r,
                spec_decode_number_and_count(
                    old(reader).region(buf@),
                    old(reader).index as int,
                    closing,
                ),
                *old(reader),
                *final(reader),
            ),
    {
        let number_tag = Tag::decode_expected(
            reader,
            buf,
            TagNumber::Application(ApplicationTagNumber::UnsignedInt),
        )?;
        let number = decode_unsigned(number_tag.value, reader, buf)?;
        let count = Self::decode_count(reader, buf)?;
        Tag::decode_expected(reader, buf, TagNumber::ContextSpecificClosing(closing))?;
        Ok((number, count))
    }

    /// Reads a count, which may stand as an unsigned or as a signed number
    /// and may not be negative.
    fn decode_count(reader: &mut Reader, buf: &[u8]) -> (r: Result<u32, Error>)
        ensures
            read_as(
                r,
                spec_decode_count(old(reader).region(buf@), old(reader).index as int),
                *old(reader),
                *final(reader),
            ),
    {
        let count_tag = Tag::decode(reader, buf)?;
        match count_tag.number {
            TagNumber::Application(ApplicationTagNumber::UnsignedInt) => decode_unsigned(
                count_tag.value,
                reader,
                buf,
            ),
            TagNumber::Application(ApplicationTagNumber::SignedInt) => {
                let count = decode_signed(count_tag.value, reader, buf)?;
                if count < 0 {
                    return Err(Error::InvalidValue);
                }
                Ok(count as u32)
            },
            _ => Err(Error::TagNotSupported),
        }
    }

    pub fn encode(&self, writer: &mut Writer) -> (r: Result<(), Error>)
        requires
            old(writer).wf(),
        ensures
            wrote(r, old(writer), final(writer), self.spec_encode()),
            final(final(writer).buf)@ == final(old(writer).buf)@,
    {
        // object_id
        encode_context_object_id(writer, READ_RANGE_OBJECT_ID_TAG, &self.object_id)?;

        // property_id
        encode_context_enumerated(writer, READ_RANGE_PROPERTY_ID_TAG, &self.property_id)?;

        // array_index
        if self.array_index != BACNET_ARRAY_ALL {
            encode_context_unsigned(writer, READ_RANGE_ARRAY_INDEX_TAG, self.array_index)?;
        } else {
            proof {
                lemma_appended_nothing(writer);
            }
        }

        self.request_type.encode(writer)
    }
}

/// The kinds of value that an item of a log may hold, by their context tag.
#[derive(Debug, Clone, Copy, PartialEq, Eq, Structural)]
pub enum ReadRangeValueType {
    Status,
    Bool,
    Real,
    Enum,
    Unsigned,
    Signed,
    Bits,
    Null,
    Error,
    Delta,
    Any,
}

impl ReadRangeValueType {
    /// The number of the context tag that announces a value of this kind.
    pub open spec fn spec_code(self) -> u8 {
        match self {
            Self::Status => 0,
            Self::Bool => 1,
            Self::Real => 2,
            Self::Enum => 3,
            Self::Unsigned => 4,
            Self::Signed => 5,
            Self::Bits => 6,
            Self::Null => 7,
            Self::Error => 8,
            Self::Delta => 9,
            Self::Any => 10,
        }
    }

    /// The kind with the tag number `value`, if there is one.
    pub open spec fn spec_from_code(value: u8) -> Option<Self> {
        match value {
            0 => Some(Self::Status),
            1 => Some(Self::Bool),
            2 => Some(Self::Real),
            3 => Some(Self::Enum),
            4 => Some(Self::Unsigned),
            5 => Some(Self::Signed),
            6 => Some(Self::Bits),
            7 => Some(Self::Null),
            8 => Some(Self::Error),
            9 => Some(Self::Delta),
            10 => Some(Self::Any),
            _ => None,
        }
    }

    #[verifier::when_used_as_spec(spec_code)]
    pub fn code(self) -> (r: u8)
        ensures
            r == self.spec_code(),
    {
        match self {
            Self::Status => 0,
            Self::Bool => 1,
            Self::Real => 2,
            Self::Enum => 3,
            Self::Unsigned => 4,
            Self::Signed => 5,
            Self::Bits => 6,
            Self::Null => 7,
            Self::Error => 8,
            Self::Delta => 9,
            Self::Any => 10,
        }
    }

    /// The kind with the tag number `value`; a number above 10 names none.
    pub fn from_code(value: u8) -> (r: Option<Self>)
        ensures
            r == Self::spec_from_code(value),
            r matches Some(kind) ==> kind.spec_code() == value,
            r is None <==> value > 10,
    {
        match value {
            0 => Some(Self::Status),
            1 => Some(Self::Bool),
            2 => Some(Self::Real),
            3 => Some(Self::Enum),
            4 => Some(Self::Unsigned),
            5 => Some(Self::Signed),
            6 => Some(Self::Bits),
            7 => Some(Self::Null),
            8 => Some(Self::Error),
            9 => Some(Self::Delta),
            10 => Some(Self::Any),
            _ => None,
        }
    }
}

/// The value of one item of a log. A real number is held as the 32 bits
/// of its IEEE 754 form, in the order in which a number holds them.
#[derive(Debug, Clone, Copy, PartialEq, Eq, Structural)]
pub enum ReadRangeValue {
    Status,
    Bool(bool),
    Real(u32),
    Enum(u32),
    Unsigned(u32),
    Signed(i32),
    Bits,
    Null,
    Error,
    Delta,
    Any,
}

/// One record of a log: when it was taken, its value, and the status flags.
#[derive(Debug, Clone, Copy)]
pub struct ReadRangeItem<'a> {
    pub date: Date,
    pub time: Time,
    pub value: ReadRangeValue,
    pub status_flags: BitString<'a>,
}

/// What a `ReadRangeItem` holds.
pub struct ReadRangeItemView {
    pub date: Date,
    pub time: Time,
    pub value: ReadRangeValue,
    pub status_flags: BitStringView,
}

impl<'a> View for ReadRangeItem<'a> {
    type V = ReadRangeItemView;

    open spec fn view(&self) -> ReadRangeItemView {
        ReadRangeItemView {
            date: self.date,
            time: self.time,
            value: self.value,
            status_flags: self.status_flags@,
        }
    }
}

pub const READ_RANGE_ITEM_DATE_TIME_TAG: u8 = 0;

pub const READ_RANGE_ITEM_VALUE_TAG: u8 = 1;

pub const READ_RANGE_ITEM_STATUS_FLAGS_TAG: u8 = 2;

/// A date and a time, each behind its application tag, in the bracket 0.
pub open spec fn spec_encode_date_time(date: Date, time: Time) -> Seq<u8> {
    spec_encode_opening_tag(READ_RANGE_ITEM_DATE_TIME_TAG) + Tag {
        number: TagNumber::Application(ApplicationTagNumber::Date),
        value: DATE_LEN,
    }.spec_encode() + date.spec_encode() + Tag {
        number: TagNumber::Application(ApplicationTagNumber::Time),
        value: TIME_LEN,
    }.spec_encode() + time.spec_encode() + spec_encode_closing_tag(READ_RANGE_ITEM_DATE_TIME_TAG)
}

/// The four bytes of a real number behind the context tag of its kind, in the bracket 1.
pub open spec fn spec_encode_real_value(bits: u32) -> Seq<u8> {
    spec_encode_opening_tag(READ_RANGE_ITEM_VALUE_TAG) + Tag {
        number: TagNumber::ContextSpecific(ReadRangeValueType::Real.spec_code()),
        value: 4,
    }.spec_encode() + spec_u32_be(bits) + spec_encode_closing_tag(READ_RANGE_ITEM_VALUE_TAG)
}

/// The date and the time in the bracket 0.
#[verifier::opaque]
pub open spec fn spec_decode_date_time(s: Seq<u8>, pos: int) -> Result<((Date, Time), int), Error> {
    match Tag::spec_decode_expected(
        s,
        pos,
        TagNumber::ContextSpecificOpening(READ_RANGE_ITEM_DATE_TIME_TAG),
    ) {
        Err(e) => Err(e),
        Ok((_, p)) => match Tag::spec_decode_expected(
            s,
            p,
            TagNumber::Application(ApplicationTagNumber::Date),
        ) {
            Err(e) => Err(e),
            Ok((_, p)) => match Date::spec_decode(s, p) {
                Err(e) => Err(e),
                Ok((date, p)) => match Tag::spec_decode_expected(
                    s,
                    p,
                    TagNumber::Application(ApplicationTagNumber::Time),
                ) {
                    Err(e) => Err(e),
                    Ok((_, p)) => match Time::spec_decode(s, p) {
                        Err(e) => Err(e),
                        Ok((time, p)) => match Tag::spec_decode_expected(
                            s,
                            p,
                            TagNumber::ContextSpecificClosing(READ_RANGE_ITEM_DATE_TIME_TAG),
                        ) {
                            Err(e) => Err(e),
                            Ok((_, p)) => Ok(((date, time), p)),
                        },
                    },
                },
            },
        },
    }
}

/// The value in the bracket 1: a context tag names its kind, and of the
/// kinds only the real number is read.
#[verifier::opaque]
pub open spec fn spec_decode_value(s: Seq<u8>, pos: int) -> Result<(ReadRangeValue, int), Error> {
    match Tag::spec_decode_expected(
        s,
        pos,
        TagNumber::ContextSpecificOpening(READ_RANGE_ITEM_VALUE_TAG),
    ) {
        Err(e) => Err(e),
        Ok((_, p)) => match Tag::spec_decode(s, p) {
            Err(e) => Err(e),
            Ok((tag, p)) => match tag.number {
                TagNumber::ContextSpecific(n) => match ReadRangeValueType::spec_from_code(n) {
                    None => Err(Error::InvalidVariant),
                    Some(ReadRangeValueType::Real) => match spec_read_bytes(s, p, 4) {
                        Err(e) => Err(e),
                        Ok((bytes, p)) => match Tag::spec_decode_expected(
                            s,
                            p,
                            TagNumber::ContextSpecificClosing(READ_RANGE_ITEM_VALUE_TAG),
                        ) {
                            Err(e) => Err(e),
                            Ok((_, p)) => Ok((ReadRangeValue::Real(spec_u32_from_be(bytes)), p)),
                        },
                    },
                    Some(_) => Err(Error::Unimplemented),
                },
                _ => Err(Error::TagNotSupported),
            },
        },
    }
}

impl ReadRangeItemView {
    /// The status flags fit a tag's length.
    pub open spec fn wf(self) -> bool {
        self.status_flags.wf()
    }

    /// The wire can hold the item as it is: it holds a real number, its
    /// date's year can be written, and its status flags fit a tag's length.
    pub open spec fn spec_in_range(self) -> bool {
        self.wf() && self.spec_encodable() && self.date.wf()
    }

    /// Of the kinds of value only the real number has a wire form here.
    pub open spec fn spec_encodable(self) -> bool {
        self.value is Real
    }

    /// The item on the wire, for one that holds a real number.
    pub open spec fn spec_encode(self) -> Seq<u8> {
        spec_encode_date_time(self.date, self.time) + (match self.value {
            ReadRangeValue::Real(bits) => spec_encode_real_value(bits),
            _ => seq![],
        }) + self.status_flags.spec_encode_context(READ_RANGE_ITEM_STATUS_FLAGS_TAG)
    }

    /// The item that the bytes of `s` from `pos` on spell.
    #[verifier::opaque]
    pub open spec fn spec_decode(s: Seq<u8>, pos: int) -> Result<(ReadRangeItemView, int), Error> {
        match spec_decode_date_time(s, pos) {
            Err(e) => Err(e),
            Ok(((date, time), p)) => match spec_decode_value(s, p) {
                Err(e) => Err(e),
                Ok((value, p)) => match Tag::spec_decode_expected(
                    s,
                    p,
                    TagNumber::ContextSpecific(READ_RANGE_ITEM_STATUS_FLAGS_TAG),
                ) {
                    Err(e) => Err(e),
                    Ok((tag, p)) => match BitStringView::spec_decode(tag.value, s, p) {
                        Err(e) => Err(e),
                        Ok((status_flags, p)) => Ok(
                            (ReadRangeItemView { date, time, value, status_flags }, p),
                        ),
                    },
                },
            },
        }
    }
}

impl<'a> ReadRangeItem<'a> {
    fn encode_date_time(&self, writer: &mut Writer) -> (r: Result<(), Error>)
        requires
            old(writer).wf(),
        ensures
            wrote(r, old(writer), final(writer), spec_encode_date_time(self.date, self.time)),
            final(final(writer).buf)@ == final(old(writer).buf)@,
    {
        encode_opening_tag(writer, READ_RANGE_ITEM_DATE_TIME_TAG)?;
        Tag::new(TagNumber::Application(ApplicationTagNumber::Date), DATE_LEN).encode(writer)?;
        self.date.encode(writer)?;
        Tag::new(TagNumber::Application(ApplicationTagNumber::Time), TIME_LEN).encode(writer)?;
        self.time.encode(writer)?;
        encode_closing_tag(writer, READ_RANGE_ITEM_DATE_TIME_TAG)
    }

    fn encode_real_value(bits: u32, writer: &mut Writer) -> (r: Result<(), Error>)
        requires
            old(writer).wf(),
        ensures
            wrote(r, old(writer), final(writer), spec_encode_real_value(bits)),
            final(final(writer).buf)@ == final(old(writer).buf)@,
    {
        encode_opening_tag(writer, READ_RANGE_ITEM_VALUE_TAG)?;
        Tag::new(TagNumber::ContextSpecific(ReadRangeValueType::Real.code()), 4).encode(writer)?;
        writer.extend_from_slice(u32_to_be(bits).as_slice())?;
        encode_closing_tag(writer, READ_RANGE_ITEM_VALUE_TAG)
    }

    /// Writes the item, if it holds a real number.
    pub fn encode(&self, writer: &mut Writer) -> (r: Result<(), Error>)
        requires
            old(writer).wf(),
            self@.wf(),
        ensures
            wrote_if(r, old(writer), final(writer), self@.spec_encodable(), self@.spec_encode()),
            final(final(writer).buf)@ == final(old(writer).buf)@,
    {
        match self.value {
            ReadRangeValue::Real(bits) => {
                self.encode_date_time(writer)?;
                Self::encode_real_value(bits, writer)?;
                self.status_flags.encode_context(READ_RANGE_ITEM_STATUS_FLAGS_TAG, writer)
            },
            _ => {
                proof {
                    lemma_appended_nothing(writer);
                }
                Err(Error::Unimplemented)
            },
        }
    }

    fn decode_date_time(reader: &mut Reader, buf: &[u8]) -> (r: Result<(Date, Time), Error>)
        ensures
            read_as(
                r,
                spec_decode_date_time(old(reader).region(buf@), old(reader).index as int),
                *old(reader),
                *final(reader),
            ),
    {
        proof {
            reveal(spec_decode_date_time);
        }
        Tag::decode_expected(
            reader,
            buf,
            TagNumber::ContextSpecificOpening(READ_RANGE_ITEM_DATE_TIME_TAG),
        )?;
        Tag::decode_expected(reader, buf, TagNumber::Application(ApplicationTagNumber::Date))?;
        let date = Date::decode(reader, buf)?;
        Tag::decode_expected(reader, buf, TagNumber::Application(ApplicationTagNumber::Time))?;
        let time = Time::decode(reader, buf)?;
        Tag::decode_expected(
            reader,
            buf,
            TagNumber::ContextSpecificClosing(READ_RANGE_ITEM_DATE_TIME_TAG),
        )?;
        Ok((date, time))
    }

    fn decode_value(reader: &mut Reader, buf: &[u8]) -> (r: Result<ReadRangeValue, Error>)
        ensures
            read_as(
                r,
                spec_decode_value(old(reader).region(buf@), old(reader).index as int),
                *old(reader),
                *final(reader),
            ),
    {
        proof {
            reveal(spec_decode_value);
        }
        Tag::decode_expected(
            reader,
            buf,
            TagNumber::ContextSpecificOpening(READ_RANGE_ITEM_VALUE_TAG),
        )?;
        let tag = Tag::decode(reader, buf)?;
        let value_type = match tag.number {
            TagNumber::ContextSpecific(tag_number) => match ReadRangeValueType::from_code(
                tag_number,
            ) {
                Some(value_type) => value_type,
                None => {
                    return Err(Error::InvalidVariant);
                },
            },
            _ => {
                return Err(Error::TagNotSupported);
            },
        };
        let value = match value_type {
            ReadRangeValueType::Real => {
                let bits = u32_from_be(reader.read_bytes::<4>(buf)?);
                ReadRangeValue::Real(bits)
            },
            _ => {
                return Err(Error::Unimplemented);
            },
        };
        Tag::decode_expected(
            reader,
            buf,
            TagNumber::ContextSpecificClosing(READ_RANGE_ITEM_VALUE_TAG),
        )?;
        Ok(value)
    }

    /// Reads one item.
    pub fn decode(reader: &mut Reader, buf: &'a [u8]) -> (r: Result<Self, Error>)
        ensures
            read_as_view(
                r,
                ReadRangeItemView::spec_decode(old(reader).region(buf@), old(reader).index as int),
                *old(reader),
                *final(reader),
            ),
    {
        proof {
            reveal(ReadRangeItemView::spec_decode);
        }
        let (date, time) = Self::decode_date_time(reader, buf)?;
        let value = Self::decode_value(reader, buf)?;
        let tag = Tag::decode_expected(
            reader,
            buf,
            TagNumber::ContextSpecific(READ_RANGE_ITEM_STATUS_FLAGS_TAG),
        )?;
        let status_flags = BitString::decode(tag.value, reader, buf)?;
        Ok(ReadRangeItem { date, time, value, status_flags })
    }
}

/// The items of a log, held in one of two ways: as a list of items that
/// is to be written (`items`), or as the region of a decoded buffer that
/// holds them, from which they are pulled one at a time and which is never
/// read as a whole.
#[derive(Debug, Clone)]
pub struct ReadRangeItems<'a> {
    pub items: &'a [ReadRangeItem<'a>],
    pub reader: Reader,
    pub buf: &'a [u8],
}

/// What a `ReadRangeItems` holds: the items to write, the region to pull
/// from and the position in it of the next pull.
pub struct ReadRangeItemsView {
    pub items: Seq<ReadRangeItemView>,
    pub region: Seq<u8>,
    pub position: int,
}

impl<'a> View for ReadRangeItems<'a> {
    type V = ReadRangeItemsView;

    open spec fn view(&self) -> ReadRangeItemsView {
        ReadRangeItemsView {
            items: self.items@.map_values(|item: ReadRangeItem<'a>| item@),
            region: self.reader.region(self.buf@),
            position: self.reader.index as int,
        }
    }
}

/// The items on the wire, one behind the other.
pub open spec fn spec_encode_items(items: Seq<ReadRangeItemView>) -> Seq<u8>
    decreases items.len(),
{
    if items.len() == 0 {
        seq![]
    } else {
        spec_encode_items(items.drop_last()) + items.last().spec_encode()
    }
}

/// Every item holds a real number.
pub open spec fn spec_items_encodable(items: Seq<ReadRangeItemView>) -> bool {
    forall|i: int| 0 <= i < items.len() ==> (#[trigger] items[i]).spec_encodable()
}

/// The wire can hold every item as it is.
pub open spec fn spec_items_in_range(items: Seq<ReadRangeItemView>) -> bool {
    forall|i: int| 0 <= i < items.len() ==> (#[trigger] items[i]).spec_in_range()
}

/// The status flags of every item fit a tag's length.
pub open spec fn spec_items_wf(items: Seq<ReadRangeItemView>) -> bool {
    forall|i: int| 0 <= i < items.len() ==> (#[trigger] items[i]).wf()
}

/// What one pull at `pos` gives: nothing where the region ends there, else
/// the item that stands there or the reason why none can be read.
pub open spec fn spec_pull(s: Seq<u8>, pos: int) -> Option<Result<(ReadRangeItemView, int), Error>> {
    if pos >= s.len() {
        None
    } else {
        Some(ReadRangeItemView::spec_decode(s, pos))
    }
}

/// The position behind the item that begins at `pos`, found without
/// reading the item: an item is the bracket 0, the bracket 1 and a value
/// behind the context tag 2, and the walk steps over the three.
pub open spec fn spec_step_over_item(s: Seq<u8>, pos: int) -> Result<int, Error> {
    match spec_tagged_body(s, pos, READ_RANGE_ITEM_DATE_TIME_TAG) {
        Err(e) => Err(e),
        Ok((_, p)) => match spec_tagged_body(s, p, READ_RANGE_ITEM_VALUE_TAG) {
            Err(e) => Err(e),
            Ok((_, p)) => match Tag::spec_decode_expected(
                s,
                p,
                TagNumber::ContextSpecific(READ_RANGE_ITEM_STATUS_FLAGS_TAG),
            ) {
                Err(e) => Err(e),
                Ok((tag, p)) => if p + tag.value > s.len() {
                    Err(Error::BufferBounds)
                } else {
                    Ok(p + tag.value)
                },
            },
        },
    }
}

/// Where the next pull begins after a pull at `pos`: where nothing was
/// left, at the same place; behind the item that was read; and behind the
/// item that could not be read, where its brackets show where it ends, else
/// at the end of the region.
pub open spec fn spec_pull_position(s: Seq<u8>, pos: int) -> int {
    match spec_pull(s, pos) {
        None => pos,
        Some(Ok((_, p))) => p,
        Some(Err(_)) => match spec_step_over_item(s, pos) {
            Ok(p) => p,
            Err(_) => s.len() as int,
        },
    }
}

/// The first items take no more bytes than all of them.
pub proof fn lemma_encode_items_prefix(items: Seq<ReadRangeItemView>, k: int)
    requires
        0 <= k <= items.len(),
    ensures
        spec_encode_items(items.take(k)).len() <= spec_encode_items(items).len(),
        k < items.len() ==> spec_encode_items(items.take(k + 1)) == spec_encode_items(items.take(k))
            + items[k].spec_encode(),
    decreases items.len() - k,
{
    if k < items.len() {
        assert(items.take(k + 1).drop_last() =~= items.take(k));
        assert(items.take(k + 1).last() == items[k]);
        lemma_encode_items_prefix(items, k + 1);
    } else {
        assert(items.take(k) =~= items);
    }
}

impl<'a> ReadRangeItems<'a> {
    /// The items that `items` lists, to be written.
    pub open spec fn spec_items(&self) -> Seq<ReadRangeItemView> {
        self@.items
    }

    /// Items to pull from `buf`, which holds them and nothing else.
    pub fn new_from_buf(buf: &'a [u8]) -> (r: Self)
        ensures
            r@ == (ReadRangeItemsView { items: Seq::empty(), region: buf@, position: 0 }),
    {
        let reader = Reader { index: 0, end: buf.len() };
        let r = Self { items: &[], reader, buf };
        assert(r@.items =~= Seq::empty());
        assert(r@.region =~= buf@);
        r
    }

    /// Items to write.
    pub fn new(items: &'a [ReadRangeItem<'a>]) -> (r: Self)
        ensures
            r@ == (ReadRangeItemsView {
                items: items@.map_values(|item: ReadRangeItem<'a>| item@),
                region: Seq::empty(),
                position: 0,
            }),
            r.items@ == items@,
    {
        let r = Self { items, reader: Reader::default(), buf: &[] };
        assert(r@.region =~= Seq::empty());
        r
    }

    /// Whether every item to write holds a real number.
    pub fn encodable(&self) -> (r: bool)
        ensures
            r == spec_items_encodable(self@.items),
    {
        let mut i: usize = 0;
        while i < self.items.len()
            invariant
                i <= self.items@.len(),
                forall|j: int| 0 <= j < i ==> (#[trigger] self@.items[j]).spec_encodable(),
            decreases self.items@.len() - i,
        {
            match self.items[i].value {
                ReadRangeValue::Real(_) => {},
                _ => {
                    assert(!self@.items[i as int].spec_encodable());
                    return false;
                },
            }
            i += 1;
        }
        true
    }

    /// Writes the items of the list, one behind the other. Where one of
    /// them holds another value than a real number, nothing is written.
    pub fn encode(&self, writer: &mut Writer) -> (r: Result<(), Error>)
        requires
            old(writer).wf(),
            spec_items_wf(self@.items),
        ensures
            wrote_if(
                r,
                old(writer),
                final(writer),
                spec_items_encodable(self@.items),
                spec_encode_items(self@.items),
            ),
            final(final(writer).buf)@ == final(old(writer).buf)@,
    {
        if !self.encodable() {
            proof {
                lemma_appended_nothing(writer);
            }
            return Err(Error::Unimplemented);
        }
        let ghost items = self@.items;
        let mut i: usize = 0;
        proof {
            lemma_appended_nothing(writer);
            assert(items.take(0) =~= Seq::empty());
        }
        while i < self.items.len()
            invariant
                i <= self.items@.len(),
                items == self@.items,
                items.len() == self.items@.len(),
                spec_items_wf(items),
                spec_items_encodable(items),
                old(writer).wf(),
                writer.extends(old(writer)),
                writer.appended(old(writer), spec_encode_items(items.take(i as int))),
                final(writer.buf)@ == final(old(writer).buf)@,
            decreases self.items@.len() - i,
        {
            proof {
                lemma_encode_items_prefix(items, i as int);
                lemma_encode_items_prefix(items, i + 1);
                assert(items[i as int] == self.items@[i as int]@);
                assert(items[i as int].wf());
                assert(items[i as int].spec_encodable());
            }
            self.items[i].encode(writer)?;
            i += 1;
        }
        proof {
            assert(items.take(i as int) =~= items);
        }
        Ok(())
    }

    /// Moves the cursor behind the item at which it stands, without
    /// reading the item.
    fn step_over_item(reader: &mut Reader, buf: &'a [u8]) -> (r: Result<(), Error>)
        ensures
            final(reader).end == old(reader).end,
            moved_on(*old(reader), *final(reader)),
            match spec_step_over_item(old(reader).region(buf@), old(reader).index as int) {
                Err(e) => r == Err::<(), Error>(e),
                Ok(p) => r is Ok && final(reader).index == p,
            },
    {
        get_tagged_body_for_tag(reader, buf, READ_RANGE_ITEM_DATE_TIME_TAG)?;
        get_tagged_body_for_tag(reader, buf, READ_RANGE_ITEM_VALUE_TAG)?;
        let tag = Tag::decode_expected(
            reader,
            buf,
            TagNumber::ContextSpecific(READ_RANGE_ITEM_STATUS_FLAGS_TAG),
        )?;
        let limit: usize = if reader.end <= buf.len() {
            reader.end
        } else {
            buf.len()
        };
        if reader.index > limit || tag.value as usize > limit - reader.index {
            return Err(Error::BufferBounds);
        }
        reader.index += tag.value as usize;
        Ok(())
    }

    /// Pulls the next item from the region. Gives `None` once the region is
    /// used up. Where no item can be read, the reason comes back, and the
    /// caller may go on or stop: the next pull begins behind the item that
    /// could not be read, where its brackets show where it ends; where they
    /// do not, the sequence ends, and the next pull gives `None`. Every pull
    /// that gives something moves on, so that pulling comes to an end.
    pub fn next(&mut self) -> (r: Option<Result<ReadRangeItem<'a>, Error>>)
        ensures
            final(self)@.region == old(self)@.region,
            final(self)@.items == old(self)@.items,
            final(self)@.position == spec_pull_position(old(self)@.region, old(self)@.position),
            r is Some ==> old(self)@.position < final(self)@.position <= old(self)@.region.len(),
            match spec_pull(old(self)@.region, old(self)@.position) {
                None => r is None,
                Some(Ok((item, p))) => r is Some && r->Some_0 is Ok && r->Some_0->Ok_0@ == item,
                Some(Err(e)) => r == Some(Err::<ReadRangeItem<'a>, Error>(e)),
            },
    {
        if self.reader.eof_in(self.buf) {
            return None;
        }
        let start: Reader = self.reader;
        proof {
            lemma_item_decode_bounds(start.region(self.buf@), start.index as int);
            lemma_step_over_item_bounds(start.region(self.buf@), start.index as int);
        }
        let item = ReadRangeItem::decode(&mut self.reader, self.buf);
        if item.is_err() {
            let mut walker: Reader = start;
            match Self::step_over_item(&mut walker, self.buf) {
                Ok(()) => {
                    self.reader.index = walker.index;
                },
                Err(_) => {
                    self.reader.index = if start.end <= self.buf.len() {
                        start.end
                    } else {
                        self.buf.len()
                    };
                },
            }
        }
        Some(item)
    }
}

/// An item that was read lies in the bytes, behind the place where it began.
pub proof fn lemma_item_decode_bounds(s: Seq<u8>, pos: int)
    requires
        0 <= pos,
    ensures
        ReadRangeItemView::spec_decode(s, pos) matches Ok((_, p)) ==> pos < p <= s.len(),
{
    reveal(ReadRangeItemView::spec_decode);
    reveal(spec_decode_date_time);
    reveal(spec_decode_value);
    if ReadRangeItemView::spec_decode(s, pos) is Ok {
        // the date and the time
        lemma_tag_decode_bounds(s, pos);
        let (_, p) = Tag::spec_decode(s, pos)->Ok_0;
        lemma_tag_decode_bounds(s, p);
        let (_, p) = Tag::spec_decode(s, p)->Ok_0;
        let p = p + 4;
        lemma_tag_decode_bounds(s, p);
        let (_, p) = Tag::spec_decode(s, p)->Ok_0;
        let p = p + 4;
        lemma_tag_decode_bounds(s, p);
        let (_, p) = Tag::spec_decode(s, p)->Ok_0;
        // the value
        lemma_tag_decode_bounds(s, p);
        let (_, p) = Tag::spec_decode(s, p)->Ok_0;
        lemma_tag_decode_bounds(s, p);
        let (_, p) = Tag::spec_decode(s, p)->Ok_0;
        let p = p + 4;
        lemma_tag_decode_bounds(s, p);
        let (_, p) = Tag::spec_decode(s, p)->Ok_0;
        // the status flags
        lemma_tag_decode_bounds(s, p);
    }
}

/// An item that was stepped over lies in the bytes, behind the place where
/// it began.
pub proof fn lemma_step_over_item_bounds(s: Seq<u8>, pos: int)
    requires
        0 <= pos,
    ensures
        spec_step_over_item(s, pos) matches Ok(p) ==> pos < p <= s.len(),
{
    lemma_tag_decode_bounds(s, pos);
    match Tag::spec_decode(s, pos) {
        Ok((_, start)) => {
            lemma_find_closing_bounds(s, start, READ_RANGE_ITEM_DATE_TIME_TAG, 0);
            match spec_tagged_body(s, pos, READ_RANGE_ITEM_DATE_TIME_TAG) {
                Ok((_, p)) => {
                    lemma_tag_decode_bounds(s, p);
                    match Tag::spec_decode(s, p) {
                        Ok((_, start)) => {
                            lemma_find_closing_bounds(s, start, READ_RANGE_ITEM_VALUE_TAG, 0);
                            match spec_tagged_body(s, p, READ_RANGE_ITEM_VALUE_TAG) {
                                Ok((_, p)) => {
                                    lemma_tag_decode_bounds(s, p);
                                },
                                Err(_) => {},
                            }
                        },
                        Err(_) => {},
                    }
                },
                Err(_) => {},
            }
        },
        Err(_) => {},
    }
}

/// The acknowledgement of a `ReadRange` request.
#[derive(Debug, Clone)]
pub struct ReadRangeAck<'a> {
    pub object_id: ObjectId,
    pub property_id: PropertyId,
    pub array_index: u32,
    pub result_flags: BitString<'a>,
    pub item_count: usize,
    pub item_data: ReadRangeItems<'a>,
}

/// What a `ReadRangeAck` holds.
pub struct ReadRangeAckView {
    pub object_id: ObjectId,
    pub property_id: PropertyId,
    pub array_index: u32,
    pub result_flags: BitStringView,
    pub item_count: usize,
    pub item_data: ReadRangeItemsView,
}

impl<'a> View for ReadRangeAck<'a> {
    type V = ReadRangeAckView;

    open spec fn view(&self) -> ReadRangeAckView {
        ReadRangeAckView {
            object_id: self.object_id,
            property_id: self.property_id,
            array_index: self.array_index,
            result_flags: self.result_flags@,
            item_count: self.item_count,
            item_data: self.item_data@,
        }
    }
}

pub const READ_RANGE_ACK_RESULT_FLAGS_TAG: u8 = 3;

pub const READ_RANGE_ACK_ITEM_COUNT_TAG: u8 = 4;

pub const READ_RANGE_ACK_ITEM_DATA_TAG: u8 = 5;

/// The number of the service on the wire.
pub const READ_RANGE_SERVICE_CHOICE: u8 = 26;

/// The array index that may follow the property, else the one that stands
/// for the whole array; with it comes the tag that stands behind it.
pub open spec fn spec_decode_optional_array_index(s: Seq<u8>, pos: int) -> Result<
    ((u32, Tag), int),
    Error,
> {
    match Tag::spec_decode(s, pos) {
        Err(e) => Err(e),
        Ok((tag, p)) => if tag.number == TagNumber::ContextSpecific(READ_RANGE_ARRAY_INDEX_TAG) {
            match spec_decode_unsigned(tag.value, s, p) {
                Err(e) => Err(e),
                Ok((array_index, p)) => match Tag::spec_decode(s, p) {
                    Err(e) => Err(e),
                    Ok((tag, p)) => Ok(((array_index, tag), p)),
                },
            }
        } else {
            Ok(((BACNET_ARRAY_ALL, tag), p))
        },
    }
}

/// The region of the items: empty where the bytes end at `pos`, else what
/// the bracket 5 holds.
pub open spec fn spec_decode_item_data(s: Seq<u8>, pos: int) -> Result<(Seq<u8>, int), Error> {
    if pos >= s.len() {
        Ok((Seq::empty(), pos))
    } else {
        match spec_tagged_body(s, pos, READ_RANGE_ACK_ITEM_DATA_TAG) {
            Err(e) => Err(e),
            Ok(((start, end), p)) => Ok((s.subrange(start, end), p)),
        }
    }
}

impl ReadRangeAckView {
    /// The flags fit a tag's length, and so do those of the items.
    pub open spec fn wf(self) -> bool {
        self.result_flags.wf() && spec_items_wf(self.item_data.items)
    }

    /// Every item holds a real number.
    pub open spec fn spec_encodable(self) -> bool {
        spec_items_encodable(self.item_data.items)
    }

    /// The wire can hold the acknowledgement as it is: the identifier of
    /// the object fits its bits, the number of items fits 32 bits, the
    /// flags fit a tag's length, and the wire can hold every item.
    pub open spec fn spec_in_range(self) -> bool {
        &&& self.object_id.wf()
        &&& self.result_flags.wf()
        &&& self.item_count <= u32::MAX
        &&& spec_items_in_range(self.item_data.items)
    }

    /// The number of the service, the object, the property, and the array
    /// index unless it stands for the whole array.
    pub open spec fn spec_encode_head(self) -> Seq<u8> {
        seq![READ_RANGE_SERVICE_CHOICE] + spec_encode_context_object_id(
            READ_RANGE_OBJECT_ID_TAG,
            self.object_id,
        ) + spec_encode_context_unsigned(READ_RANGE_PROPERTY_ID_TAG, self.property_id.0) + (
        if self.array_index != BACNET_ARRAY_ALL {
            spec_encode_context_unsigned(READ_RANGE_ARRAY_INDEX_TAG, self.array_index)
        } else {
            seq![]
        })
    }

    /// The number of items as it goes on the wire: its low 32 bits.
    pub open spec fn spec_item_count(self) -> u32 {
        (self.item_count as int % 0x1_0000_0000) as u32
    }

    /// The acknowledgement on the wire; the items to write are those of the list.
    pub open spec fn spec_encode(self) -> Seq<u8> {
        self.spec_encode_head() + self.result_flags.spec_encode_context(
            READ_RANGE_ACK_RESULT_FLAGS_TAG,
        ) + spec_encode_context_unsigned(READ_RANGE_ACK_ITEM_COUNT_TAG, self.spec_item_count())
            + spec_encode_opening_tag(READ_RANGE_ACK_ITEM_DATA_TAG) + spec_encode_items(
            self.item_data.items,
        ) + spec_encode_closing_tag(READ_RANGE_ACK_ITEM_DATA_TAG)
    }

    /// The fields in front of the items: the object, the property, the
    /// array index (or the one that stands for the whole array), the result
    /// flags and the number of items.
    pub open spec fn spec_decode_fields(s: Seq<u8>, pos: int) -> Result<
        ((ObjectId, PropertyId, u32, BitStringView, u32), int),
        Error,
    > {
        match spec_decode_context_object_id(s, pos, READ_RANGE_OBJECT_ID_TAG) {
            Err(e) => Err(e),
            Ok((object_id, p)) => match spec_decode_context_property_id(
                s,
                p,
                READ_RANGE_PROPERTY_ID_TAG,
            ) {
                Err(e) => Err(e),
                Ok((property_id, p)) => match spec_decode_optional_array_index(s, p) {
                    Err(e) => Err(e),
                    Ok(((array_index, tag), p)) => if tag.number != TagNumber::ContextSpecific(
                        READ_RANGE_ACK_RESULT_FLAGS_TAG,
                    ) {
                        Err(Error::UnexpectedTag)
                    } else {
                        match BitStringView::spec_decode(tag.value, s, p) {
                            Err(e) => Err(e),
                            Ok((result_flags, p)) => match spec_decode_context_unsigned(
                                s,
                                p,
                                READ_RANGE_ACK_ITEM_COUNT_TAG,
                            ) {
                                Err(e) => Err(e),
                                Ok((item_count, p)) => Ok(
                                    (
                                        (
                                            object_id,
                                            property_id,
                                            array_index,
                                            result_flags,
                                            item_count,
                                        ),
                                        p,
                                    ),
                                ),
                            },
                        }
                    },
                },
            },
        }
    }

    /// The acknowledgement that the bytes of `s` from `pos` on spell, behind
    /// the number of the service. Its items are not read: it holds the
    /// region in which they stand.
    #[verifier::opaque]
    pub open spec fn spec_decode(s: Seq<u8>, pos: int) -> Result<(ReadRangeAckView, int), Error> {
        match Self::spec_decode_fields(s, pos) {
            Err(e) => Err(e),
            Ok(((object_id, property_id, array_index, result_flags, item_count), p)) => {
                match spec_decode_item_data(s, p) {
                    Err(e) => Err(e),
                    Ok((region, p)) => Ok(
                        (
                            ReadRangeAckView {
                                object_id,
                                property_id,
                                array_index,
                                result_flags,
                                item_count: item_count as usize,
                                item_data: ReadRangeItemsView {
                                    items: Seq::empty(),
                                    region,
                                    position: 0,
                                },
                            },
                            p,
                        ),
                    ),
                }
            },
        }
    }
}

impl<'a> ReadRangeAck<'a> {
    fn encode_head(&self, writer: &mut Writer) -> (r: Result<(), Error>)
        requires
            old(writer).wf(),
        ensures
            wrote(r, old(writer), final(writer), self@.spec_encode_head()),
            final(final(writer).buf)@ == final(old(writer).buf)@,
    {
        writer.push(READ_RANGE_SERVICE_CHOICE)?;
        encode_context_object_id(writer, READ_RANGE_OBJECT_ID_TAG, &self.object_id)?;
        encode_context_enumerated(writer, READ_RANGE_PROPERTY_ID_TAG, &self.property_id)?;
        if self.array_index != BACNET_ARRAY_ALL {
            encode_context_unsigned(writer, READ_RANGE_ARRAY_INDEX_TAG, self.array_index)
        } else {
            proof {
                lemma_appended_nothing(writer);
            }
            Ok(())
        }
    }

    /// Writes the acknowledgement, with the number of the service in front.
    /// Where an item of the list holds another value than a real number,
    /// nothing is written.
    pub fn encode(&self, writer: &mut Writer) -> (r: Result<(), Error>)
        requires
            old(writer).wf(),
            self@.wf(),
        ensures
            wrote_if(r, old(writer), final(writer), self@.spec_encodable(), self@.spec_encode()),
            final(final(writer).buf)@ == final(old(writer).buf)@,
    {
        if !self.item_data.encodable() {
            proof {
                lemma_appended_nothing(writer);
            }
            return Err(Error::Unimplemented);
        }
        self.encode_head(writer)?;
        self.result_flags.encode_context(READ_RANGE_ACK_RESULT_FLAGS_TAG, writer)?;
        let item_count: u32 = (self.item_count as u64 % 0x1_0000_0000) as u32;
        encode_context_unsigned(writer, READ_RANGE_ACK_ITEM_COUNT_TAG, item_count)?;

        // item data
        encode_opening_tag(writer, READ_RANGE_ACK_ITEM_DATA_TAG)?;
        self.item_data.encode(writer)?;
        encode_closing_tag(writer, READ_RANGE_ACK_ITEM_DATA_TAG)
    }

    fn decode_optional_array_index(reader: &mut Reader, buf: &[u8]) -> (r: Result<(u32, Tag), Error>)
        ensures
            read_as(
                r,
                spec_decode_optional_array_index(old(reader).region(buf@), old(reader).index as int),
                *old(reader),
                *final(reader),
            ),
    {
        let tag = Tag::decode(reader, buf)?;
        if tag.number == TagNumber::ContextSpecific(READ_RANGE_ARRAY_INDEX_TAG) {
            let array_index = decode_unsigned(tag.value, reader, buf)?;

            // read another tag
            let tag = Tag::decode(reader, buf)?;
            Ok((array_index, tag))
        } else {
            Ok((BACNET_ARRAY_ALL, tag))
        }
    }

    fn decode_item_data(reader: &mut Reader, buf: &'a [u8]) -> (r: Result<&'a [u8], Error>)
        ensures
            read_as_view(
                r,
                spec_decode_item_data(old(reader).region(buf@), old(reader).index as int),
                *old(reader),
                *final(reader),
            ),
    {
        if reader.eof_in(buf) {
            let at: usize = if reader.index <= buf.len() {
                reader.index
            } else {
                buf.len()
            };
            let region = vstd::slice::slice_subrange(buf, at, at);
            assert(region@ =~= Seq::<u8>::empty());
            Ok(region)
        } else {
            get_tagged_body_for_tag(reader, buf, READ_RANGE_ACK_ITEM_DATA_TAG)
        }
    }

    /// Reads an acknowledgement, from behind the number of the service on.
    /// The items stay unread in their region of `buf`.
    pub fn decode(reader: &mut Reader, buf: &'a [u8]) -> (r: Result<Self, Error>)
        ensures
            read_as_view(
                r,
                ReadRangeAckView::spec_decode(old(reader).region(buf@), old(reader).index as int),
                *old(reader),
                *final(reader),
            ),
    {
        proof {
            reveal(ReadRangeAckView::spec_decode);
        }
        // object_id
        let object_id = decode_context_object_id(reader, buf, READ_RANGE_OBJECT_ID_TAG)?;

        // property_id
        let property_id = decode_context_property_id(reader, buf, READ_RANGE_PROPERTY_ID_TAG)?;

        // array_index
        let (array_index, tag) = Self::decode_optional_array_index(reader, buf)?;

        // result flags
        tag.expect_number(TagNumber::ContextSpecific(READ_RANGE_ACK_RESULT_FLAGS_TAG))?;
        let result_flags = BitString::decode(tag.value, reader, buf)?;

        // item_count
        let item_count = decode_context_unsigned(reader, buf, READ_RANGE_ACK_ITEM_COUNT_TAG)? as usize;

        // item_data
        let region = Self::decode_item_data(reader, buf)?;
        let item_data = ReadRangeItems::new_from_buf(region);

        Ok(Self { object_id, property_id, array_index, result_flags, item_count, item_data })
    }
}

} // verus!
