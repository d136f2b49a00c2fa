use vstd::prelude::*;
use crate::common::endian::{spec_u32_from_be, u32_from_be};
use crate::common::error::Error;
use crate::common::helper::{
    decode_signed, decode_unsigned, spec_decode_signed, spec_decode_unsigned,
};
use crate::common::io::{
    cut_short, group_writer, holds_at, lemma_holds_at_split, lemma_read_byte_cut,
    lemma_read_bytes_cut, read_as, read_as_view, spec_read_byte, spec_read_bytes, wrote, Reader,
    Writer,
};
use crate::common::object_id::ObjectId;
use crate::common::tag::{lemma_tag_round_trip, ApplicationTagNumber, Tag, TagNumber};

verus! {

broadcast use group_writer;

/// A calendar date. On the wire the year is one byte that counts from 1900.
#[derive(Debug, Clone, Copy, PartialEq, Eq, Structural)]
pub struct Date {
    pub year: u16,
    pub month: u8,
    pub day: u8,
    pub wday: u8,
}

/// A time of day.
#[derive(Debug, Clone, Copy, PartialEq, Eq, Structural)]
pub struct Time {
    pub hour: u8,
    pub minute: u8,
    pub second: u8,
    pub hundredths: u8,
}

/// The length of a date on the wire.
pub const DATE_LEN: u32 = 4;

/// The length of a time on the wire.
pub const TIME_LEN: u32 = 4;

impl Date {
    /// The year is one that the wire's single byte can hold.
    pub open spec fn wf(self) -> bool {
        1900 <= self.year <= 2155
    }

    /// Four bytes: the year less 1900 (of which only the low eight bits are
    /// kept), the month, the day and the day of the week.
    pub open spec fn spec_encode(self) -> Seq<u8> {
        seq![((self.year + 65536 - 1900) % 256) as u8, self.month, self.day, self.wday]
    }

    pub open spec fn spec_decode(s: Seq<u8>, pos: int) -> Result<(Date, int), Error> {
        match spec_read_bytes(s, pos, 4) {
            Err(e) => Err(e),
            Ok((b, p)) => Ok(
                (Date { year: (b[0] + 1900) as u16, month: b[1], day: b[2], wday: b[3] }, p),
            ),
        }
    }

    pub fn encode(&self, writer: &mut Writer) -> (r: Result<(), Error>)
        requires
            old(writer).wf(),
        ensures
            wrote(r, old(writer), final(writer), self.spec_encode()),
            final(final(writer).buf)@ == final(old(writer).buf)@,
    {
        let year: u16 = if self.year >= 1900 {
            self.year - 1900
        } else {
            self.year + (65536 - 1900) as u16
        };
        let bytes: [u8; 4] = [(year % 256) as u8, self.month, self.day, self.wday];
        assert(bytes@ =~= self.spec_encode());
        writer.extend_from_slice(bytes.as_slice())
    }

    pub fn decode(reader: &mut Reader, buf: &[u8]) -> (r: Result<Self, Error>)
        ensures
            read_as(
                r,
                Date::spec_decode(old(reader).region(buf@), old(reader).index as int),
                *old(reader),
                *final(reader),
            ),
    {
        let b = reader.read_bytes::<4>(buf)?;
        Ok(Self { year: b[0] as u16 + 1900, month: b[1], day: b[2], wday: b[3] })
    }
}

impl Time {
    /// Four bytes: the hour, the minute, the second and the hundredths.
    pub open spec fn spec_encode(self) -> Seq<u8> {
        seq![self.hour, self.minute, self.second, self.hundredths]
    }

    pub open spec fn spec_decode(s: Seq<u8>, pos: int) -> Result<(Time, int), Error> {
        match spec_read_bytes(s, pos, 4) {
            Err(e) => Err(e),
            Ok((b, p)) => Ok((Time { hour: b[0], minute: b[1], second: b[2], hundredths: b[3] }, p)),
        }
    }

    pub fn encode(&self, writer: &mut Writer) -> (r: Result<(), Error>)
        requires
            old(writer).wf(),
        ensures
            wrote(r, old(writer), final(writer), self.spec_encode()),
            final(final(writer).buf)@ == final(old(writer).buf)@,
    {
        let bytes: [u8; 4] = [self.hour, self.minute, self.second, self.hundredths];
        assert(bytes@ =~= self.spec_encode());
        writer.extend_from_slice(bytes.as_slice())
    }

    pub fn decode(reader: &mut Reader, buf: &[u8]) -> (r: Result<Self, Error>)
        ensures
            read_as(
                r,
                Time::spec_decode(old(reader).region(buf@), old(reader).index as int),
                *old(reader),
                *final(reader),
            ),
    {
        let b = reader.read_bytes::<4>(buf)?;
        Ok(Self { hour: b[0], minute: b[1], second: b[2], hundredths: b[3] })
    }
}

/// A date of a year from 1900 to 2155 is read back as it was written.
pub proof fn lemma_date_round_trip(date: Date, s: Seq<u8>, pos: int)
    requires
        date.wf(),
        holds_at(s, pos, date.spec_encode()),
    ensures
        Date::spec_decode(s, pos) == Ok::<(Date, int), Error>((date, pos + 4)),
{
}

/// A time is read back as it was written.
pub proof fn lemma_time_round_trip(time: Time, s: Seq<u8>, pos: int)
    requires
        holds_at(s, pos, time.spec_encode()),
    ensures
        Time::spec_decode(s, pos) == Ok::<(Time, int), Error>((time, pos + 4)),
{
}

/// A string of bits: whole bytes, of which the last leaves `unused_bits`
/// bits unused. The bytes are a view into the buffer that was decoded.
#[derive(Debug, Clone, Copy)]
pub struct BitString<'a> {
    pub unused_bits: u8,
    pub bits: &'a [u8],
}

/// What a `BitString` holds.
pub struct BitStringView {
    pub unused_bits: u8,
    pub bits: Seq<u8>,
}

impl<'a> View for BitString<'a> {
    type V = BitStringView;

    open spec fn view(&self) -> BitStringView {
        BitStringView { unused_bits: self.unused_bits, bits: self.bits@ }
    }
}

impl BitStringView {
    /// The length on the wire, which counts the byte of unused bits, fits a tag's value.
    pub open spec fn wf(self) -> bool {
        self.bits.len() < u32::MAX
    }

    /// The byte of unused bits, then the bytes.
    pub open spec fn spec_encode(self) -> Seq<u8> {
        seq![self.unused_bits] + self.bits
    }

    /// A context tag that carries the length, then the bit string.
    pub open spec fn spec_encode_context(self, tag_number: u8) -> Seq<u8> {
        Tag {
            number: TagNumber::ContextSpecific(tag_number),
            value: (self.bits.len() + 1) as u32,
        }.spec_encode() + self.spec_encode()
    }

    /// The bit string in the `len` bytes from `pos` on, of which the first
    /// counts the unused bits.
    pub open spec fn spec_decode(len: u32, s: Seq<u8>, pos: int) -> Result<
        (BitStringView, int),
        Error,
    > {
        if len == 0 {
            Err(Error::InvalidValue)
        } else {
            match spec_read_byte(s, pos) {
                Err(e) => Err(e),
                Ok((unused_bits, p)) => match spec_read_bytes(s, p, len - 1) {
                    Err(e) => Err(e),
                    Ok((bits, p)) => Ok((BitStringView { unused_bits, bits }, p)),
                },
            }
        }
    }
}

impl<'a> BitString<'a> {
    pub fn new(unused_bits: u8, bits: &'a [u8]) -> (r: Self)
        ensures
            r@ == (BitStringView { unused_bits, bits: bits@ }),
    {
        Self { unused_bits, bits }
    }

    /// Writes the bit string behind a context tag.
    pub fn encode_context(&self, tag_number: u8, writer: &mut Writer) -> (r: Result<(), Error>)
        requires
            old(writer).wf(),
            self@.wf(),
        ensures
            wrote(r, old(writer), final(writer), self@.spec_encode_context(tag_number)),
            final(final(writer).buf)@ == final(old(writer).buf)@,
    {
        let len: u32 = (self.bits.len() + 1) as u32;
        Tag::new(TagNumber::ContextSpecific(tag_number), len).encode(writer)?;
        writer.push(self.unused_bits)?;
        writer.extend_from_slice(self.bits)
    }

    /// Reads a bit string of `len` bytes.
    pub fn decode(len: u32, reader: &mut Reader, buf: &'a [u8]) -> (r: Result<Self, Error>)
        ensures
            read_as_view(
                r,
                BitStringView::spec_decode(len, old(reader).region(buf@), old(reader).index as int),
                *old(reader),
                *final(reader),
            ),
    {
        if len == 0 {
            return Err(Error::InvalidValue);
        }
        let unused_bits = reader.read_byte(buf)?;
        let bits = reader.read_slice((len - 1) as usize, buf)?;
        Ok(Self { unused_bits, bits })
    }
}

/// A bit string behind a context tag is read back as it was written.
pub proof fn lemma_bit_string_round_trip(bits: BitStringView, tag_number: u8, s: Seq<u8>, pos: int)
    requires
        bits.wf(),
        holds_at(s, pos, bits.spec_encode_context(tag_number)),
    ensures
        Tag::spec_decode_expected(s, pos, TagNumber::ContextSpecific(tag_number)) matches Ok(
            (tag, p),
        ) && BitStringView::spec_decode(tag.value, s, p) == Ok::<(BitStringView, int), Error>(
            (bits, pos + bits.spec_encode_context(tag_number).len()),
        ),
{
    let tag = Tag {
        number: TagNumber::ContextSpecific(tag_number),
        value: (bits.bits.len() + 1) as u32,
    };
    lemma_holds_at_split(s, pos, tag.spec_encode(), bits.spec_encode());
    lemma_tag_round_trip(tag, s, pos);
    let p = pos + tag.spec_encode().len();
    lemma_holds_at_split(s, p, seq![bits.unused_bits], bits.bits);
    assert(s.subrange(p, p + 1)[0] == s[p]);
}

/// A string of characters: the number of its character set and its bytes
/// in that set, which are a view into the buffer that was decoded.
#[derive(Debug, Clone, Copy)]
pub struct CharacterString<'a> {
    pub character_set: u8,
    pub text: &'a [u8],
}

/// What a `CharacterString` holds.
pub struct CharacterStringView {
    pub character_set: u8,
    pub text: Seq<u8>,
}

impl<'a> View for CharacterString<'a> {
    type V = CharacterStringView;

    open spec fn view(&self) -> CharacterStringView {
        CharacterStringView { character_set: self.character_set, text: self.text@ }
    }
}

impl CharacterStringView {
    /// The string in the `len` bytes from `pos` on, of which the first names
    /// the character set.
    pub open spec fn spec_decode(len: u32, s: Seq<u8>, pos: int) -> Result<
        (CharacterStringView, int),
        Error,
    > {
        if len == 0 {
            Err(Error::InvalidValue)
        } else {
            match spec_read_byte(s, pos) {
                Err(e) => Err(e),
                Ok((character_set, p)) => match spec_read_bytes(s, p, len - 1) {
                    Err(e) => Err(e),
                    Ok((text, p)) => Ok((CharacterStringView { character_set, text }, p)),
                },
            }
        }
    }
}

impl<'a> CharacterString<'a> {
    /// Reads a string of `len` bytes.
    pub fn decode(len: u32, reader: &mut Reader, buf: &'a [u8]) -> (r: Result<Self, Error>)
        ensures
            read_as_view(
                r,
                CharacterStringView::spec_decode(
                    len,
                    old(reader).region(buf@),
                    old(reader).index as int,
                ),
                *old(reader),
                *final(reader),
            ),
    {
        if len == 0 {
            return Err(Error::InvalidValue);
        }
        let character_set = reader.read_byte(buf)?;
        let text = reader.read_slice((len - 1) as usize, buf)?;
        Ok(Self { character_set, text })
    }
}

/// A value behind an application tag. A real number is held as the 32
/// bits of its IEEE 754 form.
#[derive(Debug, Clone, Copy)]
pub enum ApplicationDataValue<'a> {
    Null,
    Boolean(bool),
    UnsignedInt(u32),
    SignedInt(i32),
    Real(u32),
    OctetString(&'a [u8]),
    CharacterString(CharacterString<'a>),
    BitString(BitString<'a>),
    Enumerated(u32),
    Date(Date),
    Time(Time),
    ObjectId(ObjectId),
}

/// What an `ApplicationDataValue` holds.
pub enum ApplicationDataValueView {
    Null,
    Boolean(bool),
    UnsignedInt(u32),
    SignedInt(i32),
    Real(u32),
    OctetString(Seq<u8>),
    CharacterString(CharacterStringView),
    BitString(BitStringView),
    Enumerated(u32),
    Date(Date),
    Time(Time),
    ObjectId(ObjectId),
}

impl<'a> View for ApplicationDataValue<'a> {
    type V = ApplicationDataValueView;

    open spec fn view(&self) -> ApplicationDataValueView {
        match *self {
            ApplicationDataValue::Null => ApplicationDataValueView::Null,
            ApplicationDataValue::Boolean(x) => ApplicationDataValueView::Boolean(x),
            ApplicationDataValue::UnsignedInt(x) => ApplicationDataValueView::UnsignedInt(x),
            ApplicationDataValue::SignedInt(x) => ApplicationDataValueView::SignedInt(x),
            ApplicationDataValue::Real(x) => ApplicationDataValueView::Real(x),
            ApplicationDataValue::OctetString(x) => ApplicationDataValueView::OctetString(x@),
            ApplicationDataValue::CharacterString(x) => ApplicationDataValueView::CharacterString(
                x@,
            ),
            ApplicationDataValue::BitString(x) => ApplicationDataValueView::BitString(x@),
            ApplicationDataValue::Enumerated(x) => ApplicationDataValueView::Enumerated(x),
            ApplicationDataValue::Date(x) => ApplicationDataValueView::Date(x),
            ApplicationDataValue::Time(x) => ApplicationDataValueView::Time(x),
            ApplicationDataValue::ObjectId(x) => ApplicationDataValueView::ObjectId(x),
        }
    }
}

impl ApplicationDataValueView {
    /// The value that stands behind the application tag `tag`, which was
    /// read up to `pos`. A boolean and a null have no bytes of their own:
    /// the tag holds them. A double and the reserved tags are not read.
    pub open spec fn spec_decode(tag: Tag, s: Seq<u8>, pos: int) -> Result<
        (ApplicationDataValueView, int),
        Error,
    > {
        match tag.number {
            TagNumber::Application(kind) => match kind {
                ApplicationTagNumber::Null => Ok((ApplicationDataValueView::Null, pos)),
                ApplicationTagNumber::Boolean => Ok(
                    (ApplicationDataValueView::Boolean(tag.value > 0), pos),
                ),
                ApplicationTagNumber::UnsignedInt => match spec_decode_unsigned(tag.value, s, pos) {
                    Err(e) => Err(e),
                    Ok((x, p)) => Ok((ApplicationDataValueView::UnsignedInt(x), p)),
                },
                ApplicationTagNumber::SignedInt => match spec_decode_signed(tag.value, s, pos) {
                    Err(e) => Err(e),
                    Ok((x, p)) => Ok((ApplicationDataValueView::SignedInt(x), p)),
                },
                ApplicationTagNumber::Real => match spec_read_bytes(s, pos, 4) {
                    Err(e) => Err(e),
                    Ok((bytes, p)) => Ok(
                        (ApplicationDataValueView::Real(spec_u32_from_be(bytes)), p),
                    ),
                },
                ApplicationTagNumber::OctetString => match spec_read_bytes(
                    s,
                    pos,
                    tag.value as int,
                ) {
                    Err(e) => Err(e),
                    Ok((bytes, p)) => Ok((ApplicationDataValueView::OctetString(bytes), p)),
                },
                ApplicationTagNumber::CharacterString => match CharacterStringView::spec_decode(
                    tag.value,
                    s,
                    pos,
                ) {
                    Err(e) => Err(e),
                    Ok((x, p)) => Ok((ApplicationDataValueView::CharacterString(x), p)),
                },
                ApplicationTagNumber::BitString => match BitStringView::spec_decode(
                    tag.value,
                    s,
                    pos,
                ) {
                    Err(e) => Err(e),
                    Ok((x, p)) => Ok((ApplicationDataValueView::BitString(x), p)),
                },
                ApplicationTagNumber::Enumerated => match spec_decode_unsigned(tag.value, s, pos) {
                    Err(e) => Err(e),
                    Ok((x, p)) => Ok((ApplicationDataValueView::Enumerated(x), p)),
                },
                ApplicationTagNumber::Date => match Date::spec_decode(s, pos) {
                    Err(e) => Err(e),
                    Ok((x, p)) => Ok((ApplicationDataValueView::Date(x), p)),
                },
                ApplicationTagNumber::Time => match Time::spec_decode(s, pos) {
                    Err(e) => Err(e),
                    Ok((x, p)) => Ok((ApplicationDataValueView::Time(x), p)),
                },
                ApplicationTagNumber::ObjectId => match ObjectId::spec_decode(tag.value, s, pos) {
                    Err(e) => Err(e),
                    Ok((x, p)) => Ok((ApplicationDataValueView::ObjectId(x), p)),
                },
                _ => Err(Error::Unimplemented),
            },
            _ => Err(Error::TagNotSupported),
        }
    }
}

impl<'a> ApplicationDataValue<'a> {
    /// Reads the value that stands behind the application tag `tag`.
    pub fn decode(tag: &Tag, reader: &mut Reader, buf: &'a [u8]) -> (r: Result<Self, Error>)
        ensures
            read_as_view(
                r,
                ApplicationDataValueView::spec_decode(
                    *tag,
                    old(reader).region(buf@),
                    old(reader).index as int,
                ),
                *old(reader),
                *final(reader),
            ),
    {
        let kind = match tag.number {
            TagNumber::Application(kind) => kind,
            _ => {
                return Err(Error::TagNotSupported);
            },
        };
        match kind {
            ApplicationTagNumber::Null => Ok(ApplicationDataValue::Null),
            ApplicationTagNumber::Boolean => Ok(ApplicationDataValue::Boolean(tag.value > 0)),
            ApplicationTagNumber::UnsignedInt => {
                let x = decode_unsigned(tag.value, reader, buf)?;
                Ok(ApplicationDataValue::UnsignedInt(x))
            },
            ApplicationTagNumber::SignedInt => {
                let x = decode_signed(tag.value, reader, buf)?;
                Ok(ApplicationDataValue::SignedInt(x))
            },
            ApplicationTagNumber::Real => {
                let bits = u32_from_be(reader.read_bytes::<4>(buf)?);
                Ok(ApplicationDataValue::Real(bits))
            },
            ApplicationTagNumber::OctetString => {
                let bytes = reader.read_slice(tag.value as usize, buf)?;
                Ok(ApplicationDataValue::OctetString(bytes))
            },
            ApplicationTagNumber::CharacterString => {
                let x = CharacterString::decode(tag.value, reader, buf)?;
                Ok(ApplicationDataValue::CharacterString(x))
            },
            ApplicationTagNumber::BitString => {
                let x = BitString::decode(tag.value, reader, buf)?;
                Ok(ApplicationDataValue::BitString(x))
            },
            ApplicationTagNumber::Enumerated => {
                let x = decode_unsigned(tag.value, reader, buf)?;
                Ok(ApplicationDataValue::Enumerated(x))
            },
            ApplicationTagNumber::Date => {
                let x = Date::decode(reader, buf)?;
                Ok(ApplicationDataValue::Date(x))
            },
            ApplicationTagNumber::Time => {
                let x = Time::decode(reader, buf)?;
                Ok(ApplicationDataValue::Time(x))
            },
            ApplicationTagNumber::ObjectId => {
                let x = ObjectId::decode(tag.value, reader, buf)?;
                Ok(ApplicationDataValue::ObjectId(x))
            },
            _ => Err(Error::Unimplemented),
        }
    }
}

/// A value that was read lies in the bytes, not before the place where it began.
pub proof fn lemma_application_data_value_bounds(tag: Tag, s: Seq<u8>, pos: int)
    requires
        0 <= pos <= s.len(),
    ensures
        ApplicationDataValueView::spec_decode(tag, s, pos) matches Ok((_, p)) ==> pos <= p
            <= s.len(),
{
}

/// Cutting the bytes short does not change what a date or a time reads as,
/// so long as the cut lies behind it; a cut through it makes the read fail
/// for want of bytes.
pub proof fn lemma_date_and_time_decode_cut(s: Seq<u8>, pos: int, k: int)
    requires
        0 <= k <= s.len(),
    ensures
        Date::spec_decode(s.take(k), pos) == cut_short(Date::spec_decode(s, pos), k),
        Time::spec_decode(s.take(k), pos) == cut_short(Time::spec_decode(s, pos), k),
{
    lemma_read_bytes_cut(s, pos, 4, k);
}

/// The same for a bit string.
pub proof fn lemma_bit_string_decode_cut(len: u32, s: Seq<u8>, pos: int, k: int)
    requires
        0 <= k <= s.len(),
        BitStringView::spec_decode(len, s, pos) is Ok,
    ensures
        BitStringView::spec_decode(len, s.take(k), pos) == cut_short(
            BitStringView::spec_decode(len, s, pos),
            k,
        ),
{
    lemma_read_byte_cut(s, pos, k);
    lemma_read_bytes_cut(s, pos + 1, len - 1, k);
}

} // verus!
