use vstd::prelude::*;
use crate::common::endian::{
    lemma_u16_be_round_trip, lemma_u32_be_round_trip, spec_u16_be, spec_u16_from_be, spec_u32_be,
    spec_u32_from_be, u16_from_be, u16_to_be, u32_from_be, u32_to_be,
};
use crate::common::error::Error;
use crate::common::io::{
    cut_short, holds_at, lemma_read_bytes_cut, read_as, spec_read_byte, spec_read_bytes, wrote,
    Reader, Writer,
};

verus! {

// byte0:
// bits 7-4 tag number
// bit  3   class (0 = application, 1 = context specific)
// bits 2-0 length / value / type
//
// More bytes may follow, as bits 7-4 and bits 2-0 say.
/// The sixteen application tags: each names the type of the value it stands before.
#[derive(Debug, PartialEq, Eq, Clone, Copy, Structural)]
pub enum ApplicationTagNumber {
    Null,
    Boolean,
    UnsignedInt,
    SignedInt,
    Real,
    Double,
    OctetString,
    CharacterString,
    BitString,
    Enumerated,
    Date,
    Time,
    ObjectId,
    Reserve1,
    Reserve2,
    Reserve3,
}

impl ApplicationTagNumber {
    /// The number of the tag on the wire, 0 to 15.
    pub open spec fn spec_code(self) -> u8 {
        match self {
            Self::Null => 0,
            Self::Boolean => 1,
            Self::UnsignedInt => 2,
            Self::SignedInt => 3,
            Self::Real => 4,
            Self::Double => 5,
            Self::OctetString => 6,
            Self::CharacterString => 7,
            Self::BitString => 8,
            Self::Enumerated => 9,
            Self::Date => 10,
            Self::Time => 11,
            Self::ObjectId => 12,
            Self::Reserve1 => 13,
            Self::Reserve2 => 14,
            Self::Reserve3 => 15,
        }
    }

    /// The tag with the wire number `n`; every number above 14 counts as the last one.
    pub open spec fn spec_from_code(n: u8) -> Self {
        match n {
            0 => Self::Null,
            1 => Self::Boolean,
            2 => Self::UnsignedInt,
            3 => Self::SignedInt,
            4 => Self::Real,
            5 => Self::Double,
            6 => Self::OctetString,
            7 => Self::CharacterString,
            8 => Self::BitString,
            9 => Self::Enumerated,
            10 => Self::Date,
            11 => Self::Time,
            12 => Self::ObjectId,
            13 => Self::Reserve1,
            14 => Self::Reserve2,
            _ => Self::Reserve3,
        }
    }

    /// The number of the tag on the wire, 0 to 15.
    #[verifier::when_used_as_spec(spec_code)]
    pub fn code(self) -> (r: u8)
        ensures
            r == self.spec_code(),
            r <= 15,
    {
        match self {
            Self::Null => 0,
            Self::Boolean => 1,
            Self::UnsignedInt => 2,
            Self::SignedInt => 3,
            Self::Real => 4,
            Self::Double => 5,
            Self::OctetString => 6,
            Self::CharacterString => 7,
            Self::BitString => 8,
            Self::Enumerated => 9,
            Self::Date => 10,
            Self::Time => 11,
            Self::ObjectId => 12,
            Self::Reserve1 => 13,
            Self::Reserve2 => 14,
            Self::Reserve3 => 15,
        }
    }

    /// The tag with the wire number `tag_number`, which is four bits wide.
    pub fn from_code(tag_number: u8) -> (r: Self)
        requires
            tag_number <= 15,
        ensures
            r == Self::spec_from_code(tag_number),
            r.spec_code() == tag_number,
    {
        match tag_number {
            0 => Self::Null,
            1 => Self::Boolean,
            2 => Self::UnsignedInt,
            3 => Self::SignedInt,
            4 => Self::Real,
            5 => Self::Double,
            6 => Self::OctetString,
            7 => Self::CharacterString,
            8 => Self::BitString,
            9 => Self::Enumerated,
            10 => Self::Date,
            11 => Self::Time,
            12 => Self::ObjectId,
            13 => Self::Reserve1,
            14 => Self::Reserve2,
            _ => Self::Reserve3,
        }
    }
}

/// The class of a tag together with its number. The opening and the closing
/// form of a context tag bracket a nested structure and carry no value.
#[derive(Debug, PartialEq, Eq, Clone, Copy, Structural)]
pub enum TagNumber {
    Application(ApplicationTagNumber),
    ContextSpecific(u8),
    ContextSpecificOpening(u8),
    ContextSpecificClosing(u8),
}

impl TagNumber {
    /// Bits 7-3 of the first byte.
    pub open spec fn spec_head(self) -> int {
        match self {
            TagNumber::Application(n) => n.spec_code() * 16,
            TagNumber::ContextSpecific(n)
            | TagNumber::ContextSpecificOpening(n)
            | TagNumber::ContextSpecificClosing(n) => if n <= 14 {
                n * 16 + 8
            } else {
                0xF8
            },
        }
    }

    /// The byte that spells out a context tag's number where bits 7-4 cannot hold it.
    pub open spec fn spec_extended_number(self) -> Seq<u8> {
        match self {
            TagNumber::Application(_) => seq![],
            TagNumber::ContextSpecific(n)
            | TagNumber::ContextSpecificOpening(n)
            | TagNumber::ContextSpecificClosing(n) => if n <= 14 {
                seq![]
            } else {
                seq![n]
            },
        }
    }

    /// Whether this is the opening or the closing form.
    pub open spec fn is_bracket(self) -> bool {
        self is ContextSpecificOpening || self is ContextSpecificClosing
    }
}

/// One tag: its class and number, and the length or literal value it carries.
#[derive(Debug, PartialEq, Eq, Clone, Copy, Structural)]
pub struct Tag {
    pub number: TagNumber,
    pub value: u32,
}

/// Whether bits 7-4 of the first byte say that the number follows in a byte of its own.
pub open spec fn spec_is_extended_tag_number(byte0: u8) -> bool {
    byte0 / 16 == 15
}

/// Whether bits 2-0 of the first byte say that the value follows.
pub open spec fn spec_is_extended_value(byte0: u8) -> bool {
    byte0 % 8 == 5
}

/// Whether bit 3 of the first byte marks a context tag.
pub open spec fn spec_is_context_specific(byte0: u8) -> bool {
    (byte0 / 8) % 2 == 1
}

/// Whether bits 2-0 of the first byte mark an opening tag.
pub open spec fn spec_is_opening_tag(byte0: u8) -> bool {
    byte0 % 8 == 6
}

/// Whether bits 2-0 of the first byte mark a closing tag.
pub open spec fn spec_is_closing_tag(byte0: u8) -> bool {
    byte0 % 8 == 7
}

/// The class and number that the bytes from `pos` on spell, with the first
/// byte itself, whose low bits the caller still needs.
pub open spec fn spec_decode_tag_number(s: Seq<u8>, pos: int) -> Result<((TagNumber, u8), int), Error> {
    match spec_read_byte(s, pos) {
        Err(e) => Err(e),
        Ok((byte0, p)) => if spec_is_context_specific(byte0) {
            let num = if spec_is_extended_tag_number(byte0) {
                spec_read_byte(s, p)
            } else {
                Ok((byte0 / 16, p))
            };
            match num {
                Err(e) => Err(e),
                Ok((n, p)) => if spec_is_opening_tag(byte0) {
                    Ok(((TagNumber::ContextSpecificOpening(n), byte0), p))
                } else if spec_is_closing_tag(byte0) {
                    Ok(((TagNumber::ContextSpecificClosing(n), byte0), p))
                } else {
                    Ok(((TagNumber::ContextSpecific(n), byte0), p))
                },
            }
        } else {
            Ok(((TagNumber::Application(ApplicationTagNumber::spec_from_code(byte0 / 16)), byte0), p))
        },
    }
}

impl Tag {
    /// A bracket carries no value.
    pub open spec fn wf(self) -> bool {
        self.number.is_bracket() ==> self.value == 0
    }

    /// Bits 2-0 of the first byte: the value itself up to 4, the mark 5 of a
    /// value that follows, 6 for an opening and 7 for a closing tag.
    pub open spec fn spec_low_bits(self) -> int {
        match self.number {
            TagNumber::ContextSpecificOpening(_) => 6,
            TagNumber::ContextSpecificClosing(_) => 7,
            _ => if self.value <= 4 {
                self.value as int
            } else {
                5
            },
        }
    }

    /// The bytes of a value above 4, in the smallest of the three forms that holds it.
    pub open spec fn spec_extended_value(self) -> Seq<u8> {
        if self.number.is_bracket() || self.value <= 4 {
            seq![]
        } else if self.value <= 253 {
            seq![self.value as u8]
        } else if self.value <= 65535 {
            seq![254u8] + spec_u16_be(self.value as u16)
        } else {
            seq![255u8] + spec_u32_be(self.value)
        }
    }

    /// The bytes of the tag on the wire.
    pub open spec fn spec_encode(self) -> Seq<u8> {
        seq![(self.number.spec_head() + self.spec_low_bits()) as u8]
            + self.number.spec_extended_number() + self.spec_extended_value()
    }

    /// The tag that the bytes of `s` from `pos` on spell, and the position behind it.
    ///
    /// The definition is hidden from proofs that do not ask for it: most of
    /// them need no more of a tag than `lemma_tag_round_trip`,
    /// `lemma_tag_decode_bounds` and `lemma_tag_decode_cut` say.
    #[verifier::opaque]
    pub open spec fn spec_decode(s: Seq<u8>, pos: int) -> Result<(Tag, int), Error> {
        match spec_decode_tag_number(s, pos) {
            Err(e) => Err(e),
            Ok(((number, byte0), p)) => if spec_is_extended_value(byte0) {
                match spec_read_byte(s, p) {
                    Err(e) => Err(e),
                    Ok((byte, p)) => if byte == 255 {
                        match spec_read_bytes(s, p, 4) {
                            Err(e) => Err(e),
                            Ok((bytes, p)) => Ok((Tag { number, value: spec_u32_from_be(bytes) }, p)),
                        }
                    } else if byte == 254 {
                        match spec_read_bytes(s, p, 2) {
                            Err(e) => Err(e),
                            Ok((bytes, p)) => Ok(
                                (Tag { number, value: spec_u16_from_be(bytes) as u32 }, p),
                            ),
                        }
                    } else {
                        Ok((Tag { number, value: byte as u32 }, p))
                    },
                }
            } else if spec_is_opening_tag(byte0) || spec_is_closing_tag(byte0) {
                Ok((Tag { number, value: 0 }, p))
            } else {
                Ok((Tag { number, value: (byte0 % 8) as u32 }, p))
            },
        }
    }

    pub fn new(number: TagNumber, value: u32) -> (r: Self)
        ensures
            r == (Tag { number, value }),
    {
        Self { number, value }
    }

    /// Writes the tag in its shortest form.
    pub fn encode(&self, writer: &mut Writer) -> (r: Result<(), Error>)
        requires
            old(writer).wf(),
        ensures
            wrote(r, old(writer), final(writer), self.spec_encode()),
            final(final(writer).buf)@ == final(old(writer).buf)@,
    {
        proof {
            }
        let mut buf: [u8; 7] = [0; 7];
        let mut len: usize = 1;
        let mut low: u8 = 0;
        let head: u8;
        let ghost ext_num = self.number.spec_extended_number();

        match &self.number {
            TagNumber::Application(num) => {
                let n = num.code();
                proof {
                    lemma_pack_head(n, 0);
                }
                head = n << 4;
            },
            TagNumber::ContextSpecific(num)
            | TagNumber::ContextSpecificOpening(num)
            | TagNumber::ContextSpecificClosing(num) => {
                let num = *num;
                if num <= 14 {
                    proof {
                        lemma_pack_head(num, 8);
                    }
                    head = (num << 4) | 0b1000;
                } else {
                    head = 0xF8;
                    buf[1] = num;
                    len += 1;
                }
            },
        }
        assert(head == self.number.spec_head());
        assert(buf@.subrange(1, len as int) =~= ext_num);

        match &self.number {
            TagNumber::ContextSpecificOpening(_) => {
                low = 6;
            },
            TagNumber::ContextSpecificClosing(_) => {
                low = 7;
            },
            _ => {
                if self.value <= 4 {
                    low = self.value as u8;
                } else {
                    low = 5;
                    if self.value <= 253 {
                        buf[len] = self.value as u8;
                        len += 1;
                    } else if self.value <= 65535 {
                        buf[len] = 254;
                        let tmp = u16_to_be(self.value as u16);
                        buf[len + 1] = tmp[0];
                        buf[len + 2] = tmp[1];
                        len += 3;
                    } else {
                        buf[len] = 255;
                        let tmp = u32_to_be(self.value);
                        buf[len + 1] = tmp[0];
                        buf[len + 2] = tmp[1];
                        buf[len + 3] = tmp[2];
                        buf[len + 4] = tmp[3];
                        len += 5;
                    }
                }
            },
        }
        proof {
            lemma_pack_low(head, low);
        }
        buf[0] = head | low;
        assert(buf@.subrange(0, len as int) =~= self.spec_encode());

        writer.extend_from_slice(vstd::slice::slice_subrange(buf.as_slice(), 0, len))
    }

    /// Reads one tag.
    pub fn decode(reader: &mut Reader, buf: &[u8]) -> (r: Result<Self, Error>)
        ensures
            read_as(
                r,
                Tag::spec_decode(old(reader).region(buf@), old(reader).index as int),
                *old(reader),
                *final(reader),
            ),
    {
        proof {
            reveal(Tag::spec_decode);
        }
        let (number, byte0) = decode_tag_number(reader, buf)?;

        if is_extended_value(byte0) {
            let byte = reader.read_byte(buf)?;
            match byte {
                // a 4-byte value follows
                255 => {
                    let bytes = reader.read_bytes::<4>(buf)?;
                    let value = u32_from_be(bytes);
                    Ok(Self { number, value })
                },
                // a 2-byte value follows
                254 => {
                    let bytes = reader.read_bytes::<2>(buf)?;
                    let value = u16_from_be(bytes) as u32;
                    Ok(Self { number, value })
                },
                // the byte is the value
                _ => Ok(Self { number, value: byte as u32 }),
            }
        } else if is_opening_tag(byte0) || is_closing_tag(byte0) {
            Ok(Self { number, value: 0 })
        } else {
            proof {
                lemma_low_bits(byte0);
            }
            let value = (byte0 & 0x07) as u32;
            Ok(Self { number, value })
        }
    }

    /// Reads one tag and checks that it has the class and number `expected`.
    pub fn decode_expected(reader: &mut Reader, buf: &[u8], expected: TagNumber) -> (r: Result<
        Self,
        Error,
    >)
        ensures
            read_as(
                r,
                Tag::spec_decode_expected(
                    old(reader).region(buf@),
                    old(reader).index as int,
                    expected,
                ),
                *old(reader),
                *final(reader),
            ),
    {
        let tag = Self::decode(reader, buf)?;
        tag.expect_number(expected)?;
        Ok(tag)
    }

    /// The tag at `pos` where it has the class and number `expected`.
    pub open spec fn spec_decode_expected(s: Seq<u8>, pos: int, expected: TagNumber) -> Result<
        (Tag, int),
        Error,
    > {
        match Tag::spec_decode(s, pos) {
            Err(e) => Err(e),
            Ok((tag, p)) => if tag.number == expected {
                Ok((tag, p))
            } else {
                Err(Error::UnexpectedTag)
            },
        }
    }

    /// Checks that the tag has the class and number `expected`.
    pub fn expect_number(&self, expected: TagNumber) -> (r: Result<(), Error>)
        ensures
            r == (if self.number == expected {
                Ok::<(), Error>(())
            } else {
                Err::<(), Error>(Error::UnexpectedTag)
            }),
    {
        if self.number == expected {
            Ok(())
        } else {
            Err(Error::UnexpectedTag)
        }
    }
}

/// Reads the class and number of a tag. The first byte comes back too: its
/// low bits say how the value is held.
pub fn decode_tag_number(reader: &mut Reader, buf: &[u8]) -> (r: Result<(TagNumber, u8), Error>)
    ensures
        read_as(
            r,
            spec_decode_tag_number(old(reader).region(buf@), old(reader).index as int),
            *old(reader),
            *final(reader),
        ),
{
    let byte0 = reader.read_byte(buf)?;
    proof {
        lemma_high_bits(byte0);
    }

    if is_context_specific(byte0) {
        let num = if is_extended_tag_number(byte0) {
            reader.read_byte(buf)?
        } else {
            byte0 >> 4
        };
        if is_opening_tag(byte0) {
            Ok((TagNumber::ContextSpecificOpening(num), byte0))
        } else if is_closing_tag(byte0) {
            Ok((TagNumber::ContextSpecificClosing(num), byte0))
        } else {
            Ok((TagNumber::ContextSpecific(num), byte0))
        }
    } else {
        let num = ApplicationTagNumber::from_code(byte0 >> 4);
        Ok((TagNumber::Application(num), byte0))
    }
}

/// Whether bits 7-4 of the first byte say that the number follows in a byte of its own.
#[verifier::when_used_as_spec(spec_is_extended_tag_number)]
pub fn is_extended_tag_number(byte0: u8) -> (r: bool)
    ensures
        r == spec_is_extended_tag_number(byte0),
{
    assert((byte0 & 0xF0 == 0xF0) == (byte0 / 16 == 15)) by (bit_vector);
    byte0 & 0xF0 == 0xF0
}

/// Whether bits 2-0 of the first byte say that the value follows.
#[verifier::when_used_as_spec(spec_is_extended_value)]
pub fn is_extended_value(byte0: u8) -> (r: bool)
    ensures
        r == spec_is_extended_value(byte0),
{
    assert((byte0 & 0x07 == 0x05) == (byte0 % 8 == 5)) by (bit_vector);
    byte0 & 0x07 == 0x05
}

/// Whether bit 3 of the first byte marks a context tag.
#[verifier::when_used_as_spec(spec_is_context_specific)]
pub fn is_context_specific(byte0: u8) -> (r: bool)
    ensures
        r == spec_is_context_specific(byte0),
{
    assert((byte0 & 0x08 == 0x08) == ((byte0 / 8) % 2 == 1)) by (bit_vector);
    byte0 & 0x08 == 0x08
}

/// Whether bits 2-0 of the first byte mark an opening tag.
#[verifier::when_used_as_spec(spec_is_opening_tag)]
pub fn is_opening_tag(byte0: u8) -> (r: bool)
    ensures
        r == spec_is_opening_tag(byte0),
{
    assert((byte0 & 0x07 == 0x06) == (byte0 % 8 == 6)) by (bit_vector);
    byte0 & 0x07 == 0x06
}

/// Whether bits 2-0 of the first byte mark a closing tag.
#[verifier::when_used_as_spec(spec_is_closing_tag)]
pub fn is_closing_tag(byte0: u8) -> (r: bool)
    ensures
        r == spec_is_closing_tag(byte0),
{
    assert((byte0 & 0x07 == 0x07) == (byte0 % 8 == 7)) by (bit_vector);
    byte0 & 0x07 == 0x07
}

/// Shifting a tag number into bits 7-4 and setting the class bit.
proof fn lemma_pack_head(n: u8, class: u8)
    requires
        n <= 15,
        class == 0 || class == 8,
    ensures
        n << 4 == n * 16,
        (n << 4) | class == n * 16 + class,
{
    assert(n <= 15 ==> n << 4 == n * 16) by (bit_vector);
    assert(n <= 15 && (class == 0 || class == 8) ==> (n << 4) | class == n * 16 + class)
        by (bit_vector);
}

/// Setting bits 2-0 of a byte that has them clear.
proof fn lemma_pack_low(head: u8, low: u8)
    requires
        head % 8 == 0,
        low <= 7,
    ensures
        head | low == head + low,
{
    assert(head % 8 == 0 && low <= 7 ==> head | low == head + low) by (bit_vector);
}

/// Bits 2-0 of a byte.
proof fn lemma_low_bits(byte0: u8)
    ensures
        byte0 & 0x07 == byte0 % 8,
{
    assert(byte0 & 0x07 == byte0 % 8) by (bit_vector);
}

/// Bits 7-4 of a byte.
proof fn lemma_high_bits(byte0: u8)
    ensures
        byte0 >> 4 == byte0 / 16,
{
    assert(byte0 >> 4 == byte0 / 16) by (bit_vector);
}

/// A tag that was read lies within the bytes, takes at least one of them,
/// and is well formed.
pub proof fn lemma_tag_decode_bounds(s: Seq<u8>, pos: int)
    ensures
        Tag::spec_decode(s, pos) matches Ok((tag, p)) ==> 0 <= pos < p <= s.len() && tag.wf(),
        Tag::spec_decode(s, pos) matches Err(e) ==> e == Error::BufferBounds,
{
    reveal(Tag::spec_decode);
}

/// The first byte of a tag gives back the class, the number and the low bits
/// that were packed into it.
proof fn lemma_tag_number_round_trip(number: TagNumber, low: int, s: Seq<u8>, pos: int)
    requires
        0 <= low <= 7,
        low == 6 <==> number is ContextSpecificOpening,
        low == 7 <==> number is ContextSpecificClosing,
        0 <= pos,
        pos + 1 + number.spec_extended_number().len() <= s.len(),
        s[pos] == number.spec_head() + low,
        number.spec_extended_number().len() == 1 ==> s[pos + 1]
            == number.spec_extended_number()[0],
    ensures
        s[pos] % 8 == low,
        spec_decode_tag_number(s, pos) == Ok::<((TagNumber, u8), int), Error>(
            ((number, s[pos]), pos + 1 + number.spec_extended_number().len()),
        ),
{
    let byte0 = s[pos];
    match number {
        TagNumber::Application(n) => {
            assert(ApplicationTagNumber::spec_from_code(n.spec_code()) == n);
            assert(byte0 == n.spec_code() * 16 + low);
            assert(byte0 / 16 == n.spec_code());
            assert((byte0 / 8) % 2 == 0);
        },
        TagNumber::ContextSpecific(n)
        | TagNumber::ContextSpecificOpening(n)
        | TagNumber::ContextSpecificClosing(n) => {
            if n <= 14 {
                assert(byte0 == n * 16 + 8 + low);
                assert(byte0 / 16 == n);
                assert((byte0 / 8) % 2 == 1);
            } else {
                assert(byte0 == 0xF8 + low);
                assert(byte0 / 16 == 15);
                assert((byte0 / 8) % 2 == 1);
            }
        },
    }
}

/// Writing a tag and reading it again gives the tag back and stops right
/// behind it: wherever the bytes of a well-formed `tag` stand in `s`, a read
/// at that place returns `tag`.
pub proof fn lemma_tag_round_trip(tag: Tag, s: Seq<u8>, pos: int)
    requires
        tag.wf(),
        holds_at(s, pos, tag.spec_encode()),
    ensures
        Tag::spec_decode(s, pos) == Ok::<(Tag, int), Error>((tag, pos + tag.spec_encode().len())),
{
    reveal(Tag::spec_decode);
    let enc = tag.spec_encode();
    let n = enc.len() as int;
    let ext_num = tag.number.spec_extended_number();
    let m = ext_num.len() as int;
    let ext_val = tag.spec_extended_value();
    let p = pos + 1 + m;
    assert(s[pos] == enc[0]) by {
        assert(s.subrange(pos, pos + n)[0] == s[pos]);
    }
    if m == 1 {
        assert(s[pos + 1] == ext_num[0]) by {
            assert(s.subrange(pos, pos + n)[1] == s[pos + 1]);
            assert(enc[1] == ext_num[0]);
        }
    }
    lemma_tag_number_round_trip(tag.number, tag.spec_low_bits(), s, pos);
    if ext_val.len() >= 1 {
        assert(s[p] == ext_val[0]) by {
            assert(s.subrange(pos, pos + n)[1 + m] == s[p]);
            assert(enc[1 + m] == ext_val[0]);
        }
    }
    if ext_val.len() == 5 {
        let be = spec_u32_be(tag.value);
        assert(s.subrange(p + 1, p + 5) =~= be) by {
            assert(s.subrange(pos, pos + n)[2 + m] == s[p + 1]);
            assert(s.subrange(pos, pos + n)[3 + m] == s[p + 2]);
            assert(s.subrange(pos, pos + n)[4 + m] == s[p + 3]);
            assert(s.subrange(pos, pos + n)[5 + m] == s[p + 4]);
            assert(enc[2 + m] == ext_val[1] && ext_val[1] == be[0]);
            assert(enc[3 + m] == ext_val[2] && ext_val[2] == be[1]);
            assert(enc[4 + m] == ext_val[3] && ext_val[3] == be[2]);
            assert(enc[5 + m] == ext_val[4] && ext_val[4] == be[3]);
        }
        lemma_u32_be_round_trip(tag.value);
    } else if ext_val.len() == 3 {
        let be = spec_u16_be(tag.value as u16);
        assert(s.subrange(p + 1, p + 3) =~= be) by {
            assert(s.subrange(pos, pos + n)[2 + m] == s[p + 1]);
            assert(s.subrange(pos, pos + n)[3 + m] == s[p + 2]);
            assert(enc[2 + m] == ext_val[1] && ext_val[1] == be[0]);
            assert(enc[3 + m] == ext_val[2] && ext_val[2] == be[1]);
        }
        lemma_u16_be_round_trip(tag.value as u16);
    }
}

/// No shorter spelling of a tag exists than the one that is written: whatever
/// bytes read as a tag, they are at least as many as the written form of that tag.
pub proof fn lemma_tag_encoding_shortest(s: Seq<u8>, pos: int)
    ensures
        Tag::spec_decode(s, pos) matches Ok((tag, p)) ==> tag.spec_encode().len() <= p - pos,
{
    reveal(Tag::spec_decode);
}

/// Cutting the bytes short does not change what a tag reads as, so long as
/// the cut lies behind it; a cut through the tag makes the read fail for want of bytes.
pub proof fn lemma_tag_decode_cut(s: Seq<u8>, pos: int, k: int)
    requires
        0 <= k <= s.len(),
    ensures
        Tag::spec_decode(s.take(k), pos) == cut_short(Tag::spec_decode(s, pos), k),
{
    reveal(Tag::spec_decode);
    let t = s.take(k);
    match spec_decode_tag_number(t, pos) {
        Ok(((number, byte0), p)) => {
            if spec_is_extended_value(byte0) {
                match spec_read_byte(t, p) {
                    Ok((byte, at2)) => {
                        lemma_read_bytes_cut(s, at2, 4, k);
                        lemma_read_bytes_cut(s, at2, 2, k);
                    },
                    Err(_) => {},
                }
            }
        },
        Err(_) => {},
    }
}

/// The same for a tag whose class and number are checked, where the check passes.
pub proof fn lemma_tag_decode_expected_cut(s: Seq<u8>, pos: int, expected: TagNumber, k: int)
    requires
        0 <= k <= s.len(),
        Tag::spec_decode_expected(s, pos, expected) is Ok,
    ensures
        Tag::spec_decode_expected(s.take(k), pos, expected) == cut_short(
            Tag::spec_decode_expected(s, pos, expected),
            k,
        ),
{
    lemma_tag_decode_cut(s, pos, k);
}

/// A written tag that loses one or more bytes at its end no longer reads:
/// the read fails for want of bytes.
pub proof fn lemma_tag_truncated(tag: Tag, k: int)
    requires
        tag.wf(),
        0 <= k < tag.spec_encode().len(),
    ensures
        Tag::spec_decode(tag.spec_encode().take(k), 0) == Err::<(Tag, int), Error>(
            Error::BufferBounds,
        ),
{
    let enc = tag.spec_encode();
    assert(enc.subrange(0, enc.len() as int) =~= enc);
    lemma_tag_round_trip(tag, enc, 0);
    lemma_tag_decode_cut(enc, 0, k);
}

} // verus!
