use vstd::prelude::*;
use crate::common::endian::{
    spec_u16_from_be, spec_u24_from_be, spec_u32_be, spec_u32_from_be, u16_from_be, u32_from_be,
    u32_to_be,
};
use crate::common::error::Error;
use crate::common::io::{
    cut_short, group_writer, holds_at, lemma_holds_at_split, lemma_read_bytes_cut, moved_on,
    read_as, spec_read_bytes, wrote, Reader, Writer,
};
use crate::common::object_id::{
    lemma_object_id_decode_cut, lemma_object_id_round_trip, ObjectId, OBJECT_ID_LEN,
};
use crate::common::property_id::PropertyId;
use crate::common::tag::{
    lemma_tag_decode_bounds, lemma_tag_decode_cut, lemma_tag_round_trip, ApplicationTagNumber, Tag,
    TagNumber,
};

verus! {

broadcast use group_writer;

/// The array index that stands for the whole array.
pub const BACNET_ARRAY_ALL: u32 = 0xFFFF_FFFF;

/// The number of bytes that the shortest form of an unsigned number takes.
pub open spec fn spec_unsigned_len(value: u32) -> int {
    if value < 0x100 {
        1
    } else if value < 0x1_0000 {
        2
    } else if value < 0x100_0000 {
        3
    } else {
        4
    }
}

/// The low `len` bytes of `value`, the highest first.
pub open spec fn spec_be_bytes(value: u32, len: int) -> Seq<u8> {
    spec_u32_be(value).subrange(4 - len, 4)
}

/// The number that one to four bytes spell, the highest first.
pub open spec fn spec_from_be(bytes: Seq<u8>) -> u32 {
    if bytes.len() == 1 {
        bytes[0] as u32
    } else if bytes.len() == 2 {
        spec_u16_from_be(bytes) as u32
    } else if bytes.len() == 3 {
        spec_u24_from_be(bytes)
    } else {
        spec_u32_from_be(bytes)
    }
}

/// The shortest form of an unsigned number.
pub open spec fn spec_encode_unsigned(value: u32) -> Seq<u8> {
    spec_be_bytes(value, spec_unsigned_len(value))
}

/// The unsigned number in the `len` bytes from `pos` on; one to four bytes are taken.
pub open spec fn spec_decode_unsigned(len: u32, s: Seq<u8>, pos: int) -> Result<(u32, int), Error> {
    if len < 1 || len > 4 {
        Err(Error::InvalidValue)
    } else {
        match spec_read_bytes(s, pos, len as int) {
            Err(e) => Err(e),
            Ok((bytes, p)) => Ok((spec_from_be(bytes), p)),
        }
    }
}

/// The number of bytes that the shortest two's complement form of a signed number takes.
pub open spec fn spec_signed_len(value: i32) -> int {
    if -0x80 <= value < 0x80 {
        1
    } else if -0x8000 <= value < 0x8000 {
        2
    } else if -0x80_0000 <= value < 0x80_0000 {
        3
    } else {
        4
    }
}

/// The value of `value` as an unsigned number of 32 bits in two's complement.
pub open spec fn spec_twos_complement(value: i32) -> u32 {
    if value < 0 {
        (value + 0x1_0000_0000) as u32
    } else {
        value as u32
    }
}

/// The signed number that `bytes` spell in two's complement, the highest byte first.
pub open spec fn spec_signed_from_be(bytes: Seq<u8>) -> i32 {
    let u = spec_from_be(bytes) as int;
    let half: int = if bytes.len() == 1 {
        0x80
    } else if bytes.len() == 2 {
        0x8000
    } else if bytes.len() == 3 {
        0x80_0000
    } else {
        0x8000_0000
    };
    if u >= half {
        (u - 2 * half) as i32
    } else {
        u as i32
    }
}

/// The shortest two's complement form of a signed number.
pub open spec fn spec_encode_signed(value: i32) -> Seq<u8> {
    spec_be_bytes(spec_twos_complement(value), spec_signed_len(value))
}

/// The signed number in the `len` bytes from `pos` on; one to four bytes are taken.
pub open spec fn spec_decode_signed(len: u32, s: Seq<u8>, pos: int) -> Result<(i32, int), Error> {
    if len < 1 || len > 4 {
        Err(Error::InvalidValue)
    } else {
        match spec_read_bytes(s, pos, len as int) {
            Err(e) => Err(e),
            Ok((bytes, p)) => Ok((spec_signed_from_be(bytes), p)),
        }
    }
}

/// A context tag that carries the length of an unsigned number, then the number.
pub open spec fn spec_encode_context_unsigned(tag_number: u8, value: u32) -> Seq<u8> {
    Tag {
        number: TagNumber::ContextSpecific(tag_number),
        value: spec_unsigned_len(value) as u32,
    }.spec_encode() + spec_encode_unsigned(value)
}

/// The application tag of an unsigned number with its length, then the number.
pub open spec fn spec_encode_application_unsigned(value: u32) -> Seq<u8> {
    Tag {
        number: TagNumber::Application(ApplicationTagNumber::UnsignedInt),
        value: spec_unsigned_len(value) as u32,
    }.spec_encode() + spec_encode_unsigned(value)
}

/// The application tag of a signed number with its length, then the number.
pub open spec fn spec_encode_application_signed(value: i32) -> Seq<u8> {
    Tag {
        number: TagNumber::Application(ApplicationTagNumber::SignedInt),
        value: spec_signed_len(value) as u32,
    }.spec_encode() + spec_encode_signed(value)
}

/// A context tag of length 4, then the object identifier.
pub open spec fn spec_encode_context_object_id(tag_number: u8, object_id: ObjectId) -> Seq<u8> {
    Tag { number: TagNumber::ContextSpecific(tag_number), value: OBJECT_ID_LEN }.spec_encode()
        + object_id.spec_encode()
}

/// The opening tag with the number `tag_number`.
pub open spec fn spec_encode_opening_tag(tag_number: u8) -> Seq<u8> {
    Tag { number: TagNumber::ContextSpecificOpening(tag_number), value: 0 }.spec_encode()
}

/// The closing tag with the number `tag_number`.
pub open spec fn spec_encode_closing_tag(tag_number: u8) -> Seq<u8> {
    Tag { number: TagNumber::ContextSpecificClosing(tag_number), value: 0 }.spec_encode()
}

/// The object identifier behind the context tag `tag_number`.
pub open spec fn spec_decode_context_object_id(s: Seq<u8>, pos: int, tag_number: u8) -> Result<
    (ObjectId, int),
    Error,
> {
    match Tag::spec_decode_expected(s, pos, TagNumber::ContextSpecific(tag_number)) {
        Err(e) => Err(e),
        Ok((tag, p)) => ObjectId::spec_decode(tag.value, s, p),
    }
}

/// The unsigned number behind the context tag `tag_number`.
pub open spec fn spec_decode_context_unsigned(s: Seq<u8>, pos: int, tag_number: u8) -> Result<
    (u32, int),
    Error,
> {
    match Tag::spec_decode_expected(s, pos, TagNumber::ContextSpecific(tag_number)) {
        Err(e) => Err(e),
        Ok((tag, p)) => spec_decode_unsigned(tag.value, s, p),
    }
}

/// The property identifier behind the context tag `tag_number`.
pub open spec fn spec_decode_context_property_id(s: Seq<u8>, pos: int, tag_number: u8) -> Result<
    (PropertyId, int),
    Error,
> {
    match spec_decode_context_unsigned(s, pos, tag_number) {
        Err(e) => Err(e),
        Ok((value, p)) => Ok((PropertyId(value), p)),
    }
}

/// The number of bytes that the shortest form of an unsigned number takes.
pub fn unsigned_len(value: u32) -> (r: usize)
    ensures
        r == spec_unsigned_len(value),
{
    if value < 0x100 {
        1
    } else if value < 0x1_0000 {
        2
    } else if value < 0x100_0000 {
        3
    } else {
        4
    }
}

/// The number of bytes that the shortest two's complement form of a signed number takes.
pub fn signed_len(value: i32) -> (r: usize)
    ensures
        r == spec_signed_len(value),
{
    if -0x80 <= value && value < 0x80 {
        1
    } else if -0x8000 <= value && value < 0x8000 {
        2
    } else if -0x80_0000 <= value && value < 0x80_0000 {
        3
    } else {
        4
    }
}

/// Writes the low `len` bytes of `value`, the highest first.
fn encode_be_bytes(writer: &mut Writer, value: u32, len: usize) -> (r: Result<(), Error>)
    requires
        old(writer).wf(),
        1 <= len <= 4,
    ensures
        wrote(r, old(writer), final(writer), spec_be_bytes(value, len as int)),
        final(final(writer).buf)@ == final(old(writer).buf)@,
{
    let bytes = u32_to_be(value);
    writer.extend_from_slice(vstd::slice::slice_subrange(bytes.as_slice(), 4 - len, 4))
}

/// Writes an unsigned number in its shortest form.
pub fn encode_unsigned(writer: &mut Writer, value: u32) -> (r: Result<(), Error>)
    requires
        old(writer).wf(),
    ensures
        wrote(r, old(writer), final(writer), spec_encode_unsigned(value)),
        final(final(writer).buf)@ == final(old(writer).buf)@,
{
    encode_be_bytes(writer, value, unsigned_len(value))
}

/// Writes a signed number in its shortest two's complement form.
pub fn encode_signed(writer: &mut Writer, value: i32) -> (r: Result<(), Error>)
    requires
        old(writer).wf(),
    ensures
        wrote(r, old(writer), final(writer), spec_encode_signed(value)),
        final(final(writer).buf)@ == final(old(writer).buf)@,
{
    let unsigned: u32 = if value < 0 {
        (value as i64 + 0x1_0000_0000) as u32
    } else {
        value as u32
    };
    encode_be_bytes(writer, unsigned, signed_len(value))
}

/// Reads an unsigned number of `len` bytes.
pub fn decode_unsigned(len: u32, reader: &mut Reader, buf: &[u8]) -> (r: Result<u32, Error>)
    ensures
        read_as(
            r,
            spec_decode_unsigned(len, old(reader).region(buf@), old(reader).index as int),
            *old(reader),
            *final(reader),
        ),
{
    proof {
        reveal(spec_u24_from_be);
    }
    match len {
        1 => {
            let b = reader.read_bytes::<1>(buf)?;
            Ok(b[0] as u32)
        },
        2 => {
            let b = reader.read_bytes::<2>(buf)?;
            Ok(u16_from_be(b) as u32)
        },
        3 => {
            let b = reader.read_bytes::<3>(buf)?;
            Ok((b[0] as u32) * 65536 + (b[1] as u32) * 256 + (b[2] as u32))
        },
        4 => {
            let b = reader.read_bytes::<4>(buf)?;
            Ok(u32_from_be(b))
        },
        _ => Err(Error::InvalidValue),
    }
}

/// Reads a signed number of `len` bytes.
pub fn decode_signed(len: u32, reader: &mut Reader, buf: &[u8]) -> (r: Result<i32, Error>)
    ensures
        read_as(
            r,
            spec_decode_signed(len, old(reader).region(buf@), old(reader).index as int),
            *old(reader),
            *final(reader),
        ),
{
    let unsigned = decode_unsigned(len, reader, buf)?;
    let half: i64 = match len {
        1 => 0x80,
        2 => 0x8000,
        3 => 0x80_0000,
        _ => 0x8000_0000,
    };
    if unsigned as i64 >= half {
        Ok((unsigned as i64 - 2 * half) as i32)
    } else {
        Ok(unsigned as i32)
    }
}

/// Writes an unsigned number behind the context tag `tag_number`.
pub fn encode_context_unsigned(writer: &mut Writer, tag_number: u8, value: u32) -> (r: Result<
    (),
    Error,
>)
    requires
        old(writer).wf(),
    ensures
        wrote(r, old(writer), final(writer), spec_encode_context_unsigned(tag_number, value)),
        final(final(writer).buf)@ == final(old(writer).buf)@,
{
    let len = unsigned_len(value) as u32;
    Tag::new(TagNumber::ContextSpecific(tag_number), len).encode(writer)?;
    encode_unsigned(writer, value)
}

/// Writes a property identifier behind the context tag `tag_number`.
pub fn encode_context_enumerated(
    writer: &mut Writer,
    tag_number: u8,
    property_id: &PropertyId,
) -> (r: Result<(), Error>)
    requires
        old(writer).wf(),
    ensures
        wrote(
            r,
            old(writer),
            final(writer),
            spec_encode_context_unsigned(tag_number, property_id.0),
        ),
        final(final(writer).buf)@ == final(old(writer).buf)@,
{
    encode_context_unsigned(writer, tag_number, property_id.0)
}

/// Writes an unsigned number behind its application tag.
pub fn encode_application_unsigned(writer: &mut Writer, value: u32) -> (r: Result<(), Error>)
    requires
        old(writer).wf(),
    ensures
        wrote(r, old(writer), final(writer), spec_encode_application_unsigned(value)),
        final(final(writer).buf)@ == final(old(writer).buf)@,
{
    let len = unsigned_len(value) as u32;
    Tag::new(TagNumber::Application(ApplicationTagNumber::UnsignedInt), len).encode(writer)?;
    encode_unsigned(writer, value)
}

/// Writes a signed number behind its application tag.
pub fn encode_application_signed(writer: &mut Writer, value: i32) -> (r: Result<(), Error>)
    requires
        old(writer).wf(),
    ensures
        wrote(r, old(writer), final(writer), spec_encode_application_signed(value)),
        final(final(writer).buf)@ == final(old(writer).buf)@,
{
    let len = signed_len(value) as u32;
    Tag::new(TagNumber::Application(ApplicationTagNumber::SignedInt), len).encode(writer)?;
    encode_signed(writer, value)
}

/// Writes an object identifier behind the context tag `tag_number`.
pub fn encode_context_object_id(writer: &mut Writer, tag_number: u8, object_id: &ObjectId) -> (r:
    Result<(), Error>)
    requires
        old(writer).wf(),
    ensures
        wrote(r, old(writer), final(writer), spec_encode_context_object_id(tag_number, *object_id)),
        final(final(writer).buf)@ == final(old(writer).buf)@,
{
    Tag::new(TagNumber::ContextSpecific(tag_number), OBJECT_ID_LEN).encode(writer)?;
    object_id.encode(writer)
}

/// Writes the opening tag with the number `tag_number`.
pub fn encode_opening_tag(writer: &mut Writer, tag_number: u8) -> (r: Result<(), Error>)
    requires
        old(writer).wf(),
    ensures
        wrote(r, old(writer), final(writer), spec_encode_opening_tag(tag_number)),
        final(final(writer).buf)@ == final(old(writer).buf)@,
{
    Tag::new(TagNumber::ContextSpecificOpening(tag_number), 0).encode(writer)
}

/// Writes the closing tag with the number `tag_number`.
pub fn encode_closing_tag(writer: &mut Writer, tag_number: u8) -> (r: Result<(), Error>)
    requires
        old(writer).wf(),
    ensures
        wrote(r, old(writer), final(writer), spec_encode_closing_tag(tag_number)),
        final(final(writer).buf)@ == final(old(writer).buf)@,
{
    Tag::new(TagNumber::ContextSpecificClosing(tag_number), 0).encode(writer)
}

/// Reads an object identifier behind the context tag `tag_number`.
pub fn decode_context_object_id(reader: &mut Reader, buf: &[u8], tag_number: u8) -> (r: Result<
    ObjectId,
    Error,
>)
    ensures
        read_as(
            r,
            spec_decode_context_object_id(
                old(reader).region(buf@),
                old(reader).index as int,
                tag_number,
            ),
            *old(reader),
            *final(reader),
        ),
{
    let tag = Tag::decode_expected(reader, buf, TagNumber::ContextSpecific(tag_number))?;
    ObjectId::decode(tag.value, reader, buf)
}

/// Reads an unsigned number behind the context tag `tag_number`.
pub fn decode_context_unsigned(reader: &mut Reader, buf: &[u8], tag_number: u8) -> (r: Result<
    u32,
    Error,
>)
    ensures
        read_as(
            r,
            spec_decode_context_unsigned(
                old(reader).region(buf@),
                old(reader).index as int,
                tag_number,
            ),
            *old(reader),
            *final(reader),
        ),
{
    let tag = Tag::decode_expected(reader, buf, TagNumber::ContextSpecific(tag_number))?;
    decode_unsigned(tag.value, reader, buf)
}

/// Reads a property identifier behind the context tag `tag_number`.
pub fn decode_context_property_id(reader: &mut Reader, buf: &[u8], tag_number: u8) -> (r: Result<
    PropertyId,
    Error,
>)
    ensures
        read_as(
            r,
            spec_decode_context_property_id(
                old(reader).region(buf@),
                old(reader).index as int,
                tag_number,
            ),
            *old(reader),
            *final(reader),
        ),
{
    let value = decode_context_unsigned(reader, buf, tag_number)?;
    Ok(PropertyId(value))
}

/// Where the closing tag `tag_number` stands that ends a bracket whose
/// opening tag was read just before `pos`, and where its bytes end. The
/// walk goes from tag to tag and steps over the bytes that a tag's length
/// announces; a bracket of the same number inside the bracket, of which
/// `depth` are open, is stepped over together with what it holds.
pub open spec fn spec_find_closing(s: Seq<u8>, pos: int, tag_number: u8, depth: nat) -> Result<
    (int, int),
    Error,
>
    decreases s.len() - pos,
{
    match Tag::spec_decode(s, pos) {
        Err(e) => Err(e),
        Ok((tag, p)) => {
            proof {
                lemma_tag_decode_bounds(s, pos);
            }
            if tag.number == TagNumber::ContextSpecificClosing(tag_number) {
                if depth == 0 {
                    Ok((pos, p))
                } else {
                    spec_find_closing(s, p, tag_number, (depth - 1) as nat)
                }
            } else if tag.number == TagNumber::ContextSpecificOpening(tag_number) {
                spec_find_closing(s, p, tag_number, depth + 1)
            } else if tag.number.is_bracket() || tag.number == TagNumber::Application(
                ApplicationTagNumber::Boolean,
            ) {
                // these carry no bytes behind the tag
                spec_find_closing(s, p, tag_number, depth)
            } else if p + tag.value > s.len() {
                Err(Error::BufferBounds)
            } else {
                spec_find_closing(s, p + tag.value, tag_number, depth)
            }
        },
    }
}

/// The bounds of what the bracket `tag_number` holds that opens at `pos`,
/// and the position behind its closing tag.
pub open spec fn spec_tagged_body(s: Seq<u8>, pos: int, tag_number: u8) -> Result<
    ((int, int), int),
    Error,
> {
    match Tag::spec_decode_expected(s, pos, TagNumber::ContextSpecificOpening(tag_number)) {
        Err(e) => Err(e),
        Ok((_, start)) => match spec_find_closing(s, start, tag_number, 0) {
            Err(e) => Err(e),
            Ok((end, p)) => Ok(((start, end), p)),
        },
    }
}

/// What `spec_find_closing` finds lies in the bytes, in this order.
pub proof fn lemma_find_closing_bounds(s: Seq<u8>, pos: int, tag_number: u8, depth: nat)
    requires
        0 <= pos,
    ensures
        spec_find_closing(s, pos, tag_number, depth) matches Ok((end, p)) ==> pos <= end < p
            <= s.len(),
    decreases s.len() - pos,
{
    lemma_tag_decode_bounds(s, pos);
    match Tag::spec_decode(s, pos) {
        Err(e) => {},
        Ok((tag, p)) => {
            if tag.number == TagNumber::ContextSpecificClosing(tag_number) {
                if depth != 0 {
                    lemma_find_closing_bounds(s, p, tag_number, (depth - 1) as nat);
                }
            } else if tag.number == TagNumber::ContextSpecificOpening(tag_number) {
                lemma_find_closing_bounds(s, p, tag_number, depth + 1);
            } else if tag.number.is_bracket() || tag.number == TagNumber::Application(
                ApplicationTagNumber::Boolean,
            ) {
                lemma_find_closing_bounds(s, p, tag_number, depth);
            } else if p + tag.value <= s.len() {
                lemma_find_closing_bounds(s, p + tag.value, tag_number, depth);
            }
        },
    }
}

/// The number of bytes that a tag announces behind itself: none for a
/// bracket and for a boolean, else its value.
pub open spec fn spec_announced_len(tag: Tag) -> int {
    if tag.number.is_bracket() || tag.number == TagNumber::Application(
        ApplicationTagNumber::Boolean,
    ) {
        0
    } else {
        tag.value as int
    }
}

/// The walk to the closing tag steps over a tag that is no bracket of the
/// number looked for, together with the bytes that the tag announces.
pub proof fn lemma_find_closing_steps_over(
    tag: Tag,
    s: Seq<u8>,
    pos: int,
    tag_number: u8,
    depth: nat,
)
    requires
        tag.wf(),
        holds_at(s, pos, tag.spec_encode()),
        tag.number != TagNumber::ContextSpecificClosing(tag_number),
        tag.number != TagNumber::ContextSpecificOpening(tag_number),
        pos + tag.spec_encode().len() + spec_announced_len(tag) <= s.len(),
    ensures
        spec_find_closing(s, pos, tag_number, depth) == spec_find_closing(
            s,
            pos + tag.spec_encode().len() + spec_announced_len(tag),
            tag_number,
            depth,
        ),
{
    lemma_tag_round_trip(tag, s, pos);
}

/// The walk to the closing tag ends at that tag where no bracket is open.
pub proof fn lemma_find_closing_ends(s: Seq<u8>, pos: int, tag_number: u8)
    requires
        holds_at(s, pos, spec_encode_closing_tag(tag_number)),
    ensures
        spec_find_closing(s, pos, tag_number, 0) == Ok::<(int, int), Error>(
            (pos, pos + spec_encode_closing_tag(tag_number).len()),
        ),
{
    lemma_tag_round_trip(
        Tag { number: TagNumber::ContextSpecificClosing(tag_number), value: 0 },
        s,
        pos,
    );
}

/// Reads the opening tag `tag_number` and finds the closing tag that
/// matches it. What stands between the two comes back as a view into `buf`,
/// unread, and the cursor stands behind the closing tag.
pub fn get_tagged_body_for_tag<'a>(reader: &mut Reader, buf: &'a [u8], tag_number: u8) -> (r:
    Result<&'a [u8], Error>)
    ensures
        final(reader).end == old(reader).end,
        moved_on(*old(reader), *final(reader)),
        match spec_tagged_body(old(reader).region(buf@), old(reader).index as int, tag_number) {
            Ok(((start, end), p)) => r is Ok && r->Ok_0@ == old(reader).region(buf@).subrange(
                start,
                end,
            ) && final(reader).index == p,
            Err(e) => r == Err::<&[u8], Error>(e),
        },
{
    proof {
        lemma_tag_decode_bounds(reader.region(buf@), reader.index as int);
    }
    Tag::decode_expected(reader, buf, TagNumber::ContextSpecificOpening(tag_number))?;
    let ghost s = reader.region(buf@);
    let start: usize = reader.index;
    let mut depth: usize = 0;
    loop
        invariant
            s == reader.region(buf@),
            s == old(reader).region(buf@),
            reader.end == old(reader).end,
            moved_on(*old(reader), *reader),
            old(reader).index <= start <= reader.index,
            start <= s.len(),
            spec_tagged_body(s, old(reader).index as int, tag_number) == (match spec_find_closing(
                s,
                start as int,
                tag_number,
                0,
            ) {
                Err(e) => Err::<((int, int), int), Error>(e),
                Ok((end, p)) => Ok::<((int, int), int), Error>(((start as int, end), p)),
            }),
            spec_find_closing(s, start as int, tag_number, 0) == spec_find_closing(
                s,
                reader.index as int,
                tag_number,
                depth as nat,
            ),
            depth <= reader.index - start,
        decreases s.len() - reader.index,
    {
        let at: usize = reader.index;
        proof {
            lemma_tag_decode_bounds(s, at as int);
        }
        let tag = Tag::decode(reader, buf)?;
        match tag.number {
            TagNumber::ContextSpecificClosing(n) if n == tag_number => {
                if depth == 0 {
                    assert(buf@.subrange(start as int, at as int) =~= s.subrange(
                        start as int,
                        at as int,
                    ));
                    return Ok(vstd::slice::slice_subrange(buf, start, at));
                }
                depth -= 1;
            },
            TagNumber::ContextSpecificOpening(n) if n == tag_number => {
                depth += 1;
            },
            TagNumber::ContextSpecificOpening(_)
            | TagNumber::ContextSpecificClosing(_)
            | TagNumber::Application(ApplicationTagNumber::Boolean) => {},
            _ => {
                let limit: usize = if reader.end <= buf.len() {
                    reader.end
                } else {
                    buf.len()
                };
                if tag.value as usize > limit - reader.index {
                    return Err(Error::BufferBounds);
                }
                reader.index += tag.value as usize;
            },
        }
    }
}

/// The low `len` bytes of a number spell the number modulo 256 to the power `len`.
pub proof fn lemma_be_bytes(value: u32, len: int)
    requires
        1 <= len <= 4,
    ensures
        spec_be_bytes(value, len).len() == len,
        len == 1 ==> spec_from_be(spec_be_bytes(value, len)) == value % 0x100,
        len == 2 ==> spec_from_be(spec_be_bytes(value, len)) == value % 0x1_0000,
        len == 3 ==> spec_from_be(spec_be_bytes(value, len)) == value % 0x100_0000,
        len == 4 ==> spec_from_be(spec_be_bytes(value, len)) == value,
{
    reveal(spec_u16_from_be);
    reveal(spec_u24_from_be);
    reveal(spec_u32_from_be);
    let bytes = spec_be_bytes(value, len);
    let full = spec_u32_be(value);
    assert(bytes.len() == len);
    assert(bytes[len - 1] == full[3]);
    if len >= 2 {
        assert(bytes[len - 2] == full[2]);
    }
    if len >= 3 {
        assert(bytes[len - 3] == full[1]);
    }
    if len >= 4 {
        assert(bytes[len - 4] == full[0]);
    }
    assert(((value / 256) % 256) * 256 + value % 256 == value % 0x1_0000) by (bit_vector);
    assert(((value / 65536) % 256) * 65536 + ((value / 256) % 256) * 256 + value % 256 == value
        % 0x100_0000) by (bit_vector);
    assert((value / 16777216) * 16777216 + ((value / 65536) % 256) * 65536 + ((value / 256) % 256)
        * 256 + value % 256 == value) by (bit_vector);
}

/// An unsigned number is read back as it was written: where its shortest
/// form stands in `s`, a read that is told that form's length returns it.
pub proof fn lemma_unsigned_round_trip(value: u32, s: Seq<u8>, pos: int)
    requires
        holds_at(s, pos, spec_encode_unsigned(value)),
    ensures
        spec_encode_unsigned(value).len() == spec_unsigned_len(value),
        spec_decode_unsigned(spec_unsigned_len(value) as u32, s, pos) == Ok::<(u32, int), Error>(
            (value, pos + spec_unsigned_len(value)),
        ),
{
    lemma_be_bytes(value, spec_unsigned_len(value));
}

/// Cutting a negative number's two's complement down to the bytes of its
/// shortest form leaves the number plus 256 to the power of that length.
proof fn lemma_twos_complement_low(value: int, len: int)
    requires
        -0x8000_0000 <= value < 0,
        len == 1 ==> -0x80 <= value,
        len == 2 ==> -0x8000 <= value,
        len == 3 ==> -0x80_0000 <= value,
        1 <= len <= 4,
    ensures
        len == 1 ==> (value + 0x1_0000_0000) % 0x100 == value + 0x100,
        len == 2 ==> (value + 0x1_0000_0000) % 0x1_0000 == value + 0x1_0000,
        len == 3 ==> (value + 0x1_0000_0000) % 0x100_0000 == value + 0x100_0000,
{
}

/// A signed number is read back as it was written: where its shortest form
/// stands in `s`, a read that is told that form's length returns it.
pub proof fn lemma_signed_round_trip(value: i32, s: Seq<u8>, pos: int)
    requires
        holds_at(s, pos, spec_encode_signed(value)),
    ensures
        spec_encode_signed(value).len() == spec_signed_len(value),
        spec_decode_signed(spec_signed_len(value) as u32, s, pos) == Ok::<(i32, int), Error>(
            (value, pos + spec_signed_len(value)),
        ),
{
    let len = spec_signed_len(value);
    let u = spec_twos_complement(value);
    lemma_be_bytes(u, len);
    if value < 0 {
        lemma_twos_complement_low(value as int, len);
    }
}

/// An unsigned number behind a context tag is read back as it was written.
pub proof fn lemma_context_unsigned_round_trip(tag_number: u8, value: u32, s: Seq<u8>, pos: int)
    requires
        holds_at(s, pos, spec_encode_context_unsigned(tag_number, value)),
    ensures
        Tag::spec_decode(s, pos) matches Ok((tag, p)) && tag.number == TagNumber::ContextSpecific(
            tag_number,
        ) && pos < p && spec_decode_unsigned(tag.value, s, p) == Ok::<(u32, int), Error>(
            (value, pos + spec_encode_context_unsigned(tag_number, value).len()),
        ),
        spec_decode_context_unsigned(s, pos, tag_number) == Ok::<(u32, int), Error>(
            (value, pos + spec_encode_context_unsigned(tag_number, value).len()),
        ),
        spec_decode_context_property_id(s, pos, tag_number) == Ok::<(PropertyId, int), Error>(
            (PropertyId(value), pos + spec_encode_context_unsigned(tag_number, value).len()),
        ),
{
    let tag = Tag {
        number: TagNumber::ContextSpecific(tag_number),
        value: spec_unsigned_len(value) as u32,
    };
    lemma_holds_at_split(s, pos, tag.spec_encode(), spec_encode_unsigned(value));
    lemma_tag_round_trip(tag, s, pos);
    lemma_tag_decode_bounds(s, pos);
    lemma_unsigned_round_trip(value, s, pos + tag.spec_encode().len());
}

/// An object identifier behind a context tag is read back as it was written.
pub proof fn lemma_context_object_id_round_trip(
    tag_number: u8,
    object_id: ObjectId,
    s: Seq<u8>,
    pos: int,
)
    requires
        object_id.wf(),
        holds_at(s, pos, spec_encode_context_object_id(tag_number, object_id)),
    ensures
        spec_encode_context_object_id(tag_number, object_id).len() > 0,
        spec_decode_context_object_id(s, pos, tag_number) == Ok::<(ObjectId, int), Error>(
            (object_id, pos + spec_encode_context_object_id(tag_number, object_id).len()),
        ),
{
    let tag = Tag { number: TagNumber::ContextSpecific(tag_number), value: OBJECT_ID_LEN };
    lemma_holds_at_split(s, pos, tag.spec_encode(), object_id.spec_encode());
    lemma_tag_round_trip(tag, s, pos);
    lemma_tag_decode_bounds(s, pos);
    lemma_object_id_round_trip(object_id);
}

/// An unsigned number behind its application tag is read back as it was written.
pub proof fn lemma_application_unsigned_round_trip(value: u32, s: Seq<u8>, pos: int)
    requires
        holds_at(s, pos, spec_encode_application_unsigned(value)),
    ensures
        Tag::spec_decode(s, pos) matches Ok((tag, p)) && tag.number == TagNumber::Application(
            ApplicationTagNumber::UnsignedInt,
        ) && spec_decode_unsigned(tag.value, s, p) == Ok::<(u32, int), Error>(
            (value, pos + spec_encode_application_unsigned(value).len()),
        ),
{
    let tag = Tag {
        number: TagNumber::Application(ApplicationTagNumber::UnsignedInt),
        value: spec_unsigned_len(value) as u32,
    };
    lemma_holds_at_split(s, pos, tag.spec_encode(), spec_encode_unsigned(value));
    lemma_tag_round_trip(tag, s, pos);
    lemma_unsigned_round_trip(value, s, pos + tag.spec_encode().len());
}

/// A signed number behind its application tag is read back as it was written.
pub proof fn lemma_application_signed_round_trip(value: i32, s: Seq<u8>, pos: int)
    requires
        holds_at(s, pos, spec_encode_application_signed(value)),
    ensures
        Tag::spec_decode(s, pos) matches Ok((tag, p)) && tag.number == TagNumber::Application(
            ApplicationTagNumber::SignedInt,
        ) && spec_decode_signed(tag.value, s, p) == Ok::<(i32, int), Error>(
            (value, pos + spec_encode_application_signed(value).len()),
        ),
{
    let tag = Tag {
        number: TagNumber::Application(ApplicationTagNumber::SignedInt),
        value: spec_signed_len(value) as u32,
    };
    lemma_holds_at_split(s, pos, tag.spec_encode(), spec_encode_signed(value));
    lemma_tag_round_trip(tag, s, pos);
    lemma_signed_round_trip(value, s, pos + tag.spec_encode().len());
}

/// Cutting the bytes short does not change what an unsigned number reads
/// as, so long as the cut lies behind it; a cut through it makes the read
/// fail for want of bytes.
pub proof fn lemma_decode_unsigned_cut(len: u32, s: Seq<u8>, pos: int, k: int)
    requires
        0 <= k <= s.len(),
        spec_decode_unsigned(len, s, pos) is Ok,
    ensures
        spec_decode_unsigned(len, s.take(k), pos) == cut_short(
            spec_decode_unsigned(len, s, pos),
            k,
        ),
{
    lemma_read_bytes_cut(s, pos, len as int, k);
}

/// The same for a signed number.
pub proof fn lemma_decode_signed_cut(len: u32, s: Seq<u8>, pos: int, k: int)
    requires
        0 <= k <= s.len(),
        spec_decode_signed(len, s, pos) is Ok,
    ensures
        spec_decode_signed(len, s.take(k), pos) == cut_short(spec_decode_signed(len, s, pos), k),
{
    lemma_read_bytes_cut(s, pos, len as int, k);
}

/// The same for an unsigned number and a property identifier behind a context tag.
pub proof fn lemma_decode_context_unsigned_cut(s: Seq<u8>, pos: int, tag_number: u8, k: int)
    requires
        0 <= k <= s.len(),
        spec_decode_context_unsigned(s, pos, tag_number) is Ok,
    ensures
        spec_decode_context_unsigned(s.take(k), pos, tag_number) == cut_short(
            spec_decode_context_unsigned(s, pos, tag_number),
            k,
        ),
        spec_decode_context_property_id(s.take(k), pos, tag_number) == cut_short(
            spec_decode_context_property_id(s, pos, tag_number),
            k,
        ),
        spec_decode_context_unsigned(s, pos, tag_number) matches Ok((_, p)) && pos < p <= s.len(),
{
    lemma_tag_decode_cut(s, pos, k);
    lemma_tag_decode_bounds(s, pos);
    let (tag, p) = Tag::spec_decode(s, pos)->Ok_0;
    lemma_decode_unsigned_cut(tag.value, s, p, k);
}

/// The same for an object identifier behind a context tag.
pub proof fn lemma_decode_context_object_id_cut(s: Seq<u8>, pos: int, tag_number: u8, k: int)
    requires
        0 <= k <= s.len(),
        spec_decode_context_object_id(s, pos, tag_number) is Ok,
    ensures
        spec_decode_context_object_id(s.take(k), pos, tag_number) == cut_short(
            spec_decode_context_object_id(s, pos, tag_number),
            k,
        ),
        spec_decode_context_object_id(s, pos, tag_number) matches Ok((_, p)) && pos < p <= s.len(),
{
    lemma_tag_decode_cut(s, pos, k);
    lemma_tag_decode_bounds(s, pos);
    let (tag, p) = Tag::spec_decode(s, pos)->Ok_0;
    lemma_object_id_decode_cut(tag.value, s, p, k);
}

/// Cutting the bytes short does not change where the closing tag of a
/// bracket is found, so long as the cut lies behind that tag; a cut before
/// its end makes the walk fail for want of bytes.
pub proof fn lemma_find_closing_cut(s: Seq<u8>, pos: int, tag_number: u8, depth: nat, k: int)
    requires
        0 <= pos,
        0 <= k <= s.len(),
        spec_find_closing(s, pos, tag_number, depth) is Ok,
    ensures
        spec_find_closing(s.take(k), pos, tag_number, depth) == cut_short(
            spec_find_closing(s, pos, tag_number, depth),
            k,
        ),
    decreases s.len() - pos,
{
    lemma_tag_decode_cut(s, pos, k);
    lemma_tag_decode_bounds(s, pos);
    lemma_find_closing_bounds(s, pos, tag_number, depth);
    let (tag, p) = Tag::spec_decode(s, pos)->Ok_0;
    if tag.number == TagNumber::ContextSpecificClosing(tag_number) {
        if depth != 0 {
            lemma_find_closing_bounds(s, p, tag_number, (depth - 1) as nat);
            lemma_find_closing_cut(s, p, tag_number, (depth - 1) as nat, k);
        }
    } else if tag.number == TagNumber::ContextSpecificOpening(tag_number) {
        lemma_find_closing_bounds(s, p, tag_number, depth + 1);
        lemma_find_closing_cut(s, p, tag_number, depth + 1, k);
    } else if tag.number.is_bracket() || tag.number == TagNumber::Application(
        ApplicationTagNumber::Boolean,
    ) {
        lemma_find_closing_bounds(s, p, tag_number, depth);
        lemma_find_closing_cut(s, p, tag_number, depth, k);
    } else {
        lemma_find_closing_bounds(s, p + tag.value, tag_number, depth);
        lemma_find_closing_cut(s, p + tag.value, tag_number, depth, k);
    }
}

/// The same for the bounds of what a bracket holds.
pub proof fn lemma_tagged_body_cut(s: Seq<u8>, pos: int, tag_number: u8, k: int)
    requires
        0 <= pos,
        0 <= k <= s.len(),
        spec_tagged_body(s, pos, tag_number) is Ok,
    ensures
        spec_tagged_body(s.take(k), pos, tag_number) == cut_short(
            spec_tagged_body(s, pos, tag_number),
            k,
        ),
        spec_tagged_body(s, pos, tag_number) matches Ok(((start, end), p)) && pos < start <= end
            < p <= s.len(),
{
    lemma_tag_decode_cut(s, pos, k);
    lemma_tag_decode_bounds(s, pos);
    let (_, start) = Tag::spec_decode(s, pos)->Ok_0;
    lemma_find_closing_bounds(s, start, tag_number, 0);
    lemma_find_closing_cut(s, start, tag_number, 0, k);
}

} // verus!
