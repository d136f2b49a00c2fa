use vstd::prelude::*;
use crate::application_protocol::primitives::data_value::{
    lemma_application_data_value_bounds, ApplicationDataValue, ApplicationDataValueView,
    CharacterString, CharacterStringView,
};
use crate::common::error::Error;
use crate::common::helper::{
    decode_context_object_id, decode_unsigned, encode_closing_tag, encode_context_enumerated,
    encode_context_object_id, encode_context_unsigned, encode_opening_tag,
    spec_decode_context_object_id, spec_decode_unsigned, spec_encode_closing_tag,
    spec_encode_context_object_id, spec_encode_context_unsigned, spec_encode_opening_tag,
    BACNET_ARRAY_ALL,
};
use crate::common::io::{
    group_writer, lemma_appended_nothing, moved_on, read_as, read_as_view, wrote, Reader, Writer,
};
use crate::common::object_id::ObjectId;
use crate::common::property_id::{PropertyId, PROP_EVENT_TIME_STAMPS};
use crate::common::tag::{lemma_tag_decode_bounds, Tag, TagNumber};

verus! {

broadcast use group_writer;

/// The acknowledgement of a `ReadPropertyMultiple` request: for each object
/// asked about, the values of its properties.
#[derive(Debug)]
pub struct ReadPropertyMultipleAck<'a> {
    pub objects: Vec<ObjectWithResults<'a>>,
}

#[derive(Debug)]
pub struct ObjectWithResults<'a> {
    pub object_id: ObjectId,
    pub results: Vec<PropertyResult<'a>>,
}

#[derive(Debug, Clone, Copy)]
pub struct PropertyResult<'a> {
    pub id: PropertyId,
    pub value: PropertyValue<'a>,
}

/// The value of one property. The decoder gives every value that it reads
/// as `PropValue`; `PropDescription` and `PropObjectName` are for callers
/// that have told the strings of these two properties apart. `Unmodeled`
/// records a value whose grammar this codec does not know and whose bytes
/// were stepped over unread.
#[derive(Debug, Clone, Copy)]
pub enum PropertyValue<'a> {
    PropValue(ApplicationDataValue<'a>),
    PropDescription(CharacterString<'a>),
    PropObjectName(CharacterString<'a>),
    Unmodeled,
}

/// What a `PropertyValue` holds.
pub enum PropertyValueView {
    PropValue(ApplicationDataValueView),
    PropDescription(CharacterStringView),
    PropObjectName(CharacterStringView),
    Unmodeled,
}

/// What a `PropertyResult` holds.
pub struct PropertyResultView {
    pub id: PropertyId,
    pub value: PropertyValueView,
}

/// What an `ObjectWithResults` holds.
pub struct ObjectWithResultsView {
    pub object_id: ObjectId,
    pub results: Seq<PropertyResultView>,
}

/// What a `ReadPropertyMultipleAck` holds.
pub struct ReadPropertyMultipleAckView {
    pub objects: Seq<ObjectWithResultsView>,
}

impl<'a> View for PropertyValue<'a> {
    type V = PropertyValueView;

    open spec fn view(&self) -> PropertyValueView {
        match *self {
            PropertyValue::PropValue(x) => PropertyValueView::PropValue(x@),
            PropertyValue::PropDescription(x) => PropertyValueView::PropDescription(x@),
            PropertyValue::PropObjectName(x) => PropertyValueView::PropObjectName(x@),
            PropertyValue::Unmodeled => PropertyValueView::Unmodeled,
        }
    }
}

impl<'a> View for PropertyResult<'a> {
    type V = PropertyResultView;

    open spec fn view(&self) -> PropertyResultView {
        PropertyResultView { id: self.id, value: self.value@ }
    }
}

/// What a list of results holds.
pub open spec fn spec_results_view(results: Seq<PropertyResult>) -> Seq<PropertyResultView> {
    results.map_values(|r: PropertyResult| r@)
}

/// What a list of objects holds.
pub open spec fn spec_objects_view(objects: Seq<ObjectWithResults>) -> Seq<ObjectWithResultsView> {
    objects.map_values(|o: ObjectWithResults| o@)
}

impl<'a> View for ObjectWithResults<'a> {
    type V = ObjectWithResultsView;

    open spec fn view(&self) -> ObjectWithResultsView {
        ObjectWithResultsView {
            object_id: self.object_id,
            results: spec_results_view(self.results@),
        }
    }
}

impl<'a> View for ReadPropertyMultipleAck<'a> {
    type V = ReadPropertyMultipleAckView;

    open spec fn view(&self) -> ReadPropertyMultipleAckView {
        ReadPropertyMultipleAckView { objects: spec_objects_view(self.objects@) }
    }
}

pub const RPM_ACK_OBJECT_ID_TAG: u8 = 0;

pub const RPM_ACK_RESULTS_TAG: u8 = 1;

pub const RPM_ACK_PROPERTY_ID_TAG: u8 = 2;

pub const RPM_ACK_VALUE_TAG: u8 = 4;

/// The byte of the closing tag 4, which ends a value.
pub const RPM_ACK_VALUE_CLOSING_BYTE: u8 = 0x4f;

/// The position behind the first byte `byte` from `pos` on.
pub open spec fn spec_skip_past(s: Seq<u8>, pos: int, byte: u8) -> Result<int, Error>
    decreases s.len() - pos,
{
    if pos < 0 || pos >= s.len() {
        Err(Error::BufferBounds)
    } else if s[pos] == byte {
        Ok(pos + 1)
    } else {
        spec_skip_past(s, pos + 1, byte)
    }
}

/// The value of the property `property_id` in the bracket 4.
///
/// The value of the event time stamps is not read: its bytes are stepped
/// over up to the first byte that looks like the closing tag 4. Nothing
/// keeps such a byte from standing inside the value, so that for this one
/// property the place where the value is taken to end is a guess.
pub open spec fn spec_decode_property_value(property_id: PropertyId, s: Seq<u8>, pos: int) -> Result<
    (PropertyValueView, int),
    Error,
> {
    match Tag::spec_decode_expected(s, pos, TagNumber::ContextSpecificOpening(RPM_ACK_VALUE_TAG)) {
        Err(e) => Err(e),
        Ok((_, p)) => if property_id.0 == PROP_EVENT_TIME_STAMPS {
            match spec_skip_past(s, p, RPM_ACK_VALUE_CLOSING_BYTE) {
                Err(e) => Err(e),
                Ok(p) => Ok((PropertyValueView::Unmodeled, p)),
            }
        } else {
            match Tag::spec_decode(s, p) {
                Err(e) => Err(e),
                Ok((tag, p)) => match ApplicationDataValueView::spec_decode(tag, s, p) {
                    Err(e) => Err(e),
                    Ok((value, p)) => match Tag::spec_decode_expected(
                        s,
                        p,
                        TagNumber::ContextSpecificClosing(RPM_ACK_VALUE_TAG),
                    ) {
                        Err(e) => Err(e),
                        Ok((_, p)) => Ok((PropertyValueView::PropValue(value), p)),
                    },
                },
            }
        },
    }
}

/// One result or the end of the list: `None` for the closing tag 1, else
/// the property behind the context tag 2 with its value.
#[verifier::opaque]
pub open spec fn spec_decode_result(s: Seq<u8>, pos: int) -> Result<
    (Option<PropertyResultView>, int),
    Error,
> {
    match Tag::spec_decode(s, pos) {
        Err(e) => Err(e),
        Ok((tag, p)) => if tag.number == TagNumber::ContextSpecificClosing(RPM_ACK_RESULTS_TAG) {
            Ok((None, p))
        } else if tag.number != TagNumber::ContextSpecific(RPM_ACK_PROPERTY_ID_TAG) {
            Err(Error::UnexpectedTag)
        } else {
            match spec_decode_unsigned(tag.value, s, p) {
                Err(e) => Err(e),
                Ok((id, p)) => match spec_decode_property_value(PropertyId(id), s, p) {
                    Err(e) => Err(e),
                    Ok((value, p)) => Ok((Some(PropertyResultView { id: PropertyId(id), value }), p)),
                },
            }
        },
    }
}

/// The results of one object, up to and with the closing tag 1. An object
/// may have none.
pub open spec fn spec_decode_results(s: Seq<u8>, pos: int) -> Result<
    (Seq<PropertyResultView>, int),
    Error,
>
    decreases s.len() - pos,
{
    match spec_decode_result(s, pos) {
        Err(e) => Err(e),
        Ok((None, p)) => Ok((Seq::empty(), p)),
        Ok((Some(result), p)) => {
            proof {
                lemma_decode_result_bounds(s, pos);
            }
            match spec_decode_results(s, p) {
                Err(e) => Err(e),
                Ok((rest, p)) => Ok((seq![result] + rest, p)),
            }
        },
    }
}

/// One object: its identifier behind the context tag 0, then its results
/// in the bracket 1.
#[verifier::opaque]
pub open spec fn spec_decode_object(s: Seq<u8>, pos: int) -> Result<
    (ObjectWithResultsView, int),
    Error,
> {
    match spec_decode_context_object_id(s, pos, RPM_ACK_OBJECT_ID_TAG) {
        Err(e) => Err(e),
        Ok((object_id, p)) => match Tag::spec_decode_expected(
            s,
            p,
            TagNumber::ContextSpecificOpening(RPM_ACK_RESULTS_TAG),
        ) {
            Err(e) => Err(e),
            Ok((_, p)) => match spec_decode_results(s, p) {
                Err(e) => Err(e),
                Ok((results, p)) => Ok((ObjectWithResultsView { object_id, results }, p)),
            },
        },
    }
}

/// The objects from `pos` to the end of the bytes.
pub open spec fn spec_decode_objects(s: Seq<u8>, pos: int) -> Result<
    (Seq<ObjectWithResultsView>, int),
    Error,
>
    decreases s.len() - pos,
{
    if pos >= s.len() {
        Ok((Seq::empty(), pos))
    } else {
        match spec_decode_object(s, pos) {
            Err(e) => Err(e),
            Ok((object, p)) => {
                proof {
                    lemma_decode_object_bounds(s, pos);
                }
                match spec_decode_objects(s, p) {
                    Err(e) => Err(e),
                    Ok((rest, p)) => Ok((seq![object] + rest, p)),
                }
            },
        }
    }
}

/// What was gathered so far, in front of what the rest of the bytes gives.
pub open spec fn spec_gathered<T>(acc: Seq<T>, rest: Result<(Seq<T>, int), Error>) -> Result<
    (Seq<T>, int),
    Error,
> {
    match rest {
        Err(e) => Err(e),
        Ok((items, p)) => Ok((acc + items, p)),
    }
}

/// Where `spec_skip_past` stops lies in the bytes, behind `pos`.
pub proof fn lemma_skip_past_bounds(s: Seq<u8>, pos: int, byte: u8)
    ensures
        spec_skip_past(s, pos, byte) matches Ok(p) ==> pos < p <= s.len(),
    decreases s.len() - pos,
{
    if 0 <= pos < s.len() && s[pos] != byte {
        lemma_skip_past_bounds(s, pos + 1, byte);
    }
}

/// A value that was read lies in the bytes, behind the place where it began.
pub proof fn lemma_decode_property_value_bounds(property_id: PropertyId, s: Seq<u8>, pos: int)
    ensures
        spec_decode_property_value(property_id, s, pos) matches Ok((_, p)) ==> pos < p <= s.len(),
{
    lemma_tag_decode_bounds(s, pos);
    match Tag::spec_decode(s, pos) {
        Ok((_, p)) => {
            lemma_skip_past_bounds(s, p, RPM_ACK_VALUE_CLOSING_BYTE);
            lemma_tag_decode_bounds(s, p);
            match Tag::spec_decode(s, p) {
                Ok((tag, p)) => {
                    lemma_application_data_value_bounds(tag, s, p);
                    match ApplicationDataValueView::spec_decode(tag, s, p) {
                        Ok((_, p)) => {
                            lemma_tag_decode_bounds(s, p);
                        },
                        Err(_) => {},
                    }
                },
                Err(_) => {},
            }
        },
        Err(_) => {},
    }
}

/// A result that was read lies in the bytes, behind the place where it began.
pub proof fn lemma_decode_result_bounds(s: Seq<u8>, pos: int)
    ensures
        spec_decode_result(s, pos) matches Ok((_, p)) ==> pos < p <= s.len(),
{
    reveal(spec_decode_result);
    lemma_tag_decode_bounds(s, pos);
    match Tag::spec_decode(s, pos) {
        Ok((tag, p)) => {
            match spec_decode_unsigned(tag.value, s, p) {
                Ok((id, p)) => {
                    lemma_decode_property_value_bounds(PropertyId(id), s, p);
                },
                Err(_) => {},
            }
        },
        Err(_) => {},
    }
}

/// The results of an object that were read lie in the bytes, behind the
/// place where they began.
pub proof fn lemma_decode_results_bounds(s: Seq<u8>, pos: int)
    ensures
        spec_decode_results(s, pos) matches Ok((_, p)) ==> pos < p <= s.len(),
    decreases s.len() - pos,
{
    lemma_decode_result_bounds(s, pos);
    match spec_decode_result(s, pos) {
        Ok((Some(_), p)) => {
            lemma_decode_results_bounds(s, p);
        },
        _ => {},
    }
}

/// An object that was read lies in the bytes, behind the place where it began.
pub proof fn lemma_decode_object_bounds(s: Seq<u8>, pos: int)
    ensures
        spec_decode_object(s, pos) matches Ok((_, p)) ==> pos < p <= s.len(),
{
    reveal(spec_decode_object);
    lemma_tag_decode_bounds(s, pos);
    match spec_decode_context_object_id(s, pos, RPM_ACK_OBJECT_ID_TAG) {
        Ok((_, p)) => {
            lemma_tag_decode_bounds(s, p);
            match Tag::spec_decode(s, p) {
                Ok((_, p)) => {
                    lemma_decode_results_bounds(s, p);
                },
                Err(_) => {},
            }
        },
        Err(_) => {},
    }
}

/// With one more result, a list of results holds one more.
pub proof fn lemma_results_view_push(results: Seq<PropertyResult>, result: PropertyResult)
    ensures
        spec_results_view(results.push(result)) == spec_results_view(results).push(result@),
        spec_results_view(Seq::empty()) == Seq::<PropertyResultView>::empty(),
{
    assert(spec_results_view(results.push(result)) =~= spec_results_view(results).push(result@));
    assert(spec_results_view(Seq::empty()) =~= Seq::<PropertyResultView>::empty());
}

/// With one more object, a list of objects holds one more.
pub proof fn lemma_objects_view_push(objects: Seq<ObjectWithResults>, object: ObjectWithResults)
    ensures
        spec_objects_view(objects.push(object)) == spec_objects_view(objects).push(object@),
        spec_objects_view(Seq::empty()) == Seq::<ObjectWithResultsView>::empty(),
{
    assert(spec_objects_view(objects.push(object)) =~= spec_objects_view(objects).push(object@));
    assert(spec_objects_view(Seq::empty()) =~= Seq::<ObjectWithResultsView>::empty());
}

impl ReadPropertyMultipleAckView {
    /// The acknowledgement that the bytes of `s` from `pos` on spell, which
    /// goes on to the end of `s`.
    #[verifier::opaque]
    pub open spec fn spec_decode(s: Seq<u8>, pos: int) -> Result<
        (ReadPropertyMultipleAckView, int),
        Error,
    > {
        match spec_decode_objects(s, pos) {
            Err(e) => Err(e),
            Ok((objects, p)) => Ok((ReadPropertyMultipleAckView { objects }, p)),
        }
    }
}

/// Moves the cursor behind the first byte `byte`.
fn skip_past(reader: &mut Reader, buf: &[u8], byte: u8) -> (r: Result<(), Error>)
    ensures
        final(reader).end == old(reader).end,
        moved_on(*old(reader), *final(reader)),
        match spec_skip_past(old(reader).region(buf@), old(reader).index as int, byte) {
            Err(e) => r == Err::<(), Error>(e),
            Ok(p) => r is Ok && final(reader).index == p,
        },
{
    let ghost s = reader.region(buf@);
    loop
        invariant
            s == reader.region(buf@),
            reader.end == old(reader).end,
            moved_on(*old(reader), *reader),
            old(reader).index <= reader.index,
            spec_skip_past(s, old(reader).index as int, byte) == spec_skip_past(
                s,
                reader.index as int,
                byte,
            ),
        decreases s.len() - reader.index,
    {
        let b = reader.read_byte(buf)?;
        if b == byte {
            return Ok(());
        }
    }
}

impl<'a> PropertyValue<'a> {
    /// Reads the value of the property `property_id`, which stands in the bracket 4.
    pub fn decode(property_id: PropertyId, reader: &mut Reader, buf: &'a [u8]) -> (r: Result<
        Self,
        Error,
    >)
        ensures
            read_as_view(
                r,
                spec_decode_property_value(
                    property_id,
                    old(reader).region(buf@),
                    old(reader).index as int,
                ),
                *old(reader),
                *final(reader),
            ),
    {
        Tag::decode_expected(reader, buf, TagNumber::ContextSpecificOpening(RPM_ACK_VALUE_TAG))?;
        if property_id.0 == PROP_EVENT_TIME_STAMPS {
            // The grammar of this value is not modelled: step over its
            // bytes up to the first that looks like the closing tag.
            skip_past(reader, buf, RPM_ACK_VALUE_CLOSING_BYTE)?;
            Ok(PropertyValue::Unmodeled)
        } else {
            let tag = Tag::decode(reader, buf)?;
            let value = ApplicationDataValue::decode(&tag, reader, buf)?;
            Tag::decode_expected(reader, buf, TagNumber::ContextSpecificClosing(RPM_ACK_VALUE_TAG))?;
            Ok(PropertyValue::PropValue(value))
        }
    }
}

impl<'a> PropertyResult<'a> {
    /// Reads one result, or the closing tag that ends the list of results.
    pub fn decode(reader: &mut Reader, buf: &'a [u8]) -> (r: Result<Option<Self>, Error>)
        ensures
            final(reader).end == old(reader).end,
            moved_on(*old(reader), *final(reader)),
            match spec_decode_result(old(reader).region(buf@), old(reader).index as int) {
                Err(e) => r == Err::<Option<Self>, Error>(e),
                Ok((None, p)) => r is Ok && r->Ok_0 is None && final(reader).index == p,
                Ok((Some(result), p)) => r is Ok && r->Ok_0 is Some && r->Ok_0->Some_0@ == result
                    && final(reader).index == p,
            },
    {
        proof {
            reveal(spec_decode_result);
        }
        let tag = Tag::decode(reader, buf)?;
        if tag.number == TagNumber::ContextSpecificClosing(RPM_ACK_RESULTS_TAG) {
            return Ok(None);
        }
        tag.expect_number(TagNumber::ContextSpecific(RPM_ACK_PROPERTY_ID_TAG))?;
        let id = PropertyId(decode_unsigned(tag.value, reader, buf)?);
        let value = PropertyValue::decode(id, reader, buf)?;
        Ok(Some(PropertyResult { id, value }))
    }
}

impl<'a> ObjectWithResults<'a> {
    /// Reads the results of one object up to the closing tag of their list.
    fn decode_results(reader: &mut Reader, buf: &'a [u8]) -> (r: Result<
        Vec<PropertyResult<'a>>,
        Error,
    >)
        ensures
            final(reader).end == old(reader).end,
            moved_on(*old(reader), *final(reader)),
            match spec_decode_results(old(reader).region(buf@), old(reader).index as int) {
                Err(e) => r == Err::<Vec<PropertyResult<'a>>, Error>(e),
                Ok((results, p)) => r is Ok && spec_results_view(r->Ok_0@)
                    == results && final(reader).index == p,
            },
    {
        let mut results: Vec<PropertyResult<'a>> = Vec::new();
        let ghost s = reader.region(buf@);
        let ghost start = reader.index as int;
        proof {
            lemma_results_view_push(results@, arbitrary());
            lemma_gathered_nothing(spec_decode_results(s, start));
        }
        loop
            invariant
                s == reader.region(buf@),
                reader.end == old(reader).end,
                moved_on(*old(reader), *reader),
                start == old(reader).index,
                start <= reader.index,
                spec_decode_results(s, start) == spec_gathered(
                    spec_results_view(results@),
                    spec_decode_results(s, reader.index as int),
                ),
            decreases s.len() - reader.index,
        {
            let ghost at = reader.index as int;
            let ghost acc = spec_results_view(results@);
            let ghost before = results@;
            proof {
                lemma_decode_result_bounds(s, at);
            }
            match PropertyResult::decode(reader, buf)? {
                None => {
                    proof {
                        assert(acc + Seq::<PropertyResultView>::empty() =~= acc);
                    }
                    return Ok(results);
                },
                Some(result) => {
                    results.push(result);
                    proof {
                        lemma_results_view_push(before, result);
                        lemma_gathered_one(
                            acc,
                            result@,
                            spec_decode_results(s, reader.index as int),
                        );
                    }
                },
            }
        }
    }

    /// Reads one object with its results.
    pub fn decode(reader: &mut Reader, buf: &'a [u8]) -> (r: Result<Self, Error>)
        ensures
            read_as_view(
                r,
                spec_decode_object(old(reader).region(buf@), old(reader).index as int),
                *old(reader),
                *final(reader),
            ),
    {
        proof {
            reveal(spec_decode_object);
        }
        let object_id = decode_context_object_id(reader, buf, RPM_ACK_OBJECT_ID_TAG)?;
        Tag::decode_expected(reader, buf, TagNumber::ContextSpecificOpening(RPM_ACK_RESULTS_TAG))?;
        let results = Self::decode_results(reader, buf)?;
        Ok(ObjectWithResults { object_id, results })
    }
}

/// With nothing gathered, what the bytes give is all there is.
pub proof fn lemma_gathered_nothing<T>(rest: Result<(Seq<T>, int), Error>)
    ensures
        spec_gathered(Seq::<T>::empty(), rest) == rest,
{
    match rest {
        Ok((items, p)) => {
            assert(Seq::<T>::empty() + items =~= items);
        },
        Err(_) => {},
    }
}

/// One more item gathered, one less in front of the rest.
pub proof fn lemma_gathered_one<T>(acc: Seq<T>, item: T, rest: Result<(Seq<T>, int), Error>)
    ensures
        spec_gathered(
            acc,
            match rest {
                Err(e) => Err::<(Seq<T>, int), Error>(e),
                Ok((items, p)) => Ok::<(Seq<T>, int), Error>((seq![item] + items, p)),
            },
        ) == spec_gathered(acc.push(item), rest),
{
    match rest {
        Ok((items, p)) => {
            assert(acc + (seq![item] + items) =~= acc.push(item) + items);
        },
        Err(_) => {},
    }
}

impl<'a> ReadPropertyMultipleAck<'a> {
    /// Reads an acknowledgement, which goes on to the end of the region: one
    /// object after the other, each with the results that its bracket holds.
    pub fn decode(reader: &mut Reader, buf: &'a [u8]) -> (r: Result<Self, Error>)
        ensures
            read_as_view(
                r,
                ReadPropertyMultipleAckView::spec_decode(
                    old(reader).region(buf@),
                    old(reader).index as int,
                ),
                *old(reader),
                *final(reader),
            ),
    {
        proof {
            reveal(ReadPropertyMultipleAckView::spec_decode);
        }
        let mut objects: Vec<ObjectWithResults<'a>> = Vec::new();
        let ghost s = reader.region(buf@);
        let ghost start = reader.index as int;
        proof {
            lemma_objects_view_push(objects@, arbitrary());
            lemma_gathered_nothing(spec_decode_objects(s, start));
        }
        while !reader.eof_in(buf)
            invariant
                s == reader.region(buf@),
                reader.end == old(reader).end,
                moved_on(*old(reader), *reader),
                start == old(reader).index,
                start <= reader.index,
                spec_decode_objects(s, start) == spec_gathered(
                    spec_objects_view(objects@),
                    spec_decode_objects(s, reader.index as int),
                ),
            decreases s.len() - reader.index,
        {
            let ghost at = reader.index as int;
            let ghost acc = spec_objects_view(objects@);
            let ghost before = objects@;
            proof {
                reveal(ReadPropertyMultipleAckView::spec_decode);
                lemma_decode_object_bounds(s, at);
            }
            let object = ObjectWithResults::decode(reader, buf)?;
            let ghost object_view = object@;
            proof {
                lemma_objects_view_push(before, object);
            }
            objects.push(object);
            proof {
                lemma_gathered_one(acc, object_view, spec_decode_objects(s, reader.index as int));
            }
        }
        proof {
            let acc = spec_objects_view(objects@);
            assert(acc + Seq::<ObjectWithResultsView>::empty() =~= acc);
        }
        Ok(ReadPropertyMultipleAck { objects })
    }
}

/// A request for several properties of one object.
#[derive(Debug)]
pub struct ReadPropertyMultiple {
    pub object_id: ObjectId,  // e.g. a device
    pub property_ids: Vec<PropertyId>,
    pub array_index: u32,  // BACNET_ARRAY_ALL for the whole array
}

/// What a `ReadPropertyMultiple` holds.
pub struct ReadPropertyMultipleView {
    pub object_id: ObjectId,
    pub property_ids: Seq<PropertyId>,
    pub array_index: u32,
}

impl View for ReadPropertyMultiple {
    type V = ReadPropertyMultipleView;

    open spec fn view(&self) -> ReadPropertyMultipleView {
        ReadPropertyMultipleView {
            object_id: self.object_id,
            property_ids: self.property_ids@,
            array_index: self.array_index,
        }
    }
}

pub const RPM_OBJECT_ID_TAG: u8 = 0;

pub const RPM_PROPERTIES_TAG: u8 = 1;

pub const RPM_PROPERTY_ID_TAG: u8 = 0;

pub const RPM_ARRAY_INDEX_TAG: u8 = 1;

/// One property on the wire: its identifier behind the context tag 0, and
/// behind the context tag 1 the array index unless it stands for the whole array.
pub open spec fn spec_encode_property(property_id: PropertyId, array_index: u32) -> Seq<u8> {
    spec_encode_context_unsigned(RPM_PROPERTY_ID_TAG, property_id.0) + (if array_index
        != BACNET_ARRAY_ALL {
        spec_encode_context_unsigned(RPM_ARRAY_INDEX_TAG, array_index)
    } else {
        seq![]
    })
}

/// The properties on the wire, one behind the other, each with the array index.
pub open spec fn spec_encode_properties(property_ids: Seq<PropertyId>, array_index: u32) -> Seq<u8>
    decreases property_ids.len(),
{
    if property_ids.len() == 0 {
        seq![]
    } else {
        spec_encode_properties(property_ids.drop_last(), array_index) + spec_encode_property(
            property_ids.last(),
            array_index,
        )
    }
}

/// The first properties take no more bytes than all of them.
pub proof fn lemma_encode_properties_prefix(property_ids: Seq<PropertyId>, array_index: u32, k: int)
    requires
        0 <= k <= property_ids.len(),
    ensures
        spec_encode_properties(property_ids.take(k), array_index).len() <= spec_encode_properties(
            property_ids,
            array_index,
        ).len(),
        k < property_ids.len() ==> spec_encode_properties(property_ids.take(k + 1), array_index)
            == spec_encode_properties(property_ids.take(k), array_index) + spec_encode_property(
            property_ids[k],
            array_index,
        ),
    decreases property_ids.len() - k,
{
    if k < property_ids.len() {
        assert(property_ids.take(k + 1).drop_last() =~= property_ids.take(k));
        assert(property_ids.take(k + 1).last() == property_ids[k]);
        lemma_encode_properties_prefix(property_ids, array_index, k + 1);
    } else {
        assert(property_ids.take(k) =~= property_ids);
    }
}

/// The property that the context tag `tag` starts, which was read up to
/// `pos`: its identifier, its array index (or the one that stands for the
/// whole array) and the tag that stands behind it.
pub open spec fn spec_decode_property_after(tag: Tag, s: Seq<u8>, pos: int) -> Result<
    ((PropertyId, u32, Tag), int),
    Error,
> {
    if tag.number != TagNumber::ContextSpecific(RPM_PROPERTY_ID_TAG) {
        Err(Error::UnexpectedTag)
    } else {
        match spec_decode_unsigned(tag.value, s, pos) {
            Err(e) => Err(e),
            Ok((id, p)) => match Tag::spec_decode(s, p) {
                Err(e) => Err(e),
                Ok((next, p)) => if next.number == TagNumber::ContextSpecific(
                    RPM_ARRAY_INDEX_TAG,
                ) {
                    match spec_decode_unsigned(next.value, s, p) {
                        Err(e) => Err(e),
                        Ok((array_index, p)) => match Tag::spec_decode(s, p) {
                            Err(e) => Err(e),
                            Ok((next, p)) => Ok(((PropertyId(id), array_index, next), p)),
                        },
                    }
                } else {
                    Ok(((PropertyId(id), BACNET_ARRAY_ALL, next), p))
                },
            },
        }
    }
}

/// A property that was read lies in the bytes, behind the place where it began.
pub proof fn lemma_decode_property_after_bounds(tag: Tag, s: Seq<u8>, pos: int)
    ensures
        spec_decode_property_after(tag, s, pos) matches Ok((_, p)) ==> pos < p <= s.len(),
{
    match spec_decode_unsigned(tag.value, s, pos) {
        Ok((_, p)) => {
            lemma_tag_decode_bounds(s, p);
            match Tag::spec_decode(s, p) {
                Ok((next, p)) => {
                    match spec_decode_unsigned(next.value, s, p) {
                        Ok((_, p)) => {
                            lemma_tag_decode_bounds(s, p);
                        },
                        Err(_) => {},
                    }
                },
                Err(_) => {},
            }
        },
        Err(_) => {},
    }
}

/// The properties from the tag `tag` on, which was read up to `pos`, as
/// far as the closing tag 1, and the array index that they carry: that of
/// the last property that carries one.
pub open spec fn spec_decode_properties_after(tag: Tag, s: Seq<u8>, pos: int) -> Result<
    ((Seq<PropertyId>, u32), int),
    Error,
>
    decreases s.len() - pos,
{
    if tag.number == TagNumber::ContextSpecificClosing(RPM_PROPERTIES_TAG) {
        Ok(((Seq::empty(), BACNET_ARRAY_ALL), pos))
    } else {
        match spec_decode_property_after(tag, s, pos) {
            Err(e) => Err(e),
            Ok(((id, array_index, next), p)) => {
                proof {
                    lemma_decode_property_after_bounds(tag, s, pos);
                }
                spec_gathered_properties(
                    seq![id],
                    array_index,
                    spec_decode_properties_after(next, s, p),
                )
            },
        }
    }
}

/// The properties gathered so far, with their array index, in front of what
/// the rest of the bytes gives.
pub open spec fn spec_gathered_properties(
    acc: Seq<PropertyId>,
    array_index: u32,
    rest: Result<((Seq<PropertyId>, u32), int), Error>,
) -> Result<((Seq<PropertyId>, u32), int), Error> {
    match rest {
        Err(e) => Err(e),
        Ok(((ids, index), p)) => Ok(
            ((acc + ids, if index != BACNET_ARRAY_ALL {
                index
            } else {
                array_index
            }), p),
        ),
    }
}

impl ReadPropertyMultipleView {
    /// The request on the wire: the object, then in the bracket 1 the
    /// properties.
    pub open spec fn spec_encode(self) -> Seq<u8> {
        spec_encode_context_object_id(RPM_OBJECT_ID_TAG, self.object_id) + spec_encode_opening_tag(
            RPM_PROPERTIES_TAG,
        ) + spec_encode_properties(self.property_ids, self.array_index) + spec_encode_closing_tag(
            RPM_PROPERTIES_TAG,
        )
    }

    /// The request that the bytes of `s` from `pos` on spell.
    #[verifier::opaque]
    pub open spec fn spec_decode(s: Seq<u8>, pos: int) -> Result<
        (ReadPropertyMultipleView, int),
        Error,
    > {
        match spec_decode_context_object_id(s, pos, RPM_OBJECT_ID_TAG) {
            Err(e) => Err(e),
            Ok((object_id, p)) => match Tag::spec_decode_expected(
                s,
                p,
                TagNumber::ContextSpecificOpening(RPM_PROPERTIES_TAG),
            ) {
                Err(e) => Err(e),
                Ok((_, p)) => match Tag::spec_decode(s, p) {
                    Err(e) => Err(e),
                    Ok((tag, p)) => match spec_decode_properties_after(tag, s, p) {
                        Err(e) => Err(e),
                        Ok(((property_ids, array_index), p)) => Ok(
                            (ReadPropertyMultipleView { object_id, property_ids, array_index }, p),
                        ),
                    },
                },
            },
        }
    }
}

impl ReadPropertyMultiple {
    pub fn new(object_id: ObjectId, property_ids: Vec<PropertyId>) -> (r: Self)
        ensures
            r@ == (ReadPropertyMultipleView {
                object_id,
                property_ids: property_ids@,
                array_index: BACNET_ARRAY_ALL,
            }),
    {
        Self { object_id, property_ids, array_index: BACNET_ARRAY_ALL }
    }

    fn encode_property(writer: &mut Writer, property_id: &PropertyId, array_index: u32) -> (r:
        Result<(), Error>)
        requires
            old(writer).wf(),
        ensures
            wrote(r, old(writer), final(writer), spec_encode_property(*property_id, array_index)),
            final(final(writer).buf)@ == final(old(writer).buf)@,
    {
        // property_id
        encode_context_enumerated(writer, RPM_PROPERTY_ID_TAG, property_id)?;

        // array_index
        if array_index != BACNET_ARRAY_ALL {
            encode_context_unsigned(writer, RPM_ARRAY_INDEX_TAG, array_index)
        } else {
            proof {
                lemma_appended_nothing(writer);
            }
            Ok(())
        }
    }

    fn encode_properties(&self, writer: &mut Writer) -> (r: Result<(), Error>)
        requires
            old(writer).wf(),
        ensures
            wrote(
                r,
                old(writer),
                final(writer),
                spec_encode_properties(self.property_ids@, self.array_index),
            ),
            final(final(writer).buf)@ == final(old(writer).buf)@,
    {
        let ghost ids = self.property_ids@;
        let mut i: usize = 0;
        proof {
            lemma_appended_nothing(writer);
            assert(ids.take(0) =~= Seq::empty());
        }
        while i < self.property_ids.len()
            invariant
                i <= ids.len(),
                ids == self.property_ids@,
                old(writer).wf(),
                writer.extends(old(writer)),
                writer.appended(
                    old(writer),
                    spec_encode_properties(ids.take(i as int), self.array_index),
                ),
                final(writer.buf)@ == final(old(writer).buf)@,
            decreases ids.len() - i,
        {
            proof {
                lemma_encode_properties_prefix(ids, self.array_index, i as int);
                lemma_encode_properties_prefix(ids, self.array_index, i + 1);
            }
            Self::encode_property(writer, &self.property_ids[i], self.array_index)?;
            i += 1;
        }
        proof {
            assert(ids.take(i as int) =~= ids);
        }
        Ok(())
    }

    pub fn encode(&self, writer: &mut Writer) -> (r: Result<(), Error>)
        requires
            old(writer).wf(),
        ensures
            wrote(r, old(writer), final(writer), self@.spec_encode()),
            final(final(writer).buf)@ == final(old(writer).buf)@,
    {
        // object_id
        encode_context_object_id(writer, RPM_OBJECT_ID_TAG, &self.object_id)?;

        encode_opening_tag(writer, RPM_PROPERTIES_TAG)?;
        self.encode_properties(writer)?;
        encode_closing_tag(writer, RPM_PROPERTIES_TAG)
    }

    /// Reads the property that the tag `tag` starts.
    fn decode_property(tag: Tag, reader: &mut Reader, buf: &[u8]) -> (r: Result<
        (PropertyId, u32, Tag),
        Error,
    >)
        ensures
            read_as(
                r,
                spec_decode_property_after(tag, old(reader).region(buf@), old(reader).index as int),
                *old(reader),
                *final(reader),
            ),
    {
        tag.expect_number(TagNumber::ContextSpecific(RPM_PROPERTY_ID_TAG))?;
        let id = decode_unsigned(tag.value, reader, buf)?;
        let next = Tag::decode(reader, buf)?;
        if next.number == TagNumber::ContextSpecific(RPM_ARRAY_INDEX_TAG) {
            let array_index = decode_unsigned(next.value, reader, buf)?;
            let next = Tag::decode(reader, buf)?;
            Ok((PropertyId(id), array_index, next))
        } else {
            Ok((PropertyId(id), BACNET_ARRAY_ALL, next))
        }
    }

    /// Reads a request. Of the array indices on the wire the request keeps
    /// that of the last property that carries one.
    pub fn decode(reader: &mut Reader, buf: &[u8]) -> (r: Result<Self, Error>)
        ensures
            read_as_view(
                r,
                ReadPropertyMultipleView::spec_decode(
                    old(reader).region(buf@),
                    old(reader).index as int,
                ),
                *old(reader),
                *final(reader),
            ),
    {
        proof {
            reveal(ReadPropertyMultipleView::spec_decode);
        }
        let object_id = decode_context_object_id(reader, buf, RPM_OBJECT_ID_TAG)?;
        Tag::decode_expected(reader, buf, TagNumber::ContextSpecificOpening(RPM_PROPERTIES_TAG))?;
        let mut tag = Tag::decode(reader, buf)?;

        let mut property_ids: Vec<PropertyId> = Vec::new();
        let mut array_index: u32 = BACNET_ARRAY_ALL;
        let ghost s = reader.region(buf@);
        let ghost first = tag;
        let ghost start = reader.index as int;
        proof {
            lemma_gathered_no_properties(spec_decode_properties_after(first, s, start));
        }
        loop
            invariant
                s == reader.region(buf@),
                s == old(reader).region(buf@),
                reader.end == old(reader).end,
                moved_on(*old(reader), *reader),
                old(reader).index <= start <= reader.index,
                ReadPropertyMultipleView::spec_decode(s, old(reader).index as int) == (
                match spec_decode_properties_after(first, s, start) {
                    Err(e) => Err::<(ReadPropertyMultipleView, int), Error>(e),
                    Ok(((property_ids, array_index), p)) => Ok::<
                        (ReadPropertyMultipleView, int),
                        Error,
                    >((ReadPropertyMultipleView { object_id, property_ids, array_index }, p)),
                }),
                spec_decode_properties_after(first, s, start) == spec_gathered_properties(
                    property_ids@,
                    array_index,
                    spec_decode_properties_after(tag, s, reader.index as int),
                ),
            decreases s.len() - reader.index,
        {
            if tag.number == TagNumber::ContextSpecificClosing(RPM_PROPERTIES_TAG) {
                proof {
                    assert(property_ids@ + Seq::<PropertyId>::empty() =~= property_ids@);
                }
                return Ok(ReadPropertyMultiple { object_id, property_ids, array_index });
            }
            let ghost at = reader.index as int;
            let ghost acc = property_ids@;
            let ghost acc_index = array_index;
            proof {
                lemma_decode_property_after_bounds(tag, s, at);
            }
            let (id, index, next) = Self::decode_property(tag, reader, buf)?;
            property_ids.push(id);
            if index != BACNET_ARRAY_ALL {
                array_index = index;
            }
            proof {
                lemma_gathered_one_property(
                    acc,
                    acc_index,
                    id,
                    index,
                    spec_decode_properties_after(next, s, reader.index as int),
                );
            }
            tag = next;
        }
    }
}

/// With nothing gathered, what the bytes give is all there is.
pub proof fn lemma_gathered_no_properties(rest: Result<((Seq<PropertyId>, u32), int), Error>)
    ensures
        spec_gathered_properties(Seq::empty(), BACNET_ARRAY_ALL, rest) == rest,
{
    match rest {
        Ok(((ids, index), p)) => {
            assert(Seq::<PropertyId>::empty() + ids =~= ids);
        },
        Err(_) => {},
    }
}

/// One more property gathered, one less in front of the rest.
pub proof fn lemma_gathered_one_property(
    acc: Seq<PropertyId>,
    acc_index: u32,
    id: PropertyId,
    index: u32,
    rest: Result<((Seq<PropertyId>, u32), int), Error>,
)
    ensures
        spec_gathered_properties(acc, acc_index, spec_gathered_properties(seq![id], index, rest))
            == spec_gathered_properties(
            acc.push(id),
            if index != BACNET_ARRAY_ALL {
                index
            } else {
                acc_index
            },
            rest,
        ),
{
    match rest {
        Ok(((ids, i), p)) => {
            assert(acc + (seq![id] + ids) =~= acc.push(id) + ids);
        },
        Err(_) => {},
    }
}

} // verus!
