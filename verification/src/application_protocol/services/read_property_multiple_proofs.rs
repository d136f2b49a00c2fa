use vstd::prelude::*;
use crate::application_protocol::services::read_property_multiple::{
    lemma_decode_property_after_bounds, spec_decode_object, spec_decode_objects,
    spec_decode_properties_after, spec_decode_property_after, spec_decode_result,
    spec_encode_properties, spec_encode_property, spec_gathered_properties, ObjectWithResultsView,
    ReadPropertyMultipleAckView, ReadPropertyMultipleView, RPM_ACK_OBJECT_ID_TAG,
    RPM_ACK_RESULTS_TAG, RPM_ARRAY_INDEX_TAG, RPM_OBJECT_ID_TAG, RPM_PROPERTIES_TAG,
    RPM_PROPERTY_ID_TAG,
};
use crate::common::error::Error;
use crate::common::helper::{
    lemma_context_object_id_round_trip, lemma_context_unsigned_round_trip,
    lemma_decode_context_object_id_cut, lemma_decode_unsigned_cut, spec_decode_context_object_id,
    spec_decode_unsigned, spec_encode_closing_tag, spec_encode_context_object_id,
    spec_encode_context_unsigned, spec_encode_opening_tag, BACNET_ARRAY_ALL,
};
use crate::common::io::{cut_short, holds_at, lemma_holds_at_join, lemma_holds_at_split};
use crate::common::object_id::ObjectId;
use crate::common::property_id::PropertyId;
use crate::common::tag::{
    lemma_tag_decode_bounds, lemma_tag_decode_cut, lemma_tag_round_trip, Tag, TagNumber,
};

verus! {

/// The properties on the wire are the first of them, then the others.
pub proof fn lemma_encode_properties_front(property_ids: Seq<PropertyId>, array_index: u32)
    requires
        property_ids.len() > 0,
    ensures
        spec_encode_properties(property_ids, array_index) == spec_encode_property(
            property_ids[0],
            array_index,
        ) + spec_encode_properties(property_ids.skip(1), array_index),
    decreases property_ids.len(),
{
    let first = spec_encode_property(property_ids[0], array_index);
    let last = spec_encode_property(property_ids.last(), array_index);
    if property_ids.len() == 1 {
        assert(property_ids.drop_last() =~= Seq::<PropertyId>::empty());
        assert(property_ids.skip(1) =~= Seq::<PropertyId>::empty());
        assert(Seq::<u8>::empty() + last =~= first + Seq::<u8>::empty());
    } else {
        let init = property_ids.drop_last();
        lemma_encode_properties_front(init, array_index);
        assert(property_ids.skip(1).drop_last() =~= init.skip(1));
        assert(property_ids.skip(1).last() == property_ids.last());
        let middle = spec_encode_properties(init.skip(1), array_index);
        assert((first + middle) + last =~= first + (middle + last));
    }
}

/// One property is read back as it was written, together with the tag that
/// stands behind it, so long as that tag is not one of an array index.
pub proof fn lemma_property_round_trip(
    property_id: PropertyId,
    array_index: u32,
    following: Tag,
    behind: int,
    s: Seq<u8>,
    pos: int,
)
    requires
        holds_at(s, pos, spec_encode_property(property_id, array_index)),
        Tag::spec_decode(s, pos + spec_encode_property(property_id, array_index).len()) == Ok::<
            (Tag, int),
            Error,
        >((following, behind)),
        following.number != TagNumber::ContextSpecific(RPM_ARRAY_INDEX_TAG),
    ensures
        Tag::spec_decode(s, pos) matches Ok((tag, p)) && tag.number == TagNumber::ContextSpecific(
            RPM_PROPERTY_ID_TAG,
        ) && spec_decode_property_after(tag, s, p) == Ok::<((PropertyId, u32, Tag), int), Error>(
            ((property_id, array_index, following), behind),
        ),
{
    let id_bytes = spec_encode_context_unsigned(RPM_PROPERTY_ID_TAG, property_id.0);
    if array_index != BACNET_ARRAY_ALL {
        let index_bytes = spec_encode_context_unsigned(RPM_ARRAY_INDEX_TAG, array_index);
        lemma_holds_at_split(s, pos, id_bytes, index_bytes);
        lemma_context_unsigned_round_trip(RPM_PROPERTY_ID_TAG, property_id.0, s, pos);
        lemma_context_unsigned_round_trip(RPM_ARRAY_INDEX_TAG, array_index, s, pos + id_bytes.len());
    } else {
        lemma_holds_at_split(s, pos, id_bytes, Seq::<u8>::empty());
        lemma_context_unsigned_round_trip(RPM_PROPERTY_ID_TAG, property_id.0, s, pos);
    }
}

/// The properties of a request are read back as they were written, up to
/// and with the closing tag behind them. The array index comes back where
/// there is a property to carry it.
pub proof fn lemma_properties_round_trip(
    property_ids: Seq<PropertyId>,
    array_index: u32,
    s: Seq<u8>,
    pos: int,
)
    requires
        holds_at(
            s,
            pos,
            spec_encode_properties(property_ids, array_index) + spec_encode_closing_tag(
                RPM_PROPERTIES_TAG,
            ),
        ),
    ensures
        Tag::spec_decode(s, pos) matches Ok((tag, p)) && tag.number != TagNumber::ContextSpecific(
            RPM_ARRAY_INDEX_TAG,
        ) && spec_decode_properties_after(tag, s, p) == Ok::<((Seq<PropertyId>, u32), int), Error>(
            (
                (property_ids, if property_ids.len() > 0 {
                    array_index
                } else {
                    BACNET_ARRAY_ALL
                }),
                pos + spec_encode_properties(property_ids, array_index).len()
                    + spec_encode_closing_tag(RPM_PROPERTIES_TAG).len(),
            ),
        ),
    decreases property_ids.len(),
{
    let closing = Tag { number: TagNumber::ContextSpecificClosing(RPM_PROPERTIES_TAG), value: 0 };
    let all = spec_encode_properties(property_ids, array_index);
    lemma_holds_at_split(s, pos, all, closing.spec_encode());
    if property_ids.len() == 0 {
        assert(property_ids =~= Seq::<PropertyId>::empty());
        lemma_tag_round_trip(closing, s, pos);
    } else {
        let first = spec_encode_property(property_ids[0], array_index);
        let others = property_ids.skip(1);
        let rest = spec_encode_properties(others, array_index);
        lemma_encode_properties_front(property_ids, array_index);
        lemma_holds_at_split(s, pos, first, rest);
        lemma_holds_at_join(s, pos + first.len(), rest, closing.spec_encode());
        lemma_properties_round_trip(others, array_index, s, pos + first.len());
        let (following, behind) = Tag::spec_decode(s, pos + first.len())->Ok_0;
        lemma_property_round_trip(property_ids[0], array_index, following, behind, s, pos);
        assert(seq![property_ids[0]] + others =~= property_ids);
    }
}

/// A request is read back as it was written: where the bytes of a request
/// stand in `s`, a read at that place returns the request and stops right
/// behind it. The request's object identifier must fit its bits, and a
/// request without properties has no place on the wire for an array index,
/// so that it must ask for the whole array.
pub proof fn lemma_read_property_multiple_round_trip(
    request: ReadPropertyMultipleView,
    s: Seq<u8>,
    pos: int,
)
    requires
        request.object_id.wf(),
        request.property_ids.len() > 0 || request.array_index == BACNET_ARRAY_ALL,
        holds_at(s, pos, request.spec_encode()),
    ensures
        ReadPropertyMultipleView::spec_decode(s, pos) == Ok::<
            (ReadPropertyMultipleView, int),
            Error,
        >((request, pos + request.spec_encode().len())),
{
    reveal(ReadPropertyMultipleView::spec_decode);
    let object = spec_encode_context_object_id(RPM_OBJECT_ID_TAG, request.object_id);
    let opening = Tag { number: TagNumber::ContextSpecificOpening(RPM_PROPERTIES_TAG), value: 0 };
    let properties = spec_encode_properties(request.property_ids, request.array_index);
    let closing = spec_encode_closing_tag(RPM_PROPERTIES_TAG);
    lemma_holds_at_split(s, pos, object + opening.spec_encode() + properties, closing);
    lemma_holds_at_split(s, pos, object + opening.spec_encode(), properties);
    lemma_holds_at_split(s, pos, object, opening.spec_encode());
    lemma_context_object_id_round_trip(RPM_OBJECT_ID_TAG, request.object_id, s, pos);
    lemma_tag_round_trip(opening, s, pos + object.len());
    let p = pos + object.len() + opening.spec_encode().len();
    lemma_holds_at_join(s, p, properties, closing);
    lemma_properties_round_trip(request.property_ids, request.array_index, s, p);
}

/// An object for which no property was asked, or none could be given, is
/// no error: where an acknowledgement holds one object whose bracket of
/// results is empty, it is read as that object with no results.
pub proof fn lemma_object_without_results(object_id: ObjectId, s: Seq<u8>, pos: int)
    requires
        object_id.wf(),
        holds_at(
            s,
            pos,
            spec_encode_context_object_id(RPM_ACK_OBJECT_ID_TAG, object_id)
                + spec_encode_opening_tag(RPM_ACK_RESULTS_TAG) + spec_encode_closing_tag(
                RPM_ACK_RESULTS_TAG,
            ),
        ),
        pos + (spec_encode_context_object_id(RPM_ACK_OBJECT_ID_TAG, object_id)
            + spec_encode_opening_tag(RPM_ACK_RESULTS_TAG) + spec_encode_closing_tag(
            RPM_ACK_RESULTS_TAG,
        )).len() == s.len(),
    ensures
        ReadPropertyMultipleAckView::spec_decode(s, pos) == Ok::<
            (ReadPropertyMultipleAckView, int),
            Error,
        >(
            (
                ReadPropertyMultipleAckView {
                    objects: seq![ObjectWithResultsView { object_id, results: Seq::empty() }],
                },
                s.len() as int,
            ),
        ),
{
    reveal(ReadPropertyMultipleAckView::spec_decode);
    reveal(spec_decode_object);
    reveal(spec_decode_result);
    let object = spec_encode_context_object_id(RPM_ACK_OBJECT_ID_TAG, object_id);
    let opening = Tag { number: TagNumber::ContextSpecificOpening(RPM_ACK_RESULTS_TAG), value: 0 };
    let closing = Tag { number: TagNumber::ContextSpecificClosing(RPM_ACK_RESULTS_TAG), value: 0 };
    lemma_holds_at_split(s, pos, object + opening.spec_encode(), closing.spec_encode());
    lemma_holds_at_split(s, pos, object, opening.spec_encode());
    lemma_context_object_id_round_trip(RPM_ACK_OBJECT_ID_TAG, object_id, s, pos);
    lemma_tag_round_trip(opening, s, pos + object.len());
    lemma_tag_round_trip(closing, s, pos + object.len() + opening.spec_encode().len());
    let found = ObjectWithResultsView { object_id, results: Seq::empty() };
    assert(spec_decode_object(s, pos) == Ok::<(ObjectWithResultsView, int), Error>(
        (found, s.len() as int),
    ));
    assert(spec_decode_objects(s, s.len() as int) == Ok::<
        (Seq<ObjectWithResultsView>, int),
        Error,
    >((Seq::empty(), s.len() as int)));
    assert(seq![found] + Seq::<ObjectWithResultsView>::empty() =~= seq![found]);
}

/// Cutting the bytes short does not change what a property of a request
/// reads as, so long as the cut lies behind it and the tag that follows it;
/// a cut through them makes the read fail for want of bytes.
pub proof fn lemma_decode_property_after_cut(tag: Tag, s: Seq<u8>, pos: int, k: int)
    requires
        0 <= k <= s.len(),
        spec_decode_property_after(tag, s, pos) is Ok,
    ensures
        spec_decode_property_after(tag, s.take(k), pos) == cut_short(
            spec_decode_property_after(tag, s, pos),
            k,
        ),
{
    lemma_decode_unsigned_cut(tag.value, s, pos, k);
    let (_, p) = spec_decode_unsigned(tag.value, s, pos)->Ok_0;
    lemma_tag_decode_cut(s, p, k);
    lemma_tag_decode_bounds(s, p);
    let (next, p) = Tag::spec_decode(s, p)->Ok_0;
    if next.number == TagNumber::ContextSpecific(RPM_ARRAY_INDEX_TAG) {
        lemma_decode_unsigned_cut(next.value, s, p, k);
        let (_, p) = spec_decode_unsigned(next.value, s, p)->Ok_0;
        lemma_tag_decode_cut(s, p, k);
        lemma_tag_decode_bounds(s, p);
    }
}

/// The same for the properties of a request up to the closing tag behind them.
pub proof fn lemma_decode_properties_after_cut(tag: Tag, s: Seq<u8>, pos: int, k: int)
    requires
        0 <= pos <= k <= s.len(),
        spec_decode_properties_after(tag, s, pos) is Ok,
    ensures
        spec_decode_properties_after(tag, s.take(k), pos) == cut_short(
            spec_decode_properties_after(tag, s, pos),
            k,
        ),
        spec_decode_properties_after(tag, s, pos) matches Ok((_, p)) && pos <= p,
    decreases s.len() - pos,
{
    if tag.number != TagNumber::ContextSpecificClosing(RPM_PROPERTIES_TAG) {
        lemma_decode_property_after_cut(tag, s, pos, k);
        lemma_decode_property_after_bounds(tag, s, pos);
        let ((_, _, next), p) = spec_decode_property_after(tag, s, pos)->Ok_0;
        if p <= k {
            lemma_decode_properties_after_cut(next, s, p, k);
        } else {
            lemma_decode_properties_after_advances(next, s, p);
        }
    }
}

/// The properties of a request that were read end no earlier than they began.
pub proof fn lemma_decode_properties_after_advances(tag: Tag, s: Seq<u8>, pos: int)
    ensures
        spec_decode_properties_after(tag, s, pos) matches Ok((_, p)) ==> pos <= p,
    decreases s.len() - pos,
{
    if tag.number != TagNumber::ContextSpecificClosing(RPM_PROPERTIES_TAG) {
        lemma_decode_property_after_bounds(tag, s, pos);
        match spec_decode_property_after(tag, s, pos) {
            Ok(((_, _, next), p)) => {
                lemma_decode_properties_after_advances(next, s, p);
            },
            Err(_) => {},
        }
    }
}

/// Cutting the bytes short does not change what a request reads as, so long
/// as the cut lies behind it; a cut through it makes the read fail for want
/// of bytes.
pub proof fn lemma_read_property_multiple_decode_cut(s: Seq<u8>, pos: int, k: int)
    requires
        0 <= k <= s.len(),
        ReadPropertyMultipleView::spec_decode(s, pos) is Ok,
    ensures
        ReadPropertyMultipleView::spec_decode(s.take(k), pos) == cut_short(
            ReadPropertyMultipleView::spec_decode(s, pos),
            k,
        ),
{
    reveal(ReadPropertyMultipleView::spec_decode);
    lemma_decode_context_object_id_cut(s, pos, RPM_OBJECT_ID_TAG, k);
    let (_, p) = spec_decode_context_object_id(s, pos, RPM_OBJECT_ID_TAG)->Ok_0;
    lemma_tag_decode_cut(s, p, k);
    lemma_tag_decode_bounds(s, p);
    let (_, p) = Tag::spec_decode(s, p)->Ok_0;
    lemma_tag_decode_cut(s, p, k);
    lemma_tag_decode_bounds(s, p);
    let (tag, p) = Tag::spec_decode(s, p)->Ok_0;
    if p <= k {
        lemma_decode_properties_after_cut(tag, s, p, k);
    } else {
        lemma_decode_properties_after_advances(tag, s, p);
    }
}

/// A request that loses one or more bytes at its end is never taken for a
/// request: read on its own, it fails for want of bytes, wherever the cut
/// falls.
pub proof fn lemma_read_property_multiple_truncated(request: ReadPropertyMultipleView, k: int)
    requires
        request.object_id.wf(),
        request.property_ids.len() > 0 || request.array_index == BACNET_ARRAY_ALL,
        0 <= k < request.spec_encode().len(),
    ensures
        ReadPropertyMultipleView::spec_decode(request.spec_encode().take(k), 0) == Err::<
            (ReadPropertyMultipleView, int),
            Error,
        >(Error::BufferBounds),
{
    let bytes = request.spec_encode();
    assert(bytes.subrange(0, bytes.len() as int) =~= bytes);
    lemma_read_property_multiple_round_trip(request, bytes, 0);
    lemma_read_property_multiple_decode_cut(bytes, 0, k);
}

} // verus!
