use vstd::prelude::*;
use crate::application_protocol::primitives::data_value::{
    lemma_bit_string_decode_cut, lemma_bit_string_round_trip, lemma_date_and_time_decode_cut,
    lemma_date_round_trip, lemma_time_round_trip, BitStringView, Date, Time, DATE_LEN, TIME_LEN,
};
use crate::application_protocol::services::read_range::{
    lemma_encode_items_prefix, spec_count_to_signed, spec_decode_by_time, spec_decode_count,
    spec_decode_date_time, spec_decode_item_data, spec_decode_number_and_count,
    spec_decode_optional_array_index, spec_decode_value, spec_encode_date_time, spec_encode_items,
    spec_encode_real_value, spec_items_in_range, spec_pull, ReadRange, ReadRangeAckView,
    ReadRangeByTime, ReadRangeItemView, ReadRangeItemsView, ReadRangeRequestType, ReadRangeValue,
    ReadRangeValueType, READ_RANGE_ACK_ITEM_COUNT_TAG, READ_RANGE_ACK_ITEM_DATA_TAG,
    READ_RANGE_ACK_RESULT_FLAGS_TAG, READ_RANGE_ARRAY_INDEX_TAG, READ_RANGE_BY_POSITION_TAG,
    READ_RANGE_BY_SEQUENCE_TAG, READ_RANGE_BY_TIME_TAG, READ_RANGE_ITEM_DATE_TIME_TAG,
    READ_RANGE_ITEM_STATUS_FLAGS_TAG, READ_RANGE_ITEM_VALUE_TAG, READ_RANGE_OBJECT_ID_TAG,
    READ_RANGE_PROPERTY_ID_TAG, READ_RANGE_SERVICE_CHOICE,
};
use crate::common::endian::{lemma_u32_be_round_trip, spec_u32_be};
use crate::common::error::Error;
use crate::common::helper::{
    lemma_application_signed_round_trip, lemma_application_unsigned_round_trip,
    lemma_context_object_id_round_trip, lemma_context_unsigned_round_trip,
    lemma_decode_context_object_id_cut, lemma_decode_context_unsigned_cut, lemma_decode_signed_cut,
    lemma_decode_unsigned_cut, lemma_find_closing_ends, lemma_find_closing_steps_over,
    lemma_tagged_body_cut, spec_decode_context_object_id, spec_decode_context_property_id,
    spec_decode_unsigned, spec_encode_application_signed, spec_encode_application_unsigned,
    spec_encode_closing_tag, spec_encode_context_object_id, spec_encode_context_unsigned,
    spec_encode_opening_tag, spec_find_closing, spec_tagged_body, BACNET_ARRAY_ALL,
};
use crate::common::io::{
    cut_short, holds_at, lemma_holds_at_join, lemma_holds_at_split, lemma_holds_at_within,
    lemma_read_bytes_cut,
};
use crate::common::object_id::ObjectId;
use crate::common::property_id::PropertyId;
use crate::common::tag::{
    lemma_tag_decode_bounds, lemma_tag_decode_cut, lemma_tag_round_trip, ApplicationTagNumber, Tag,
    TagNumber,
};

verus! {

/// A count of no more than the largest signed number is read back as it
/// was written.
pub proof fn lemma_count_round_trip(count: u32, s: Seq<u8>, pos: int)
    requires
        count <= 0x7FFF_FFFF,
        holds_at(s, pos, spec_encode_application_signed(spec_count_to_signed(count))),
    ensures
        spec_decode_count(s, pos) == Ok::<(u32, int), Error>(
            (count, pos + spec_encode_application_signed(spec_count_to_signed(count)).len()),
        ),
{
    lemma_application_signed_round_trip(spec_count_to_signed(count), s, pos);
}

/// A number and a count in a bracket are read back as they were written.
pub proof fn lemma_number_and_count_round_trip(
    number: u32,
    count: u32,
    closing: u8,
    s: Seq<u8>,
    pos: int,
)
    requires
        count <= 0x7FFF_FFFF,
        holds_at(
            s,
            pos,
            spec_encode_application_unsigned(number) + spec_encode_application_signed(
                spec_count_to_signed(count),
            ) + spec_encode_closing_tag(closing),
        ),
    ensures
        spec_decode_number_and_count(s, pos, closing) == Ok::<((u32, u32), int), Error>(
            (
                (number, count),
                pos + (spec_encode_application_unsigned(number) + spec_encode_application_signed(
                    spec_count_to_signed(count),
                ) + spec_encode_closing_tag(closing)).len(),
            ),
        ),
{
    let a = spec_encode_application_unsigned(number);
    let b = spec_encode_application_signed(spec_count_to_signed(count));
    let c = Tag { number: TagNumber::ContextSpecificClosing(closing), value: 0 };
    lemma_holds_at_split(s, pos, a + b, c.spec_encode());
    lemma_holds_at_split(s, pos, a, b);
    lemma_application_unsigned_round_trip(number, s, pos);
    lemma_count_round_trip(count, s, pos + a.len());
    lemma_tag_round_trip(c, s, pos + a.len() + b.len());
}

/// A date, a time and a count in their bracket are read back as they were written.
pub proof fn lemma_by_time_round_trip(x: ReadRangeByTime, s: Seq<u8>, pos: int)
    requires
        x.count <= 0x7FFF_FFFF,
        x.date.wf(),
        holds_at(
            s,
            pos,
            x.date.spec_encode() + x.time.spec_encode() + spec_encode_application_signed(
                spec_count_to_signed(x.count),
            ) + spec_encode_closing_tag(READ_RANGE_BY_TIME_TAG),
        ),
    ensures
        spec_decode_by_time(s, pos) == Ok::<(ReadRangeByTime, int), Error>(
            (
                x,
                pos + (x.date.spec_encode() + x.time.spec_encode() + spec_encode_application_signed(
                    spec_count_to_signed(x.count),
                ) + spec_encode_closing_tag(READ_RANGE_BY_TIME_TAG)).len(),
            ),
        ),
{
    let a = x.date.spec_encode();
    let b = x.time.spec_encode();
    let c = spec_encode_application_signed(spec_count_to_signed(x.count));
    let d = Tag { number: TagNumber::ContextSpecificClosing(READ_RANGE_BY_TIME_TAG), value: 0 };
    lemma_holds_at_split(s, pos, a + b + c, d.spec_encode());
    lemma_holds_at_split(s, pos, a + b, c);
    lemma_holds_at_split(s, pos, a, b);
    lemma_date_round_trip(x.date, s, pos);
    lemma_time_round_trip(x.time, s, pos + 4);
    lemma_count_round_trip(x.count, s, pos + 8);
    lemma_tag_round_trip(d, s, pos + 8 + c.len());
}

/// A selection other than that of all items is read back as it was
/// written: its opening tag comes first, and what follows that tag gives
/// the selection.
pub proof fn lemma_request_type_round_trip(request_type: ReadRangeRequestType, s: Seq<u8>, pos: int)
    requires
        !(request_type is All),
        request_type.spec_in_range(),
        holds_at(s, pos, request_type.spec_encode()),
    ensures
        pos < s.len(),
        Tag::spec_decode(s, pos) matches Ok((tag, p)) && tag.number != TagNumber::ContextSpecific(
            READ_RANGE_ARRAY_INDEX_TAG,
        ) && ReadRangeRequestType::spec_decode_after(tag, s, p) == Ok::<
            (ReadRangeRequestType, int),
            Error,
        >((request_type, pos + request_type.spec_encode().len())),
{
    lemma_tag_decode_bounds(s, pos);
    match request_type {
        ReadRangeRequestType::ByPosition(x) => {
            let opening = Tag {
                number: TagNumber::ContextSpecificOpening(READ_RANGE_BY_POSITION_TAG),
                value: 0,
            };
            let a = spec_encode_application_unsigned(x.index);
            let b = spec_encode_application_signed(spec_count_to_signed(x.count));
            let c = spec_encode_closing_tag(READ_RANGE_BY_POSITION_TAG);
            assert(request_type.spec_encode() =~= opening.spec_encode() + (a + b + c));
            lemma_holds_at_split(s, pos, opening.spec_encode(), a + b + c);
            lemma_tag_round_trip(opening, s, pos);
            lemma_number_and_count_round_trip(
                x.index,
                x.count,
                READ_RANGE_BY_POSITION_TAG,
                s,
                pos + opening.spec_encode().len(),
            );
        },
        ReadRangeRequestType::BySequence(x) => {
            let opening = Tag {
                number: TagNumber::ContextSpecificOpening(READ_RANGE_BY_SEQUENCE_TAG),
                value: 0,
            };
            let a = spec_encode_application_unsigned(x.sequence_num);
            let b = spec_encode_application_signed(spec_count_to_signed(x.count));
            let c = spec_encode_closing_tag(READ_RANGE_BY_SEQUENCE_TAG);
            assert(request_type.spec_encode() =~= opening.spec_encode() + (a + b + c));
            lemma_holds_at_split(s, pos, opening.spec_encode(), a + b + c);
            lemma_tag_round_trip(opening, s, pos);
            lemma_number_and_count_round_trip(
                x.sequence_num,
                x.count,
                READ_RANGE_BY_SEQUENCE_TAG,
                s,
                pos + opening.spec_encode().len(),
            );
        },
        ReadRangeRequestType::ByTime(x) => {
            let opening = Tag {
                number: TagNumber::ContextSpecificOpening(READ_RANGE_BY_TIME_TAG),
                value: 0,
            };
            let a = x.date.spec_encode();
            let b = x.time.spec_encode();
            let c = spec_encode_application_signed(spec_count_to_signed(x.count));
            let d = spec_encode_closing_tag(READ_RANGE_BY_TIME_TAG);
            assert(request_type.spec_encode() =~= opening.spec_encode() + (a + b + c + d));
            lemma_holds_at_split(s, pos, opening.spec_encode(), a + b + c + d);
            lemma_tag_round_trip(opening, s, pos);
            lemma_by_time_round_trip(x, s, pos + opening.spec_encode().len());
        },
        ReadRangeRequestType::All => {},
    }
}

/// A request that the wire can hold is read back as it was written: where
/// the bytes of the request stand at the end of `s`, a read at their place
/// returns the request and stops at the end.
pub proof fn lemma_read_range_round_trip(request: ReadRange, s: Seq<u8>, pos: int)
    requires
        request.spec_in_range(),
        holds_at(s, pos, request.spec_encode()),
        pos + request.spec_encode().len() == s.len(),
    ensures
        ReadRange::spec_decode(s, pos) == Ok::<(ReadRange, int), Error>((request, s.len() as int)),
{
    reveal(ReadRange::spec_decode);
    let object = spec_encode_context_object_id(READ_RANGE_OBJECT_ID_TAG, request.object_id);
    let property = spec_encode_context_unsigned(READ_RANGE_PROPERTY_ID_TAG, request.property_id.0);
    let index: Seq<u8> = if request.array_index != BACNET_ARRAY_ALL {
        spec_encode_context_unsigned(READ_RANGE_ARRAY_INDEX_TAG, request.array_index)
    } else {
        seq![]
    };
    let selection = request.request_type.spec_encode();
    lemma_holds_at_split(s, pos, object + property + index, selection);
    lemma_holds_at_split(s, pos, object + property, index);
    lemma_holds_at_split(s, pos, object, property);
    lemma_context_object_id_round_trip(READ_RANGE_OBJECT_ID_TAG, request.object_id, s, pos);
    lemma_context_unsigned_round_trip(
        READ_RANGE_PROPERTY_ID_TAG,
        request.property_id.0,
        s,
        pos + object.len(),
    );
    let p = pos + object.len() + property.len();
    if request.array_index != BACNET_ARRAY_ALL {
        lemma_context_unsigned_round_trip(READ_RANGE_ARRAY_INDEX_TAG, request.array_index, s, p);
    }
    if !(request.request_type is All) {
        lemma_request_type_round_trip(request.request_type, s, p + index.len());
    }
}

/// A date and a time in their bracket are read back as they were written.
pub proof fn lemma_date_time_round_trip(date: Date, time: Time, s: Seq<u8>, pos: int)
    requires
        date.wf(),
        holds_at(s, pos, spec_encode_date_time(date, time)),
    ensures
        spec_decode_date_time(s, pos) == Ok::<((Date, Time), int), Error>(
            ((date, time), pos + spec_encode_date_time(date, time).len()),
        ),
{
    reveal(spec_decode_date_time);
    let opening = Tag {
        number: TagNumber::ContextSpecificOpening(READ_RANGE_ITEM_DATE_TIME_TAG),
        value: 0,
    };
    let date_tag = Tag {
        number: TagNumber::Application(ApplicationTagNumber::Date),
        value: DATE_LEN,
    };
    let time_tag = Tag {
        number: TagNumber::Application(ApplicationTagNumber::Time),
        value: TIME_LEN,
    };
    let closing = Tag {
        number: TagNumber::ContextSpecificClosing(READ_RANGE_ITEM_DATE_TIME_TAG),
        value: 0,
    };
    let a = opening.spec_encode();
    let b = date_tag.spec_encode();
    let c = date.spec_encode();
    let d = time_tag.spec_encode();
    let e = time.spec_encode();
    let f = closing.spec_encode();
    lemma_holds_at_split(s, pos, a + b + c + d + e, f);
    lemma_holds_at_split(s, pos, a + b + c + d, e);
    lemma_holds_at_split(s, pos, a + b + c, d);
    lemma_holds_at_split(s, pos, a + b, c);
    lemma_holds_at_split(s, pos, a, b);
    lemma_tag_round_trip(opening, s, pos);
    lemma_tag_round_trip(date_tag, s, pos + a.len());
    lemma_date_round_trip(date, s, pos + a.len() + b.len());
    lemma_tag_round_trip(time_tag, s, pos + a.len() + b.len() + 4);
    lemma_time_round_trip(time, s, pos + a.len() + b.len() + 4 + d.len());
    lemma_tag_round_trip(closing, s, pos + a.len() + b.len() + 4 + d.len() + 4);
}

/// A real number in its bracket is read back as it was written.
pub proof fn lemma_real_value_round_trip(bits: u32, s: Seq<u8>, pos: int)
    requires
        holds_at(s, pos, spec_encode_real_value(bits)),
    ensures
        spec_decode_value(s, pos) == Ok::<(ReadRangeValue, int), Error>(
            (ReadRangeValue::Real(bits), pos + spec_encode_real_value(bits).len()),
        ),
{
    reveal(spec_decode_value);
    let opening = Tag {
        number: TagNumber::ContextSpecificOpening(READ_RANGE_ITEM_VALUE_TAG),
        value: 0,
    };
    let kind = Tag {
        number: TagNumber::ContextSpecific(ReadRangeValueType::Real.spec_code()),
        value: 4,
    };
    let closing = Tag {
        number: TagNumber::ContextSpecificClosing(READ_RANGE_ITEM_VALUE_TAG),
        value: 0,
    };
    let a = opening.spec_encode();
    let b = kind.spec_encode();
    let c = spec_u32_be(bits);
    let d = closing.spec_encode();
    lemma_holds_at_split(s, pos, a + b + c, d);
    lemma_holds_at_split(s, pos, a + b, c);
    lemma_holds_at_split(s, pos, a, b);
    lemma_tag_round_trip(opening, s, pos);
    lemma_tag_round_trip(kind, s, pos + a.len());
    lemma_u32_be_round_trip(bits);
    lemma_tag_round_trip(closing, s, pos + a.len() + b.len() + 4);
}

/// An item that the wire can hold is read back as it was written, and
/// takes at least one byte.
pub proof fn lemma_item_round_trip(item: ReadRangeItemView, s: Seq<u8>, pos: int)
    requires
        item.spec_in_range(),
        holds_at(s, pos, item.spec_encode()),
    ensures
        item.spec_encode().len() > 0,
        ReadRangeItemView::spec_decode(s, pos) == Ok::<(ReadRangeItemView, int), Error>(
            (item, pos + item.spec_encode().len()),
        ),
{
    reveal(ReadRangeItemView::spec_decode);
    let bits = item.value->Real_0;
    let a = spec_encode_date_time(item.date, item.time);
    let b = spec_encode_real_value(bits);
    let c = item.status_flags.spec_encode_context(READ_RANGE_ITEM_STATUS_FLAGS_TAG);
    lemma_holds_at_split(s, pos, a + b, c);
    lemma_holds_at_split(s, pos, a, b);
    lemma_date_time_round_trip(item.date, item.time, s, pos);
    lemma_real_value_round_trip(bits, s, pos + a.len());
    lemma_bit_string_round_trip(
        item.status_flags,
        READ_RANGE_ITEM_STATUS_FLAGS_TAG,
        s,
        pos + a.len() + b.len(),
    );
    lemma_tag_decode_bounds(s, pos + a.len() + b.len());
}

/// The place in the bytes of a list of items at which the item `k` begins.
pub open spec fn spec_item_offset(items: Seq<ReadRangeItemView>, k: int) -> int {
    spec_encode_items(items.take(k)).len() as int
}

/// The bytes of the first items of a list are the first bytes of the list,
/// and the item `k` stands behind those of the `k` items before it.
pub proof fn lemma_item_stands_at_its_offset(items: Seq<ReadRangeItemView>, k: int)
    requires
        0 <= k <= items.len(),
    ensures
        spec_item_offset(items, k) <= spec_encode_items(items).len(),
        spec_encode_items(items).take(spec_item_offset(items, k)) == spec_encode_items(
            items.take(k),
        ),
        k < items.len() ==> holds_at(
            spec_encode_items(items),
            spec_item_offset(items, k),
            items[k].spec_encode(),
        ) && spec_item_offset(items, k + 1) == spec_item_offset(items, k)
            + items[k].spec_encode().len(),
        k == items.len() ==> spec_item_offset(items, k) == spec_encode_items(items).len(),
    decreases items.len() - k,
{
    let all = spec_encode_items(items);
    if k < items.len() {
        lemma_item_stands_at_its_offset(items, k + 1);
        lemma_encode_items_prefix(items, k);
        let before = spec_encode_items(items.take(k));
        let with = spec_encode_items(items.take(k + 1));
        let item = items[k].spec_encode();
        let m = before.len() as int;
        let n = with.len() as int;
        assert(with == before + item);
        assert(all.take(n) == with);
        assert(all.take(m) =~= before) by {
            assert(all.take(n).take(m) =~= all.take(m));
            assert(with.take(m) =~= before);
        }
        assert(all.subrange(m, n) =~= item) by {
            assert(all.take(n).subrange(m, n) =~= all.subrange(m, n));
            assert(with.subrange(m, n) =~= item);
        }
    } else {
        assert(items.take(k) =~= items);
        assert(all.take(all.len() as int) =~= all);
    }
}

/// Pulling from the bytes of `n` items gives the `n` items, one after the
/// other, and then the end: a pull at the place where the item `k` begins
/// gives that item and moves to the place of the next, and a pull behind
/// the last item gives nothing. So no item is lost and none is made up,
/// for no item, for one and for many.
pub proof fn lemma_pull_gives_each_item_then_ends(items: Seq<ReadRangeItemView>, k: int)
    requires
        spec_items_in_range(items),
        0 <= k <= items.len(),
    ensures
        k < items.len() ==> spec_pull(spec_encode_items(items), spec_item_offset(items, k))
            == Some(
            Ok::<(ReadRangeItemView, int), Error>((items[k], spec_item_offset(items, k + 1))),
        ),
        k == items.len() ==> spec_pull(spec_encode_items(items), spec_item_offset(items, k))
            is None,
{
    lemma_item_stands_at_its_offset(items, k);
    if k < items.len() {
        assert(items[k].spec_in_range());
        lemma_item_round_trip(items[k], spec_encode_items(items), spec_item_offset(items, k));
    }
}

/// The walk to a closing tag steps over an item, so long as the tag looked
/// for is none of the two brackets of an item.
pub proof fn lemma_find_closing_steps_over_item(
    item: ReadRangeItemView,
    s: Seq<u8>,
    pos: int,
    tag_number: u8,
)
    requires
        item.spec_in_range(),
        holds_at(s, pos, item.spec_encode()),
        tag_number != READ_RANGE_ITEM_DATE_TIME_TAG,
        tag_number != READ_RANGE_ITEM_VALUE_TAG,
    ensures
        spec_find_closing(s, pos, tag_number, 0) == spec_find_closing(
            s,
            pos + item.spec_encode().len(),
            tag_number,
            0,
        ),
{
    let bits = item.value->Real_0;
    let date_time = spec_encode_date_time(item.date, item.time);
    let value = spec_encode_real_value(bits);
    let flags = item.status_flags.spec_encode_context(READ_RANGE_ITEM_STATUS_FLAGS_TAG);
    lemma_holds_at_split(s, pos, date_time + value, flags);
    lemma_holds_at_split(s, pos, date_time, value);

    // the date and the time
    let opening = Tag {
        number: TagNumber::ContextSpecificOpening(READ_RANGE_ITEM_DATE_TIME_TAG),
        value: 0,
    };
    let date_tag = Tag {
        number: TagNumber::Application(ApplicationTagNumber::Date),
        value: DATE_LEN,
    };
    let time_tag = Tag {
        number: TagNumber::Application(ApplicationTagNumber::Time),
        value: TIME_LEN,
    };
    let closing = Tag {
        number: TagNumber::ContextSpecificClosing(READ_RANGE_ITEM_DATE_TIME_TAG),
        value: 0,
    };
    let a = opening.spec_encode();
    let b = date_tag.spec_encode();
    let c = item.date.spec_encode();
    let d = time_tag.spec_encode();
    let e = item.time.spec_encode();
    let f = closing.spec_encode();
    lemma_holds_at_split(s, pos, a + b + c + d + e, f);
    lemma_holds_at_split(s, pos, a + b + c + d, e);
    lemma_holds_at_split(s, pos, a + b + c, d);
    lemma_holds_at_split(s, pos, a + b, c);
    lemma_holds_at_split(s, pos, a, b);
    let at1 = pos + a.len();
    let at2 = at1 + b.len() + 4;
    let at3 = at2 + d.len() + 4;
    let at4 = at3 + f.len();
    lemma_find_closing_steps_over(opening, s, pos, tag_number, 0);
    lemma_find_closing_steps_over(date_tag, s, at1, tag_number, 0);
    lemma_find_closing_steps_over(time_tag, s, at2, tag_number, 0);
    lemma_find_closing_steps_over(closing, s, at3, tag_number, 0);
    assert(at4 == pos + date_time.len());

    // the value
    let value_opening = Tag {
        number: TagNumber::ContextSpecificOpening(READ_RANGE_ITEM_VALUE_TAG),
        value: 0,
    };
    let kind = Tag {
        number: TagNumber::ContextSpecific(ReadRangeValueType::Real.spec_code()),
        value: 4,
    };
    let value_closing = Tag {
        number: TagNumber::ContextSpecificClosing(READ_RANGE_ITEM_VALUE_TAG),
        value: 0,
    };
    let g = value_opening.spec_encode();
    let h = kind.spec_encode();
    let i = spec_u32_be(bits);
    let j = value_closing.spec_encode();
    lemma_holds_at_split(s, at4, g + h + i, j);
    lemma_holds_at_split(s, at4, g + h, i);
    lemma_holds_at_split(s, at4, g, h);
    let at5 = at4 + g.len();
    let at6 = at5 + h.len() + 4;
    let at7 = at6 + j.len();
    lemma_find_closing_steps_over(value_opening, s, at4, tag_number, 0);
    lemma_find_closing_steps_over(kind, s, at5, tag_number, 0);
    lemma_find_closing_steps_over(value_closing, s, at6, tag_number, 0);
    assert(at7 == at4 + value.len());

    // the status flags
    let flags_tag = Tag {
        number: TagNumber::ContextSpecific(READ_RANGE_ITEM_STATUS_FLAGS_TAG),
        value: (item.status_flags.bits.len() + 1) as u32,
    };
    lemma_holds_at_split(s, at7, flags_tag.spec_encode(), item.status_flags.spec_encode());
    lemma_find_closing_steps_over(flags_tag, s, at7, tag_number, 0);
}

/// The walk to the closing tag of a bracket that holds items and nothing
/// else finds that tag right behind the items.
pub proof fn lemma_find_closing_behind_items(
    items: Seq<ReadRangeItemView>,
    k: int,
    s: Seq<u8>,
    pos: int,
    tag_number: u8,
)
    requires
        spec_items_in_range(items),
        0 <= k <= items.len(),
        holds_at(s, pos, spec_encode_items(items) + spec_encode_closing_tag(tag_number)),
        tag_number != READ_RANGE_ITEM_DATE_TIME_TAG,
        tag_number != READ_RANGE_ITEM_VALUE_TAG,
    ensures
        spec_find_closing(s, pos + spec_item_offset(items, k), tag_number, 0) == Ok::<
            (int, int),
            Error,
        >(
            (
                pos + spec_encode_items(items).len(),
                pos + spec_encode_items(items).len() + spec_encode_closing_tag(tag_number).len(),
            ),
        ),
    decreases items.len() - k,
{
    let all = spec_encode_items(items);
    lemma_holds_at_split(s, pos, all, spec_encode_closing_tag(tag_number));
    lemma_item_stands_at_its_offset(items, k);
    if k < items.len() {
        assert(items[k].spec_in_range());
        lemma_holds_at_within(s, pos, all, spec_item_offset(items, k), items[k].spec_encode());
        lemma_find_closing_steps_over_item(items[k], s, pos + spec_item_offset(items, k), tag_number);
        lemma_find_closing_behind_items(items, k + 1, s, pos, tag_number);
    } else {
        lemma_find_closing_ends(s, pos + all.len(), tag_number);
    }
}

/// What an acknowledgement that was written reads back as: the same fields,
/// and for the items the region in which their bytes stand, from which
/// nothing has been pulled yet.
pub open spec fn spec_read_back(ack: ReadRangeAckView) -> ReadRangeAckView {
    ReadRangeAckView {
        object_id: ack.object_id,
        property_id: ack.property_id,
        array_index: ack.array_index,
        result_flags: ack.result_flags,
        item_count: ack.item_count,
        item_data: ReadRangeItemsView {
            items: Seq::empty(),
            region: spec_encode_items(ack.item_data.items),
            position: 0,
        },
    }
}

/// The fields of an acknowledgement in front of its items, on the wire.
pub open spec fn spec_encode_fields(ack: ReadRangeAckView) -> Seq<u8> {
    ack.spec_encode_head() + ack.result_flags.spec_encode_context(READ_RANGE_ACK_RESULT_FLAGS_TAG)
        + spec_encode_context_unsigned(READ_RANGE_ACK_ITEM_COUNT_TAG, ack.spec_item_count())
}

/// The fields of an acknowledgement in front of its items are read back as
/// they were written.
pub proof fn lemma_read_range_ack_fields_round_trip(ack: ReadRangeAckView, s: Seq<u8>, pos: int)
    requires
        ack.object_id.wf(),
        ack.result_flags.wf(),
        holds_at(s, pos, spec_encode_fields(ack)),
    ensures
        ReadRangeAckView::spec_decode_fields(s, pos + 1) == Ok::<
            ((ObjectId, PropertyId, u32, BitStringView, u32), int),
            Error,
        >(
            (
                (
                    ack.object_id,
                    ack.property_id,
                    ack.array_index,
                    ack.result_flags,
                    ack.spec_item_count(),
                ),
                pos + spec_encode_fields(ack).len(),
            ),
        ),
{
    let choice = seq![READ_RANGE_SERVICE_CHOICE];
    let object = spec_encode_context_object_id(READ_RANGE_OBJECT_ID_TAG, ack.object_id);
    let property = spec_encode_context_unsigned(READ_RANGE_PROPERTY_ID_TAG, ack.property_id.0);
    let index: Seq<u8> = if ack.array_index != BACNET_ARRAY_ALL {
        spec_encode_context_unsigned(READ_RANGE_ARRAY_INDEX_TAG, ack.array_index)
    } else {
        seq![]
    };
    let head = ack.spec_encode_head();
    let flags = ack.result_flags.spec_encode_context(READ_RANGE_ACK_RESULT_FLAGS_TAG);
    let count = spec_encode_context_unsigned(READ_RANGE_ACK_ITEM_COUNT_TAG, ack.spec_item_count());
    lemma_holds_at_split(s, pos, head + flags, count);
    lemma_holds_at_split(s, pos, head, flags);
    lemma_holds_at_split(s, pos, choice + object + property, index);
    lemma_holds_at_split(s, pos, choice + object, property);
    lemma_holds_at_split(s, pos, choice, object);

    let at1 = pos + 1;
    lemma_context_object_id_round_trip(READ_RANGE_OBJECT_ID_TAG, ack.object_id, s, at1);
    let at2 = at1 + object.len();
    lemma_context_unsigned_round_trip(READ_RANGE_PROPERTY_ID_TAG, ack.property_id.0, s, at2);
    let at3 = at2 + property.len();
    if ack.array_index != BACNET_ARRAY_ALL {
        lemma_context_unsigned_round_trip(READ_RANGE_ARRAY_INDEX_TAG, ack.array_index, s, at3);
    }
    let at4 = at3 + index.len();
    assert(at4 == pos + head.len());
    lemma_bit_string_round_trip(ack.result_flags, READ_RANGE_ACK_RESULT_FLAGS_TAG, s, at4);
    let at5 = at4 + flags.len();
    lemma_context_unsigned_round_trip(
        READ_RANGE_ACK_ITEM_COUNT_TAG,
        ack.spec_item_count(),
        s,
        at5,
    );
}

/// The bracket of the items of an acknowledgement is read back as the
/// region of the bytes of the items.
pub proof fn lemma_item_data_round_trip(items: Seq<ReadRangeItemView>, s: Seq<u8>, pos: int)
    requires
        spec_items_in_range(items),
        holds_at(
            s,
            pos,
            spec_encode_opening_tag(READ_RANGE_ACK_ITEM_DATA_TAG) + spec_encode_items(items)
                + spec_encode_closing_tag(READ_RANGE_ACK_ITEM_DATA_TAG),
        ),
    ensures
        spec_decode_item_data(s, pos) == Ok::<(Seq<u8>, int), Error>(
            (
                spec_encode_items(items),
                pos + (spec_encode_opening_tag(READ_RANGE_ACK_ITEM_DATA_TAG) + spec_encode_items(
                    items,
                ) + spec_encode_closing_tag(READ_RANGE_ACK_ITEM_DATA_TAG)).len(),
            ),
        ),
{
    let opening = Tag {
        number: TagNumber::ContextSpecificOpening(READ_RANGE_ACK_ITEM_DATA_TAG),
        value: 0,
    };
    let bytes = spec_encode_items(items);
    let closing = spec_encode_closing_tag(READ_RANGE_ACK_ITEM_DATA_TAG);
    lemma_holds_at_split(s, pos, opening.spec_encode() + bytes, closing);
    lemma_holds_at_split(s, pos, opening.spec_encode(), bytes);
    lemma_tag_round_trip(opening, s, pos);
    lemma_tag_decode_bounds(s, pos);
    let p = pos + opening.spec_encode().len();
    lemma_holds_at_join(s, p, bytes, closing);
    assert(items.take(0) =~= Seq::<ReadRangeItemView>::empty());
    lemma_find_closing_behind_items(items, 0, s, p, READ_RANGE_ACK_ITEM_DATA_TAG);
}

/// An acknowledgement that the wire can hold is read back as it was
/// written: where its bytes stand in `s`, a read behind their first byte,
/// which names the service, returns every field unchanged and stops right
/// behind the bytes. The items come back as the region of their bytes:
/// `lemma_pull_gives_each_item_then_ends` says that pulling from that
/// region gives the items that were written.
pub proof fn lemma_read_range_ack_round_trip(ack: ReadRangeAckView, s: Seq<u8>, pos: int)
    requires
        ack.spec_in_range(),
        holds_at(s, pos, ack.spec_encode()),
    ensures
        ReadRangeAckView::spec_decode(s, pos + 1) == Ok::<(ReadRangeAckView, int), Error>(
            (spec_read_back(ack), pos + ack.spec_encode().len()),
        ),
{
    reveal(ReadRangeAckView::spec_decode);
    let fields = spec_encode_fields(ack);
    let opening = spec_encode_opening_tag(READ_RANGE_ACK_ITEM_DATA_TAG);
    let items = spec_encode_items(ack.item_data.items);
    let closing = spec_encode_closing_tag(READ_RANGE_ACK_ITEM_DATA_TAG);
    assert(ack.spec_encode() =~= fields + (opening + items + closing));
    lemma_holds_at_split(s, pos, fields, opening + items + closing);
    lemma_read_range_ack_fields_round_trip(ack, s, pos);
    lemma_item_data_round_trip(ack.item_data.items, s, pos + fields.len());
}

/// Cutting the bytes short does not change what a count reads as, so long
/// as the cut lies behind it; a cut through it makes the read fail for want
/// of bytes.
pub proof fn lemma_decode_count_cut(s: Seq<u8>, pos: int, k: int)
    requires
        0 <= k <= s.len(),
        spec_decode_count(s, pos) is Ok,
    ensures
        spec_decode_count(s.take(k), pos) == cut_short(spec_decode_count(s, pos), k),
        spec_decode_count(s, pos) matches Ok((_, p)) && pos < p <= s.len(),
{
    lemma_tag_decode_cut(s, pos, k);
    lemma_tag_decode_bounds(s, pos);
    let (tag, p) = Tag::spec_decode(s, pos)->Ok_0;
    if tag.number == TagNumber::Application(ApplicationTagNumber::UnsignedInt) {
        lemma_decode_unsigned_cut(tag.value, s, p, k);
    } else {
        lemma_decode_signed_cut(tag.value, s, p, k);
    }
}

/// The same for a number and a count in a bracket.
pub proof fn lemma_decode_number_and_count_cut(s: Seq<u8>, pos: int, closing: u8, k: int)
    requires
        0 <= k <= s.len(),
        spec_decode_number_and_count(s, pos, closing) is Ok,
    ensures
        spec_decode_number_and_count(s.take(k), pos, closing) == cut_short(
            spec_decode_number_and_count(s, pos, closing),
            k,
        ),
        spec_decode_number_and_count(s, pos, closing) matches Ok((_, p)) && pos < p <= s.len(),
{
    lemma_tag_decode_cut(s, pos, k);
    lemma_tag_decode_bounds(s, pos);
    let (tag, p) = Tag::spec_decode(s, pos)->Ok_0;
    lemma_decode_unsigned_cut(tag.value, s, p, k);
    let (_, p) = spec_decode_unsigned(tag.value, s, p)->Ok_0;
    lemma_decode_count_cut(s, p, k);
    let (_, p) = spec_decode_count(s, p)->Ok_0;
    lemma_tag_decode_cut(s, p, k);
    lemma_tag_decode_bounds(s, p);
}

/// The same for a date, a time and a count in their bracket.
pub proof fn lemma_decode_by_time_cut(s: Seq<u8>, pos: int, k: int)
    requires
        0 <= k <= s.len(),
        spec_decode_by_time(s, pos) is Ok,
    ensures
        spec_decode_by_time(s.take(k), pos) == cut_short(spec_decode_by_time(s, pos), k),
        spec_decode_by_time(s, pos) matches Ok((_, p)) && pos < p <= s.len(),
{
    lemma_date_and_time_decode_cut(s, pos, k);
    lemma_date_and_time_decode_cut(s, pos + 4, k);
    lemma_decode_count_cut(s, pos + 8, k);
    let (_, p) = spec_decode_count(s, pos + 8)->Ok_0;
    lemma_tag_decode_cut(s, p, k);
    lemma_tag_decode_bounds(s, p);
}

/// The same for the selection that follows its opening tag.
pub proof fn lemma_decode_after_cut(tag: Tag, s: Seq<u8>, pos: int, k: int)
    requires
        0 <= k <= s.len(),
        ReadRangeRequestType::spec_decode_after(tag, s, pos) is Ok,
    ensures
        ReadRangeRequestType::spec_decode_after(tag, s.take(k), pos) == cut_short(
            ReadRangeRequestType::spec_decode_after(tag, s, pos),
            k,
        ),
        ReadRangeRequestType::spec_decode_after(tag, s, pos) matches Ok((_, p)) && pos < p
            <= s.len(),
{
    if tag.number == TagNumber::ContextSpecificOpening(READ_RANGE_BY_POSITION_TAG) {
        lemma_decode_number_and_count_cut(s, pos, READ_RANGE_BY_POSITION_TAG, k);
    } else if tag.number == TagNumber::ContextSpecificOpening(READ_RANGE_BY_SEQUENCE_TAG) {
        lemma_decode_number_and_count_cut(s, pos, READ_RANGE_BY_SEQUENCE_TAG, k);
    } else {
        lemma_decode_by_time_cut(s, pos, k);
    }
}

/// The same for a selection that may be that of all items, where the cut
/// lies behind the place at which the selection begins.
pub proof fn lemma_request_type_decode_cut(s: Seq<u8>, pos: int, k: int)
    requires
        0 <= pos < k <= s.len(),
        ReadRangeRequestType::spec_decode(s, pos) is Ok,
    ensures
        ReadRangeRequestType::spec_decode(s.take(k), pos) == cut_short(
            ReadRangeRequestType::spec_decode(s, pos),
            k,
        ),
{
    lemma_tag_decode_cut(s, pos, k);
    lemma_tag_decode_bounds(s, pos);
    let (tag, p) = Tag::spec_decode(s, pos)->Ok_0;
    lemma_decode_after_cut(tag, s, p, k);
}

/// A selection that was read ends no earlier than it began.
pub proof fn lemma_request_type_decode_advances(s: Seq<u8>, pos: int)
    requires
        0 <= pos,
        ReadRangeRequestType::spec_decode(s, pos) is Ok,
    ensures
        ReadRangeRequestType::spec_decode(s, pos) matches Ok((_, p)) && pos <= p,
{
    if pos < s.len() {
        lemma_tag_decode_bounds(s, pos);
        let (tag, p) = Tag::spec_decode(s, pos)->Ok_0;
        lemma_decode_after_cut(tag, s, p, s.len() as int);
    }
}

/// The position right behind the array index that stands at `pos`, if one
/// stands there.
pub open spec fn spec_behind_array_index(s: Seq<u8>, pos: int) -> Option<int> {
    match Tag::spec_decode(s, pos) {
        Ok((tag, p)) => if tag.number == TagNumber::ContextSpecific(READ_RANGE_ARRAY_INDEX_TAG) {
            match spec_decode_unsigned(tag.value, s, p) {
                Ok((_, q)) => Some(q),
                Err(_) => None,
            }
        } else {
            None
        },
        Err(_) => None,
    }
}

/// The same for what follows the property of a request, where the cut
/// lies behind the property and does not fall right behind the array index.
pub proof fn lemma_index_and_selection_decode_cut(s: Seq<u8>, pos: int, k: int)
    requires
        0 <= pos < k <= s.len(),
        spec_behind_array_index(s, pos) != Some(k),
        ReadRange::spec_decode_index_and_selection(s, pos) is Ok,
    ensures
        ReadRange::spec_decode_index_and_selection(s.take(k), pos) == cut_short(
            ReadRange::spec_decode_index_and_selection(s, pos),
            k,
        ),
{
    lemma_tag_decode_cut(s, pos, k);
    lemma_tag_decode_bounds(s, pos);
    let (tag, p) = Tag::spec_decode(s, pos)->Ok_0;
    if tag.number == TagNumber::ContextSpecific(READ_RANGE_ARRAY_INDEX_TAG) {
        lemma_decode_unsigned_cut(tag.value, s, p, k);
        let (_, q) = spec_decode_unsigned(tag.value, s, p)->Ok_0;
        if q < k {
            lemma_request_type_decode_cut(s, q, k);
        } else {
            lemma_request_type_decode_advances(s, q);
        }
    } else {
        lemma_decode_after_cut(tag, s, p, k);
    }
}

/// The position right behind the property of the request that stands at
/// `pos`, if a request stands there.
pub open spec fn spec_behind_property(s: Seq<u8>, pos: int) -> Option<int> {
    match spec_decode_context_object_id(s, pos, READ_RANGE_OBJECT_ID_TAG) {
        Ok((_, p)) => match spec_decode_context_property_id(s, p, READ_RANGE_PROPERTY_ID_TAG) {
            Ok((_, p)) => Some(p),
            Err(_) => None,
        },
        Err(_) => None,
    }
}

/// Cutting the bytes short does not change what a request reads as, so
/// long as the cut lies behind it; a cut through it makes the read fail for
/// want of bytes, unless it falls right behind the property or right behind
/// the array index, where a request may end.
pub proof fn lemma_read_range_decode_cut(s: Seq<u8>, pos: int, k: int)
    requires
        0 <= pos,
        0 <= k <= s.len(),
        ReadRange::spec_decode(s, pos) is Ok,
        spec_behind_property(s, pos) matches Some(p) && k != p && spec_behind_array_index(s, p)
            != Some(k),
    ensures
        ReadRange::spec_decode(s.take(k), pos) == cut_short(ReadRange::spec_decode(s, pos), k),
{
    reveal(ReadRange::spec_decode);
    lemma_decode_context_object_id_cut(s, pos, READ_RANGE_OBJECT_ID_TAG, k);
    let (_, p) = spec_decode_context_object_id(s, pos, READ_RANGE_OBJECT_ID_TAG)->Ok_0;
    lemma_decode_context_unsigned_cut(s, p, READ_RANGE_PROPERTY_ID_TAG, k);
    let (_, p) = spec_decode_context_property_id(s, p, READ_RANGE_PROPERTY_ID_TAG)->Ok_0;
    if p < k {
        lemma_index_and_selection_decode_cut(s, p, k);
    } else {
        lemma_index_and_selection_advances(s, p);
    }
}

/// What follows the property of a request ends no earlier than it begins.
pub proof fn lemma_index_and_selection_advances(s: Seq<u8>, pos: int)
    requires
        0 <= pos,
        ReadRange::spec_decode_index_and_selection(s, pos) is Ok,
    ensures
        ReadRange::spec_decode_index_and_selection(s, pos) matches Ok((_, p)) && pos <= p,
{
    if pos < s.len() {
        lemma_tag_decode_bounds(s, pos);
        let (tag, p) = Tag::spec_decode(s, pos)->Ok_0;
        if tag.number == TagNumber::ContextSpecific(READ_RANGE_ARRAY_INDEX_TAG) {
            let (_, q) = spec_decode_unsigned(tag.value, s, p)->Ok_0;
            lemma_request_type_decode_advances(s, q);
        } else {
            lemma_decode_after_cut(tag, s, p, s.len() as int);
        }
    }
}

/// A request that loses one or more bytes at its end fails to read for
/// want of bytes, unless the cut falls right behind the property or right
/// behind the array index. At those two places a request may end, and what
/// is left reads as a request for all items: the reader cannot tell a
/// request that was cut there from one that ended there.
pub proof fn lemma_read_range_truncated(request: ReadRange, k: int)
    requires
        request.spec_in_range(),
        0 <= k < request.spec_encode().len(),
        k != (spec_encode_context_object_id(READ_RANGE_OBJECT_ID_TAG, request.object_id)
            + spec_encode_context_unsigned(
            READ_RANGE_PROPERTY_ID_TAG,
            request.property_id.0,
        )).len(),
        k != request.spec_encode_head().len(),
    ensures
        ReadRange::spec_decode(request.spec_encode().take(k), 0) == Err::<(ReadRange, int), Error>(
            Error::BufferBounds,
        ),
{
    let s = request.spec_encode();
    assert(s.subrange(0, s.len() as int) =~= s);
    lemma_read_range_round_trip(request, s, 0);
    lemma_read_range_places(request);
    lemma_read_range_decode_cut(s, 0, k);
}

/// Where in the bytes of a request the property ends, and where the array
/// index ends if there is one.
pub proof fn lemma_read_range_places(request: ReadRange)
    requires
        request.spec_in_range(),
    ensures
        spec_behind_property(request.spec_encode(), 0) == Some(
            (spec_encode_context_object_id(READ_RANGE_OBJECT_ID_TAG, request.object_id)
                + spec_encode_context_unsigned(
                READ_RANGE_PROPERTY_ID_TAG,
                request.property_id.0,
            )).len() as int,
        ),
        spec_behind_array_index(
            request.spec_encode(),
            (spec_encode_context_object_id(READ_RANGE_OBJECT_ID_TAG, request.object_id)
                + spec_encode_context_unsigned(
                READ_RANGE_PROPERTY_ID_TAG,
                request.property_id.0,
            )).len() as int,
        ) matches Some(q) ==> q == request.spec_encode_head().len(),
{
    let s = request.spec_encode();
    assert(s.subrange(0, s.len() as int) =~= s);
    let object = spec_encode_context_object_id(READ_RANGE_OBJECT_ID_TAG, request.object_id);
    let property = spec_encode_context_unsigned(READ_RANGE_PROPERTY_ID_TAG, request.property_id.0);
    let index: Seq<u8> = if request.array_index != BACNET_ARRAY_ALL {
        spec_encode_context_unsigned(READ_RANGE_ARRAY_INDEX_TAG, request.array_index)
    } else {
        seq![]
    };
    let selection = request.request_type.spec_encode();
    lemma_holds_at_split(s, 0, object + property + index, selection);
    lemma_holds_at_split(s, 0, object + property, index);
    lemma_holds_at_split(s, 0, object, property);
    lemma_context_object_id_round_trip(READ_RANGE_OBJECT_ID_TAG, request.object_id, s, 0);
    lemma_context_unsigned_round_trip(
        READ_RANGE_PROPERTY_ID_TAG,
        request.property_id.0,
        s,
        object.len() as int,
    );
    let at2 = (object.len() + property.len()) as int;
    if request.array_index != BACNET_ARRAY_ALL {
        lemma_context_unsigned_round_trip(READ_RANGE_ARRAY_INDEX_TAG, request.array_index, s, at2);
    } else if !(request.request_type is All) {
        lemma_request_type_round_trip(request.request_type, s, at2);
    } else {
        lemma_tag_decode_bounds(s, at2);
    }
}

/// Cutting the bytes short does not change what the date and the time of
/// an item read as, so long as the cut lies behind them; a cut through them
/// makes the read fail for want of bytes.
pub proof fn lemma_decode_date_time_cut(s: Seq<u8>, pos: int, k: int)
    requires
        0 <= k <= s.len(),
        spec_decode_date_time(s, pos) is Ok,
    ensures
        spec_decode_date_time(s.take(k), pos) == cut_short(spec_decode_date_time(s, pos), k),
        spec_decode_date_time(s, pos) matches Ok((_, p)) && pos < p <= s.len(),
{
    reveal(spec_decode_date_time);
    lemma_tag_decode_cut(s, pos, k);
    lemma_tag_decode_bounds(s, pos);
    let (_, p) = Tag::spec_decode(s, pos)->Ok_0;
    lemma_tag_decode_cut(s, p, k);
    lemma_tag_decode_bounds(s, p);
    let (_, p) = Tag::spec_decode(s, p)->Ok_0;
    lemma_date_and_time_decode_cut(s, p, k);
    let p = p + 4;
    lemma_tag_decode_cut(s, p, k);
    lemma_tag_decode_bounds(s, p);
    let (_, p) = Tag::spec_decode(s, p)->Ok_0;
    lemma_date_and_time_decode_cut(s, p, k);
    let p = p + 4;
    lemma_tag_decode_cut(s, p, k);
    lemma_tag_decode_bounds(s, p);
}

/// The same for the value of an item.
pub proof fn lemma_decode_value_cut(s: Seq<u8>, pos: int, k: int)
    requires
        0 <= k <= s.len(),
        spec_decode_value(s, pos) is Ok,
    ensures
        spec_decode_value(s.take(k), pos) == cut_short(spec_decode_value(s, pos), k),
        spec_decode_value(s, pos) matches Ok((_, p)) && pos < p <= s.len(),
{
    reveal(spec_decode_value);
    lemma_tag_decode_cut(s, pos, k);
    lemma_tag_decode_bounds(s, pos);
    let (_, p) = Tag::spec_decode(s, pos)->Ok_0;
    lemma_tag_decode_cut(s, p, k);
    lemma_tag_decode_bounds(s, p);
    let (_, p) = Tag::spec_decode(s, p)->Ok_0;
    lemma_read_bytes_cut(s, p, 4, k);
    let p = p + 4;
    lemma_tag_decode_cut(s, p, k);
    lemma_tag_decode_bounds(s, p);
}

/// The same for an item.
pub proof fn lemma_item_decode_cut(s: Seq<u8>, pos: int, k: int)
    requires
        0 <= k <= s.len(),
        ReadRangeItemView::spec_decode(s, pos) is Ok,
    ensures
        ReadRangeItemView::spec_decode(s.take(k), pos) == cut_short(
            ReadRangeItemView::spec_decode(s, pos),
            k,
        ),
{
    reveal(ReadRangeItemView::spec_decode);
    lemma_decode_date_time_cut(s, pos, k);
    let (_, p) = spec_decode_date_time(s, pos)->Ok_0;
    lemma_decode_value_cut(s, p, k);
    let (_, p) = spec_decode_value(s, p)->Ok_0;
    lemma_tag_decode_cut(s, p, k);
    lemma_tag_decode_bounds(s, p);
    let (tag, p) = Tag::spec_decode(s, p)->Ok_0;
    lemma_bit_string_decode_cut(tag.value, s, p, k);
}

/// An item that loses one or more bytes at its end fails to read for want
/// of bytes, wherever the cut falls; a pull from what is left of it reports
/// just that.
pub proof fn lemma_item_truncated(item: ReadRangeItemView, k: int)
    requires
        item.spec_in_range(),
        0 <= k < item.spec_encode().len(),
    ensures
        ReadRangeItemView::spec_decode(item.spec_encode().take(k), 0) == Err::<
            (ReadRangeItemView, int),
            Error,
        >(Error::BufferBounds),
        0 < k ==> spec_pull(item.spec_encode().take(k), 0) == Some(
            Err::<(ReadRangeItemView, int), Error>(Error::BufferBounds),
        ),
{
    let s = item.spec_encode();
    assert(s.subrange(0, s.len() as int) =~= s);
    lemma_item_round_trip(item, s, 0);
    lemma_item_decode_cut(s, 0, k);
}

/// Cutting the bytes short does not change what the array index of an
/// acknowledgement and the tag behind it read as, so long as the cut lies
/// behind them; a cut through them makes the read fail for want of bytes.
pub proof fn lemma_decode_optional_array_index_cut(s: Seq<u8>, pos: int, k: int)
    requires
        0 <= k <= s.len(),
        spec_decode_optional_array_index(s, pos) is Ok,
    ensures
        spec_decode_optional_array_index(s.take(k), pos) == cut_short(
            spec_decode_optional_array_index(s, pos),
            k,
        ),
        spec_decode_optional_array_index(s, pos) matches Ok((_, p)) && pos < p <= s.len(),
{
    lemma_tag_decode_cut(s, pos, k);
    lemma_tag_decode_bounds(s, pos);
    let (tag, p) = Tag::spec_decode(s, pos)->Ok_0;
    if tag.number == TagNumber::ContextSpecific(READ_RANGE_ARRAY_INDEX_TAG) {
        lemma_decode_unsigned_cut(tag.value, s, p, k);
        let (_, p) = spec_decode_unsigned(tag.value, s, p)->Ok_0;
        lemma_tag_decode_cut(s, p, k);
        lemma_tag_decode_bounds(s, p);
    }
}

/// The same for the fields of an acknowledgement in front of its items.
pub proof fn lemma_decode_fields_cut(s: Seq<u8>, pos: int, k: int)
    requires
        0 <= k <= s.len(),
        ReadRangeAckView::spec_decode_fields(s, pos) is Ok,
    ensures
        ReadRangeAckView::spec_decode_fields(s.take(k), pos) == cut_short(
            ReadRangeAckView::spec_decode_fields(s, pos),
            k,
        ),
        ReadRangeAckView::spec_decode_fields(s, pos) matches Ok((_, p)) && pos < p <= s.len(),
{
    lemma_decode_context_object_id_cut(s, pos, READ_RANGE_OBJECT_ID_TAG, k);
    let (_, p) = spec_decode_context_object_id(s, pos, READ_RANGE_OBJECT_ID_TAG)->Ok_0;
    lemma_decode_context_unsigned_cut(s, p, READ_RANGE_PROPERTY_ID_TAG, k);
    let (_, p) = spec_decode_context_property_id(s, p, READ_RANGE_PROPERTY_ID_TAG)->Ok_0;
    lemma_decode_optional_array_index_cut(s, p, k);
    let ((_, tag), p) = spec_decode_optional_array_index(s, p)->Ok_0;
    lemma_bit_string_decode_cut(tag.value, s, p, k);
    let (_, p) = BitStringView::spec_decode(tag.value, s, p)->Ok_0;
    lemma_decode_context_unsigned_cut(s, p, READ_RANGE_ACK_ITEM_COUNT_TAG, k);
}

/// The same for the bracket of the items, where the cut lies behind the
/// place at which the bracket begins.
pub proof fn lemma_decode_item_data_cut(s: Seq<u8>, pos: int, k: int)
    requires
        0 <= pos < k <= s.len(),
        spec_decode_item_data(s, pos) is Ok,
    ensures
        spec_decode_item_data(s.take(k), pos) == cut_short(spec_decode_item_data(s, pos), k),
{
    lemma_tagged_body_cut(s, pos, READ_RANGE_ACK_ITEM_DATA_TAG, k);
    let ((start, end), p) = spec_tagged_body(s, pos, READ_RANGE_ACK_ITEM_DATA_TAG)->Ok_0;
    if p <= k {
        assert(s.take(k).subrange(start, end) =~= s.subrange(start, end));
    }
}

/// What the bracket of the items reads as ends no earlier than it begins.
pub proof fn lemma_decode_item_data_advances(s: Seq<u8>, pos: int)
    requires
        0 <= pos,
        spec_decode_item_data(s, pos) is Ok,
    ensures
        spec_decode_item_data(s, pos) matches Ok((_, p)) && pos <= p,
{
    if pos < s.len() {
        lemma_tagged_body_cut(s, pos, READ_RANGE_ACK_ITEM_DATA_TAG, s.len() as int);
    }
}

/// Cutting the bytes short does not change what an acknowledgement reads
/// as, so long as the cut lies behind it; a cut through it makes the read
/// fail for want of bytes, unless it falls right behind the number of
/// items, where an acknowledgement may end.
pub proof fn lemma_read_range_ack_decode_cut(s: Seq<u8>, pos: int, k: int)
    requires
        0 <= pos,
        0 <= k <= s.len(),
        ReadRangeAckView::spec_decode(s, pos) is Ok,
        ReadRangeAckView::spec_decode_fields(s, pos) matches Ok((_, p)) && k != p,
    ensures
        ReadRangeAckView::spec_decode(s.take(k), pos) == cut_short(
            ReadRangeAckView::spec_decode(s, pos),
            k,
        ),
{
    reveal(ReadRangeAckView::spec_decode);
    lemma_decode_fields_cut(s, pos, k);
    let (_, p) = ReadRangeAckView::spec_decode_fields(s, pos)->Ok_0;
    if p < k {
        lemma_decode_item_data_cut(s, p, k);
    } else {
        lemma_decode_item_data_advances(s, p);
    }
}

/// An acknowledgement that loses one or more bytes at its end fails to
/// read for want of bytes, unless the cut falls right behind the number of
/// items. There an acknowledgement may end, and what is left reads as one
/// without items: the reader cannot tell an acknowledgement that was cut
/// there from one that ended there.
pub proof fn lemma_read_range_ack_truncated(ack: ReadRangeAckView, k: int)
    requires
        ack.spec_in_range(),
        0 <= k < ack.spec_encode().len(),
        k != spec_encode_fields(ack).len(),
    ensures
        ReadRangeAckView::spec_decode(ack.spec_encode().take(k), 1) == Err::<
            (ReadRangeAckView, int),
            Error,
        >(Error::BufferBounds),
{
    let s = ack.spec_encode();
    assert(s.subrange(0, s.len() as int) =~= s);
    lemma_read_range_ack_round_trip(ack, s, 0);
    let fields = spec_encode_fields(ack);
    let rest = spec_encode_opening_tag(READ_RANGE_ACK_ITEM_DATA_TAG) + spec_encode_items(
        ack.item_data.items,
    ) + spec_encode_closing_tag(READ_RANGE_ACK_ITEM_DATA_TAG);
    assert(s =~= fields + rest);
    lemma_holds_at_split(s, 0, fields, rest);
    lemma_read_range_ack_fields_round_trip(ack, s, 0);
    lemma_read_range_ack_decode_cut(s, 1, k);
}

} // verus!
