use vstd::prelude::*;
use crate::application_protocol::application_pdu::{ApplicationPduView, ConfirmedRequestView};
use crate::application_protocol::application_pdu_proofs::lemma_confirmed_request_round_trip;
use crate::common::endian::{lemma_u16_be_round_trip, spec_u16_be, spec_u16_from_be};
use crate::common::error::Error;
use crate::common::io::{holds_at, lemma_holds_at_split, Reader};
use crate::network_protocol::data_link::{
    DataLinkFunction, DataLinkView, BVLL_TYPE_BACNET_IP, DATA_LINK_HEAD_LEN,
};
use crate::network_protocol::network_pdu::{NetworkMessageView, NetworkPduView};
use crate::network_protocol::network_pdu_proofs::lemma_network_pdu_passes_through;

verus! {

/// A frame that declares more bytes than the buffer holds is refused for
/// its length, whatever it carries: nothing behind its head is looked at.
pub proof fn lemma_declared_length_beyond_buffer(buf: Seq<u8>, end: usize)
    requires
        DATA_LINK_HEAD_LEN <= buf.len(),
        DATA_LINK_HEAD_LEN <= end,
        buf[0] == BVLL_TYPE_BACNET_IP,
        DataLinkFunction::spec_from_code(buf[1]) is Some,
        spec_u16_from_be(buf.subrange(2, 4)) > buf.len(),
    ensures
        DataLinkView::spec_decode(buf, end, 0) == Err::<((DataLinkView, u16), int), Error>(
            Error::Length,
        ),
{
    let s = (Reader { index: 0, end }).region(buf);
    assert(s.subrange(2, 4) =~= buf.subrange(2, 4));
}

/// A frame that the wire can hold declares its own length: the two bytes
/// behind the mark and the function spell the number of bytes of the whole
/// frame, the four of the head and those of what the frame carries.
pub proof fn lemma_frame_declares_its_length(frame: DataLinkView)
    requires
        DATA_LINK_HEAD_LEN + frame.spec_payload().len() < 0x1_0000,
    ensures
        frame.spec_encode().len() == DATA_LINK_HEAD_LEN + frame.spec_payload().len(),
        spec_u16_from_be(frame.spec_encode().subrange(2, 4)) == frame.spec_encode().len(),
{
    let len = frame.spec_declared_len();
    lemma_u16_be_round_trip(len);
    assert(frame.spec_encode().subrange(2, 4) =~= spec_u16_be(len));
}

/// A frame that loses one or more bytes at its end is refused: for want of
/// bytes where the cut goes through its head, and for its length where the
/// cut falls behind the head, because the frame then declares more bytes
/// than are left of it.
pub proof fn lemma_frame_truncated(frame: DataLinkView, end: usize, k: int)
    requires
        DATA_LINK_HEAD_LEN + frame.spec_payload().len() < 0x1_0000,
        0 <= k < frame.spec_encode().len(),
        k <= end,
    ensures
        DataLinkView::spec_decode(frame.spec_encode().take(k), end, 0) == Err::<
            ((DataLinkView, u16), int),
            Error,
        >(
            if k < DATA_LINK_HEAD_LEN {
                Error::BufferBounds
            } else {
                Error::Length
            },
        ),
{
    let bytes = frame.spec_encode();
    let buf = bytes.take(k);
    lemma_frame_declares_its_length(frame);
    if k >= DATA_LINK_HEAD_LEN {
        assert(buf.subrange(2, 4) =~= bytes.subrange(2, 4));
        assert(buf[0] == BVLL_TYPE_BACNET_IP);
        assert(buf[1] == frame.function.spec_code());
        assert(DataLinkFunction::spec_from_code(frame.function.spec_code()) == Some(
            frame.function,
        ));
        lemma_declared_length_beyond_buffer(buf, end);
    } else {
        let s = (Reader { index: 0, end }).region(buf);
        assert(s =~= buf);
        if k >= 1 {
            assert(buf[0] == BVLL_TYPE_BACNET_IP);
        }
        if k >= 2 {
            assert(buf[1] == frame.function.spec_code());
            assert(DataLinkFunction::spec_from_code(frame.function.spec_code()) == Some(
                frame.function,
            ));
        }
    }
}

/// The number of a function names the function it is the number of.
pub proof fn lemma_function_round_trip(function: DataLinkFunction)
    ensures
        DataLinkFunction::spec_from_code(function.spec_code()) == Some(function),
{
}

/// A frame passes through what it carries: where a buffer begins with the
/// head of a frame for a function that carries a network message, and the
/// length that the head declares is no more than the buffer holds, the
/// frame reads as whatever the bytes up to that length read as behind the head.
pub proof fn lemma_frame_passes_through(
    function: DataLinkFunction,
    buf: Seq<u8>,
    end: usize,
    carried: NetworkPduView,
    behind: int,
)
    requires
        function.spec_carries_npdu(),
        DATA_LINK_HEAD_LEN <= buf.len(),
        DATA_LINK_HEAD_LEN <= end,
        buf[0] == BVLL_TYPE_BACNET_IP,
        buf[1] == function.spec_code(),
        spec_u16_from_be(buf.subrange(2, 4)) <= buf.len(),
        NetworkPduView::spec_decode(
            buf.take(spec_u16_from_be(buf.subrange(2, 4)) as int),
            DATA_LINK_HEAD_LEN as int,
        ) == Ok::<(NetworkPduView, int), Error>((carried, behind)),
    ensures
        DataLinkView::spec_decode(buf, end, 0) == Ok::<((DataLinkView, u16), int), Error>(
            (
                (
                    DataLinkView { function, npdu: Some(carried) },
                    spec_u16_from_be(buf.subrange(2, 4)),
                ),
                behind,
            ),
        ),
{
    let s = (Reader { index: 0, end }).region(buf);
    assert(s.subrange(2, 4) =~= buf.subrange(2, 4));
    lemma_function_round_trip(function);
}

/// A frame that carries a confirmed request is read back as it was
/// written, through all three layers: where a buffer holds the bytes of
/// such a frame and nothing else, it reads as that frame, with the envelope
/// of the network layer and the request unchanged, and the cursor ends
/// where the frame ends.
pub proof fn lemma_confirmed_request_frame_round_trip(
    function: DataLinkFunction,
    npdu: NetworkPduView,
    request: ConfirmedRequestView,
    end: usize,
)
    requires
        function.spec_carries_npdu(),
        npdu.network_message == NetworkMessageView::Apdu(
            ApplicationPduView::ConfirmedRequest(request),
        ),
        request.service.spec_in_range(),
        request.sequence_num == 0,
        request.proposed_window_size == 0,
        DATA_LINK_HEAD_LEN + npdu.spec_encode().len() < 0x1_0000,
        DATA_LINK_HEAD_LEN <= end,
    ensures
        DataLinkView::spec_decode(
            (DataLinkView { function, npdu: Some(npdu) }).spec_encode(),
            end,
            0,
        ) == Ok::<((DataLinkView, u16), int), Error>(
            (
                (
                    DataLinkView { function, npdu: Some(npdu) },
                    (DataLinkView { function, npdu: Some(npdu) }).spec_encode().len() as u16,
                ),
                (DataLinkView { function, npdu: Some(npdu) }).spec_encode().len() as int,
            ),
        ),
{
    let frame = DataLinkView { function, npdu: Some(npdu) };
    let buf = frame.spec_encode();
    let len = buf.len() as int;
    lemma_frame_declares_its_length(frame);
    assert(buf.take(len) =~= buf);
    let head = seq![BVLL_TYPE_BACNET_IP, function.spec_code()] + spec_u16_be(
        frame.spec_declared_len(),
    );
    assert(buf.subrange(0, len) =~= buf);
    lemma_holds_at_split(buf, 0, head, npdu.spec_encode());
    lemma_holds_at_split(buf, 4, npdu.spec_encode_head(), request.spec_encode());
    lemma_confirmed_request_round_trip(request, buf, 4 + npdu.spec_encode_head().len() as int);
    lemma_network_pdu_passes_through(
        npdu,
        buf,
        4,
        ApplicationPduView::ConfirmedRequest(request),
        len,
    );
    lemma_frame_passes_through(function, buf, end, npdu, len);
}

} // verus!
