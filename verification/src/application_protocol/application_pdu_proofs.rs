use vstd::prelude::*;
use crate::application_protocol::application_pdu::{
    ApduType, ApplicationPduView, ComplexAckServiceView, ComplexAckView, ConfirmedRequestSeriviceView,
    ConfirmedRequestView, ConfirmedServiceChoice, MaxAdpu, MaxSegments, UnconfirmedRequest,
    UnconfirmedServiceChoice,
};
use crate::application_protocol::services::read_property::{
    lemma_read_property_round_trip, ReadProperty,
};
use crate::application_protocol::services::read_property_multiple::ReadPropertyMultipleView;
use crate::application_protocol::services::read_property_multiple_proofs::lemma_read_property_multiple_round_trip;
use crate::application_protocol::services::read_range::{ReadRange, ReadRangeAckView};
use crate::application_protocol::services::read_range_proofs::{
    lemma_read_range_ack_round_trip, lemma_read_range_round_trip, spec_read_back,
};
use crate::application_protocol::services::who_is::WhoIs;
use crate::common::error::Error;
use crate::common::helper::BACNET_ARRAY_ALL;
use crate::common::io::{holds_at, lemma_holds_at_split};

verus! {

impl ConfirmedRequestSeriviceView {
    /// The wire can hold the request as it is.
    pub open spec fn spec_in_range(self) -> bool {
        match self {
            ConfirmedRequestSeriviceView::ReadProperty(x) => x.object_id.wf(),
            ConfirmedRequestSeriviceView::ReadPropertyMultiple(x) => x.object_id.wf() && (
            x.property_ids.len() > 0 || x.array_index == BACNET_ARRAY_ALL),
            ConfirmedRequestSeriviceView::ReadRange(x) => x.spec_in_range(),
        }
    }
}

/// The numbers of the two limits come apart again after they were added
/// into one byte, and each names the limit it was the number of.
pub proof fn lemma_limits_round_trip(max_segments: MaxSegments, max_adpu: MaxAdpu)
    ensures
        MaxSegments::spec_from_code(
            (((max_segments.spec_code() + max_adpu.spec_code()) / 16) * 16) as u8,
        ) == Some(max_segments),
        MaxAdpu::spec_from_code(((max_segments.spec_code() + max_adpu.spec_code()) % 16) as u8)
            == Some(max_adpu),
        max_segments.spec_code() + max_adpu.spec_code() < 256,
{
}

/// The number of a service names the service it is the number of.
pub proof fn lemma_service_choice_round_trip(choice: ConfirmedServiceChoice)
    ensures
        ConfirmedServiceChoice::spec_from_code(choice.spec_code()) == Some(choice),
{
}

/// A request with the number of its service in front is read back as it
/// was written, where it stands at the end of the bytes.
pub proof fn lemma_confirmed_service_round_trip(
    service: ConfirmedRequestSeriviceView,
    s: Seq<u8>,
    pos: int,
)
    requires
        service.spec_in_range(),
        holds_at(s, pos, service.spec_encode()),
        pos + service.spec_encode().len() == s.len(),
    ensures
        0 <= pos < s.len(),
        ConfirmedServiceChoice::spec_from_code(s[pos]) matches Some(choice)
            && ConfirmedRequestSeriviceView::spec_decode(choice, s, pos + 1) == Ok::<
            (ConfirmedRequestSeriviceView, int),
            Error,
        >((service, s.len() as int)),
{
    reveal(ConfirmedRequestSeriviceView::spec_decode);
    match service {
        ConfirmedRequestSeriviceView::ReadProperty(x) => {
            let choice = seq![ConfirmedServiceChoice::ReadProperty.spec_code()];
            lemma_holds_at_split(s, pos, choice, x.spec_encode());
            assert(s.subrange(pos, pos + 1)[0] == s[pos]);
            lemma_read_property_round_trip(x, s, pos + 1);
        },
        ConfirmedRequestSeriviceView::ReadPropertyMultiple(x) => {
            let choice = seq![ConfirmedServiceChoice::ReadPropMultiple.spec_code()];
            lemma_holds_at_split(s, pos, choice, x.spec_encode());
            assert(s.subrange(pos, pos + 1)[0] == s[pos]);
            lemma_read_property_multiple_round_trip(x, s, pos + 1);
        },
        ConfirmedRequestSeriviceView::ReadRange(x) => {
            let choice = seq![ConfirmedServiceChoice::ReadRange.spec_code()];
            lemma_holds_at_split(s, pos, choice, x.spec_encode());
            assert(s.subrange(pos, pos + 1)[0] == s[pos]);
            lemma_read_range_round_trip(x, s, pos + 1);
        },
    }
}

/// A confirmed request is read back as it was written: where the bytes of
/// a request that the wire can hold stand at the end of `s`, the read of an
/// application message at their place returns the request, with its invoke
/// id, its limits and its service unchanged. A request is written as one
/// that is no segment, so that its sequence number and window size, which
/// only a segment puts on the wire, must be nought to come back.
pub proof fn lemma_confirmed_request_round_trip(request: ConfirmedRequestView, s: Seq<u8>, pos: int)
    requires
        request.service.spec_in_range(),
        request.sequence_num == 0,
        request.proposed_window_size == 0,
        holds_at(s, pos, request.spec_encode()),
        pos + request.spec_encode().len() == s.len(),
    ensures
        ApplicationPduView::spec_decode(s, pos) == Ok::<(ApplicationPduView, int), Error>(
            (ApplicationPduView::ConfirmedRequest(request), s.len() as int),
        ),
{
    reveal(ConfirmedRequestView::spec_decode);
    let head = seq![
        (ApduType::ConfirmedServiceRequest.spec_code() * 16 + request.spec_flags()) as u8,
        (request.max_segments.spec_code() + request.max_adpu.spec_code()) as u8,
        request.invoke_id,
    ];
    lemma_holds_at_split(s, pos, head, request.service.spec_encode());
    assert(s.subrange(pos, pos + 3)[0] == s[pos]);
    assert(s.subrange(pos, pos + 3)[1] == s[pos + 1]);
    assert(s.subrange(pos, pos + 3)[2] == s[pos + 2]);
    lemma_limits_round_trip(request.max_segments, request.max_adpu);
    lemma_confirmed_service_round_trip(request.service, s, pos + 3);
}

/// A request of who is there is read back as it was written.
pub proof fn lemma_who_is_round_trip(s: Seq<u8>, pos: int)
    requires
        holds_at(s, pos, UnconfirmedRequest::WhoIs(WhoIs {  }).spec_encode()),
    ensures
        ApplicationPduView::spec_decode(s, pos) == Ok::<(ApplicationPduView, int), Error>(
            (
                ApplicationPduView::UnconfirmedRequest(UnconfirmedRequest::WhoIs(WhoIs {  })),
                pos + 2,
            ),
        ),
{
    reveal(UnconfirmedRequest::spec_decode);
    let bytes = UnconfirmedRequest::WhoIs(WhoIs {  }).spec_encode();
    assert(bytes.len() == 2);
    assert(s.subrange(pos, pos + 2)[0] == s[pos]);
    assert(s.subrange(pos, pos + 2)[1] == s[pos + 1]);
    assert(bytes[0] == 16);
    assert(bytes[1] == 8);
}

/// The answer to a range read is read back as it was written: where the
/// bytes of an answer that the wire can hold stand in `s`, the read of an
/// application message at their place returns the answer with its invoke
/// id, and its fields as `spec_read_back` says.
pub proof fn lemma_read_range_complex_ack_round_trip(
    invoke_id: u8,
    ack: ReadRangeAckView,
    s: Seq<u8>,
    pos: int,
)
    requires
        ack.spec_in_range(),
        holds_at(
            s,
            pos,
            (ComplexAckView { invoke_id, service: ComplexAckServiceView::ReadRange(ack) }).spec_encode(),
        ),
    ensures
        ApplicationPduView::spec_decode(s, pos) == Ok::<(ApplicationPduView, int), Error>(
            (
                ApplicationPduView::ComplexAck(
                    ComplexAckView {
                        invoke_id,
                        service: ComplexAckServiceView::ReadRange(spec_read_back(ack)),
                    },
                ),
                pos + 2 + ack.spec_encode().len(),
            ),
        ),
{
    reveal(ComplexAckView::spec_decode);
    reveal(ComplexAckServiceView::spec_decode);
    let head = seq![(ApduType::ComplexAck.spec_code() * 16) as u8, invoke_id];
    lemma_holds_at_split(s, pos, head, ack.spec_encode());
    assert(s.subrange(pos, pos + 2)[0] == s[pos]);
    assert(s.subrange(pos, pos + 2)[1] == s[pos + 1]);
    lemma_read_range_ack_round_trip(ack, s, pos + 2);
    // the first byte of the answer names the service
    let bytes = ack.spec_encode();
    assert(bytes[0] == ConfirmedServiceChoice::ReadRange.spec_code()) by {
        lemma_ack_begins_with_its_service(ack);
    }
    assert(s.subrange(pos + 2, pos + 2 + bytes.len())[0] == s[pos + 2]);
}

/// The bytes of the answer to a range read begin with the number of the service.
pub proof fn lemma_ack_begins_with_its_service(ack: ReadRangeAckView)
    ensures
        ack.spec_encode().len() > 0,
        ack.spec_encode()[0] == ConfirmedServiceChoice::ReadRange.spec_code(),
{
}

} // verus!
