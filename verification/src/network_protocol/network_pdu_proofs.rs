use vstd::prelude::*;
use crate::application_protocol::application_pdu::ApplicationPduView;
use crate::common::endian::{
    lemma_u16_be_round_trip, lemma_u32_be_round_trip, spec_u16_be, spec_u32_be,
};
use crate::common::error::Error;
use crate::common::io::{holds_at, lemma_holds_at_split};
use crate::network_protocol::network_pdu::{
    spec_control_bit, MessagePriority, NetworkAddress, NetworkMessageView, NetworkPduView,
    CONTROL_EXPECTING_REPLY, CONTROL_HAS_DESTINATION, CONTROL_HAS_SOURCE,
    CONTROL_NETWORK_LAYER_MESSAGE, IPV4_ADDR_LEN, NETWORK_PROTOCOL_VERSION,
};

verus! {

/// An address is read back as it was written.
pub proof fn lemma_network_address_round_trip(address: NetworkAddress, s: Seq<u8>, pos: int)
    requires
        holds_at(s, pos, address.spec_encode()),
    ensures
        NetworkAddress::spec_decode(s, pos) == Ok::<(NetworkAddress, int), Error>(
            (address, pos + address.spec_encode().len()),
        ),
{
    let net = spec_u16_be(address.net);
    lemma_u16_be_round_trip(address.net);
    match address.addr {
        Some(addr) => {
            let len = seq![IPV4_ADDR_LEN];
            let ipv4 = spec_u32_be(addr.ipv4);
            let port = spec_u16_be(addr.port);
            lemma_u32_be_round_trip(addr.ipv4);
            lemma_u16_be_round_trip(addr.port);
            assert(address.spec_encode() =~= net + len + ipv4 + port);
            lemma_holds_at_split(s, pos, net + len + ipv4, port);
            lemma_holds_at_split(s, pos, net + len, ipv4);
            lemma_holds_at_split(s, pos, net, len);
            assert(s.subrange(pos + 2, pos + 3)[0] == s[pos + 2]);
        },
        None => {
            lemma_holds_at_split(s, pos, net, seq![0u8]);
            assert(s.subrange(pos + 2, pos + 3)[0] == s[pos + 2]);
        },
    }
}

/// The control byte gives back what was packed into it: which parts
/// follow, whether a reply is expected, and the priority.
pub proof fn lemma_control_round_trip(npdu: NetworkPduView)
    ensures
        spec_control_bit(npdu.spec_control(), CONTROL_NETWORK_LAYER_MESSAGE)
            == npdu.network_message is MessageType,
        spec_control_bit(npdu.spec_control(), CONTROL_HAS_DESTINATION) == npdu.dst is Some,
        spec_control_bit(npdu.spec_control(), CONTROL_HAS_SOURCE) == npdu.src is Some,
        spec_control_bit(npdu.spec_control(), CONTROL_EXPECTING_REPLY) == npdu.expect_reply,
        MessagePriority::spec_from_code(npdu.spec_control()) == npdu.message_priority,
{
}

/// The addresses of an envelope are read back as they were written.
pub proof fn lemma_addresses_round_trip(npdu: NetworkPduView, s: Seq<u8>, pos: int)
    requires
        holds_at(s, pos, npdu.spec_encode_head()),
    ensures
        NetworkPduView::spec_decode_addresses(npdu.spec_control(), s, pos + 2) == Ok::<
            ((Option<crate::network_protocol::network_pdu::DestinationAddress>, Option<NetworkAddress>), int),
            Error,
        >(((npdu.dst, npdu.src), pos + npdu.spec_encode_head().len())),
{
    lemma_control_round_trip(npdu);
    let first = seq![NETWORK_PROTOCOL_VERSION, npdu.spec_control()];
    let dst: Seq<u8> = match npdu.dst {
        Some(dst) => dst.network_address.spec_encode(),
        None => seq![],
    };
    let src: Seq<u8> = match npdu.src {
        Some(src) => src.spec_encode(),
        None => seq![],
    };
    let hop: Seq<u8> = match npdu.dst {
        Some(dst) => seq![dst.hop_count],
        None => seq![],
    };
    lemma_holds_at_split(s, pos, first + dst + src, hop);
    lemma_holds_at_split(s, pos, first + dst, src);
    lemma_holds_at_split(s, pos, first, dst);
    if npdu.dst is Some {
        lemma_network_address_round_trip(npdu.dst->Some_0.network_address, s, pos + 2);
        let p = pos + 2 + dst.len() + src.len();
        assert(s.subrange(p, p + 1)[0] == s[p]);
    }
    if npdu.src is Some {
        lemma_network_address_round_trip(npdu.src->Some_0, s, pos + 2 + dst.len());
    }
}

/// An envelope passes through what it carries: where the head of an
/// envelope for an application message stands in `s`, the envelope reads as
/// its own fields, unchanged, round whatever the bytes behind the head read as.
pub proof fn lemma_network_pdu_passes_through(
    npdu: NetworkPduView,
    s: Seq<u8>,
    pos: int,
    carried: ApplicationPduView,
    behind: int,
)
    requires
        npdu.network_message is Apdu,
        holds_at(s, pos, npdu.spec_encode_head()),
        ApplicationPduView::spec_decode(s, pos + npdu.spec_encode_head().len()) == Ok::<
            (ApplicationPduView, int),
            Error,
        >((carried, behind)),
    ensures
        NetworkPduView::spec_decode(s, pos) == Ok::<(NetworkPduView, int), Error>(
            (
                NetworkPduView {
                    src: npdu.src,
                    dst: npdu.dst,
                    expect_reply: npdu.expect_reply,
                    message_priority: npdu.message_priority,
                    network_message: NetworkMessageView::Apdu(carried),
                },
                behind,
            ),
        ),
{
    reveal(NetworkPduView::spec_decode);
    lemma_control_round_trip(npdu);
    lemma_addresses_round_trip(npdu, s, pos);
    let head = npdu.spec_encode_head();
    assert(head.len() >= 2);
    assert(s.subrange(pos, pos + head.len())[0] == s[pos]);
    assert(s.subrange(pos, pos + head.len())[1] == s[pos + 1]);
    assert(head[1] == npdu.spec_control());
}

/// An envelope round a message of the network layer is read back as it was written.
pub proof fn lemma_network_message_round_trip(npdu: NetworkPduView, s: Seq<u8>, pos: int)
    requires
        npdu.network_message is MessageType,
        holds_at(s, pos, npdu.spec_encode()),
    ensures
        NetworkPduView::spec_decode(s, pos) == Ok::<(NetworkPduView, int), Error>(
            (npdu, pos + npdu.spec_encode().len()),
        ),
{
    reveal(NetworkPduView::spec_decode);
    lemma_control_round_trip(npdu);
    let head = npdu.spec_encode_head();
    let kind = seq![npdu.network_message->MessageType_0];
    lemma_holds_at_split(s, pos, head, kind);
    lemma_addresses_round_trip(npdu, s, pos);
    assert(head.len() >= 2);
    assert(s.subrange(pos, pos + head.len())[0] == s[pos]);
    assert(s.subrange(pos, pos + head.len())[1] == s[pos + 1]);
    assert(head[1] == npdu.spec_control());
    let p = pos + head.len();
    assert(s.subrange(p, p + 1)[0] == s[p]);
}

} // verus!
