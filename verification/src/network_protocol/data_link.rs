use vstd::prelude::*;
use crate::application_protocol::application_pdu::{
    ApplicationPdu, ApplicationPduView, ComplexAck, ComplexAckService, ConfirmedRequest,
};
use crate::application_protocol::services::read_property::ReadPropertyAck;
use crate::application_protocol::services::read_property_multiple::ReadPropertyMultipleAck;
use crate::common::endian::{spec_u16_be, spec_u16_from_be, u16_from_be, u16_to_be};
use crate::common::error::Error;
use crate::common::io::{
    group_writer, lemma_appended_nothing, moved_on, spec_read_byte, spec_read_bytes, wrote_if,
    Reader, Writer,
};
use crate::network_protocol::network_pdu::{
    MessagePriority, NetworkMessage, NetworkMessageView, NetworkPdu, NetworkPduView,
};

verus! {

broadcast use group_writer;

/// The frame of the virtual link layer that carries the protocol over IP.
#[derive(Debug)]
pub struct DataLink<'a> {
    pub function: DataLinkFunction,
    pub npdu: Option<NetworkPdu<'a>>,
}

/// What a `DataLink` holds.
pub struct DataLinkView {
    pub function: DataLinkFunction,
    pub npdu: Option<NetworkPduView>,
}

impl<'a> View for DataLink<'a> {
    type V = DataLinkView;

    open spec fn view(&self) -> DataLinkView {
        DataLinkView {
            function: self.function,
            npdu: match self.npdu {
                Some(npdu) => Some(npdu@),
                None => None,
            },
        }
    }
}

/// What a frame is for, by the number in its second byte.
#[derive(Debug, Clone, Copy, PartialEq, Eq, Structural)]
pub enum DataLinkFunction {
    Result,
    WriteBroadcastDistributionTable,
    ReadBroadcastDistTable,
    ReadBroadcastDistTableAck,
    ForwardedNpdu,
    RegisterForeignDevice,
    ReadForeignDeviceTable,
    ReadForeignDeviceTableAck,
    DeleteForeignDeviceTableEntry,
    DistributeBroadcastToNetwork,
    OriginalUnicastNpdu,
    OriginalBroadcastNpdu,
}

impl DataLinkFunction {
    /// The number on the wire.
    pub open spec fn spec_code(self) -> u8 {
        match self {
            Self::Result => 0,
            Self::WriteBroadcastDistributionTable => 1,
            Self::ReadBroadcastDistTable => 2,
            Self::ReadBroadcastDistTableAck => 3,
            Self::ForwardedNpdu => 4,
            Self::RegisterForeignDevice => 5,
            Self::ReadForeignDeviceTable => 6,
            Self::ReadForeignDeviceTableAck => 7,
            Self::DeleteForeignDeviceTableEntry => 8,
            Self::DistributeBroadcastToNetwork => 9,
            Self::OriginalUnicastNpdu => 10,
            Self::OriginalBroadcastNpdu => 11,
        }
    }

    /// The function with the number `value` on the wire, if there is one.
    pub open spec fn spec_from_code(value: u8) -> Option<Self> {
        match value {
            0 => Some(Self::Result),
            1 => Some(Self::WriteBroadcastDistributionTable),
            2 => Some(Self::ReadBroadcastDistTable),
            3 => Some(Self::ReadBroadcastDistTableAck),
            4 => Some(Self::ForwardedNpdu),
            5 => Some(Self::RegisterForeignDevice),
            6 => Some(Self::ReadForeignDeviceTable),
            7 => Some(Self::ReadForeignDeviceTableAck),
            8 => Some(Self::DeleteForeignDeviceTableEntry),
            9 => Some(Self::DistributeBroadcastToNetwork),
            10 => Some(Self::OriginalUnicastNpdu),
            11 => Some(Self::OriginalBroadcastNpdu),
            _ => None,
        }
    }

    /// Whether a frame for this function carries a network message.
    pub open spec fn spec_carries_npdu(self) -> bool {
        self is OriginalUnicastNpdu || self is OriginalBroadcastNpdu
    }

    #[verifier::when_used_as_spec(spec_code)]
    pub fn code(self) -> (r: u8)
        ensures
            r == self.spec_code(),
    {
        match self {
            Self::Result => 0,
            Self::WriteBroadcastDistributionTable => 1,
            Self::ReadBroadcastDistTable => 2,
            Self::ReadBroadcastDistTableAck => 3,
            Self::ForwardedNpdu => 4,
            Self::RegisterForeignDevice => 5,
            Self::ReadForeignDeviceTable => 6,
            Self::ReadForeignDeviceTableAck => 7,
            Self::DeleteForeignDeviceTableEntry => 8,
            Self::DistributeBroadcastToNetwork => 9,
            Self::OriginalUnicastNpdu => 10,
            Self::OriginalBroadcastNpdu => 11,
        }
    }

    /// The function with the number `value` on the wire; a number above 11 names none.
    pub fn from_code(value: u8) -> (r: Option<Self>)
        ensures
            r == Self::spec_from_code(value),
            r matches Some(x) ==> x.spec_code() == value,
            r is None <==> value > 11,
    {
        match value {
            0 => Some(Self::Result),
            1 => Some(Self::WriteBroadcastDistributionTable),
            2 => Some(Self::ReadBroadcastDistTable),
            3 => Some(Self::ReadBroadcastDistTableAck),
            4 => Some(Self::ForwardedNpdu),
            5 => Some(Self::RegisterForeignDevice),
            6 => Some(Self::ReadForeignDeviceTable),
            7 => Some(Self::ReadForeignDeviceTableAck),
            8 => Some(Self::DeleteForeignDeviceTableEntry),
            9 => Some(Self::DistributeBroadcastToNetwork),
            10 => Some(Self::OriginalUnicastNpdu),
            11 => Some(Self::OriginalBroadcastNpdu),
            _ => None,
        }
    }

    #[verifier::when_used_as_spec(spec_carries_npdu)]
    pub fn carries_npdu(self) -> (r: bool)
        ensures
            r == self.spec_carries_npdu(),
    {
        match self {
            Self::OriginalUnicastNpdu | Self::OriginalBroadcastNpdu => true,
            _ => false,
        }
    }
}

/// The first byte of every frame: the mark of the link over IP.
pub const BVLL_TYPE_BACNET_IP: u8 = 0x81;

/// The length of the head of a frame: the mark, the function and the length.
pub const DATA_LINK_HEAD_LEN: usize = 4;

impl DataLinkView {
    /// Only a frame that carries a network message has a wire form here,
    /// and it must hold one that has a wire form.
    pub open spec fn spec_encodable(self) -> bool {
        &&& self.function.spec_carries_npdu()
        &&& self.npdu matches Some(npdu) && npdu.network_message.spec_encodable()
    }

    /// The lengths in the frame fit their tags.
    pub open spec fn wf(self) -> bool {
        self.npdu matches Some(npdu) ==> npdu.network_message.wf()
    }

    /// What the frame carries, on the wire.
    pub open spec fn spec_payload(self) -> Seq<u8> {
        match self.npdu {
            Some(npdu) => npdu.spec_encode(),
            None => seq![],
        }
    }

    /// The length that the frame declares: that of the whole frame, head
    /// and all, of which the field holds the low 16 bits.
    pub open spec fn spec_declared_len(self) -> u16 {
        ((DATA_LINK_HEAD_LEN + self.spec_payload().len()) % 0x1_0000) as u16
    }

    /// The frame on the wire: the mark, the function, the length of the
    /// whole frame in two bytes, and what the frame carries.
    pub open spec fn spec_encode(self) -> Seq<u8> {
        seq![BVLL_TYPE_BACNET_IP, self.function.spec_code()] + spec_u16_be(
            self.spec_declared_len(),
        ) + self.spec_payload()
    }

    /// The head of a frame at `pos`: its function, the length it declares
    /// and the position behind the head. The bytes `s` are those that the
    /// cursor may read, of a buffer of `buf_len` bytes.
    pub open spec fn spec_decode_head(s: Seq<u8>, buf_len: int, pos: int) -> Result<
        ((DataLinkFunction, u16), int),
        Error,
    > {
        match spec_read_byte(s, pos) {
            Err(e) => Err(e),
            Ok((bvll_type, p)) => if bvll_type != BVLL_TYPE_BACNET_IP {
                Err(Error::Unimplemented)
            } else {
                match spec_read_byte(s, p) {
                    Err(e) => Err(e),
                    Ok((function, p)) => match DataLinkFunction::spec_from_code(function) {
                        None => Err(Error::InvalidVariant),
                        Some(function) => match spec_read_bytes(s, p, 2) {
                            Err(e) => Err(e),
                            Ok((len, p)) => if spec_u16_from_be(len) > buf_len {
                                Err(Error::Length)
                            } else {
                                Ok(((function, spec_u16_from_be(len)), p))
                            },
                        },
                    },
                }
            },
        }
    }

    /// The frame that stands in the buffer `buf` at `pos`, read by a cursor
    /// that ends at `end`, with the length that the frame declares. That
    /// length becomes the end of what may be read, also of what the frame
    /// carries.
    pub open spec fn spec_decode(buf: Seq<u8>, end: usize, pos: int) -> Result<
        ((DataLinkView, u16), int),
        Error,
    > {
        match Self::spec_decode_head(
            (Reader { index: 0, end }).region(buf),
            buf.len() as int,
            pos,
        ) {
            Err(e) => Err(e),
            Ok(((function, len), p)) => if function.spec_carries_npdu() {
                match NetworkPduView::spec_decode(buf.take(len as int), p) {
                    Err(e) => Err(e),
                    Ok((npdu, p)) => Ok(((DataLinkView { function, npdu: Some(npdu) }, len), p)),
                }
            } else {
                Ok(((DataLinkView { function, npdu: None }, len), p))
            },
        }
    }
}

impl<'a> DataLink<'a> {
    pub fn new(function: DataLinkFunction, npdu: Option<NetworkPdu<'a>>) -> (r: Self)
        ensures
            r.function == function,
            r.npdu == npdu,
    {
        Self { function, npdu }
    }

    /// The frame that sends the request `req` to one station: in an envelope
    /// without addresses, of normal priority, that expects a reply.
    pub fn new_confirmed_req(req: ConfirmedRequest) -> (r: Self)
        ensures
            r@ == (DataLinkView {
                function: DataLinkFunction::OriginalUnicastNpdu,
                npdu: Some(
                    NetworkPduView {
                        src: None,
                        dst: None,
                        expect_reply: true,
                        message_priority: MessagePriority::Normal,
                        network_message: NetworkMessageView::Apdu(
                            ApplicationPduView::ConfirmedRequest(req@),
                        ),
                    },
                ),
            }),
    {
        let apdu = ApplicationPdu::ConfirmedRequest(req);
        let message = NetworkMessage::Apdu(apdu);
        let npdu = NetworkPdu::new(None, None, true, MessagePriority::Normal, message);
        DataLink::new(DataLinkFunction::OriginalUnicastNpdu, Some(npdu))
    }

    /// Whether the frame has a wire form here.
    pub fn encodable(&self) -> (r: bool)
        ensures
            r == self@.spec_encodable(),
    {
        match &self.npdu {
            Some(npdu) => self.function.carries_npdu() && npdu.encodable(),
            None => false,
        }
    }

    /// Writes the frame: the head with a length of nought, then what the
    /// frame carries; then the length of the frame, which is known only
    /// now, goes into its place in the head. Where the frame has no wire
    /// form here, nothing is written.
    pub fn encode(&self, writer: &mut Writer) -> (r: Result<(), Error>)
        requires
            old(writer).wf(),
            self@.wf(),
        ensures
            wrote_if(r, old(writer), final(writer), self@.spec_encodable(), self@.spec_encode()),
            final(final(writer).buf)@ == final(old(writer).buf)@,
    {
        if !self.encodable() {
            proof {
                lemma_appended_nothing(writer);
            }
            return Err(Error::Unimplemented);
        }
        let start: usize = writer.index;
        let ghost payload = self@.spec_payload();
        writer.push(BVLL_TYPE_BACNET_IP)?;
        writer.push(self.function.code())?;
        writer.extend_from_slice(&[0u8, 0u8])?;  // length placeholder
        match &self.npdu {
            Some(npdu) => {
                npdu.encode(writer)?;
            },
            None => {},
        }
        let ghost placeholder = seq![BVLL_TYPE_BACNET_IP] + seq![self.function.spec_code()] + seq![
            0u8,
            0u8,
        ] + payload;
        assert(writer.appended(old(writer), placeholder));
        Self::update_len(writer, start);
        proof {
            let n = placeholder.len() as int;
            assert(n == DATA_LINK_HEAD_LEN + payload.len());
            let len = spec_u16_be(self@.spec_declared_len());
            assert(writer.written() =~= old(writer).written() + self@.spec_encode()) by {
                assert forall|i: int| 0 <= i < writer.index implies writer.written()[i] == (old(
                    writer,
                ).written() + self@.spec_encode())[i] by {
                    if i < start {
                        assert(writer.written()[i] == (old(writer).written() + placeholder)[i]);
                    } else if i == start + 2 {
                        assert(self@.spec_encode()[2] == len[0]);
                    } else if i == start + 3 {
                        assert(self@.spec_encode()[3] == len[1]);
                    } else {
                        assert(writer.written()[i] == (old(writer).written() + placeholder)[i]);
                        assert(placeholder[i - start] == self@.spec_encode()[i - start]);
                    }
                }
            }
            assert(writer.written().take(old(writer).index as int) =~= old(writer).written());
        }
        Ok(())
    }

    /// Puts the length of the frame that began at `start` into its place in
    /// the head of that frame.
    fn update_len(writer: &mut Writer, start: usize)
        requires
            old(writer).wf(),
            start + DATA_LINK_HEAD_LEN <= old(writer).index,
        ensures
            final(writer).index == old(writer).index,
            final(writer).buf@ == old(writer).buf@.update(
                start + 2,
                spec_u16_be(((old(writer).index - start) % 0x1_0000) as u16)[0],
            ).update(start + 3, spec_u16_be(((old(writer).index - start) % 0x1_0000) as u16)[1]),
            final(final(writer).buf)@ == final(old(writer).buf)@,
    {
        let len: u16 = ((writer.index - start) % 0x1_0000) as u16;
        let src = u16_to_be(len);
        writer.buf[start + 2] = src[0];
        writer.buf[start + 3] = src[1];
    }

    /// Reads the head of a frame: the mark, the function and the length,
    /// which may not be more than the buffer holds.
    fn decode_head(reader: &mut Reader, buf: &[u8]) -> (r: Result<(DataLinkFunction, u16), Error>)
        ensures
            final(reader).end == old(reader).end,
            moved_on(*old(reader), *final(reader)),
            final(reader).index <= old(reader).index + DATA_LINK_HEAD_LEN,
            match DataLinkView::spec_decode_head(
                old(reader).region(buf@),
                buf@.len() as int,
                old(reader).index as int,
            ) {
                Err(e) => r == Err::<(DataLinkFunction, u16), Error>(e),
                Ok((head, p)) => r == Ok::<(DataLinkFunction, u16), Error>(head)
                    && final(reader).index == p,
            },
    {
        let bvll_type = reader.read_byte(buf)?;
        if bvll_type != BVLL_TYPE_BACNET_IP {
            // only the link over IP is supported
            return Err(Error::Unimplemented);
        }
        let function = match DataLinkFunction::from_code(reader.read_byte(buf)?) {
            Some(function) => function,
            None => {
                return Err(Error::InvalidVariant);
            },
        };
        let len: u16 = u16_from_be(reader.read_bytes::<2>(buf)?);
        if len as usize > buf.len() {
            return Err(Error::Length);
        }
        Ok((function, len))
    }

    /// Reads a frame from the start of what the cursor covers. The length
    /// that the frame declares becomes the end of the cursor: nothing
    /// behind it is read, whatever the bytes of the frame say. A length
    /// that is more than the buffer holds fails with `Length`, before
    /// anything of what the frame carries is read: where the head is
    /// refused, the cursor has not gone beyond the head.
    pub fn decode(reader: &mut Reader, buf: &'a [u8]) -> (r: Result<Self, Error>)
        ensures
            old(reader).index <= final(reader).index,
            match DataLinkView::spec_decode(buf@, old(reader).end, old(reader).index as int) {
                Err(e) => r == Err::<Self, Error>(e),
                Ok(((frame, len), p)) => r is Ok && r->Ok_0@ == frame && final(reader).index == p
                    && final(reader).end == len,
            },
            final(reader).end == (match DataLinkView::spec_decode_head(
                old(reader).region(buf@),
                buf@.len() as int,
                old(reader).index as int,
            ) {
                Err(_) => old(reader).end,
                Ok(((_, len), _)) => len as usize,
            }),
            DataLinkView::spec_decode_head(
                old(reader).region(buf@),
                buf@.len() as int,
                old(reader).index as int,
            ) is Err ==> final(reader).index <= old(reader).index + DATA_LINK_HEAD_LEN,
    {
        let ghost before = *reader;
        assert((Reader { index: 0, end: before.end }).region(buf@) == before.region(buf@));
        let (function, len) = Self::decode_head(reader, buf)?;
        reader.set_len(len as usize);
        assert(reader.region(buf@) == buf@.take(len as int));

        let npdu = if function.carries_npdu() {
            // of the functions only these two are read
            Some(NetworkPdu::decode(reader, buf)?)
        } else {
            None
        };

        Ok(Self { function, npdu })
    }

    pub fn get_ack_into(self) -> (r: Option<ComplexAck<'a>>)
        ensures
            r == (match self.npdu {
                Some(
                    NetworkPdu { network_message: NetworkMessage::Apdu(ApplicationPdu::ComplexAck(ack)), .. },
                ) => Some(ack),
                _ => None,
            }),
    {
        match self.npdu {
            Some(x) => match x.network_message {
                NetworkMessage::Apdu(apdu) => match apdu {
                    ApplicationPdu::ComplexAck(ack) => Some(ack),
                    _ => None,
                },
                _ => None,
            },
            _ => None,
        }
    }

    pub fn get_read_property_ack_into(self) -> (r: Option<ReadPropertyAck<'a>>)
        ensures
            r == (match self.npdu {
                Some(
                    NetworkPdu {
                        network_message: NetworkMessage::Apdu(
                            ApplicationPdu::ComplexAck(
                                ComplexAck { service: ComplexAckService::ReadProperty(ack), .. },
                            ),
                        ),
                        ..
                    },
                ) => Some(ack),
                _ => None,
            }),
    {
        match self.get_ack_into() {
            Some(ack) => match ack.service {
                ComplexAckService::ReadProperty(ack) => Some(ack),
                _ => None,
            },
            None => None,
        }
    }

    pub fn get_read_property_multiple_ack_into(self) -> (r: Option<ReadPropertyMultipleAck<'a>>)
        ensures
            r == (match self.npdu {
                Some(
                    NetworkPdu {
                        network_message: NetworkMessage::Apdu(
                            ApplicationPdu::ComplexAck(
                                ComplexAck {
                                    service: ComplexAckService::ReadPropertyMultiple(ack),
                                    ..
                                },
                            ),
                        ),
                        ..
                    },
                ) => Some(ack),
                _ => None,
            }),
    {
        match self.get_ack_into() {
            Some(ack) => match ack.service {
                ComplexAckService::ReadPropertyMultiple(ack) => Some(ack),
                _ => None,
            },
            None => None,
        }
    }
}

} // verus!
