use vstd::prelude::*;
use crate::application_protocol::application_pdu::{ApplicationPdu, ApplicationPduView};
use crate::common::endian::{
    spec_u16_be, spec_u16_from_be, spec_u32_be, spec_u32_from_be, u16_from_be, u16_to_be,
    u32_from_be, u32_to_be,
};
use crate::common::error::Error;
use crate::common::io::{
    group_writer, lemma_appended_nothing, read_as, read_as_view, spec_read_byte, spec_read_bytes,
    wrote, wrote_if, Reader, Writer,
};

verus! {

broadcast use group_writer;

/// The version of the network layer, which stands in the first byte.
pub const NETWORK_PROTOCOL_VERSION: u8 = 0x01;

/// The length of an address of the IP link: four bytes and a port.
pub const IPV4_ADDR_LEN: u8 = 6;

// bits of the control byte
pub const CONTROL_NETWORK_LAYER_MESSAGE: u8 = 0x80;

pub const CONTROL_HAS_DESTINATION: u8 = 0x20;

pub const CONTROL_HAS_SOURCE: u8 = 0x08;

pub const CONTROL_EXPECTING_REPLY: u8 = 0x04;

/// How urgent a message is: the low two bits of the control byte.
#[derive(Debug, Clone, Copy, PartialEq, Eq, Structural)]
pub enum MessagePriority {
    Normal,
    Urgent,
    CriticalEquipment,
    LifeSafety,
}

impl MessagePriority {
    /// The number on the wire.
    pub open spec fn spec_code(self) -> u8 {
        match self {
            Self::Normal => 0,
            Self::Urgent => 1,
            Self::CriticalEquipment => 2,
            Self::LifeSafety => 3,
        }
    }

    /// The priority with the number `value`, of which the low two bits count.
    pub open spec fn spec_from_code(value: u8) -> Self {
        match value % 4 {
            0 => Self::Normal,
            1 => Self::Urgent,
            2 => Self::CriticalEquipment,
            _ => Self::LifeSafety,
        }
    }

    #[verifier::when_used_as_spec(spec_code)]
    pub fn code(self) -> (r: u8)
        ensures
            r == self.spec_code(),
    {
        match self {
            Self::Normal => 0,
            Self::Urgent => 1,
            Self::CriticalEquipment => 2,
            Self::LifeSafety => 3,
        }
    }

    /// The priority with the number `value`, of which the low two bits count.
    pub fn from_code(value: u8) -> (r: Self)
        ensures
            r == Self::spec_from_code(value),
    {
        match value % 4 {
            0 => Self::Normal,
            1 => Self::Urgent,
            2 => Self::CriticalEquipment,
            _ => Self::LifeSafety,
        }
    }
}

/// An address on an IP link: the four bytes of the host as one number, the
/// first byte highest, and the port.
#[derive(Debug, Clone, Copy, PartialEq, Eq, Structural)]
pub struct Addr {
    pub ipv4: u32,
    pub port: u16,
}

/// A network number, and the address of a station on that network; without
/// an address, all stations of the network are meant.
#[derive(Debug, Clone, Copy, PartialEq, Eq, Structural)]
pub struct NetworkAddress {
    pub net: u16,
    pub addr: Option<Addr>,
}

/// Where a message comes from.
pub type SourceAddress = NetworkAddress;

/// Where a message goes, and how many routers it may still pass.
#[derive(Debug, Clone, Copy, PartialEq, Eq, Structural)]
pub struct DestinationAddress {
    pub network_address: NetworkAddress,
    pub hop_count: u8,
}

impl NetworkAddress {
    /// The address on the wire: the network number, the length of the
    /// station's address, and that address.
    pub open spec fn spec_encode(self) -> Seq<u8> {
        spec_u16_be(self.net) + (match self.addr {
            Some(addr) => seq![IPV4_ADDR_LEN] + spec_u32_be(addr.ipv4) + spec_u16_be(addr.port),
            None => seq![0u8],
        })
    }

    /// The address that the bytes of `s` from `pos` on spell. A station's
    /// address of another length than that of the IP link is not read.
    pub open spec fn spec_decode(s: Seq<u8>, pos: int) -> Result<(NetworkAddress, int), Error> {
        match spec_read_bytes(s, pos, 2) {
            Err(e) => Err(e),
            Ok((net, p)) => match spec_read_byte(s, p) {
                Err(e) => Err(e),
                Ok((len, p)) => if len == 0 {
                    Ok((NetworkAddress { net: spec_u16_from_be(net), addr: None }, p))
                } else if len == IPV4_ADDR_LEN {
                    match spec_read_bytes(s, p, 4) {
                        Err(e) => Err(e),
                        Ok((ipv4, p)) => match spec_read_bytes(s, p, 2) {
                            Err(e) => Err(e),
                            Ok((port, p)) => Ok(
                                (
                                    NetworkAddress {
                                        net: spec_u16_from_be(net),
                                        addr: Some(
                                            Addr {
                                                ipv4: spec_u32_from_be(ipv4),
                                                port: spec_u16_from_be(port),
                                            },
                                        ),
                                    },
                                    p,
                                ),
                            ),
                        },
                    }
                } else {
                    Err(Error::Unimplemented)
                },
            },
        }
    }

    pub fn encode(&self, writer: &mut Writer) -> (r: Result<(), Error>)
        requires
            old(writer).wf(),
        ensures
            wrote(r, old(writer), final(writer), self.spec_encode()),
            final(final(writer).buf)@ == final(old(writer).buf)@,
    {
        writer.extend_from_slice(u16_to_be(self.net).as_slice())?;
        match self.addr {
            Some(addr) => {
                writer.push(IPV4_ADDR_LEN)?;
                writer.extend_from_slice(u32_to_be(addr.ipv4).as_slice())?;
                writer.extend_from_slice(u16_to_be(addr.port).as_slice())?;
                assert(spec_u16_be(self.net) + seq![IPV4_ADDR_LEN] + spec_u32_be(addr.ipv4)
                    + spec_u16_be(addr.port) =~= self.spec_encode());
                Ok(())
            },
            None => writer.push(0),
        }
    }

    pub fn decode(reader: &mut Reader, buf: &[u8]) -> (r: Result<Self, Error>)
        ensures
            read_as(
                r,
                NetworkAddress::spec_decode(old(reader).region(buf@), old(reader).index as int),
                *old(reader),
                *final(reader),
            ),
    {
        let net = u16_from_be(reader.read_bytes::<2>(buf)?);
        let len = reader.read_byte(buf)?;
        if len == 0 {
            Ok(Self { net, addr: None })
        } else if len == IPV4_ADDR_LEN {
            let ipv4 = u32_from_be(reader.read_bytes::<4>(buf)?);
            let port = u16_from_be(reader.read_bytes::<2>(buf)?);
            Ok(Self { net, addr: Some(Addr { ipv4, port }) })
        } else {
            Err(Error::Unimplemented)
        }
    }
}

/// What a network message carries: an application message, or a message of
/// the network layer itself, of which only the type is kept.
#[derive(Debug)]
pub enum NetworkMessage<'a> {
    Apdu(ApplicationPdu<'a>),
    MessageType(u8),
}

/// The envelope of the network layer round an application message.
#[derive(Debug)]
pub struct NetworkPdu<'a> {
    pub src: Option<SourceAddress>,
    pub dst: Option<DestinationAddress>,
    pub expect_reply: bool,
    pub message_priority: MessagePriority,
    pub network_message: NetworkMessage<'a>,
}

/// What a `NetworkMessage` holds.
pub enum NetworkMessageView {
    Apdu(ApplicationPduView),
    MessageType(u8),
}

/// What a `NetworkPdu` holds.
pub struct NetworkPduView {
    pub src: Option<SourceAddress>,
    pub dst: Option<DestinationAddress>,
    pub expect_reply: bool,
    pub message_priority: MessagePriority,
    pub network_message: NetworkMessageView,
}

impl<'a> View for NetworkMessage<'a> {
    type V = NetworkMessageView;

    open spec fn view(&self) -> NetworkMessageView {
        match self {
            NetworkMessage::Apdu(x) => NetworkMessageView::Apdu(x@),
            NetworkMessage::MessageType(x) => NetworkMessageView::MessageType(*x),
        }
    }
}

impl<'a> View for NetworkPdu<'a> {
    type V = NetworkPduView;

    open spec fn view(&self) -> NetworkPduView {
        NetworkPduView {
            src: self.src,
            dst: self.dst,
            expect_reply: self.expect_reply,
            message_priority: self.message_priority,
            network_message: self.network_message@,
        }
    }
}

impl NetworkMessageView {
    /// Whether the message has a wire form here.
    pub open spec fn spec_encodable(self) -> bool {
        self matches NetworkMessageView::Apdu(x) ==> x.spec_encodable()
    }

    /// The lengths in the message fit their tags.
    pub open spec fn wf(self) -> bool {
        self matches NetworkMessageView::Apdu(x) ==> x.wf()
    }

    /// The message on the wire: the application message, or the one byte of
    /// the type of a message of the network layer.
    pub open spec fn spec_encode(self) -> Seq<u8> {
        match self {
            NetworkMessageView::Apdu(x) => x.spec_encode(),
            NetworkMessageView::MessageType(x) => seq![x],
        }
    }
}

/// Whether the bit of `control` is set that has the value `mask`, a power of two.
pub open spec fn spec_control_bit(control: u8, mask: u8) -> bool {
    (control as int / mask as int) % 2 == 1
}

impl NetworkPduView {
    /// The control byte: which parts follow, whether a reply is expected,
    /// and the priority.
    pub open spec fn spec_control(self) -> u8 {
        ((if self.network_message is MessageType {
            CONTROL_NETWORK_LAYER_MESSAGE as int
        } else {
            0
        }) + (if self.dst is Some {
            CONTROL_HAS_DESTINATION as int
        } else {
            0
        }) + (if self.src is Some {
            CONTROL_HAS_SOURCE as int
        } else {
            0
        }) + (if self.expect_reply {
            CONTROL_EXPECTING_REPLY as int
        } else {
            0
        }) + self.message_priority.spec_code()) as u8
    }

    /// The version, the control byte, the destination, the source and the
    /// hop count, as far as there are any.
    pub open spec fn spec_encode_head(self) -> Seq<u8> {
        seq![NETWORK_PROTOCOL_VERSION, self.spec_control()] + (match self.dst {
            Some(dst) => dst.network_address.spec_encode(),
            None => seq![],
        }) + (match self.src {
            Some(src) => src.spec_encode(),
            None => seq![],
        }) + (match self.dst {
            Some(dst) => seq![dst.hop_count],
            None => seq![],
        })
    }

    /// The envelope on the wire, with what it carries.
    pub open spec fn spec_encode(self) -> Seq<u8> {
        self.spec_encode_head() + self.network_message.spec_encode()
    }

    /// The destination with its hop count and the source that the control
    /// byte `control` announces, from `pos` on.
    pub open spec fn spec_decode_addresses(control: u8, s: Seq<u8>, pos: int) -> Result<
        ((Option<DestinationAddress>, Option<SourceAddress>), int),
        Error,
    > {
        let dst = if spec_control_bit(control, CONTROL_HAS_DESTINATION) {
            match NetworkAddress::spec_decode(s, pos) {
                Err(e) => Err(e),
                Ok((a, p)) => Ok((Some(a), p)),
            }
        } else {
            Ok((None, pos))
        };
        match dst {
            Err(e) => Err(e),
            Ok((dst, p)) => {
                let src = if spec_control_bit(control, CONTROL_HAS_SOURCE) {
                    match NetworkAddress::spec_decode(s, p) {
                        Err(e) => Err(e),
                        Ok((a, p)) => Ok((Some(a), p)),
                    }
                } else {
                    Ok((None, p))
                };
                match src {
                    Err(e) => Err(e),
                    Ok((src, p)) => match dst {
                        None => Ok(((None, src), p)),
                        Some(network_address) => match spec_read_byte(s, p) {
                            Err(e) => Err(e),
                            Ok((hop_count, p)) => Ok(
                                ((Some(DestinationAddress { network_address, hop_count }), src), p),
                            ),
                        },
                    },
                }
            },
        }
    }

    /// The envelope that the bytes of `s` from `pos` on spell, with what it carries.
    #[verifier::opaque]
    pub open spec fn spec_decode(s: Seq<u8>, pos: int) -> Result<(NetworkPduView, int), Error> {
        match spec_read_byte(s, pos) {
            Err(e) => Err(e),
            Ok((_, p)) => match spec_read_byte(s, p) {
                Err(e) => Err(e),
                Ok((control, p)) => match Self::spec_decode_addresses(control, s, p) {
                    Err(e) => Err(e),
                    Ok(((dst, src), p)) => {
                        let message = if spec_control_bit(control, CONTROL_NETWORK_LAYER_MESSAGE) {
                            match spec_read_byte(s, p) {
                                Err(e) => Err(e),
                                Ok((x, p)) => Ok((NetworkMessageView::MessageType(x), p)),
                            }
                        } else {
                            match ApplicationPduView::spec_decode(s, p) {
                                Err(e) => Err(e),
                                Ok((x, p)) => Ok((NetworkMessageView::Apdu(x), p)),
                            }
                        };
                        match message {
                            Err(e) => Err(e),
                            Ok((network_message, p)) => Ok(
                                (
                                    NetworkPduView {
                                        src,
                                        dst,
                                        expect_reply: spec_control_bit(
                                            control,
                                            CONTROL_EXPECTING_REPLY,
                                        ),
                                        message_priority: MessagePriority::spec_from_code(control),
                                        network_message,
                                    },
                                    p,
                                ),
                            ),
                        }
                    },
                },
            },
        }
    }
}

impl<'a> NetworkPdu<'a> {
    pub fn new(
        src: Option<SourceAddress>,
        dst: Option<DestinationAddress>,
        expect_reply: bool,
        message_priority: MessagePriority,
        message: NetworkMessage<'a>,
    ) -> (r: Self)
        ensures
            r@ == (NetworkPduView {
                src,
                dst,
                expect_reply,
                message_priority,
                network_message: message@,
            }),
    {
        Self { src, dst, expect_reply, message_priority, network_message: message }
    }

    /// Whether what the envelope carries has a wire form here.
    pub fn encodable(&self) -> (r: bool)
        ensures
            r == self@.network_message.spec_encodable(),
    {
        match &self.network_message {
            NetworkMessage::Apdu(apdu) => apdu.encodable(),
            NetworkMessage::MessageType(_) => true,
        }
    }

    fn calculate_control(&self) -> (r: u8)
        ensures
            r == self@.spec_control(),
    {
        let is_network_message: u8 = match &self.network_message {
            NetworkMessage::Apdu(_) => 0,
            NetworkMessage::MessageType(_) => CONTROL_NETWORK_LAYER_MESSAGE,
        };
        let has_destination: u8 = match &self.dst {
            Some(_) => CONTROL_HAS_DESTINATION,
            None => 0,
        };
        let has_source: u8 = match &self.src {
            Some(_) => CONTROL_HAS_SOURCE,
            None => 0,
        };
        let expecting_reply: u8 = if self.expect_reply {
            CONTROL_EXPECTING_REPLY
        } else {
            0
        };
        is_network_message + has_destination + has_source + expecting_reply
            + self.message_priority.code()
    }

    fn encode_head(&self, writer: &mut Writer) -> (r: Result<(), Error>)
        requires
            old(writer).wf(),
        ensures
            wrote(r, old(writer), final(writer), self@.spec_encode_head()),
            final(final(writer).buf)@ == final(old(writer).buf)@,
    {
        let control = self.calculate_control();
        writer.push(NETWORK_PROTOCOL_VERSION)?;
        writer.push(control)?;
        assert(seq![NETWORK_PROTOCOL_VERSION] + seq![control] =~= seq![
            NETWORK_PROTOCOL_VERSION,
            control,
        ]);
        match &self.dst {
            Some(dst) => {
                dst.network_address.encode(writer)?;
            },
            None => {
                proof {
                    lemma_appended_nothing(writer);
                }
            },
        }
        match &self.src {
            Some(src) => {
                src.encode(writer)?;
            },
            None => {
                proof {
                    lemma_appended_nothing(writer);
                }
            },
        }
        match &self.dst {
            Some(dst) => writer.push(dst.hop_count),
            None => {
                proof {
                    lemma_appended_nothing(writer);
                }
                Ok(())
            },
        }
    }

    /// Writes the envelope with what it carries. Where that has no wire form
    /// here, nothing is written.
    pub fn encode(&self, writer: &mut Writer) -> (r: Result<(), Error>)
        requires
            old(writer).wf(),
            self@.network_message.wf(),
        ensures
            wrote_if(
                r,
                old(writer),
                final(writer),
                self@.network_message.spec_encodable(),
                self@.spec_encode(),
            ),
            final(final(writer).buf)@ == final(old(writer).buf)@,
    {
        if !self.encodable() {
            proof {
                lemma_appended_nothing(writer);
            }
            return Err(Error::Unimplemented);
        }
        self.encode_head(writer)?;
        match &self.network_message {
            NetworkMessage::Apdu(adpu) => adpu.encode(writer),
            NetworkMessage::MessageType(x) => writer.push(*x),
        }
    }

    fn decode_addresses(control: u8, reader: &mut Reader, buf: &[u8]) -> (r: Result<
        (Option<DestinationAddress>, Option<SourceAddress>),
        Error,
    >)
        ensures
            read_as(
                r,
                NetworkPduView::spec_decode_addresses(
                    control,
                    old(reader).region(buf@),
                    old(reader).index as int,
                ),
                *old(reader),
                *final(reader),
            ),
    {
        proof {
            lemma_control_bits(control);
        }
        let dst = if (control & CONTROL_HAS_DESTINATION) != 0 {
            Some(NetworkAddress::decode(reader, buf)?)
        } else {
            None
        };
        let src = if (control & CONTROL_HAS_SOURCE) != 0 {
            Some(NetworkAddress::decode(reader, buf)?)
        } else {
            None
        };
        let dst = match dst {
            Some(network_address) => {
                let hop_count = reader.read_byte(buf)?;
                Some(DestinationAddress { network_address, hop_count })
            },
            None => None,
        };
        Ok((dst, src))
    }

    /// Reads an envelope with what it carries.
    pub fn decode(reader: &mut Reader, buf: &'a [u8]) -> (r: Result<Self, Error>)
        ensures
            read_as_view(
                r,
                NetworkPduView::spec_decode(old(reader).region(buf@), old(reader).index as int),
                *old(reader),
                *final(reader),
            ),
    {
        proof {
            reveal(NetworkPduView::spec_decode);
        }
        // the version is read and not looked at
        let _version = reader.read_byte(buf)?;
        let control = reader.read_byte(buf)?;
        proof {
            lemma_control_bits(control);
        }
        let (dst, src) = Self::decode_addresses(control, reader, buf)?;
        let network_message = if (control & CONTROL_NETWORK_LAYER_MESSAGE) != 0 {
            let message_type = reader.read_byte(buf)?;
            NetworkMessage::MessageType(message_type)
        } else {
            let apdu = ApplicationPdu::decode(reader, buf)?;
            NetworkMessage::Apdu(apdu)
        };
        Ok(
            Self {
                src,
                dst,
                expect_reply: (control & CONTROL_EXPECTING_REPLY) != 0,
                message_priority: MessagePriority::from_code(control),
                network_message,
            },
        )
    }
}

/// Testing the bits of the control byte.
proof fn lemma_control_bits(control: u8)
    ensures
        (control & CONTROL_NETWORK_LAYER_MESSAGE) != 0 <==> spec_control_bit(
            control,
            CONTROL_NETWORK_LAYER_MESSAGE,
        ),
        (control & CONTROL_HAS_DESTINATION) != 0 <==> spec_control_bit(
            control,
            CONTROL_HAS_DESTINATION,
        ),
        (control & CONTROL_HAS_SOURCE) != 0 <==> spec_control_bit(control, CONTROL_HAS_SOURCE),
        (control & CONTROL_EXPECTING_REPLY) != 0 <==> spec_control_bit(
            control,
            CONTROL_EXPECTING_REPLY,
        ),
{
    assert(((control & 0x80) != 0) == ((control / 0x80) % 2 == 1)) by (bit_vector);
    assert(((control & 0x20) != 0) == ((control / 0x20) % 2 == 1)) by (bit_vector);
    assert(((control & 0x08) != 0) == ((control / 0x08) % 2 == 1)) by (bit_vector);
    assert(((control & 0x04) != 0) == ((control / 0x04) % 2 == 1)) by (bit_vector);
}

} // verus!
