use vstd::prelude::*;
use crate::application_protocol::services::i_am::IAm;
use crate::application_protocol::services::read_property::{
    ReadProperty, ReadPropertyAck, ReadPropertyAckView,
};
use crate::application_protocol::services::read_property_multiple::{
    ReadPropertyMultiple, ReadPropertyMultipleAck, ReadPropertyMultipleAckView,
    ReadPropertyMultipleView,
};
use crate::application_protocol::services::read_range::{ReadRange, ReadRangeAck, ReadRangeAckView};
use crate::application_protocol::services::who_is::WhoIs;
use crate::common::error::Error;
use crate::common::io::{
    group_writer, lemma_appended_nothing, read_as, read_as_view, spec_read_byte, wrote, wrote_if,
    Reader, Writer,
};

verus! {

broadcast use group_writer;

/// The kinds of application message, by the high four bits of their first byte.
#[derive(Debug, Clone, Copy, PartialEq, Eq, Structural)]
pub enum ApduType {
    ConfirmedServiceRequest,
    UnconfirmedServiceRequest,
    SimpleAck,
    ComplexAck,
    SegmentAck,
    Error,
    Reject,
    Abort,
}

impl ApduType {
    /// The number on the wire.
    pub open spec fn spec_code(self) -> u8 {
        match self {
            Self::ConfirmedServiceRequest => 0,
            Self::UnconfirmedServiceRequest => 1,
            Self::SimpleAck => 2,
            Self::ComplexAck => 3,
            Self::SegmentAck => 4,
            Self::Error => 5,
            Self::Reject => 6,
            Self::Abort => 7,
        }
    }

    /// The variant with the number `value` on the wire, if there is one.
    pub open spec fn spec_from_code(value: u8) -> Option<Self> {
        match value {
            0 => Some(Self::ConfirmedServiceRequest),
            1 => Some(Self::UnconfirmedServiceRequest),
            2 => Some(Self::SimpleAck),
            3 => Some(Self::ComplexAck),
            4 => Some(Self::SegmentAck),
            5 => Some(Self::Error),
            6 => Some(Self::Reject),
            7 => Some(Self::Abort),
            _ => None,
        }
    }

    #[verifier::when_used_as_spec(spec_code)]
    pub fn code(self) -> (r: u8)
        ensures
            r == self.spec_code(),
    {
        match self {
            Self::ConfirmedServiceRequest => 0,
            Self::UnconfirmedServiceRequest => 1,
            Self::SimpleAck => 2,
            Self::ComplexAck => 3,
            Self::SegmentAck => 4,
            Self::Error => 5,
            Self::Reject => 6,
            Self::Abort => 7,
        }
    }

    /// The variant with the number `value` on the wire, if there is one.
    pub fn from_code(value: u8) -> (r: Option<Self>)
        ensures
            r == Self::spec_from_code(value),
            r matches Some(x) ==> x.spec_code() == value,
    {
        match value {
            0 => Some(Self::ConfirmedServiceRequest),
            1 => Some(Self::UnconfirmedServiceRequest),
            2 => Some(Self::SimpleAck),
            3 => Some(Self::ComplexAck),
            4 => Some(Self::SegmentAck),
            5 => Some(Self::Error),
            6 => Some(Self::Reject),
            7 => Some(Self::Abort),
            _ => None,
        }
    }
}
/// How many segments of an answer the sender takes. The numbers on the wire
/// stand in the high four bits of their byte.
#[derive(Debug, Clone, Copy, PartialEq, Eq, Structural)]
pub enum MaxSegments {
    _0,
    _2,
    _4,
    _8,
    _16,
    _32,
    _64,
    // the default
    _65,
}

impl MaxSegments {
    /// The number on the wire, in the high four bits.
    pub open spec fn spec_code(self) -> u8 {
        match self {
            Self::_0 => 0x00,
            Self::_2 => 0x10,
            Self::_4 => 0x20,
            Self::_8 => 0x30,
            Self::_16 => 0x40,
            Self::_32 => 0x50,
            Self::_64 => 0x60,
            Self::_65 => 0x70,
        }
    }

    /// The variant with the number `value`, which has its low four bits clear.
    pub open spec fn spec_from_code(value: u8) -> Option<Self> {
        match value {
            0x00 => Some(Self::_0),
            0x10 => Some(Self::_2),
            0x20 => Some(Self::_4),
            0x30 => Some(Self::_8),
            0x40 => Some(Self::_16),
            0x50 => Some(Self::_32),
            0x60 => Some(Self::_64),
            0x70 => Some(Self::_65),
            _ => None,
        }
    }

    #[verifier::when_used_as_spec(spec_code)]
    pub fn code(self) -> (r: u8)
        ensures
            r == self.spec_code(),
    {
        match self {
            Self::_0 => 0x00,
            Self::_2 => 0x10,
            Self::_4 => 0x20,
            Self::_8 => 0x30,
            Self::_16 => 0x40,
            Self::_32 => 0x50,
            Self::_64 => 0x60,
            Self::_65 => 0x70,
        }
    }

    /// The variant with the number `value`, which has its low four bits clear.
    pub fn from_code(value: u8) -> (r: Option<Self>)
        ensures
            r == Self::spec_from_code(value),
            r matches Some(x) ==> x.spec_code() == value,
    {
        match value {
            0x00 => Some(Self::_0),
            0x10 => Some(Self::_2),
            0x20 => Some(Self::_4),
            0x30 => Some(Self::_8),
            0x40 => Some(Self::_16),
            0x50 => Some(Self::_32),
            0x60 => Some(Self::_64),
            0x70 => Some(Self::_65),
            _ => None,
        }
    }
}
/// The longest message that the sender takes.
#[derive(Debug, Clone, Copy, PartialEq, Eq, Structural)]
pub enum MaxAdpu {
    _0,
    _128,
    _206,
    _480,
    _1024,
    // the default
    _1476,
}

impl MaxAdpu {
    /// The number on the wire.
    pub open spec fn spec_code(self) -> u8 {
        match self {
            Self::_0 => 0x00,
            Self::_128 => 0x01,
            Self::_206 => 0x02,
            Self::_480 => 0x03,
            Self::_1024 => 0x04,
            Self::_1476 => 0x05,
        }
    }

    /// The variant with the number `value` on the wire, if there is one.
    pub open spec fn spec_from_code(value: u8) -> Option<Self> {
        match value {
            0x00 => Some(Self::_0),
            0x01 => Some(Self::_128),
            0x02 => Some(Self::_206),
            0x03 => Some(Self::_480),
            0x04 => Some(Self::_1024),
            0x05 => Some(Self::_1476),
            _ => None,
        }
    }

    #[verifier::when_used_as_spec(spec_code)]
    pub fn code(self) -> (r: u8)
        ensures
            r == self.spec_code(),
    {
        match self {
            Self::_0 => 0x00,
            Self::_128 => 0x01,
            Self::_206 => 0x02,
            Self::_480 => 0x03,
            Self::_1024 => 0x04,
            Self::_1476 => 0x05,
        }
    }

    /// The variant with the number `value` on the wire, if there is one.
    pub fn from_code(value: u8) -> (r: Option<Self>)
        ensures
            r == Self::spec_from_code(value),
            r matches Some(x) ==> x.spec_code() == value,
    {
        match value {
            0x00 => Some(Self::_0),
            0x01 => Some(Self::_128),
            0x02 => Some(Self::_206),
            0x03 => Some(Self::_480),
            0x04 => Some(Self::_1024),
            0x05 => Some(Self::_1476),
            _ => None,
        }
    }
}
/// The services that are answered, by their number on the wire.
#[derive(Debug, Clone, Copy, PartialEq, Eq, Structural)]
pub enum ConfirmedServiceChoice {
    // alarm and event services
    AcknowledgeAlarm,
    AuditNotification,
    CovNotification,
    CovNotificationMultiple,
    EventNotification,
    GetAlarmSummary,
    GetEnrollmentSummary,
    GetEventInformation,
    LifeSafetyOperation,
    SubscribeCov,
    SubscribeCovProperty,
    SubscribeCovPropertyMultiple,
    // file access services
    AtomicReadFile,
    AtomicWriteFile,
    // object access services
    AddListElement,
    RemoveListElement,
    CreateObject,
    DeleteObject,
    ReadProperty,
    ReadPropConditional,
    ReadPropMultiple,
    ReadRange,
    WriteProperty,
    WritePropMultiple,
    AuditLogQuery,
    // remote device management services
    DeviceCommunicationControl,
    PrivateTransfer,
    TextMessage,
    ReinitializeDevice,
    // virtual terminal services
    VtOpen,
    VtClose,
    VtData,
    // security services
    Authenticate,
    RequestKey,
    // the end of the table
    MaxBacnetConfirmedService,
}

impl ConfirmedServiceChoice {
    /// The number on the wire.
    pub open spec fn spec_code(self) -> u8 {
        match self {
            Self::AcknowledgeAlarm => 0,
            Self::AuditNotification => 32,
            Self::CovNotification => 1,
            Self::CovNotificationMultiple => 31,
            Self::EventNotification => 2,
            Self::GetAlarmSummary => 3,
            Self::GetEnrollmentSummary => 4,
            Self::GetEventInformation => 29,
            Self::LifeSafetyOperation => 27,
            Self::SubscribeCov => 5,
            Self::SubscribeCovProperty => 28,
            Self::SubscribeCovPropertyMultiple => 30,
            Self::AtomicReadFile => 6,
            Self::AtomicWriteFile => 7,
            Self::AddListElement => 8,
            Self::RemoveListElement => 9,
            Self::CreateObject => 10,
            Self::DeleteObject => 11,
            Self::ReadProperty => 12,
            Self::ReadPropConditional => 13,
            Self::ReadPropMultiple => 14,
            Self::ReadRange => 26,
            Self::WriteProperty => 15,
            Self::WritePropMultiple => 16,
            Self::AuditLogQuery => 33,
            Self::DeviceCommunicationControl => 17,
            Self::PrivateTransfer => 18,
            Self::TextMessage => 19,
            Self::ReinitializeDevice => 20,
            Self::VtOpen => 21,
            Self::VtClose => 22,
            Self::VtData => 23,
            Self::Authenticate => 24,
            Self::RequestKey => 25,
            Self::MaxBacnetConfirmedService => 34,
        }
    }

    /// The variant with the number `value` on the wire, if there is one.
    pub open spec fn spec_from_code(value: u8) -> Option<Self> {
        match value {
            0 => Some(Self::AcknowledgeAlarm),
            1 => Some(Self::CovNotification),
            2 => Some(Self::EventNotification),
            3 => Some(Self::GetAlarmSummary),
            4 => Some(Self::GetEnrollmentSummary),
            5 => Some(Self::SubscribeCov),
            6 => Some(Self::AtomicReadFile),
            7 => Some(Self::AtomicWriteFile),
            8 => Some(Self::AddListElement),
            9 => Some(Self::RemoveListElement),
            10 => Some(Self::CreateObject),
            11 => Some(Self::DeleteObject),
            12 => Some(Self::ReadProperty),
            13 => Some(Self::ReadPropConditional),
            14 => Some(Self::ReadPropMultiple),
            15 => Some(Self::WriteProperty),
            16 => Some(Self::WritePropMultiple),
            17 => Some(Self::DeviceCommunicationControl),
            18 => Some(Self::PrivateTransfer),
            19 => Some(Self::TextMessage),
            20 => Some(Self::ReinitializeDevice),
            21 => Some(Self::VtOpen),
            22 => Some(Self::VtClose),
            23 => Some(Self::VtData),
            24 => Some(Self::Authenticate),
            25 => Some(Self::RequestKey),
            26 => Some(Self::ReadRange),
            27 => Some(Self::LifeSafetyOperation),
            28 => Some(Self::SubscribeCovProperty),
            29 => Some(Self::GetEventInformation),
            30 => Some(Self::SubscribeCovPropertyMultiple),
            31 => Some(Self::CovNotificationMultiple),
            32 => Some(Self::AuditNotification),
            33 => Some(Self::AuditLogQuery),
            34 => Some(Self::MaxBacnetConfirmedService),
            _ => None,
        }
    }

    #[verifier::when_used_as_spec(spec_code)]
    pub fn code(self) -> (r: u8)
        ensures
            r == self.spec_code(),
    {
        match self {
            Self::AcknowledgeAlarm => 0,
            Self::AuditNotification => 32,
            Self::CovNotification => 1,
            Self::CovNotificationMultiple => 31,
            Self::EventNotification => 2,
            Self::GetAlarmSummary => 3,
            Self::GetEnrollmentSummary => 4,
            Self::GetEventInformation => 29,
            Self::LifeSafetyOperation => 27,
            Self::SubscribeCov => 5,
            Self::SubscribeCovProperty => 28,
            Self::SubscribeCovPropertyMultiple => 30,
            Self::AtomicReadFile => 6,
            Self::AtomicWriteFile => 7,
            Self::AddListElement => 8,
            Self::RemoveListElement => 9,
            Self::CreateObject => 10,
            Self::DeleteObject => 11,
            Self::ReadProperty => 12,
            Self::ReadPropConditional => 13,
            Self::ReadPropMultiple => 14,
            Self::ReadRange => 26,
            Self::WriteProperty => 15,
            Self::WritePropMultiple => 16,
            Self::AuditLogQuery => 33,
            Self::DeviceCommunicationControl => 17,
            Self::PrivateTransfer => 18,
            Self::TextMessage => 19,
            Self::ReinitializeDevice => 20,
            Self::VtOpen => 21,
            Self::VtClose => 22,
            Self::VtData => 23,
            Self::Authenticate => 24,
            Self::RequestKey => 25,
            Self::MaxBacnetConfirmedService => 34,
        }
    }

    /// The variant with the number `value` on the wire, if there is one.
    pub fn from_code(value: u8) -> (r: Option<Self>)
        ensures
            r == Self::spec_from_code(value),
            r matches Some(x) ==> x.spec_code() == value,
    {
        match value {
            0 => Some(Self::AcknowledgeAlarm),
            1 => Some(Self::CovNotification),
            2 => Some(Self::EventNotification),
            3 => Some(Self::GetAlarmSummary),
            4 => Some(Self::GetEnrollmentSummary),
            5 => Some(Self::SubscribeCov),
            6 => Some(Self::AtomicReadFile),
            7 => Some(Self::AtomicWriteFile),
            8 => Some(Self::AddListElement),
            9 => Some(Self::RemoveListElement),
            10 => Some(Self::CreateObject),
            11 => Some(Self::DeleteObject),
            12 => Some(Self::ReadProperty),
            13 => Some(Self::ReadPropConditional),
            14 => Some(Self::ReadPropMultiple),
            15 => Some(Self::WriteProperty),
            16 => Some(Self::WritePropMultiple),
            17 => Some(Self::DeviceCommunicationControl),
            18 => Some(Self::PrivateTransfer),
            19 => Some(Self::TextMessage),
            20 => Some(Self::ReinitializeDevice),
            21 => Some(Self::VtOpen),
            22 => Some(Self::VtClose),
            23 => Some(Self::VtData),
            24 => Some(Self::Authenticate),
            25 => Some(Self::RequestKey),
            26 => Some(Self::ReadRange),
            27 => Some(Self::LifeSafetyOperation),
            28 => Some(Self::SubscribeCovProperty),
            29 => Some(Self::GetEventInformation),
            30 => Some(Self::SubscribeCovPropertyMultiple),
            31 => Some(Self::CovNotificationMultiple),
            32 => Some(Self::AuditNotification),
            33 => Some(Self::AuditLogQuery),
            34 => Some(Self::MaxBacnetConfirmedService),
            _ => None,
        }
    }
}
/// The services that are not answered, by their number on the wire.
#[derive(Debug, Clone, Copy, PartialEq, Eq, Structural)]
pub enum UnconfirmedServiceChoice {
    IAm,
    IHave,
    CovNotification,
    EventNotification,
    PrivateTransfer,
    TextMessage,
    TimeSynchronization,
    WhoHas,
    WhoIs,
    UtcTimeSynchronization,
    WriteGroup,
    CovNotificationMultiple,
    AuditNotification,
    WhoAmI,
    YouAre,
    // the end of the table
    MaxBacnetUnconfirmedService,
}

impl UnconfirmedServiceChoice {
    /// The number on the wire.
    pub open spec fn spec_code(self) -> u8 {
        match self {
            Self::IAm => 0,
            Self::IHave => 1,
            Self::CovNotification => 2,
            Self::EventNotification => 3,
            Self::PrivateTransfer => 4,
            Self::TextMessage => 5,
            Self::TimeSynchronization => 6,
            Self::WhoHas => 7,
            Self::WhoIs => 8,
            Self::UtcTimeSynchronization => 9,
            Self::WriteGroup => 10,
            Self::CovNotificationMultiple => 11,
            Self::AuditNotification => 12,
            Self::WhoAmI => 13,
            Self::YouAre => 14,
            Self::MaxBacnetUnconfirmedService => 15,
        }
    }

    /// The variant with the number `value` on the wire, if there is one.
    pub open spec fn spec_from_code(value: u8) -> Option<Self> {
        match value {
            0 => Some(Self::IAm),
            1 => Some(Self::IHave),
            2 => Some(Self::CovNotification),
            3 => Some(Self::EventNotification),
            4 => Some(Self::PrivateTransfer),
            5 => Some(Self::TextMessage),
            6 => Some(Self::TimeSynchronization),
            7 => Some(Self::WhoHas),
            8 => Some(Self::WhoIs),
            9 => Some(Self::UtcTimeSynchronization),
            10 => Some(Self::WriteGroup),
            11 => Some(Self::CovNotificationMultiple),
            12 => Some(Self::AuditNotification),
            13 => Some(Self::WhoAmI),
            14 => Some(Self::YouAre),
            15 => Some(Self::MaxBacnetUnconfirmedService),
            _ => None,
        }
    }

    #[verifier::when_used_as_spec(spec_code)]
    pub fn code(self) -> (r: u8)
        ensures
            r == self.spec_code(),
    {
        match self {
            Self::IAm => 0,
            Self::IHave => 1,
            Self::CovNotification => 2,
            Self::EventNotification => 3,
            Self::PrivateTransfer => 4,
            Self::TextMessage => 5,
            Self::TimeSynchronization => 6,
            Self::WhoHas => 7,
            Self::WhoIs => 8,
            Self::UtcTimeSynchronization => 9,
            Self::WriteGroup => 10,
            Self::CovNotificationMultiple => 11,
            Self::AuditNotification => 12,
            Self::WhoAmI => 13,
            Self::YouAre => 14,
            Self::MaxBacnetUnconfirmedService => 15,
        }
    }

    /// The variant with the number `value` on the wire, if there is one.
    pub fn from_code(value: u8) -> (r: Option<Self>)
        ensures
            r == Self::spec_from_code(value),
            r matches Some(x) ==> x.spec_code() == value,
    {
        match value {
            0 => Some(Self::IAm),
            1 => Some(Self::IHave),
            2 => Some(Self::CovNotification),
            3 => Some(Self::EventNotification),
            4 => Some(Self::PrivateTransfer),
            5 => Some(Self::TextMessage),
            6 => Some(Self::TimeSynchronization),
            7 => Some(Self::WhoHas),
            8 => Some(Self::WhoIs),
            9 => Some(Self::UtcTimeSynchronization),
            10 => Some(Self::WriteGroup),
            11 => Some(Self::CovNotificationMultiple),
            12 => Some(Self::AuditNotification),
            13 => Some(Self::WhoAmI),
            14 => Some(Self::YouAre),
            15 => Some(Self::MaxBacnetUnconfirmedService),
            _ => None,
        }
    }
}
// bits of the low half of the first byte
pub const PDU_FLAG_SERVER: u8 = 0b0001;

pub const PDU_FLAG_SEGMENTED_RESPONSE_ACCEPTED: u8 = 0b0010;

pub const PDU_FLAG_MORE_FOLLOWS: u8 = 0b0100;

pub const PDU_FLAG_SEGMENTED_MESSAGE: u8 = 0b1000;

/// Whether the low half `flags` of a first byte says that the message is a segment.
pub open spec fn spec_is_segmented(flags: u8) -> bool {
    (flags / 8) % 2 == 1
}

/// An application message.
#[derive(Debug)]
pub enum ApplicationPdu<'a> {
    ConfirmedRequest(ConfirmedRequest),
    UnconfirmedRequest(UnconfirmedRequest),
    ComplexAck(ComplexAck<'a>),
    // add more here
}

/// A request that is answered. The invoke id pairs the answer with the
/// request; this codec carries it and does nothing else with it.
#[derive(Debug)]
pub struct ConfirmedRequest {
    pub max_segments: MaxSegments,  // default 65
    pub max_adpu: MaxAdpu,  // default 1476
    pub invoke_id: u8,  // starts at 0
    pub sequence_num: u8,  // default to 0
    pub proposed_window_size: u8,  // default to 0
    pub service: ConfirmedRequestSerivice,
}

#[derive(Debug)]
pub enum ConfirmedRequestSerivice {
    ReadProperty(ReadProperty),
    ReadPropertyMultiple(ReadPropertyMultiple),
    ReadRange(ReadRange),
    // add more here
}

/// The answer to a confirmed request that carries data.
#[derive(Debug)]
pub struct ComplexAck<'a> {
    pub invoke_id: u8,
    pub service: ComplexAckService<'a>,
}

#[derive(Debug)]
pub enum ComplexAckService<'a> {
    ReadProperty(ReadPropertyAck<'a>),
    ReadPropertyMultiple(ReadPropertyMultipleAck<'a>),
    ReadRange(ReadRangeAck<'a>),
    // add more here
}

/// A request that is not answered.
#[derive(Debug, Clone, Copy, PartialEq, Eq, Structural)]
pub enum UnconfirmedRequest {
    WhoIs(WhoIs),
    IAm(IAm),
}

/// What a `ConfirmedRequestSerivice` holds.
pub enum ConfirmedRequestSeriviceView {
    ReadProperty(ReadProperty),
    ReadPropertyMultiple(ReadPropertyMultipleView),
    ReadRange(ReadRange),
}

/// What a `ConfirmedRequest` holds.
pub struct ConfirmedRequestView {
    pub max_segments: MaxSegments,
    pub max_adpu: MaxAdpu,
    pub invoke_id: u8,
    pub sequence_num: u8,
    pub proposed_window_size: u8,
    pub service: ConfirmedRequestSeriviceView,
}

/// What a `ComplexAckService` holds.
pub enum ComplexAckServiceView {
    ReadProperty(ReadPropertyAckView),
    ReadPropertyMultiple(ReadPropertyMultipleAckView),
    ReadRange(ReadRangeAckView),
}

/// What a `ComplexAck` holds.
pub struct ComplexAckView {
    pub invoke_id: u8,
    pub service: ComplexAckServiceView,
}

/// What an `ApplicationPdu` holds.
pub enum ApplicationPduView {
    ConfirmedRequest(ConfirmedRequestView),
    UnconfirmedRequest(UnconfirmedRequest),
    ComplexAck(ComplexAckView),
}

impl View for ConfirmedRequestSerivice {
    type V = ConfirmedRequestSeriviceView;

    open spec fn view(&self) -> ConfirmedRequestSeriviceView {
        match self {
            ConfirmedRequestSerivice::ReadProperty(x) => ConfirmedRequestSeriviceView::ReadProperty(
                *x,
            ),
            ConfirmedRequestSerivice::ReadPropertyMultiple(x) => {
                ConfirmedRequestSeriviceView::ReadPropertyMultiple(x@)
            },
            ConfirmedRequestSerivice::ReadRange(x) => ConfirmedRequestSeriviceView::ReadRange(*x),
        }
    }
}

impl View for ConfirmedRequest {
    type V = ConfirmedRequestView;

    open spec fn view(&self) -> ConfirmedRequestView {
        ConfirmedRequestView {
            max_segments: self.max_segments,
            max_adpu: self.max_adpu,
            invoke_id: self.invoke_id,
            sequence_num: self.sequence_num,
            proposed_window_size: self.proposed_window_size,
            service: self.service@,
        }
    }
}

impl<'a> View for ComplexAckService<'a> {
    type V = ComplexAckServiceView;

    open spec fn view(&self) -> ComplexAckServiceView {
        match self {
            ComplexAckService::ReadProperty(x) => ComplexAckServiceView::ReadProperty(x@),
            ComplexAckService::ReadPropertyMultiple(x) => {
                ComplexAckServiceView::ReadPropertyMultiple(x@)
            },
            ComplexAckService::ReadRange(x) => ComplexAckServiceView::ReadRange(x@),
        }
    }
}

impl<'a> View for ComplexAck<'a> {
    type V = ComplexAckView;

    open spec fn view(&self) -> ComplexAckView {
        ComplexAckView { invoke_id: self.invoke_id, service: self.service@ }
    }
}

impl<'a> View for ApplicationPdu<'a> {
    type V = ApplicationPduView;

    open spec fn view(&self) -> ApplicationPduView {
        match self {
            ApplicationPdu::ConfirmedRequest(x) => ApplicationPduView::ConfirmedRequest(x@),
            ApplicationPdu::UnconfirmedRequest(x) => ApplicationPduView::UnconfirmedRequest(*x),
            ApplicationPdu::ComplexAck(x) => ApplicationPduView::ComplexAck(x@),
        }
    }
}

impl ConfirmedRequestSeriviceView {
    /// The number of the service, then the request.
    pub open spec fn spec_encode(self) -> Seq<u8> {
        match self {
            ConfirmedRequestSeriviceView::ReadProperty(x) => seq![
                ConfirmedServiceChoice::ReadProperty.spec_code(),
            ] + x.spec_encode(),
            ConfirmedRequestSeriviceView::ReadPropertyMultiple(x) => seq![
                ConfirmedServiceChoice::ReadPropMultiple.spec_code(),
            ] + x.spec_encode(),
            ConfirmedRequestSeriviceView::ReadRange(x) => seq![
                ConfirmedServiceChoice::ReadRange.spec_code(),
            ] + x.spec_encode(),
        }
    }

    /// The request of the service `choice` from `pos` on. Of the services
    /// three are read.
    #[verifier::opaque]
    pub open spec fn spec_decode(choice: ConfirmedServiceChoice, s: Seq<u8>, pos: int) -> Result<
        (ConfirmedRequestSeriviceView, int),
        Error,
    > {
        match choice {
            ConfirmedServiceChoice::ReadProperty => match ReadProperty::spec_decode(s, pos) {
                Err(e) => Err(e),
                Ok((x, p)) => Ok((ConfirmedRequestSeriviceView::ReadProperty(x), p)),
            },
            ConfirmedServiceChoice::ReadPropMultiple => match ReadPropertyMultipleView::spec_decode(
                s,
                pos,
            ) {
                Err(e) => Err(e),
                Ok((x, p)) => Ok((ConfirmedRequestSeriviceView::ReadPropertyMultiple(x), p)),
            },
            ConfirmedServiceChoice::ReadRange => match ReadRange::spec_decode(s, pos) {
                Err(e) => Err(e),
                Ok((x, p)) => Ok((ConfirmedRequestSeriviceView::ReadRange(x), p)),
            },
            _ => Err(Error::Unimplemented),
        }
    }
}

impl ConfirmedRequestView {
    /// The low half of the first byte: that a segmented answer is taken,
    /// unless no segments are.
    pub open spec fn spec_flags(self) -> u8 {
        if self.max_segments is _0 {
            0
        } else {
            PDU_FLAG_SEGMENTED_RESPONSE_ACCEPTED
        }
    }

    /// The request on the wire: the first byte with the kind of message and
    /// the flags, the byte of the two limits, the invoke id, the service.
    pub open spec fn spec_encode(self) -> Seq<u8> {
        seq![
            (ApduType::ConfirmedServiceRequest.spec_code() * 16 + self.spec_flags()) as u8,
            (self.max_segments.spec_code() + self.max_adpu.spec_code()) as u8,
            self.invoke_id,
        ] + self.service.spec_encode()
    }

    /// The request that the bytes of `s` from `pos` on spell, behind the
    /// first byte.
    #[verifier::opaque]
    pub open spec fn spec_decode(s: Seq<u8>, pos: int) -> Result<(ConfirmedRequestView, int), Error> {
        match spec_read_byte(s, pos) {
            Err(e) => Err(e),
            Ok((limits, p)) => match (
                MaxSegments::spec_from_code(((limits / 16) * 16) as u8),
                MaxAdpu::spec_from_code(limits % 16),
            ) {
                (Some(max_segments), Some(max_adpu)) => match spec_read_byte(s, p) {
                    Err(e) => Err(e),
                    Ok((invoke_id, p)) => match spec_read_byte(s, p) {
                        Err(e) => Err(e),
                        Ok((choice, p)) => match ConfirmedServiceChoice::spec_from_code(choice) {
                            None => Err(Error::InvalidVariant),
                            Some(choice) => match ConfirmedRequestSeriviceView::spec_decode(
                                choice,
                                s,
                                p,
                            ) {
                                Err(e) => Err(e),
                                Ok((service, p)) => Ok(
                                    (
                                        ConfirmedRequestView {
                                            max_segments,
                                            max_adpu,
                                            invoke_id,
                                            sequence_num: 0,
                                            proposed_window_size: 0,
                                            service,
                                        },
                                        p,
                                    ),
                                ),
                            },
                        },
                    },
                },
                _ => Err(Error::InvalidVariant),
            },
        }
    }
}

impl ComplexAckServiceView {
    /// Of the answers only that of the range read has a wire form here.
    pub open spec fn spec_encodable(self) -> bool {
        self matches ComplexAckServiceView::ReadRange(x) && x.spec_encodable()
    }

    /// The lengths in the answer fit their tags.
    pub open spec fn wf(self) -> bool {
        self matches ComplexAckServiceView::ReadRange(x) ==> x.wf()
    }

    /// The number of the service, then the answer.
    pub open spec fn spec_encode(self) -> Seq<u8> {
        match self {
            ComplexAckServiceView::ReadRange(x) => x.spec_encode(),
            _ => seq![],
        }
    }

    /// The answer of the service `choice` from `pos` on. Of the services
    /// three are read.
    #[verifier::opaque]
    pub open spec fn spec_decode(choice: ConfirmedServiceChoice, s: Seq<u8>, pos: int) -> Result<
        (ComplexAckServiceView, int),
        Error,
    > {
        match choice {
            ConfirmedServiceChoice::ReadProperty => match ReadPropertyAckView::spec_decode(s, pos) {
                Err(e) => Err(e),
                Ok((x, p)) => Ok((ComplexAckServiceView::ReadProperty(x), p)),
            },
            ConfirmedServiceChoice::ReadPropMultiple => {
                match ReadPropertyMultipleAckView::spec_decode(s, pos) {
                    Err(e) => Err(e),
                    Ok((x, p)) => Ok((ComplexAckServiceView::ReadPropertyMultiple(x), p)),
                }
            },
            ConfirmedServiceChoice::ReadRange => match ReadRangeAckView::spec_decode(s, pos) {
                Err(e) => Err(e),
                Ok((x, p)) => Ok((ComplexAckServiceView::ReadRange(x), p)),
            },
            _ => Err(Error::Unimplemented),
        }
    }
}

impl ComplexAckView {
    /// The answer on the wire: the first byte with the kind of message, the
    /// invoke id, the service.
    pub open spec fn spec_encode(self) -> Seq<u8> {
        seq![(ApduType::ComplexAck.spec_code() * 16) as u8, self.invoke_id]
            + self.service.spec_encode()
    }

    /// The answer that the bytes of `s` from `pos` on spell, behind the first byte.
    #[verifier::opaque]
    pub open spec fn spec_decode(s: Seq<u8>, pos: int) -> Result<(ComplexAckView, int), Error> {
        match spec_read_byte(s, pos) {
            Err(e) => Err(e),
            Ok((invoke_id, p)) => match spec_read_byte(s, p) {
                Err(e) => Err(e),
                Ok((choice, p)) => match ConfirmedServiceChoice::spec_from_code(choice) {
                    None => Err(Error::InvalidVariant),
                    Some(choice) => match ComplexAckServiceView::spec_decode(choice, s, p) {
                        Err(e) => Err(e),
                        Ok((service, p)) => Ok((ComplexAckView { invoke_id, service }, p)),
                    },
                },
            },
        }
    }
}

impl UnconfirmedRequest {
    /// Of the requests only `WhoIs` has a wire form here.
    pub open spec fn spec_encodable(self) -> bool {
        self is WhoIs
    }

    /// The request on the wire: the first byte with the kind of message and
    /// no flags, then the service.
    pub open spec fn spec_encode(self) -> Seq<u8> {
        seq![(ApduType::UnconfirmedServiceRequest.spec_code() * 16) as u8] + (match self {
            UnconfirmedRequest::WhoIs(x) => x.spec_encode(),
            UnconfirmedRequest::IAm(_) => seq![],
        })
    }

    /// The request that the bytes of `s` from `pos` on spell, behind the
    /// first byte. Of the services two are read.
    #[verifier::opaque]
    pub open spec fn spec_decode(s: Seq<u8>, pos: int) -> Result<(UnconfirmedRequest, int), Error> {
        match spec_read_byte(s, pos) {
            Err(e) => Err(e),
            Ok((choice, p)) => match UnconfirmedServiceChoice::spec_from_code(choice) {
                None => Err(Error::InvalidVariant),
                Some(UnconfirmedServiceChoice::IAm) => match IAm::spec_decode(s, p) {
                    Err(e) => Err(e),
                    Ok((x, p)) => Ok((UnconfirmedRequest::IAm(x), p)),
                },
                Some(UnconfirmedServiceChoice::WhoIs) => Ok(
                    (UnconfirmedRequest::WhoIs(WhoIs {  }), p),
                ),
                Some(_) => Err(Error::Unimplemented),
            },
        }
    }

    /// Writes the request. An `IAm` has no wire form here: nothing is written.
    pub fn encode(&self, writer: &mut Writer) -> (r: Result<(), Error>)
        requires
            old(writer).wf(),
        ensures
            wrote_if(r, old(writer), final(writer), self.spec_encodable(), self.spec_encode()),
            final(final(writer).buf)@ == final(old(writer).buf)@,
    {
        match &self {
            Self::IAm(_) => {
                proof {
                    lemma_appended_nothing(writer);
                }
                Err(Error::Unimplemented)
            },
            Self::WhoIs(payload) => {
                proof {
                    lemma_control_byte(ApduType::UnconfirmedServiceRequest.spec_code(), 0);
                }
                writer.push(ApduType::UnconfirmedServiceRequest.code() << 4)?;
                payload.encode(writer)
            },
        }
    }

    /// Reads a request, from behind the first byte on.
    pub fn decode(reader: &mut Reader, buf: &[u8]) -> (r: Result<Self, Error>)
        ensures
            read_as(
                r,
                UnconfirmedRequest::spec_decode(old(reader).region(buf@), old(reader).index as int),
                *old(reader),
                *final(reader),
            ),
    {
        proof {
            reveal(UnconfirmedRequest::spec_decode);
        }
        let choice = match UnconfirmedServiceChoice::from_code(reader.read_byte(buf)?) {
            Some(choice) => choice,
            None => {
                return Err(Error::InvalidVariant);
            },
        };
        match choice {
            UnconfirmedServiceChoice::IAm => {
                let apdu = IAm::decode(reader, buf)?;
                Ok(UnconfirmedRequest::IAm(apdu))
            },
            UnconfirmedServiceChoice::WhoIs => {
                let apdu = WhoIs::decode();
                Ok(UnconfirmedRequest::WhoIs(apdu))
            },
            _ => Err(Error::Unimplemented),
        }
    }
}

impl ApplicationPduView {
    /// Whether the message has a wire form here.
    pub open spec fn spec_encodable(self) -> bool {
        match self {
            ApplicationPduView::ConfirmedRequest(_) => true,
            ApplicationPduView::UnconfirmedRequest(x) => x.spec_encodable(),
            ApplicationPduView::ComplexAck(x) => x.service.spec_encodable(),
        }
    }

    /// The lengths in the message fit their tags.
    pub open spec fn wf(self) -> bool {
        self matches ApplicationPduView::ComplexAck(x) ==> x.service.wf()
    }

    /// The message on the wire.
    pub open spec fn spec_encode(self) -> Seq<u8> {
        match self {
            ApplicationPduView::ConfirmedRequest(x) => x.spec_encode(),
            ApplicationPduView::UnconfirmedRequest(x) => x.spec_encode(),
            ApplicationPduView::ComplexAck(x) => x.spec_encode(),
        }
    }

    /// The message that the bytes of `s` from `pos` on spell. The high half
    /// of the first byte names the kind of message, of which three are
    /// read; a confirmed request that is a segment is not read.
    pub open spec fn spec_decode(s: Seq<u8>, pos: int) -> Result<(ApplicationPduView, int), Error> {
        match spec_read_byte(s, pos) {
            Err(e) => Err(e),
            Ok((byte0, p)) => match ApduType::spec_from_code(byte0 / 16) {
                None => Err(Error::InvalidVariant),
                Some(ApduType::ConfirmedServiceRequest) => if spec_is_segmented(byte0 % 16) {
                    Err(Error::Unimplemented)
                } else {
                    match ConfirmedRequestView::spec_decode(s, p) {
                        Err(e) => Err(e),
                        Ok((x, p)) => Ok((ApplicationPduView::ConfirmedRequest(x), p)),
                    }
                },
                Some(ApduType::UnconfirmedServiceRequest) => match UnconfirmedRequest::spec_decode(
                    s,
                    p,
                ) {
                    Err(e) => Err(e),
                    Ok((x, p)) => Ok((ApplicationPduView::UnconfirmedRequest(x), p)),
                },
                Some(ApduType::ComplexAck) => match ComplexAckView::spec_decode(s, p) {
                    Err(e) => Err(e),
                    Ok((x, p)) => Ok((ApplicationPduView::ComplexAck(x), p)),
                },
                Some(_) => Err(Error::Unimplemented),
            },
        }
    }
}

impl<'a> ApplicationPdu<'a> {
    /// Whether the message has a wire form here.
    pub fn encodable(&self) -> (r: bool)
        ensures
            r == self@.spec_encodable(),
    {
        match self {
            ApplicationPdu::ConfirmedRequest(_) => true,
            ApplicationPdu::UnconfirmedRequest(req) => match req {
                UnconfirmedRequest::WhoIs(_) => true,
                UnconfirmedRequest::IAm(_) => false,
            },
            ApplicationPdu::ComplexAck(ack) => match &ack.service {
                ComplexAckService::ReadRange(ack) => ack.item_data.encodable(),
                _ => false,
            },
        }
    }

    /// Writes the message. Where it has no wire form here, nothing is written.
    pub fn encode(&self, writer: &mut Writer) -> (r: Result<(), Error>)
        requires
            old(writer).wf(),
            self@.wf(),
        ensures
            wrote_if(r, old(writer), final(writer), self@.spec_encodable(), self@.spec_encode()),
            final(final(writer).buf)@ == final(old(writer).buf)@,
    {
        match self {
            ApplicationPdu::ConfirmedRequest(req) => req.encode(writer),
            ApplicationPdu::UnconfirmedRequest(req) => req.encode(writer),
            ApplicationPdu::ComplexAck(ack) => ack.encode(writer),
        }
    }

    /// Reads a message.
    pub fn decode(reader: &mut Reader, buf: &'a [u8]) -> (r: Result<Self, Error>)
        ensures
            read_as_view(
                r,
                ApplicationPduView::spec_decode(old(reader).region(buf@), old(reader).index as int),
                *old(reader),
                *final(reader),
            ),
    {
        let byte0 = reader.read_byte(buf)?;
        proof {
            lemma_split_control_byte(byte0);
        }
        let pdu_type = match ApduType::from_code(byte0 >> 4) {
            Some(pdu_type) => pdu_type,
            None => {
                return Err(Error::InvalidVariant);
            },
        };
        let pdu_flags = byte0 & 0x0F;
        let segmented_message = (pdu_flags & PDU_FLAG_SEGMENTED_MESSAGE) > 0;

        match pdu_type {
            ApduType::ConfirmedServiceRequest => {
                if segmented_message {
                    // segmentation is not supported
                    return Err(Error::Unimplemented);
                }
                let apdu = ConfirmedRequest::decode(reader, buf)?;
                Ok(ApplicationPdu::ConfirmedRequest(apdu))
            },
            ApduType::UnconfirmedServiceRequest => {
                let apdu = UnconfirmedRequest::decode(reader, buf)?;
                Ok(ApplicationPdu::UnconfirmedRequest(apdu))
            },
            ApduType::ComplexAck => {
                let adpu = ComplexAck::decode(reader, buf)?;
                Ok(ApplicationPdu::ComplexAck(adpu))
            },
            _ => Err(Error::Unimplemented),
        }
    }
}

impl<'a> ComplexAckService<'a> {
    /// Reads the answer of the service `choice`.
    pub fn decode(choice: ConfirmedServiceChoice, reader: &mut Reader, buf: &'a [u8]) -> (r: Result<
        Self,
        Error,
    >)
        ensures
            read_as_view(
                r,
                ComplexAckServiceView::spec_decode(
                    choice,
                    old(reader).region(buf@),
                    old(reader).index as int,
                ),
                *old(reader),
                *final(reader),
            ),
    {
        proof {
            reveal(ComplexAckServiceView::spec_decode);
        }
        match choice {
            ConfirmedServiceChoice::ReadProperty => {
                let apdu = ReadPropertyAck::decode(reader, buf)?;
                Ok(ComplexAckService::ReadProperty(apdu))
            },
            ConfirmedServiceChoice::ReadPropMultiple => {
                let apdu = ReadPropertyMultipleAck::decode(reader, buf)?;
                Ok(ComplexAckService::ReadPropertyMultiple(apdu))
            },
            ConfirmedServiceChoice::ReadRange => {
                let apdu = ReadRangeAck::decode(reader, buf)?;
                Ok(ComplexAckService::ReadRange(apdu))
            },
            _ => Err(Error::Unimplemented),
        }
    }
}

impl<'a> ComplexAck<'a> {
    /// Writes the answer. Only that of the range read has a wire form
    /// here; for another, nothing is written.
    pub fn encode(&self, writer: &mut Writer) -> (r: Result<(), Error>)
        requires
            old(writer).wf(),
            self@.service.wf(),
        ensures
            wrote_if(
                r,
                old(writer),
                final(writer),
                self@.service.spec_encodable(),
                self@.spec_encode(),
            ),
            final(final(writer).buf)@ == final(old(writer).buf)@,
    {
        match &self.service {
            ComplexAckService::ReadRange(ack) => {
                if !ack.item_data.encodable() {
                    proof {
                        lemma_appended_nothing(writer);
                    }
                    return Err(Error::Unimplemented);
                }
                proof {
                    lemma_control_byte(ApduType::ComplexAck.spec_code(), 0);
                }
                let control = ApduType::ComplexAck.code() << 4;
                writer.push(control)?;
                writer.push(self.invoke_id)?;
                assert(seq![control] + seq![self.invoke_id] =~= seq![control, self.invoke_id]);
                ack.encode(writer)
            },
            _ => {
                proof {
                    lemma_appended_nothing(writer);
                }
                Err(Error::Unimplemented)
            },
        }
    }

    /// Reads an answer, from behind the first byte on.
    pub fn decode(reader: &mut Reader, buf: &'a [u8]) -> (r: Result<Self, Error>)
        ensures
            read_as_view(
                r,
                ComplexAckView::spec_decode(old(reader).region(buf@), old(reader).index as int),
                *old(reader),
                *final(reader),
            ),
    {
        proof {
            reveal(ComplexAckView::spec_decode);
        }
        let invoke_id = reader.read_byte(buf)?;
        let choice = match ConfirmedServiceChoice::from_code(reader.read_byte(buf)?) {
            Some(choice) => choice,
            None => {
                return Err(Error::InvalidVariant);
            },
        };
        let service = ComplexAckService::decode(choice, reader, buf)?;
        Ok(Self { invoke_id, service })
    }
}

impl ConfirmedRequestSerivice {
    /// Writes the number of the service, then the request.
    pub fn encode(&self, writer: &mut Writer) -> (r: Result<(), Error>)
        requires
            old(writer).wf(),
        ensures
            wrote(r, old(writer), final(writer), self@.spec_encode()),
            final(final(writer).buf)@ == final(old(writer).buf)@,
    {
        match self {
            ConfirmedRequestSerivice::ReadProperty(service) => {
                writer.push(ConfirmedServiceChoice::ReadProperty.code())?;
                service.encode(writer)
            },
            ConfirmedRequestSerivice::ReadPropertyMultiple(service) => {
                writer.push(ConfirmedServiceChoice::ReadPropMultiple.code())?;
                service.encode(writer)
            },
            ConfirmedRequestSerivice::ReadRange(service) => {
                writer.push(ConfirmedServiceChoice::ReadRange.code())?;
                service.encode(writer)
            },
        }
    }

    /// Reads the request of the service `choice`.
    pub fn decode(choice: ConfirmedServiceChoice, reader: &mut Reader, buf: &[u8]) -> (r: Result<
        Self,
        Error,
    >)
        ensures
            read_as_view(
                r,
                ConfirmedRequestSeriviceView::spec_decode(
                    choice,
                    old(reader).region(buf@),
                    old(reader).index as int,
                ),
                *old(reader),
                *final(reader),
            ),
    {
        proof {
            reveal(ConfirmedRequestSeriviceView::spec_decode);
        }
        match choice {
            ConfirmedServiceChoice::ReadProperty => {
                let service = ReadProperty::decode(reader, buf)?;
                Ok(ConfirmedRequestSerivice::ReadProperty(service))
            },
            ConfirmedServiceChoice::ReadPropMultiple => {
                let service = ReadPropertyMultiple::decode(reader, buf)?;
                Ok(ConfirmedRequestSerivice::ReadPropertyMultiple(service))
            },
            ConfirmedServiceChoice::ReadRange => {
                let service = ReadRange::decode(reader, buf)?;
                Ok(ConfirmedRequestSerivice::ReadRange(service))
            },
            _ => Err(Error::Unimplemented),
        }
    }
}

impl ConfirmedRequest {
    pub fn new(invoke_id: u8, service: ConfirmedRequestSerivice) -> (r: Self)
        ensures
            r@ == (ConfirmedRequestView {
                max_segments: MaxSegments::_65,
                max_adpu: MaxAdpu::_1476,
                invoke_id,
                sequence_num: 0,
                proposed_window_size: 0,
                service: service@,
            }),
    {
        Self {
            max_segments: MaxSegments::_65,
            max_adpu: MaxAdpu::_1476,
            invoke_id,
            sequence_num: 0,
            proposed_window_size: 0,
            service,
        }
    }

    /// Writes the request. The flag that a segmented answer is taken is set
    /// unless the request takes no segments.
    pub fn encode(&self, writer: &mut Writer) -> (r: Result<(), Error>)
        requires
            old(writer).wf(),
        ensures
            wrote(r, old(writer), final(writer), self@.spec_encode()),
            final(final(writer).buf)@ == final(old(writer).buf)@,
    {
        let max_segments_flag = match self.max_segments {
            MaxSegments::_0 => 0,
            _ => PDU_FLAG_SEGMENTED_RESPONSE_ACCEPTED,
        };
        proof {
            lemma_control_byte(ApduType::ConfirmedServiceRequest.spec_code(), max_segments_flag);
            lemma_limits_byte(self.max_segments.spec_code(), self.max_adpu.spec_code());
        }
        let control = (ApduType::ConfirmedServiceRequest.code() << 4) | max_segments_flag;
        writer.push(control)?;
        writer.push(self.max_segments.code() | self.max_adpu.code())?;
        writer.push(self.invoke_id)?;
        assert(seq![control] + seq![(self.max_segments.spec_code() + self.max_adpu.spec_code()) as u8]
            + seq![self.invoke_id] =~= seq![
            control,
            (self.max_segments.spec_code() + self.max_adpu.spec_code()) as u8,
            self.invoke_id,
        ]);
        self.service.encode(writer)
    }

    /// Reads a request, from behind the first byte on.
    pub fn decode(reader: &mut Reader, buf: &[u8]) -> (r: Result<Self, Error>)
        ensures
            read_as_view(
                r,
                ConfirmedRequestView::spec_decode(old(reader).region(buf@), old(reader).index as int),
                *old(reader),
                *final(reader),
            ),
    {
        proof {
            reveal(ConfirmedRequestView::spec_decode);
        }
        let limits = reader.read_byte(buf)?;
        proof {
            lemma_split_limits_byte(limits);
        }
        let (max_segments, max_adpu) = match (
            MaxSegments::from_code(limits & 0xF0),
            MaxAdpu::from_code(limits & 0x0F),
        ) {
            (Some(max_segments), Some(max_adpu)) => (max_segments, max_adpu),
            _ => {
                return Err(Error::InvalidVariant);
            },
        };
        let invoke_id = reader.read_byte(buf)?;
        let choice = match ConfirmedServiceChoice::from_code(reader.read_byte(buf)?) {
            Some(choice) => choice,
            None => {
                return Err(Error::InvalidVariant);
            },
        };
        let service = ConfirmedRequestSerivice::decode(choice, reader, buf)?;
        Ok(Self { max_segments, max_adpu, invoke_id, sequence_num: 0, proposed_window_size: 0, service })
    }
}

/// Packing the kind of a message and its flags into the first byte.
proof fn lemma_control_byte(kind: u8, flags: u8)
    requires
        kind <= 15,
        flags <= 15,
    ensures
        kind << 4 == kind * 16,
        (kind << 4) | flags == kind * 16 + flags,
{
    assert(kind <= 15 ==> kind << 4 == kind * 16) by (bit_vector);
    assert(kind <= 15 && flags <= 15 ==> (kind << 4) | flags == kind * 16 + flags) by (bit_vector);
}

/// Taking the first byte apart.
proof fn lemma_split_control_byte(byte0: u8)
    ensures
        byte0 >> 4 == byte0 / 16,
        byte0 & 0x0F == byte0 % 16,
        ((byte0 & 0x0F) & PDU_FLAG_SEGMENTED_MESSAGE) > 0 <==> spec_is_segmented(byte0 % 16),
{
    assert(byte0 >> 4 == byte0 / 16) by (bit_vector);
    assert(byte0 & 0x0F == byte0 % 16) by (bit_vector);
    assert((((byte0 & 0x0F) & 8) > 0) == (((byte0 % 16) / 8) % 2 == 1)) by (bit_vector);
}

/// Packing the two limits into one byte.
proof fn lemma_limits_byte(max_segments: u8, max_adpu: u8)
    requires
        max_segments % 16 == 0,
        max_adpu <= 15,
    ensures
        max_segments | max_adpu == max_segments + max_adpu,
{
    assert(max_segments % 16 == 0 && max_adpu <= 15 ==> max_segments | max_adpu == max_segments
        + max_adpu) by (bit_vector);
}

/// Taking the byte of the two limits apart.
proof fn lemma_split_limits_byte(limits: u8)
    ensures
        limits & 0xF0 == (limits / 16) * 16,
        limits & 0x0F == limits % 16,
{
    assert(limits & 0xF0 == (limits / 16) * 16) by (bit_vector);
    assert(limits & 0x0F == limits % 16) by (bit_vector);
}

} // verus!
