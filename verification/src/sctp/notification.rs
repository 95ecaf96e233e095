//! Notifications that the SCTP stack delivers in its own (little endian)
//! layout.
use vstd::prelude::*;
use crate::bytes::{ByteReader, le_u16, le_u32};
use crate::error::Error;

verus! {

pub const SCTP_COMM_UP: i32 = 0x0001;
pub const SCTP_COMM_LOST: i32 = 0x0002;
pub const SCTP_RESTART: i32 = 0x0003;
pub const SCTP_SHUTDOWN_COMP: i32 = 0x0004;
pub const SCTP_CANT_STR_ASSOC: i32 = 0x0005;

pub struct StreamResetView {
    pub flags: u16,
    pub assoc_id: u32,
    pub streams: Seq<u16>,
}

#[derive(Debug)]
pub struct SctpNotificationStreamReset {
    /// See `SCTP_STREAM_*` flags of the SCTP socket API.
    pub flags: u16,
    pub assoc_id: u32,
    pub streams: Vec<u16>,
}

impl View for SctpNotificationStreamReset {
    type V = StreamResetView;

    open spec fn view(&self) -> StreamResetView {
        StreamResetView { flags: self.flags, assoc_id: self.assoc_id, streams: self.streams@ }
    }
}

/// The inputs on which decoding a stream reset notification fails to
/// compute its element count: a stream reset header whose length field is
/// below the size of the header.
pub open spec fn stream_reset_length_invalid(s: Seq<u8>) -> bool {
    s.len() >= 12 && le_u16(s, 0) == 9 && le_u32(s, 4) < 12
}

/// The number of stream ids a stream reset notification of `length` bytes
/// holds.
pub open spec fn stream_reset_count(length: u32) -> int {
    (length - 12) / 2
}

/// A stream reset notification decoded from the front of `s`, with the
/// number of bytes it takes, or why there is none.
pub open spec fn parse_stream_reset(s: Seq<u8>) -> Result<(StreamResetView, int), Error> {
    if s.len() < 2 {
        Err(Error::UnexpectedEof)
    } else if le_u16(s, 0) != 9 {
        Err(Error::UnexpectedMessage)
    } else if s.len() < 12 {
        Err(Error::UnexpectedEof)
    } else {
        let count = stream_reset_count(le_u32(s, 4));
        if s.len() < 12 + 2 * count {
            Err(Error::UnexpectedEof)
        } else {
            Ok(
                (
                    StreamResetView {
                        flags: le_u16(s, 2),
                        assoc_id: le_u32(s, 8),
                        streams: Seq::new(count as nat, |i: int| le_u16(s, 12 + 2 * i)),
                    },
                    12 + 2 * count,
                ),
            )
        }
    }
}

impl SctpNotificationStreamReset {
    pub fn parse(cursor: &mut ByteReader) -> (r: Result<SctpNotificationStreamReset, Error>)
        requires
            !stream_reset_length_invalid(old(cursor).rest()),
        ensures
            final(cursor).data() == old(cursor).data(),
            match (r, parse_stream_reset(old(cursor).rest())) {
                (Ok(v), Ok((w, n))) => v@ == w && final(cursor).rest() == old(cursor).rest().skip(n),
                (Err(e), Err(f)) => e == f,
                _ => false,
            },
    {
        let ghost s = cursor.rest();
        if cursor.read_u16_le()? != 9 {
            return Err(Error::UnexpectedMessage);
        }
        let flags = cursor.read_u16_le()?;
        let length = cursor.read_u32_le()?;
        let assoc_id = cursor.read_u32_le()?;
        assert(cursor.rest() =~= s.skip(12));
        assert(flags == le_u16(s, 2)) by { assert(s.skip(2) =~= s.skip(2).skip(0)); }
        assert(length == le_u32(s, 4)) by { assert(s.skip(2).skip(2) =~= s.skip(4)); }
        assert(assoc_id == le_u32(s, 8)) by { assert(s.skip(4).skip(4) =~= s.skip(8)); }
        let element_count = (length - 12) / 2;
        let mut streams: Vec<u16> = Vec::new();
        let mut i: u32 = 0;
        while i < element_count
            invariant
                0 <= i <= element_count,
                element_count == stream_reset_count(le_u32(s, 4)),
                s.len() >= 12 + 2 * i,
                s == old(cursor).rest(),
                le_u16(s, 0) == 9,
                flags == le_u16(s, 2),
                assoc_id == le_u32(s, 8),
                cursor.data() == old(cursor).data(),
                cursor.rest() == s.skip(12 + 2 * i),
                streams@ =~= Seq::new(i as nat, |j: int| le_u16(s, 12 + 2 * j)),
            decreases element_count - i,
        {
            let ghost k = 12 + 2 * i as int;
            let v = match cursor.read_u16_le() {
                Ok(v) => v,
                Err(e) => {
                    assert(s.len() < k + 2);
                    return Err(e);
                },
            };
            assert(v == le_u16(s, k)) by {
                assert(s.skip(k)[0] == s[k]);
                assert(s.skip(k)[1] == s[k + 1]);
            }
            streams.push(v);
            assert(cursor.rest() =~= s.skip(12 + 2 * (i + 1)));
            i = i + 1;
        }
        Ok(SctpNotificationStreamReset { flags, assoc_id, streams })
    }
}

#[derive(Debug, PartialEq, Eq, Clone, Copy, Structural)]
pub enum SctpSacState {
    CommUp,
    CommLost,
    Restart,
    ShutdownComp,
    CantStrAssoc,
}

impl SctpSacState {
    pub open spec fn spec_value(&self) -> i32 {
        match self {
            SctpSacState::CommUp => SCTP_COMM_UP,
            SctpSacState::CommLost => SCTP_COMM_LOST,
            SctpSacState::Restart => SCTP_RESTART,
            SctpSacState::ShutdownComp => SCTP_SHUTDOWN_COMP,
            SctpSacState::CantStrAssoc => SCTP_CANT_STR_ASSOC,
        }
    }

    pub open spec fn spec_from(value: i32) -> Option<SctpSacState> {
        if value == SCTP_COMM_UP {
            Some(SctpSacState::CommUp)
        } else if value == SCTP_COMM_LOST {
            Some(SctpSacState::CommLost)
        } else if value == SCTP_RESTART {
            Some(SctpSacState::Restart)
        } else if value == SCTP_SHUTDOWN_COMP {
            Some(SctpSacState::ShutdownComp)
        } else if value == SCTP_CANT_STR_ASSOC {
            Some(SctpSacState::CantStrAssoc)
        } else {
            None
        }
    }

    pub fn value(&self) -> (r: i32)
        ensures
            r == self.spec_value(),
    {
        match self {
            SctpSacState::CommUp => SCTP_COMM_UP,
            SctpSacState::CommLost => SCTP_COMM_LOST,
            SctpSacState::Restart => SCTP_RESTART,
            SctpSacState::ShutdownComp => SCTP_SHUTDOWN_COMP,
            SctpSacState::CantStrAssoc => SCTP_CANT_STR_ASSOC,
        }
    }

    pub fn from(value: i32) -> (r: Option<SctpSacState>)
        ensures
            r == Self::spec_from(value),
    {
        if value == SCTP_COMM_UP {
            Some(SctpSacState::CommUp)
        } else if value == SCTP_COMM_LOST {
            Some(SctpSacState::CommLost)
        } else if value == SCTP_RESTART {
            Some(SctpSacState::Restart)
        } else if value == SCTP_SHUTDOWN_COMP {
            Some(SctpSacState::ShutdownComp)
        } else if value == SCTP_CANT_STR_ASSOC {
            Some(SctpSacState::CantStrAssoc)
        } else {
            None
        }
    }
}

/// An association state is recovered from its value.
pub proof fn lemma_sac_state_roundtrip(state: SctpSacState)
    ensures
        SctpSacState::spec_from(state.spec_value()) == Some(state),
{
}

/// Each association state is the SCTP socket API state of the same name:
/// `SCTP_COMM_UP` (1), `SCTP_COMM_LOST` (2), `SCTP_RESTART` (3),
/// `SCTP_SHUTDOWN_COMP` (4) and `SCTP_CANT_STR_ASSOC` (5); a value names a
/// state exactly when it is that state's value, and no other value names one.
pub proof fn lemma_sac_state_values(state: SctpSacState, value: i32)
    ensures
        SCTP_COMM_UP == 1 && SCTP_COMM_LOST == 2 && SCTP_RESTART == 3 && SCTP_SHUTDOWN_COMP == 4
            && SCTP_CANT_STR_ASSOC == 5,
        SctpSacState::CommUp.spec_value() == SCTP_COMM_UP,
        SctpSacState::CommLost.spec_value() == SCTP_COMM_LOST,
        SctpSacState::Restart.spec_value() == SCTP_RESTART,
        SctpSacState::ShutdownComp.spec_value() == SCTP_SHUTDOWN_COMP,
        SctpSacState::CantStrAssoc.spec_value() == SCTP_CANT_STR_ASSOC,
        SctpSacState::spec_from(value) == Some(state) <==> state.spec_value() == value,
        SctpSacState::spec_from(value) is None <==> !(1 <= value <= 5),
{
}

#[derive(Debug, PartialEq, Eq, Clone, Copy, Structural)]
pub struct SctpNotificationAssocChange {
    pub flags: u16,
    pub state: SctpSacState,
    pub error: u16,
    pub outbound_streams: u16,
    pub inbound_streams: u16,
    pub assoc_id: u32,
}

/// An association change notification decoded from the front of `s`, with
/// the number of bytes it takes, or why there is none.
pub open spec fn parse_assoc_change(s: Seq<u8>) -> Result<(SctpNotificationAssocChange, int), Error> {
    if s.len() < 2 {
        Err(Error::UnexpectedEof)
    } else if le_u16(s, 0) != 1 {
        Err(Error::UnexpectedMessage)
    } else if s.len() < 10 {
        Err(Error::UnexpectedEof)
    } else {
        match SctpSacState::spec_from(le_u16(s, 8) as i32) {
            None => Err(Error::UnknownType),
            Some(state) => if s.len() < 20 {
                Err(Error::UnexpectedEof)
            } else {
                Ok(
                    (
                        SctpNotificationAssocChange {
                            flags: le_u16(s, 2),
                            state,
                            error: le_u16(s, 10),
                            outbound_streams: le_u16(s, 12),
                            inbound_streams: le_u16(s, 14),
                            assoc_id: le_u32(s, 16),
                        },
                        20,
                    ),
                )
            },
        }
    }
}

impl SctpNotificationAssocChange {
    pub fn parse(cursor: &mut ByteReader) -> (r: Result<SctpNotificationAssocChange, Error>)
        ensures
            final(cursor).data() == old(cursor).data(),
            match (r, parse_assoc_change(old(cursor).rest())) {
                (Ok(v), Ok((w, n))) => v == w && final(cursor).rest() == old(cursor).rest().skip(n),
                (Err(e), Err(f)) => e == f,
                _ => false,
            },
    {
        let ghost s = cursor.rest();
        if cursor.read_u16_le()? != 1 {
            return Err(Error::UnexpectedMessage);
        }
        let flags = cursor.read_u16_le()?;
        let _length = cursor.read_u32_le()?;
        let raw_state = cursor.read_u16_le()?;
        assert(s.skip(2).skip(2) =~= s.skip(4));
        assert(s.skip(4).skip(4) =~= s.skip(8));
        assert(raw_state == le_u16(s, 8));
        let state = match SctpSacState::from(raw_state as i32) {
            Some(st) => st,
            None => return Err(Error::UnknownType),
        };
        let error = cursor.read_u16_le()?;
        let outbound_streams = cursor.read_u16_le()?;
        let inbound_streams = cursor.read_u16_le()?;
        let assoc_id = cursor.read_u32_le()?;
        assert(s.skip(8).skip(2) =~= s.skip(10));
        assert(s.skip(10).skip(2) =~= s.skip(12));
        assert(s.skip(12).skip(2) =~= s.skip(14));
        assert(s.skip(14).skip(2) =~= s.skip(16));
        assert(s.skip(16).skip(4) =~= s.skip(20));
        assert(flags == le_u16(s, 2));
        assert(error == le_u16(s, 10));
        assert(outbound_streams == le_u16(s, 12));
        assert(inbound_streams == le_u16(s, 14));
        assert(assoc_id == le_u32(s, 16));
        Ok(SctpNotificationAssocChange {
            flags,
            state,
            error,
            outbound_streams,
            inbound_streams,
            assoc_id,
        })
    }
}

#[derive(Debug, PartialEq, Eq, Clone, Copy, Structural)]
pub enum SctpNotificationType {
    AssocChange,
    PeerAddrChange,
    RemoteError,
    SendFailed,
    ShutdownEvent,
    AdaptationIndication,
    PartialDeliveryEvent,
    AuthenticationEvent,
    StreamResetEvent,
    SenderDryEvent,
    NotificationsStoppedEvent,
    AssocResetEvent,
    StreamChangeEvent,
    SendFailedEvent,
}

impl SctpNotificationType {
    pub open spec fn spec_value(&self) -> u16 {
        match self {
            SctpNotificationType::AssocChange => 0x0001,
            SctpNotificationType::PeerAddrChange => 0x0002,
            SctpNotificationType::RemoteError => 0x0003,
            SctpNotificationType::SendFailed => 0x0004,
            SctpNotificationType::ShutdownEvent => 0x0005,
            SctpNotificationType::AdaptationIndication => 0x0006,
            SctpNotificationType::PartialDeliveryEvent => 0x0007,
            SctpNotificationType::AuthenticationEvent => 0x0008,
            SctpNotificationType::StreamResetEvent => 0x0009,
            SctpNotificationType::SenderDryEvent => 0x000A,
            SctpNotificationType::NotificationsStoppedEvent => 0x000B,
            SctpNotificationType::AssocResetEvent => 0x000C,
            SctpNotificationType::StreamChangeEvent => 0x000D,
            SctpNotificationType::SendFailedEvent => 0x000E,
        }
    }

    pub open spec fn spec_from(value: u16) -> Option<SctpNotificationType> {
        if value == 0x0001 {
            Some(SctpNotificationType::AssocChange)
        } else if value == 0x0002 {
            Some(SctpNotificationType::PeerAddrChange)
        } else if value == 0x0003 {
            Some(SctpNotificationType::RemoteError)
        } else if value == 0x0004 {
            Some(SctpNotificationType::SendFailed)
        } else if value == 0x0005 {
            Some(SctpNotificationType::ShutdownEvent)
        } else if value == 0x0006 {
            Some(SctpNotificationType::AdaptationIndication)
        } else if value == 0x0007 {
            Some(SctpNotificationType::PartialDeliveryEvent)
        } else if value == 0x0008 {
            Some(SctpNotificationType::AuthenticationEvent)
        } else if value == 0x0009 {
            Some(SctpNotificationType::StreamResetEvent)
        } else if value == 0x000A {
            Some(SctpNotificationType::SenderDryEvent)
        } else if value == 0x000B {
            Some(SctpNotificationType::NotificationsStoppedEvent)
        } else if value == 0x000C {
            Some(SctpNotificationType::AssocResetEvent)
        } else if value == 0x000D {
            Some(SctpNotificationType::StreamChangeEvent)
        } else if value == 0x000E {
            Some(SctpNotificationType::SendFailedEvent)
        } else {
            None
        }
    }

    pub fn value(&self) -> (r: u16)
        ensures
            r == self.spec_value(),
    {
        match self {
            SctpNotificationType::AssocChange => 0x0001,
            SctpNotificationType::PeerAddrChange => 0x0002,
            SctpNotificationType::RemoteError => 0x0003,
            SctpNotificationType::SendFailed => 0x0004,
            SctpNotificationType::ShutdownEvent => 0x0005,
            SctpNotificationType::AdaptationIndication => 0x0006,
            SctpNotificationType::PartialDeliveryEvent => 0x0007,
            SctpNotificationType::AuthenticationEvent => 0x0008,
            SctpNotificationType::StreamResetEvent => 0x0009,
            SctpNotificationType::SenderDryEvent => 0x000A,
            SctpNotificationType::NotificationsStoppedEvent => 0x000B,
            SctpNotificationType::AssocResetEvent => 0x000C,
            SctpNotificationType::StreamChangeEvent => 0x000D,
            SctpNotificationType::SendFailedEvent => 0x000E,
        }
    }

    pub fn from(value: u16) -> (r: Option<SctpNotificationType>)
        ensures
            r == Self::spec_from(value),
    {
        match value {
            0x0001 => Some(SctpNotificationType::AssocChange),
            0x0002 => Some(SctpNotificationType::PeerAddrChange),
            0x0003 => Some(SctpNotificationType::RemoteError),
            0x0004 => Some(SctpNotificationType::SendFailed),
            0x0005 => Some(SctpNotificationType::ShutdownEvent),
            0x0006 => Some(SctpNotificationType::AdaptationIndication),
            0x0007 => Some(SctpNotificationType::PartialDeliveryEvent),
            0x0008 => Some(SctpNotificationType::AuthenticationEvent),
            0x0009 => Some(SctpNotificationType::StreamResetEvent),
            0x000A => Some(SctpNotificationType::SenderDryEvent),
            0x000B => Some(SctpNotificationType::NotificationsStoppedEvent),
            0x000C => Some(SctpNotificationType::AssocResetEvent),
            0x000D => Some(SctpNotificationType::StreamChangeEvent),
            0x000E => Some(SctpNotificationType::SendFailedEvent),
            _ => None,
        }
    }
}

/// A notification type is recovered from its value.
pub proof fn lemma_notification_type_roundtrip(t: SctpNotificationType)
    ensures
        SctpNotificationType::spec_from(t.spec_value()) == Some(t),
{
}

pub enum NotificationView {
    StreamReset(StreamResetView),
    AssocChange(SctpNotificationAssocChange),
    Generic(Seq<u8>),
}

#[derive(Debug)]
pub enum SctpNotification {
    StreamReset(SctpNotificationStreamReset),
    AssocChange(SctpNotificationAssocChange),
    Generic(Vec<u8>),
}

impl View for SctpNotification {
    type V = NotificationView;

    open spec fn view(&self) -> NotificationView {
        match self {
            SctpNotification::StreamReset(n) => NotificationView::StreamReset(n@),
            SctpNotification::AssocChange(n) => NotificationView::AssocChange(*n),
            SctpNotification::Generic(b) => NotificationView::Generic(b@),
        }
    }
}

/// The notification `s` holds, or why there is none.
pub open spec fn parse_notification(s: Seq<u8>) -> Result<NotificationView, Error> {
    if s.len() < 2 {
        Err(Error::UnexpectedEof)
    } else {
        match SctpNotificationType::spec_from(le_u16(s, 0)) {
            None => Err(Error::UnknownType),
            Some(SctpNotificationType::StreamResetEvent) => match parse_stream_reset(s) {
                Ok((n, _)) => Ok(NotificationView::StreamReset(n)),
                Err(e) => Err(e),
            },
            Some(SctpNotificationType::AssocChange) => match parse_assoc_change(s) {
                Ok((n, _)) => Ok(NotificationView::AssocChange(n)),
                Err(e) => Err(e),
            },
            Some(_) => Ok(NotificationView::Generic(s)),
        }
    }
}

impl SctpNotification {
    pub fn parse(buffer: &[u8]) -> (r: Result<SctpNotification, Error>)
        requires
            !stream_reset_length_invalid(buffer@),
        ensures
            crate::error::view_result(r) == parse_notification(buffer@),
    {
        let mut cursor = ByteReader::new(buffer);
        let notification_type = match SctpNotificationType::from(cursor.read_u16_le()?) {
            Some(t) => t,
            None => return Err(Error::UnknownType),
        };
        let mut cursor = ByteReader::new(buffer);
        match notification_type {
            SctpNotificationType::StreamResetEvent => Ok(
                SctpNotification::StreamReset(SctpNotificationStreamReset::parse(&mut cursor)?),
            ),
            SctpNotificationType::AssocChange => Ok(
                SctpNotification::AssocChange(SctpNotificationAssocChange::parse(&mut cursor)?),
            ),
            _ => Ok(SctpNotification::Generic(vstd::slice::slice_to_vec(buffer))),
        }
    }
}

} // verus!
