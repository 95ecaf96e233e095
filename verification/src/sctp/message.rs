//! Data channel messages and the control messages that open a channel
//! (draft-ietf-rtcweb-data-protocol-08, draft-ietf-rtcweb-data-channel-13).
use vstd::prelude::*;
use vstd::utf8::encode_utf8;
use crate::bytes::{ByteReader, be_u16, be_u32, enc_u8, enc_u16, enc_u32, written, write_result, write_bytes, write_some, write_u8, write_u16, write_u32, lemma_written_concat, lemma_written_empty, lemma_u16_roundtrip, lemma_u32_roundtrip};
use crate::error::{Error, view_result};
use crate::text::{string_from_utf8, string_bytes, text_of, lemma_text_roundtrip};

verus! {

/// This enum specifies the data channel types which
/// are defined in [draft-ietf-rtcweb-data-protocol-08](https://tools.ietf.org/html/draft-ietf-rtcweb-data-protocol-08#section-8.2.2)
#[derive(PartialOrd, PartialEq, Debug, Copy, Clone, Eq, Structural)]
pub enum DataChannelType {
    /// The Data Channel provides a reliable in-order bi-directional communication.
    Reliable,
    /// The Data Channel provides a reliable unordered bi-directional communication.
    ReliableUnordered,
    /// Partially reliable, in order, with a limit on retransmissions.
    PartialReliableRexmit(u32),
    /// Partially reliable, unordered, with a limit on retransmissions.
    PartialReliableRexmitUnordered(u32),
    /// Partially reliable, in order, with a life time in milliseconds.
    PartialReliableTimed(u32),
    /// Partially reliable, unordered, with a life time in milliseconds.
    PartialReliableTimedUnordered(u32),
}

impl DataChannelType {
    pub open spec fn spec_value(&self) -> u8 {
        match self {
            DataChannelType::Reliable => 0x00,
            DataChannelType::ReliableUnordered => 0x80,
            DataChannelType::PartialReliableRexmit(_) => 0x01,
            DataChannelType::PartialReliableRexmitUnordered(_) => 0x81,
            DataChannelType::PartialReliableTimed(_) => 0x02,
            DataChannelType::PartialReliableTimedUnordered(_) => 0x82,
        }
    }

    pub open spec fn spec_is_ordered(&self) -> bool {
        match self {
            DataChannelType::Reliable => true,
            DataChannelType::ReliableUnordered => false,
            DataChannelType::PartialReliableRexmit(_) => true,
            DataChannelType::PartialReliableRexmitUnordered(_) => false,
            DataChannelType::PartialReliableTimed(_) => true,
            DataChannelType::PartialReliableTimedUnordered(_) => false,
        }
    }

    pub open spec fn spec_reliability_parameter(&self) -> u32 {
        match self {
            DataChannelType::Reliable => 0,
            DataChannelType::ReliableUnordered => 0,
            DataChannelType::PartialReliableRexmit(p) => *p,
            DataChannelType::PartialReliableRexmitUnordered(p) => *p,
            DataChannelType::PartialReliableTimed(p) => *p,
            DataChannelType::PartialReliableTimedUnordered(p) => *p,
        }
    }

    pub open spec fn spec_from(value: u8, reliability_parameter: u32) -> Option<DataChannelType> {
        if value == 0x00 {
            Some(DataChannelType::Reliable)
        } else if value == 0x80 {
            Some(DataChannelType::ReliableUnordered)
        } else if value == 0x01 {
            Some(DataChannelType::PartialReliableRexmit(reliability_parameter))
        } else if value == 0x81 {
            Some(DataChannelType::PartialReliableRexmitUnordered(reliability_parameter))
        } else if value == 0x02 {
            Some(DataChannelType::PartialReliableTimed(reliability_parameter))
        } else if value == 0x82 {
            Some(DataChannelType::PartialReliableTimedUnordered(reliability_parameter))
        } else {
            None
        }
    }

    /// Returns the assigned type value
    pub fn value(&self) -> (r: u8)
        ensures
            r == self.spec_value(),
    {
        match self {
            DataChannelType::Reliable => 0x00,
            DataChannelType::ReliableUnordered => 0x80,
            DataChannelType::PartialReliableRexmit(_) => 0x01,
            DataChannelType::PartialReliableRexmitUnordered(_) => 0x81,
            DataChannelType::PartialReliableTimed(_) => 0x02,
            DataChannelType::PartialReliableTimedUnordered(_) => 0x82,
        }
    }

    pub fn is_ordered(&self) -> (r: bool)
        ensures
            r == self.spec_is_ordered(),
    {
        match self {
            DataChannelType::Reliable => true,
            DataChannelType::ReliableUnordered => false,
            DataChannelType::PartialReliableRexmit(_) => true,
            DataChannelType::PartialReliableRexmitUnordered(_) => false,
            DataChannelType::PartialReliableTimed(_) => true,
            DataChannelType::PartialReliableTimedUnordered(_) => false,
        }
    }

    pub fn reliability_parameter(&self) -> (r: u32)
        ensures
            r == self.spec_reliability_parameter(),
    {
        match self {
            DataChannelType::Reliable => 0,
            DataChannelType::ReliableUnordered => 0,
            DataChannelType::PartialReliableRexmit(p) => *p,
            DataChannelType::PartialReliableRexmitUnordered(p) => *p,
            DataChannelType::PartialReliableTimed(p) => *p,
            DataChannelType::PartialReliableTimedUnordered(p) => *p,
        }
    }

    /// Parse the type value
    pub fn from(value: u8, reliability_parameter: u32) -> (r: Option<Self>)
        ensures
            r == Self::spec_from(value, reliability_parameter),
    {
        match value {
            0x00u8 => Some(DataChannelType::Reliable),
            0x80u8 => Some(DataChannelType::ReliableUnordered),
            0x01u8 => Some(DataChannelType::PartialReliableRexmit(reliability_parameter)),
            0x81u8 => Some(DataChannelType::PartialReliableRexmitUnordered(reliability_parameter)),
            0x02u8 => Some(DataChannelType::PartialReliableTimed(reliability_parameter)),
            0x82u8 => Some(DataChannelType::PartialReliableTimedUnordered(reliability_parameter)),
            _ => None,
        }
    }
}

/// A channel type is recovered from its type value and its reliability
/// parameter.
pub proof fn lemma_channel_type_roundtrip(t: DataChannelType)
    ensures
        DataChannelType::spec_from(t.spec_value(), t.spec_reliability_parameter()) == Some(t),
{
}

/// The channel type values of the data channel establishment protocol: the
/// low bits name the reliability kind (0 reliable, 1 limited retransmissions,
/// 2 limited life time) and the bit 0x80 marks the unordered variant.
pub proof fn lemma_channel_type_values(p: u32)
    ensures
        DataChannelType::Reliable.spec_value() == 0x00,
        DataChannelType::ReliableUnordered.spec_value() == 0x80,
        DataChannelType::PartialReliableRexmit(p).spec_value() == 0x01,
        DataChannelType::PartialReliableRexmitUnordered(p).spec_value() == 0x81,
        DataChannelType::PartialReliableTimed(p).spec_value() == 0x02,
        DataChannelType::PartialReliableTimedUnordered(p).spec_value() == 0x82,
        DataChannelType::Reliable.spec_reliability_parameter() == 0,
        DataChannelType::ReliableUnordered.spec_reliability_parameter() == 0,
        DataChannelType::PartialReliableRexmit(p).spec_reliability_parameter() == p,
        DataChannelType::PartialReliableRexmitUnordered(p).spec_reliability_parameter() == p,
        DataChannelType::PartialReliableTimed(p).spec_reliability_parameter() == p,
        DataChannelType::PartialReliableTimedUnordered(p).spec_reliability_parameter() == p,
{
}

/// Parsing a channel type accepts exactly the six type values, and what it
/// gives back has that type value and carries the reliability parameter of
/// the partially reliable kinds.
pub proof fn lemma_channel_type_parse(value: u8, p: u32)
    ensures
        DataChannelType::spec_from(value, p) is None <==> !(value == 0x00 || value == 0x80 || value
            == 0x01 || value == 0x81 || value == 0x02 || value == 0x82),
        (DataChannelType::spec_from(value, p) matches Some(t) ==> t.spec_value() == value && (value
            != 0x00 && value != 0x80 ==> t.spec_reliability_parameter() == p)),
{
}

/// A channel type is ordered exactly when the unordered bit 0x80 of its
/// type value is clear.
pub proof fn lemma_channel_type_ordered_bit(t: DataChannelType)
    ensures
        t.spec_is_ordered() == (t.spec_value() & 0x80u8 == 0u8),
{
    assert(0x00u8 & 0x80u8 == 0u8 && 0x01u8 & 0x80u8 == 0u8 && 0x02u8 & 0x80u8 == 0u8
        && 0x80u8 & 0x80u8 != 0u8 && 0x81u8 & 0x80u8 != 0u8 && 0x82u8 & 0x80u8 != 0u8) by (bit_vector);
}

/// The content of an open request.
pub struct OpenView {
    pub channel_type: DataChannelType,
    pub priority: u16,
    pub label: Seq<char>,
    pub protocol: Seq<char>,
}

#[derive(PartialEq, Debug)]
pub struct DataChannelControlMessageOpen {
    pub channel_type: DataChannelType,
    pub priority: u16,
    pub label: String,
    pub protocol: String,
}

impl View for DataChannelControlMessageOpen {
    type V = OpenView;

    open spec fn view(&self) -> OpenView {
        OpenView {
            channel_type: self.channel_type,
            priority: self.priority,
            label: self.label@,
            protocol: self.protocol@,
        }
    }
}

/// The twelve byte header of an open request, before label and protocol.
pub open spec fn open_header_bytes(m: OpenView) -> Seq<u8> {
    enc_u8(3) + enc_u8(m.channel_type.spec_value()) + enc_u16(m.priority) + enc_u32(
        m.channel_type.spec_reliability_parameter(),
    ) + enc_u16((encode_utf8(m.label).len() % 0x10000) as u16) + enc_u16(
        (encode_utf8(m.protocol).len() % 0x10000) as u16,
    )
}

/// The encoding of an open request.
pub open spec fn open_bytes(m: OpenView) -> Seq<u8> {
    open_header_bytes(m) + encode_utf8(m.label) + encode_utf8(m.protocol)
}

/// What an open request parsed from `s` holds, or why there is none.
pub open spec fn parse_open(s: Seq<u8>) -> Result<OpenView, Error> {
    if s.len() < 1 {
        Err(Error::UnexpectedEof)
    } else if s[0] != 3 {
        Err(Error::UnexpectedMessage)
    } else if s.len() < 12 {
        Err(Error::UnexpectedEof)
    } else {
        let label_length = be_u16(s, 8) as int;
        let protocol_length = be_u16(s, 10) as int;
        if s.len() < 12 + label_length + protocol_length {
            Err(Error::UnexpectedEof)
        } else {
            match DataChannelType::spec_from(s[1], be_u32(s, 4)) {
                None => Err(Error::UnknownType),
                Some(channel_type) => {
                    let label = text_of(s.subrange(12, 12 + label_length));
                    let protocol = text_of(
                        s.subrange(12 + label_length, 12 + label_length + protocol_length),
                    );
                    if label is None || protocol is None {
                        Err(Error::InvalidUtf8)
                    } else {
                        Ok(
                            OpenView {
                                channel_type,
                                priority: be_u16(s, 2),
                                label: label->Some_0,
                                protocol: protocol->Some_0,
                            },
                        )
                    }
                },
            }
        }
    }
}

/// An open request whose label and protocol fit their length fields.
pub open spec fn open_fits(m: OpenView) -> bool {
    encode_utf8(m.label).len() < 0x10000 && encode_utf8(m.protocol).len() < 0x10000
}

/// Parsing the encoding of an open request gives back the request, also
/// with trailing bytes after it.
pub proof fn lemma_open_roundtrip(m: OpenView, trailer: Seq<u8>)
    requires
        open_fits(m),
    ensures
        parse_open(open_bytes(m) + trailer) == Ok::<OpenView, Error>(m),
{
    let s = open_bytes(m) + trailer;
    let h = open_header_bytes(m);
    let lb = encode_utf8(m.label);
    let pb = encode_utf8(m.protocol);
    assert(h.len() == 12);
    assert(s.subrange(0, 12) =~= h);
    assert(s[0] == h[0]);
    assert(s[1] == h[1]);
    assert(s.subrange(2, 4) =~= enc_u16(m.priority));
    lemma_u16_roundtrip(m.priority, s, 2);
    assert(s.subrange(4, 8) =~= enc_u32(m.channel_type.spec_reliability_parameter()));
    lemma_u32_roundtrip(m.channel_type.spec_reliability_parameter(), s, 4);
    assert(s.subrange(8, 10) =~= enc_u16(lb.len() as u16));
    lemma_u16_roundtrip(lb.len() as u16, s, 8);
    assert(s.subrange(10, 12) =~= enc_u16(pb.len() as u16));
    lemma_u16_roundtrip(pb.len() as u16, s, 10);
    let ll = lb.len() as int;
    let pl = pb.len() as int;
    assert(s.subrange(12, 12 + ll) =~= lb);
    assert(s.subrange(12 + ll, 12 + ll + pl) =~= pb);
    lemma_text_roundtrip(m.label);
    lemma_text_roundtrip(m.protocol);
    lemma_channel_type_roundtrip(m.channel_type);
}

impl DataChannelControlMessageOpen {
    pub fn parse(buffer: &[u8]) -> (r: Result<DataChannelControlMessageOpen, Error>)
        ensures
            view_result(r) == parse_open(buffer@),
    {
        let mut reader = ByteReader::new(buffer);
        let ghost s = buffer@;
        if reader.read_u8()? != 3 {
            return Err(Error::UnexpectedMessage);
        }
        let channel_type = reader.read_u8()?;
        let priority = reader.read_u16_be()?;
        let reliability_parameter = reader.read_u32_be()?;
        let label_length = reader.read_u16_be()?;
        let protocol_length = reader.read_u16_be()?;
        assert(reader.rest() =~= s.skip(12));
        assert(channel_type == s[1]);
        assert(priority == be_u16(s, 2)) by { assert(s.skip(1).skip(1) =~= s.skip(2)); }
        assert(reliability_parameter == be_u32(s, 4)) by { assert(s.skip(2).skip(2) =~= s.skip(4)); }
        assert(label_length == be_u16(s, 8)) by { assert(s.skip(4).skip(4) =~= s.skip(8)); }
        assert(protocol_length == be_u16(s, 10)) by { assert(s.skip(8).skip(2) =~= s.skip(10)); }

        let label_buffer = reader.read_vec(label_length as usize)?;
        assert(label_buffer@ =~= s.subrange(12, 12 + label_length));
        assert(reader.rest() =~= s.skip(12 + label_length));
        let protocol_buffer = reader.read_vec(protocol_length as usize)?;
        assert(protocol_buffer@ =~= s.subrange(12 + label_length, 12 + label_length + protocol_length));

        let channel_type = match DataChannelType::from(channel_type, reliability_parameter) {
            Some(t) => t,
            None => return Err(Error::UnknownType),
        };
        let label = match string_from_utf8(label_buffer) {
            Some(l) => l,
            None => return Err(Error::InvalidUtf8),
        };
        let protocol = match string_from_utf8(protocol_buffer) {
            Some(p) => p,
            None => return Err(Error::InvalidUtf8),
        };
        Ok(DataChannelControlMessageOpen { channel_type, priority, label, protocol })
    }

    pub open spec fn spec_expected_length(&self) -> int {
        12 + encode_utf8(self.label@).len() as int + encode_utf8(self.protocol@).len() as int
    }

    pub fn expected_length(&self) -> (r: usize)
        requires
            self.spec_expected_length() <= usize::MAX,
        ensures
            r == self.spec_expected_length(),
            r == open_bytes(self@).len(),
    {
        12 + string_bytes(&self.label).len() + string_bytes(&self.protocol).len()
    }

    /// Writes the request at the start of `target`. The twelve byte header
    /// must fit; label and protocol are cut off at the end of `target`.
    pub fn write(&self, target: &mut [u8]) -> (r: Result<usize, Error>)
        ensures
            final(target)@ == written(old(target)@, 0, open_bytes(self@)),
            r == if old(target)@.len() < 12 {
                Err::<usize, Error>(Error::WriteZero)
            } else if open_bytes(self@).len() <= old(target)@.len() {
                Ok::<usize, Error>(open_bytes(self@).len() as usize)
            } else {
                Ok::<usize, Error>(old(target)@.len() as usize)
            },
    {
        let ghost buf0 = target@;
        let label = string_bytes(&self.label);
        let protocol = string_bytes(&self.protocol);
        let ghost m = self@;
        let ct = self.channel_type.value();
        let rel = self.channel_type.reliability_parameter();
        let ll = (label.len() % 0x10000) as u16;
        let pl = (protocol.len() % 0x10000) as u16;
        let header = [
            3u8,
            ct,
            (self.priority / 0x100) as u8,
            (self.priority % 0x100) as u8,
            (rel / 0x1000000) as u8,
            ((rel / 0x10000) % 0x100) as u8,
            ((rel / 0x100) % 0x100) as u8,
            (rel % 0x100) as u8,
            (ll / 0x100) as u8,
            (ll % 0x100) as u8,
            (pl / 0x100) as u8,
            (pl % 0x100) as u8,
        ];
        assert(header@ =~= open_header_bytes(m));
        proof {
            lemma_written_concat(buf0, 0, header@, label@ + protocol@);
            assert(open_bytes(m) =~= header@ + (label@ + protocol@));
        }
        let p = match write_bytes(target, 0, &header) {
            Ok(p) => p,
            Err(e) => return Err(e),
        };
        proof {
            lemma_written_concat(buf0, 12, label@, protocol@);
            let w = written(buf0, 0, header@);
            lemma_written_concat(w, 12, label@, protocol@);
        }
        let p = write_some(target, p, label);
        let p = write_some(target, p, protocol);
        Ok(p)
    }
}

#[derive(PartialEq, Debug)]
pub struct DataChannelControlMessageOpenAck {}

/// What an open acknowledgement parsed from `s` is, or why there is none.
pub open spec fn parse_open_ack(s: Seq<u8>) -> Result<(), Error> {
    if s.len() < 1 {
        Err(Error::UnexpectedEof)
    } else if s[0] != 2 {
        Err(Error::UnexpectedMessage)
    } else {
        Ok(())
    }
}

impl DataChannelControlMessageOpenAck {
    pub fn parse(buffer: &[u8]) -> (r: Result<DataChannelControlMessageOpenAck, Error>)
        ensures
            r is Ok <==> parse_open_ack(buffer@) is Ok,
            r matches Err(e) ==> parse_open_ack(buffer@) == Err::<(), Error>(e),
    {
        let mut reader = ByteReader::new(buffer);
        if reader.read_u8()? != 2 {
            return Err(Error::UnexpectedMessage);
        }
        Ok(DataChannelControlMessageOpenAck {})
    }

    pub fn expected_length(&self) -> (r: usize)
        ensures
            r == 1,
    {
        1
    }

    pub fn write(&self, target: &mut [u8]) -> (r: Result<usize, Error>)
        ensures
            final(target)@ == written(old(target)@, 0, enc_u8(2)),
            r == write_result(old(target)@.len() as int, 0, enc_u8(2)),
    {
        write_u8(target, 0, 2)
    }
}

/// https://tools.ietf.org/html/draft-ietf-rtcweb-data-protocol-08#section-8.2.1
#[derive(PartialOrd, PartialEq, Debug, Copy, Clone, Eq, Structural)]
pub enum DataChannelControlMessageType {
    Open,
    OpenAck,
}

impl DataChannelControlMessageType {
    pub open spec fn spec_value(&self) -> u8 {
        match self {
            DataChannelControlMessageType::Open => 0x03,
            DataChannelControlMessageType::OpenAck => 0x02,
        }
    }

    pub open spec fn spec_from(value: u8) -> Option<DataChannelControlMessageType> {
        if value == 0x03 {
            Some(DataChannelControlMessageType::Open)
        } else if value == 0x02 {
            Some(DataChannelControlMessageType::OpenAck)
        } else {
            None
        }
    }

    pub fn value(&self) -> (r: u8)
        ensures
            r == self.spec_value(),
    {
        match self {
            DataChannelControlMessageType::Open => 0x03,
            DataChannelControlMessageType::OpenAck => 0x02,
        }
    }

    pub fn from(value: u8) -> (r: Option<Self>)
        ensures
            r == Self::spec_from(value),
    {
        match value {
            0x03 => Some(DataChannelControlMessageType::Open),
            0x02 => Some(DataChannelControlMessageType::OpenAck),
            _ => None,
        }
    }
}

/// A control message type is recovered from its value.
pub proof fn lemma_control_message_type_roundtrip(t: DataChannelControlMessageType)
    ensures
        DataChannelControlMessageType::spec_from(t.spec_value()) == Some(t),
{
}

pub enum ControlMessageView {
    Open(OpenView),
    OpenAck,
}

#[derive(PartialEq, Debug)]
pub enum DataChannelControlMessage {
    Open(DataChannelControlMessageOpen),
    OpenAck(DataChannelControlMessageOpenAck),
}

impl View for DataChannelControlMessage {
    type V = ControlMessageView;

    open spec fn view(&self) -> ControlMessageView {
        match self {
            DataChannelControlMessage::Open(m) => ControlMessageView::Open(m@),
            DataChannelControlMessage::OpenAck(_) => ControlMessageView::OpenAck,
        }
    }
}

pub open spec fn control_message_bytes(m: ControlMessageView) -> Seq<u8> {
    match m {
        ControlMessageView::Open(o) => open_bytes(o),
        ControlMessageView::OpenAck => enc_u8(2),
    }
}

/// What a control message parsed from `s` holds, or why there is none.
pub open spec fn parse_control_message(s: Seq<u8>) -> Result<ControlMessageView, Error> {
    if s.len() < 1 {
        Err(Error::UnexpectedEof)
    } else {
        match DataChannelControlMessageType::spec_from(s[0]) {
            None => Err(Error::UnknownType),
            Some(DataChannelControlMessageType::Open) => match parse_open(s) {
                Ok(o) => Ok(ControlMessageView::Open(o)),
                Err(e) => Err(e),
            },
            Some(DataChannelControlMessageType::OpenAck) => Ok(ControlMessageView::OpenAck),
        }
    }
}

pub open spec fn control_message_fits(m: ControlMessageView) -> bool {
    match m {
        ControlMessageView::Open(o) => open_fits(o),
        ControlMessageView::OpenAck => true,
    }
}

/// Parsing the encoding of a control message gives back the message.
pub proof fn lemma_control_message_roundtrip(m: ControlMessageView, trailer: Seq<u8>)
    requires
        control_message_fits(m),
    ensures
        parse_control_message(control_message_bytes(m) + trailer) == Ok::<ControlMessageView, Error>(m),
{
    match m {
        ControlMessageView::Open(o) => {
            lemma_open_roundtrip(o, trailer);
            assert((open_bytes(o) + trailer)[0] == 3);
        },
        ControlMessageView::OpenAck => {
            assert((enc_u8(2) + trailer)[0] == 2);
        },
    }
}

impl DataChannelControlMessage {
    pub fn parse(buffer: &[u8]) -> (r: Result<DataChannelControlMessage, Error>)
        ensures
            view_result(r) == parse_control_message(buffer@),
    {
        if buffer.len() < 1 {
            return Err(Error::UnexpectedEof);
        }
        let control_type = match DataChannelControlMessageType::from(buffer[0]) {
            Some(t) => t,
            None => return Err(Error::UnknownType),
        };
        match control_type {
            DataChannelControlMessageType::Open => Ok(
                DataChannelControlMessage::Open(DataChannelControlMessageOpen::parse(buffer)?),
            ),
            DataChannelControlMessageType::OpenAck => Ok(
                DataChannelControlMessage::OpenAck(DataChannelControlMessageOpenAck::parse(buffer)?),
            ),
        }
    }

    pub open spec fn spec_expected_length(&self) -> int {
        match self {
            DataChannelControlMessage::Open(payload) => payload.spec_expected_length(),
            DataChannelControlMessage::OpenAck(_) => 1,
        }
    }

    pub fn expected_length(&self) -> (r: usize)
        requires
            self.spec_expected_length() <= usize::MAX,
        ensures
            r == self.spec_expected_length(),
            r == control_message_bytes(self@).len(),
    {
        match self {
            DataChannelControlMessage::Open(payload) => payload.expected_length(),
            DataChannelControlMessage::OpenAck(payload) => payload.expected_length(),
        }
    }

    pub fn write(&self, target: &mut [u8]) -> (r: Result<usize, Error>)
        ensures
            final(target)@ == written(old(target)@, 0, control_message_bytes(self@)),
            match self {
                DataChannelControlMessage::Open(o) => r == if old(target)@.len() < 12 {
                    Err::<usize, Error>(Error::WriteZero)
                } else if open_bytes(o@).len() <= old(target)@.len() {
                    Ok::<usize, Error>(open_bytes(o@).len() as usize)
                } else {
                    Ok::<usize, Error>(old(target)@.len() as usize)
                },
                DataChannelControlMessage::OpenAck(_) => r == write_result(
                    old(target)@.len() as int,
                    0,
                    enc_u8(2),
                ),
            },
    {
        match self {
            DataChannelControlMessage::Open(payload) => payload.write(target),
            DataChannelControlMessage::OpenAck(payload) => payload.write(target),
        }
    }
}

/// https://tools.ietf.org/html/draft-ietf-rtcweb-data-channel-13 Section 8
#[derive(PartialEq, Debug, Copy, Clone, Eq, Structural)]
pub enum DataChannelMessageType {
    Control,
    String,
    Binary,
    StringEmpty,
    BinaryEmpty,
}

impl DataChannelMessageType {
    pub open spec fn spec_value(&self) -> u32 {
        match self {
            DataChannelMessageType::Control => 50,
            DataChannelMessageType::String => 51,
            DataChannelMessageType::Binary => 53,
            DataChannelMessageType::StringEmpty => 56,
            DataChannelMessageType::BinaryEmpty => 57,
        }
    }

    pub open spec fn spec_from(value: u32) -> Option<DataChannelMessageType> {
        if value == 50 {
            Some(DataChannelMessageType::Control)
        } else if value == 51 {
            Some(DataChannelMessageType::String)
        } else if value == 53 {
            Some(DataChannelMessageType::Binary)
        } else if value == 56 {
            Some(DataChannelMessageType::StringEmpty)
        } else if value == 57 {
            Some(DataChannelMessageType::BinaryEmpty)
        } else {
            None
        }
    }

    /// The payload protocol identifier of the message type.
    pub fn value(&self) -> (r: u32)
        ensures
            r == self.spec_value(),
    {
        match self {
            DataChannelMessageType::Control => 50,
            DataChannelMessageType::String => 51,
            DataChannelMessageType::Binary => 53,
            DataChannelMessageType::StringEmpty => 56,
            DataChannelMessageType::BinaryEmpty => 57,
        }
    }

    pub fn from(value: u32) -> (r: Option<Self>)
        ensures
            r == Self::spec_from(value),
    {
        match value {
            50 => Some(DataChannelMessageType::Control),
            51 => Some(DataChannelMessageType::String),
            53 => Some(DataChannelMessageType::Binary),
            56 => Some(DataChannelMessageType::StringEmpty),
            57 => Some(DataChannelMessageType::BinaryEmpty),
            _ => None,
        }
    }
}

/// A message type is recovered from its payload protocol identifier.
pub proof fn lemma_message_type_roundtrip(t: DataChannelMessageType)
    ensures
        DataChannelMessageType::spec_from(t.spec_value()) == Some(t),
{
}

/// The payload protocol identifiers of WebRTC data channel messages: 50 for
/// control messages, 51 for text, 53 for binary data, 56 for an empty text
/// and 57 for empty binary data; a payload protocol identifier names a
/// message type exactly when it is that type's identifier.
pub proof fn lemma_message_type_ppids(t: DataChannelMessageType, ppid: u32)
    ensures
        DataChannelMessageType::Control.spec_value() == 50,
        DataChannelMessageType::String.spec_value() == 51,
        DataChannelMessageType::Binary.spec_value() == 53,
        DataChannelMessageType::StringEmpty.spec_value() == 56,
        DataChannelMessageType::BinaryEmpty.spec_value() == 57,
        DataChannelMessageType::spec_from(ppid) == Some(t) <==> t.spec_value() == ppid,
        DataChannelMessageType::spec_from(ppid) is None <==> (ppid != 50 && ppid != 51 && ppid != 53
            && ppid != 56 && ppid != 57),
{
}

pub enum MessageView {
    Control(ControlMessageView),
    String(Seq<char>),
    Binary(Seq<u8>),
    StringEmpty,
    BinaryEmpty,
}

#[derive(PartialEq, Debug)]
pub enum DataChannelMessage {
    Control(DataChannelControlMessage),
    String(String),
    Binary(Vec<u8>),
    StringEmpty(),
    BinaryEmpty(),
}

impl View for DataChannelMessage {
    type V = MessageView;

    open spec fn view(&self) -> MessageView {
        match self {
            DataChannelMessage::Control(m) => MessageView::Control(m@),
            DataChannelMessage::String(s) => MessageView::String(s@),
            DataChannelMessage::Binary(b) => MessageView::Binary(b@),
            DataChannelMessage::StringEmpty() => MessageView::StringEmpty,
            DataChannelMessage::BinaryEmpty() => MessageView::BinaryEmpty,
        }
    }
}

/// The bytes a message is sent as.
pub open spec fn message_bytes(m: MessageView) -> Seq<u8> {
    match m {
        MessageView::Control(c) => control_message_bytes(c),
        MessageView::String(s) => encode_utf8(s),
        MessageView::Binary(b) => b,
        MessageView::StringEmpty => Seq::empty(),
        MessageView::BinaryEmpty => Seq::empty(),
    }
}

pub open spec fn message_type_of(m: MessageView) -> DataChannelMessageType {
    match m {
        MessageView::Control(_) => DataChannelMessageType::Control,
        MessageView::String(_) => DataChannelMessageType::String,
        MessageView::Binary(_) => DataChannelMessageType::Binary,
        MessageView::StringEmpty => DataChannelMessageType::StringEmpty,
        MessageView::BinaryEmpty => DataChannelMessageType::BinaryEmpty,
    }
}

/// What a message received as `s` with the payload protocol identifier
/// `ppid` holds, or why there is none.
pub open spec fn parse_message(s: Seq<u8>, ppid: u32) -> Result<MessageView, Error> {
    match DataChannelMessageType::spec_from(ppid) {
        None => Err(Error::UnknownType),
        Some(DataChannelMessageType::Control) => match parse_control_message(s) {
            Ok(c) => Ok(MessageView::Control(c)),
            Err(e) => Err(e),
        },
        Some(DataChannelMessageType::String) => match text_of(s) {
            Some(t) => Ok(MessageView::String(t)),
            None => Err(Error::InvalidUtf8),
        },
        Some(DataChannelMessageType::StringEmpty) => Ok(MessageView::StringEmpty),
        Some(DataChannelMessageType::Binary) => Ok(MessageView::Binary(s)),
        Some(DataChannelMessageType::BinaryEmpty) => Ok(MessageView::BinaryEmpty),
    }
}

pub open spec fn message_fits(m: MessageView) -> bool {
    match m {
        MessageView::Control(c) => control_message_fits(c),
        _ => true,
    }
}

/// A message sent as its bytes with the identifier of its type is received
/// as the same message.
pub proof fn lemma_message_roundtrip(m: MessageView)
    requires
        message_fits(m),
    ensures
        parse_message(message_bytes(m), message_type_of(m).spec_value()) == Ok::<MessageView, Error>(m),
{
    match m {
        MessageView::Control(c) => {
            lemma_control_message_roundtrip(c, Seq::empty());
            assert(control_message_bytes(c) + Seq::empty() =~= control_message_bytes(c));
        },
        MessageView::String(t) => {
            lemma_text_roundtrip(t);
        },
        _ => {},
    }
}

impl DataChannelMessage {
    pub fn parse(buffer: &[u8], ppid: u32) -> (r: Result<DataChannelMessage, Error>)
        ensures
            view_result(r) == parse_message(buffer@, ppid),
    {
        let msg_type = match DataChannelMessageType::from(ppid) {
            Some(t) => t,
            None => return Err(Error::UnknownType),
        };
        match msg_type {
            DataChannelMessageType::Control => Ok(
                DataChannelMessage::Control(DataChannelControlMessage::parse(buffer)?),
            ),
            DataChannelMessageType::String => match string_from_utf8(
                vstd::slice::slice_to_vec(buffer),
            ) {
                Some(s) => Ok(DataChannelMessage::String(s)),
                None => Err(Error::InvalidUtf8),
            },
            DataChannelMessageType::StringEmpty => Ok(DataChannelMessage::StringEmpty()),
            DataChannelMessageType::Binary => Ok(
                DataChannelMessage::Binary(vstd::slice::slice_to_vec(buffer)),
            ),
            DataChannelMessageType::BinaryEmpty => Ok(DataChannelMessage::BinaryEmpty()),
        }
    }

    pub fn message_type(&self) -> (r: DataChannelMessageType)
        ensures
            r == message_type_of(self@),
    {
        match self {
            DataChannelMessage::Control(_) => DataChannelMessageType::Control,
            DataChannelMessage::String(_) => DataChannelMessageType::String,
            DataChannelMessage::StringEmpty() => DataChannelMessageType::StringEmpty,
            DataChannelMessage::Binary(_) => DataChannelMessageType::Binary,
            DataChannelMessage::BinaryEmpty() => DataChannelMessageType::BinaryEmpty,
        }
    }

    pub open spec fn spec_expected_length(&self) -> int {
        match self {
            DataChannelMessage::Control(message) => message.spec_expected_length(),
            DataChannelMessage::String(payload) => encode_utf8(payload@).len() as int,
            DataChannelMessage::StringEmpty() => 0,
            DataChannelMessage::Binary(payload) => payload@.len() as int,
            DataChannelMessage::BinaryEmpty() => 0,
        }
    }

    pub fn expected_length(&self) -> (r: usize)
        requires
            self.spec_expected_length() <= usize::MAX,
        ensures
            r == self.spec_expected_length(),
            r == message_bytes(self@).len(),
    {
        match self {
            DataChannelMessage::Control(message) => message.expected_length(),
            DataChannelMessage::String(payload) => string_bytes(payload).len(),
            DataChannelMessage::StringEmpty() => 0usize,
            DataChannelMessage::Binary(payload) => payload.len(),
            DataChannelMessage::BinaryEmpty() => 0usize,
        }
    }

    pub fn write(&self, buffer: &mut [u8]) -> (r: Result<usize, Error>)
        ensures
            final(buffer)@ == written(old(buffer)@, 0, message_bytes(self@)),
            match self {
                DataChannelMessage::Control(DataChannelControlMessage::Open(o)) => r == if old(
                    buffer,
                )@.len() < 12 {
                    Err::<usize, Error>(Error::WriteZero)
                } else if open_bytes(o@).len() <= old(buffer)@.len() {
                    Ok::<usize, Error>(open_bytes(o@).len() as usize)
                } else {
                    Ok::<usize, Error>(old(buffer)@.len() as usize)
                },
                _ => r == write_result(old(buffer)@.len() as int, 0, message_bytes(self@)),
            },
    {
        match self {
            DataChannelMessage::Control(message) => message.write(buffer),
            DataChannelMessage::String(message) => write_bytes(buffer, 0, string_bytes(message)),
            DataChannelMessage::StringEmpty() => {
                proof { lemma_written_empty(buffer@, 0); }
                Ok(0)
            },
            DataChannelMessage::Binary(message) => write_bytes(buffer, 0, message.as_slice()),
            DataChannelMessage::BinaryEmpty() => {
                proof { lemma_written_empty(buffer@, 0); }
                Ok(0)
            },
        }
    }
}

} // verus!
