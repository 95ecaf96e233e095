//! RTCP packets of any type: splitting a compound packet, decoding and
//! encoding.
use vstd::prelude::*;
use vstd::utf8::encode_utf8;
use crate::bytes::{ByteReader, be_u16, written, write_result, writes, write_bytes, lemma_written_empty};
use crate::error::Error;
use crate::utils::rtcp::packets::sender_report::{RtcpPacketSenderReport, SenderReportView, parse_sender_report,
    sender_report_bytes, sender_report_roundtrips, lemma_sender_report_roundtrip};
use crate::utils::rtcp::packets::receiver_report::{RtcpPacketReceiverReport, ReceiverReportView,
    parse_receiver_report, receiver_report_bytes, receiver_report_roundtrips, lemma_receiver_report_roundtrip};
use crate::utils::rtcp::packets::source_description::{RtcpPacketSourceDescription, SourceDescriptionView,
    parse_source_description, source_description_header, chunks_output, chunks_fit, chunks_size, chunks_roundtrip,
    chunk_roundtrips, lemma_source_description_roundtrip};
use crate::utils::rtcp::packets::bye::{RtcpPacketBye, ByeView, parse_bye, bye_bytes, bye_head_bytes,
    bye_roundtrips, lemma_bye_roundtrip};
use crate::utils::rtcp::packets::transport_feedback::{RtcpPacketTransportFeedback, TransportFeedbackPacketView,
    parse_transport_feedback, transport_feedback_bytes, nacks_of, lemma_transport_feedback_roundtrip};
use crate::utils::rtcp::packets::payload_feedback::{RtcpPacketPayloadFeedback, PayloadFeedbackPacketView,
    parse_payload_feedback, payload_feedback_bytes, payload_feedback_data, payload_feedback_roundtrips,
    lemma_payload_feedback_roundtrip};
use crate::utils::rtcp::packets::extended_report::{RtcpPacketExtendedReport, ExtendedReportView,
    parse_extended_report};
use crate::utils::rtcp::reports_fit;

verus! {

#[derive(Debug, Clone, Copy, PartialEq, Eq, PartialOrd, Ord, Structural)]
pub enum RtcpPacketType {
    SenderReport,
    ReceiverReport,
    SourceDescription,
    Bye,
    ApplicationDefined,
    TransportFeedback,
    PayloadFeedback,
    ExtendedReport,
}

pub open spec fn packet_type_from(ptype: u8) -> Option<RtcpPacketType> {
    if ptype == 200 {
        Some(RtcpPacketType::SenderReport)
    } else if ptype == 201 {
        Some(RtcpPacketType::ReceiverReport)
    } else if ptype == 202 {
        Some(RtcpPacketType::SourceDescription)
    } else if ptype == 203 {
        Some(RtcpPacketType::Bye)
    } else if ptype == 204 {
        Some(RtcpPacketType::ApplicationDefined)
    } else if ptype == 205 {
        Some(RtcpPacketType::TransportFeedback)
    } else if ptype == 206 {
        Some(RtcpPacketType::PayloadFeedback)
    } else if ptype == 207 {
        Some(RtcpPacketType::ExtendedReport)
    } else {
        None
    }
}

pub open spec fn packet_type_value(t: RtcpPacketType) -> u8 {
    match t {
        RtcpPacketType::SenderReport => 200,
        RtcpPacketType::ReceiverReport => 201,
        RtcpPacketType::SourceDescription => 202,
        RtcpPacketType::Bye => 203,
        RtcpPacketType::ApplicationDefined => 204,
        RtcpPacketType::TransportFeedback => 205,
        RtcpPacketType::PayloadFeedback => 206,
        RtcpPacketType::ExtendedReport => 207,
    }
}

/// Every packet type comes back from its value, and every value that names
/// a type is that type's value.
pub proof fn lemma_packet_type_roundtrip(t: RtcpPacketType, v: u8)
    ensures
        packet_type_from(packet_type_value(t)) == Some(t),
        packet_type_from(v) matches Some(u) ==> packet_type_value(u) == v,
{
}

impl RtcpPacketType {
    pub fn from(ptype: u8) -> (r: Option<RtcpPacketType>)
        ensures
            r == packet_type_from(ptype),
    {
        match ptype {
            200 => Some(RtcpPacketType::SenderReport),
            201 => Some(RtcpPacketType::ReceiverReport),
            202 => Some(RtcpPacketType::SourceDescription),
            203 => Some(RtcpPacketType::Bye),
            204 => Some(RtcpPacketType::ApplicationDefined),
            205 => Some(RtcpPacketType::TransportFeedback),
            206 => Some(RtcpPacketType::PayloadFeedback),
            207 => Some(RtcpPacketType::ExtendedReport),
            _ => None,
        }
    }

    pub fn value(&self) -> (r: u8)
        ensures
            r == packet_type_value(*self),
    {
        match self {
            RtcpPacketType::SenderReport => 200,
            RtcpPacketType::ReceiverReport => 201,
            RtcpPacketType::SourceDescription => 202,
            RtcpPacketType::Bye => 203,
            RtcpPacketType::ApplicationDefined => 204,
            RtcpPacketType::TransportFeedback => 205,
            RtcpPacketType::PayloadFeedback => 206,
            RtcpPacketType::ExtendedReport => 207,
        }
    }
}

#[derive(Debug, Clone)]
pub enum RtcpPacket {
    SenderReport(RtcpPacketSenderReport),
    ReceiverReport(RtcpPacketReceiverReport),
    SourceDescription(RtcpPacketSourceDescription),
    Bye(RtcpPacketBye),
    TransportFeedback(RtcpPacketTransportFeedback),
    PayloadFeedback(RtcpPacketPayloadFeedback),
    ExtendedReport(RtcpPacketExtendedReport),
    Unknown(Vec<u8>),
}

pub enum RtcpPacketView {
    SenderReport(SenderReportView),
    ReceiverReport(ReceiverReportView),
    SourceDescription(Seq<(u32, SourceDescriptionView)>),
    Bye(ByeView),
    TransportFeedback(TransportFeedbackPacketView),
    PayloadFeedback(PayloadFeedbackPacketView),
    ExtendedReport(ExtendedReportView),
    Unknown(Seq<u8>),
}

impl View for RtcpPacket {
    type V = RtcpPacketView;

    open spec fn view(&self) -> RtcpPacketView {
        match self {
            RtcpPacket::SenderReport(p) => RtcpPacketView::SenderReport(p@),
            RtcpPacket::ReceiverReport(p) => RtcpPacketView::ReceiverReport(p@),
            RtcpPacket::SourceDescription(p) => RtcpPacketView::SourceDescription(p@),
            RtcpPacket::Bye(p) => RtcpPacketView::Bye(p@),
            RtcpPacket::TransportFeedback(p) => RtcpPacketView::TransportFeedback(p@),
            RtcpPacket::PayloadFeedback(p) => RtcpPacketView::PayloadFeedback(p@),
            RtcpPacket::ExtendedReport(p) => RtcpPacketView::ExtendedReport(p@),
            RtcpPacket::Unknown(d) => RtcpPacketView::Unknown(d@),
        }
    }
}

/// The decoding of one packet of a known type, without the bytes it took.
pub open spec fn decoded<V>(r: Result<(V, int), Error>) -> Result<V, Error> {
    match r {
        Ok((v, n)) => Ok(v),
        Err(e) => Err(e),
    }
}

/// The packet that `s` holds, or why there is none. Application defined
/// packets and packets of unknown type are kept as their bytes; bytes after
/// a decoded packet are ignored.
pub open spec fn parse_packet(s: Seq<u8>) -> Result<RtcpPacketView, Error> {
    if s.len() < 2 {
        Err(Error::UnexpectedEof)
    } else {
        match packet_type_from(s[1]) {
            Some(RtcpPacketType::SenderReport) => match decoded(parse_sender_report(s)) {
                Ok(v) => Ok(RtcpPacketView::SenderReport(v)),
                Err(e) => Err(e),
            },
            Some(RtcpPacketType::ReceiverReport) => match decoded(parse_receiver_report(s)) {
                Ok(v) => Ok(RtcpPacketView::ReceiverReport(v)),
                Err(e) => Err(e),
            },
            Some(RtcpPacketType::SourceDescription) => match decoded(parse_source_description(s)) {
                Ok(v) => Ok(RtcpPacketView::SourceDescription(v)),
                Err(e) => Err(e),
            },
            Some(RtcpPacketType::Bye) => match decoded(parse_bye(s)) {
                Ok(v) => Ok(RtcpPacketView::Bye(v)),
                Err(e) => Err(e),
            },
            Some(RtcpPacketType::TransportFeedback) => match decoded(parse_transport_feedback(s)) {
                Ok(v) => Ok(RtcpPacketView::TransportFeedback(v)),
                Err(e) => Err(e),
            },
            Some(RtcpPacketType::PayloadFeedback) => match decoded(parse_payload_feedback(s)) {
                Ok(v) => Ok(RtcpPacketView::PayloadFeedback(v)),
                Err(e) => Err(e),
            },
            Some(RtcpPacketType::ExtendedReport) => match decoded(parse_extended_report(s)) {
                Ok(v) => Ok(RtcpPacketView::ExtendedReport(v)),
                Err(e) => Err(e),
            },
            _ => Ok(RtcpPacketView::Unknown(s)),
        }
    }
}

/// What writing a packet puts out: its encoding, the part of it before a
/// text that is too long, or nothing when the packet is refused outright.
pub open spec fn packet_output(p: RtcpPacketView) -> Seq<u8> {
    match p {
        RtcpPacketView::SenderReport(v) => if v.reports.len() > 15 { Seq::empty() } else { sender_report_bytes(v) },
        RtcpPacketView::ReceiverReport(v) => if v.reports.len() > 15 { Seq::empty() } else { receiver_report_bytes(v) },
        RtcpPacketView::SourceDescription(v) => if v.len() > 15 {
            Seq::empty()
        } else {
            source_description_header(v) + chunks_output(v)
        },
        RtcpPacketView::Bye(v) => if v.src.len() > 15 {
            Seq::empty()
        } else if v.reason matches Some(t) && encode_utf8(t).len() > 255 {
            bye_head_bytes(v)
        } else {
            bye_bytes(v)
        },
        RtcpPacketView::TransportFeedback(v) => transport_feedback_bytes(v),
        RtcpPacketView::PayloadFeedback(v) => payload_feedback_bytes(v),
        RtcpPacketView::ExtendedReport(v) => Seq::empty(),
        RtcpPacketView::Unknown(d) => d,
    }
}

/// Why a packet cannot be written whatever the buffer, if it cannot.
pub open spec fn packet_refusal(p: RtcpPacketView) -> Option<Error> {
    match p {
        RtcpPacketView::SenderReport(v) => if v.reports.len() > 15 { Some(Error::TooManyEntries) } else { None },
        RtcpPacketView::ReceiverReport(v) => if v.reports.len() > 15 { Some(Error::TooManyEntries) } else { None },
        RtcpPacketView::SourceDescription(v) => if v.len() > 15 {
            Some(Error::TooManyEntries)
        } else if !chunks_fit(v) {
            Some(Error::ValueTooLong)
        } else {
            None
        },
        RtcpPacketView::Bye(v) => if v.src.len() > 15 {
            Some(Error::TooManyEntries)
        } else if v.reason matches Some(t) && encode_utf8(t).len() > 255 {
            Some(Error::ValueTooLong)
        } else {
            None
        },
        RtcpPacketView::ExtendedReport(v) => Some(Error::Unsupported),
        _ => None,
    }
}

/// The outcome of writing a packet into a buffer of `len` bytes: the
/// buffer running out comes first, then a refusal, else the size.
pub open spec fn packet_write_result(p: RtcpPacketView, len: int) -> Result<usize, Error> {
    if write_result(len, 0, packet_output(p)) is Err {
        Err(Error::WriteZero)
    } else {
        match packet_refusal(p) {
            Some(e) => Err(e),
            None => Ok(packet_output(p).len() as usize),
        }
    }
}

/// A packet whose writer can run: report blocks that fit their fields and
/// sizes that a `usize` can count.
pub open spec fn packet_writable(p: RtcpPacketView) -> bool {
    match p {
        RtcpPacketView::SenderReport(v) => reports_fit(v.reports) && match v.profile_data {
            Some(d) => d.len() + 3 <= usize::MAX,
            None => true,
        },
        RtcpPacketView::ReceiverReport(v) => reports_fit(v.reports) && match v.profile_data {
            Some(d) => d.len() + 3 <= usize::MAX,
            None => true,
        },
        RtcpPacketView::SourceDescription(v) => chunks_size(v) + 3 <= usize::MAX,
        RtcpPacketView::TransportFeedback(v) => 4 * nacks_of(v.feedback).len() <= usize::MAX,
        RtcpPacketView::PayloadFeedback(v) => payload_feedback_data(v.feedback).len() + 3 <= usize::MAX,
        _ => true,
    }
}

impl RtcpPacket {
    pub fn parse(buffer: &[u8]) -> (r: Result<RtcpPacket, Error>)
        ensures
            match (r, parse_packet(buffer@)) {
                (Ok(p), Ok(v)) => p@ == v,
                (Err(e), Err(f)) => e == f,
                _ => false,
            },
    {
        if buffer.len() < 2 {
            return Err(Error::UnexpectedEof);
        }
        let mut reader = ByteReader::new(buffer);
        match RtcpPacketType::from(buffer[1]) {
            Some(RtcpPacketType::SenderReport) => Ok(RtcpPacket::SenderReport(RtcpPacketSenderReport::parse(&mut reader)?)),
            Some(RtcpPacketType::ReceiverReport) => Ok(
                RtcpPacket::ReceiverReport(RtcpPacketReceiverReport::parse(&mut reader)?),
            ),
            Some(RtcpPacketType::SourceDescription) => Ok(
                RtcpPacket::SourceDescription(RtcpPacketSourceDescription::parse(&mut reader)?),
            ),
            Some(RtcpPacketType::Bye) => Ok(RtcpPacket::Bye(RtcpPacketBye::parse(&mut reader)?)),
            Some(RtcpPacketType::TransportFeedback) => Ok(
                RtcpPacket::TransportFeedback(RtcpPacketTransportFeedback::parse(&mut reader)?),
            ),
            Some(RtcpPacketType::PayloadFeedback) => Ok(
                RtcpPacket::PayloadFeedback(RtcpPacketPayloadFeedback::parse(&mut reader)?),
            ),
            Some(RtcpPacketType::ExtendedReport) => Ok(
                RtcpPacket::ExtendedReport(RtcpPacketExtendedReport::parse(&mut reader)?),
            ),
            _ => Ok(RtcpPacket::Unknown(vstd::slice::slice_to_vec(buffer))),
        }
    }

    /// Writes the packet at the start of `buffer`, giving back its size.
    pub fn write(&self, buffer: &mut [u8]) -> (r: Result<usize, Error>)
        requires
            packet_writable(self@),
        ensures
            final(buffer)@ == written(old(buffer)@, 0, packet_output(self@)),
            r == packet_write_result(self@, old(buffer)@.len() as int),
    {
        proof { lemma_written_empty(buffer@, 0); }
        match self {
            RtcpPacket::SenderReport(report) => report.write(buffer, 0),
            RtcpPacket::ReceiverReport(report) => report.write(buffer, 0),
            RtcpPacket::SourceDescription(report) => report.write(buffer, 0),
            RtcpPacket::Bye(report) => report.write(buffer, 0),
            RtcpPacket::TransportFeedback(report) => report.write(buffer, 0),
            RtcpPacket::PayloadFeedback(report) => report.write(buffer, 0),
            RtcpPacket::ExtendedReport(..) => Err(Error::Unsupported),
            RtcpPacket::Unknown(payload) => write_bytes(buffer, 0, payload.as_slice()),
        }
    }

    /// The encoding of the packet, when it fits 2048 bytes.
    pub fn to_vec(&self) -> (r: Result<Vec<u8>, Error>)
        requires
            packet_writable(self@),
        ensures
            match r {
                Ok(v) => packet_write_result(self@, 2048) is Ok && v@ == packet_output(self@),
                Err(e) => packet_write_result(self@, 2048) == Err::<usize, Error>(e),
            },
    {
        let mut buffer: Vec<u8> = vec![0u8; 2048];
        let length = self.write(buffer.as_mut_slice())?;
        buffer.truncate(length);
        Ok(buffer)
    }
}

/// The packets of a compound packet from `offset` on, as ranges of it, with
/// the error that stopped the split, if any; `capacity` more packets may be
/// taken. Each packet is its four byte header and the words its length
/// field counts.
pub open spec fn split_ranges(b: Seq<u8>, offset: int, capacity: int) -> (Seq<(int, int)>, Option<Error>)
    decreases b.len() - offset,
{
    if offset < 0 || offset >= b.len() {
        (Seq::empty(), None)
    } else if capacity <= 0 {
        (Seq::empty(), Some(Error::TooManyPackets))
    } else if b.len() < offset + 4 {
        (Seq::empty(), Some(Error::UnexpectedEof))
    } else {
        let length = be_u16(b, offset + 2) as int;
        if length * 4 > b.len() - offset - 4 {
            (Seq::empty(), Some(Error::InvalidLength))
        } else if length == 0 {
            (Seq::empty(), None)
        } else {
            let end = offset + 4 + 4 * length;
            let rest = split_ranges(b, end, capacity - 1);
            (seq![(offset, end)] + rest.0, rest.1)
        }
    }
}

/// The bytes of `b` in the ranges `rs`, one after another.
pub open spec fn joined(b: Seq<u8>, rs: Seq<(int, int)>) -> Seq<u8>
    decreases rs.len(),
{
    if rs.len() == 0 {
        Seq::empty()
    } else {
        b.subrange(rs[0].0, rs[0].1) + joined(b, rs.drop_first())
    }
}

/// The packets that splitting finds from `offset` on follow one another
/// from `offset`, each of its four byte header and the words its length
/// field counts; when the split ends without an error and meets no packet
/// whose length field is zero, they make up the rest of the buffer.
pub proof fn lemma_split_ranges_tile(b: Seq<u8>, offset: int, capacity: int)
    requires
        0 <= offset <= b.len(),
    ensures
        ({
            let (ranges, err) = split_ranges(b, offset, capacity);
            &&& ranges.len() > 0 ==> ranges[0].0 == offset
            &&& forall|i: int| 0 <= i < ranges.len() ==> {
                &&& 0 <= (#[trigger] ranges[i]).0
                &&& ranges[i].0 + 4 <= ranges[i].1 <= b.len()
                &&& ranges[i].1 - ranges[i].0 == 4 + 4 * be_u16(b, ranges[i].0 + 2)
            }
            &&& forall|i: int| 0 <= i < ranges.len() - 1 ==> #[trigger] ranges[i].1 == ranges[i + 1].0
            &&& err is None && !split_meets_empty_packet(b, offset, capacity) ==> joined(b, ranges) == b.skip(offset)
        }),
    decreases b.len() - offset,
{
    let (ranges, err) = split_ranges(b, offset, capacity);
    if offset < b.len() && capacity > 0 && b.len() >= offset + 4 {
        let length = be_u16(b, offset + 2) as int;
        if length * 4 <= b.len() - offset - 4 && length != 0 {
            let end = offset + 4 + 4 * length;
            lemma_split_ranges_tile(b, end, capacity - 1);
            let rest = split_ranges(b, end, capacity - 1);
            assert(ranges == seq![(offset, end)] + rest.0);
            assert(ranges.drop_first() =~= rest.0);
            assert forall|i: int| 0 <= i < ranges.len() implies {
                &&& 0 <= (#[trigger] ranges[i]).0
                &&& ranges[i].0 + 4 <= ranges[i].1 <= b.len()
                &&& ranges[i].1 - ranges[i].0 == 4 + 4 * be_u16(b, ranges[i].0 + 2)
            } by {
                if i > 0 {
                    assert(ranges[i] == rest.0[i - 1]);
                }
            }
            assert forall|i: int| 0 <= i < ranges.len() - 1 implies #[trigger] ranges[i].1 == ranges[i + 1].0 by {
                if i > 0 {
                    assert(ranges[i] == rest.0[i - 1]);
                    assert(ranges[i + 1] == rest.0[i]);
                }
            }
            if err is None && !split_meets_empty_packet(b, offset, capacity) {
                assert(b.skip(offset) =~= b.subrange(offset, end) + b.skip(end));
            }
        }
    }
    if offset == b.len() {
        assert(b.skip(offset) =~= Seq::<u8>::empty());
    }
}

/// Whether splitting reaches a packet whose length field is zero.
pub open spec fn split_meets_empty_packet(b: Seq<u8>, offset: int, capacity: int) -> bool
    decreases b.len() - offset,
{
    if offset < 0 || offset >= b.len() || capacity <= 0 || b.len() < offset + 4 {
        false
    } else {
        let length = be_u16(b, offset + 2) as int;
        if length * 4 > b.len() - offset - 4 {
            false
        } else if length == 0 {
            true
        } else {
            split_meets_empty_packet(b, offset + 4 + 4 * length, capacity - 1)
        }
    }
}

/// Whether splitting `buffer` into at most `capacity` packets reaches a
/// packet whose length field is zero, which no split takes.
pub fn meets_empty_packet(buffer: &[u8], capacity: usize) -> (r: bool)
    ensures
        r == split_meets_empty_packet(buffer@, 0, capacity as int),
{
    let ghost b = buffer@;
    let mut offset: usize = 0;
    let mut left: usize = capacity;
    while offset < buffer.len()
        invariant
            b == buffer@,
            offset <= b.len(),
            split_meets_empty_packet(b, 0, capacity as int) == split_meets_empty_packet(b, offset as int, left as int),
        decreases b.len() - offset,
    {
        if left == 0 || buffer.len() - offset < 4 {
            return false;
        }
        let length = buffer[offset + 2] as usize * 0x100 + buffer[offset + 3] as usize;
        assert(length == be_u16(b, offset + 2));
        if length * 4 > buffer.len() - offset - 4 {
            return false;
        }
        if length == 0 {
            return true;
        }
        offset = offset + length * 4 + 4;
        left = left - 1;
    }
    false
}

impl RtcpPacket {
    /// Splits a compound packet into its packets, filling `packets` from
    /// the front and giving back how many there are.
    pub fn split_up_packets<'a>(buffer: &'a [u8], packets: &mut [&'a [u8]]) -> (r: Result<usize, Error>)
        requires
            !split_meets_empty_packet(buffer@, 0, old(packets)@.len() as int),
        ensures
            r is Ok ==> joined(buffer@, split_ranges(buffer@, 0, old(packets)@.len() as int).0) == buffer@,
            ({
                let (ranges, err) = split_ranges(buffer@, 0, old(packets)@.len() as int);
                &&& final(packets)@.len() == old(packets)@.len()
                &&& ranges.len() <= old(packets)@.len()
                &&& forall|i: int|
                    0 <= i < ranges.len() ==> (#[trigger] final(packets)@[i])@ == buffer@.subrange(
                        ranges[i].0,
                        ranges[i].1,
                    )
                &&& forall|i: int| ranges.len() <= i < old(packets)@.len() ==> #[trigger] final(packets)@[i] == old(packets)@[i]
                &&& r == match err {
                    None => Ok::<usize, Error>(ranges.len() as usize),
                    Some(e) => Err::<usize, Error>(e),
                }
            }),
    {
        let ghost b = buffer@;
        let ghost cap = packets@.len() as int;
        let ghost mut done: Seq<(int, int)> = Seq::empty();
        let mut packet_offset: usize = 0;
        let mut packet_count: usize = 0;
        while packet_offset < buffer.len()
            invariant
                b == buffer@,
                cap == old(packets)@.len(),
                packets@.len() == cap,
                packet_offset <= b.len(),
                packet_count <= cap,
                done.len() == packet_count,
                !split_meets_empty_packet(b, packet_offset as int, cap - packet_count),
                split_ranges(b, 0, cap) == (
                    done + split_ranges(b, packet_offset as int, cap - packet_count).0,
                    split_ranges(b, packet_offset as int, cap - packet_count).1,
                ),
                forall|i: int| 0 <= i < packet_count ==> (#[trigger] packets@[i])@ == b.subrange(done[i].0, done[i].1),
                forall|i: int| packet_count <= i < cap ==> #[trigger] packets@[i] == old(packets)@[i],
            decreases b.len() - packet_offset,
        {
            if packets.len() - packet_count == 0 {
                return Err(Error::TooManyPackets);
            }
            let available = buffer.len() - packet_offset;
            if available < 4 {
                return Err(Error::UnexpectedEof);
            }
            let length = buffer[packet_offset + 2] as usize * 0x100 + buffer[packet_offset + 3] as usize;
            assert(length == be_u16(b, packet_offset + 2));
            if length * 4 > available - 4 {
                return Err(Error::InvalidLength);
            }
            let packet_end = packet_offset + length * 4 + 4;
            let ghost rest = split_ranges(b, packet_end as int, cap - packet_count - 1);
            packets[packet_count] = vstd::slice::slice_subrange(buffer, packet_offset, packet_end);
            proof {
                assert(done + (seq![(packet_offset as int, packet_end as int)] + rest.0) =~= done.push(
                    (packet_offset as int, packet_end as int),
                ) + rest.0);
                done = done.push((packet_offset as int, packet_end as int));
            }
            packet_count = packet_count + 1;
            packet_offset = packet_end;
        }
        proof {
            assert(done + Seq::<(int, int)>::empty() =~= done);
            lemma_split_ranges_tile(b, 0, cap);
            assert(b.skip(0) =~= b);
        }
        Ok(packet_count)
    }
}

/// A packet that its encoding gives back: one of a type with a writer whose
/// fields its encoding can hold (see the round trip of each type), or bytes
/// of a type that is kept as bytes.
pub open spec fn packet_roundtrips(p: RtcpPacketView) -> bool {
    match p {
        RtcpPacketView::SenderReport(v) => sender_report_roundtrips(v),
        RtcpPacketView::ReceiverReport(v) => receiver_report_roundtrips(v),
        RtcpPacketView::SourceDescription(v) => v.len() <= 15 && chunks_roundtrip(v),
        RtcpPacketView::Bye(v) => bye_roundtrips(v),
        RtcpPacketView::TransportFeedback(v) => 2 + nacks_of(v.feedback).len() < 0x10000,
        RtcpPacketView::PayloadFeedback(v) => payload_feedback_roundtrips(v),
        RtcpPacketView::ExtendedReport(v) => false,
        RtcpPacketView::Unknown(d) => d.len() >= 2 && match packet_type_from(d[1]) {
            None => true,
            Some(t) => t == RtcpPacketType::ApplicationDefined,
        },
    }
}

/// Writing a packet is not refused, and decoding what was written gives the
/// packet back.
#[verifier::rlimit(40)]
pub proof fn lemma_packet_roundtrip(p: RtcpPacketView)
    requires
        packet_roundtrips(p),
    ensures
        packet_refusal(p) is None,
        parse_packet(packet_output(p)) == Ok::<RtcpPacketView, Error>(p),
{
    let e = Seq::<u8>::empty();
    match p {
        RtcpPacketView::SenderReport(v) => {
            lemma_sender_report_roundtrip(v, e);
            assert(sender_report_bytes(v) + e =~= sender_report_bytes(v));
        },
        RtcpPacketView::ReceiverReport(v) => {
            lemma_receiver_report_roundtrip(v, e);
            assert(receiver_report_bytes(v) + e =~= receiver_report_bytes(v));
        },
        RtcpPacketView::SourceDescription(v) => {
            lemma_source_description_roundtrip(v, e);
            let out = source_description_header(v) + chunks_output(v);
            assert(out + e =~= out);
            assert(chunks_fit(v)) by {
                assert forall|k: int| 0 <= k < v.len() implies crate::utils::rtcp::packets::source_description::description_fits(#[trigger] v[k].1) by {
                    assert(chunk_roundtrips(v[k]));
                }
            }
        },
        RtcpPacketView::Bye(v) => {
            lemma_bye_roundtrip(v, e);
            assert(bye_bytes(v) + e =~= bye_bytes(v));
        },
        RtcpPacketView::TransportFeedback(v) => {
            lemma_transport_feedback_roundtrip(v, e);
            assert(transport_feedback_bytes(v) + e =~= transport_feedback_bytes(v));
        },
        RtcpPacketView::PayloadFeedback(v) => {
            lemma_payload_feedback_roundtrip(v, e);
            assert(payload_feedback_bytes(v) + e =~= payload_feedback_bytes(v));
        },
        RtcpPacketView::ExtendedReport(v) => {},
        RtcpPacketView::Unknown(d) => {},
    }
}

} // verus!
