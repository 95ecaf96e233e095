use std::collections::BTreeMap;
use webrtc_lib::bytes::ByteReader;
use webrtc_lib::error::Error;
use webrtc_lib::utils::SequenceNumber;
use webrtc_lib::utils::rtp::is_rtp_header;
use webrtc_lib::utils::rtcp::{RtcpPacket, RtcpPacketType, RtcpReportBlock, is_rtcp_header};
use webrtc_lib::utils::rtcp::packets::{
    RtcpPacketSenderReport, RtcpPacketReceiverReport, RtcpPacketBye, RtcpPacketApplicationDefined,
    RtcpFeedbackGenericNACK, RtcpTransportFeedback, RtcpTransportFeedbackType, RtcpPacketTransportFeedback,
    RtcpPayloadFeedback, RtcpPayloadFeedbackType, RtcpPacketPayloadFeedback, SourceDescription,
    SourceDescriptionType, RtcpPacketSourceDescription, RtcpPacketExtendedReport,
};
use webrtc_lib::utils::rtcp::packets::extended_report::{
    ExtendedReportBlock, ExtendedReportBlockType, ExtendedReportReceiverReferenceTime, ExtendedReportTargetBitrate,
    TargetBitrateItem,
};
use webrtc_lib::utils::rtcp::packets::extended_report::delay_last_receiver_report::ExtendedReportDelayLastReceiverReport;

const FIREFOX_PACKET: [u8; 52] = [
    129, 202, 0, 12, 77, 252, 33, 133, 1, 38, 123, 52, 98, 49, 100, 49, 100, 56, 54, 45, 100, 52, 98, 99, 45, 52,
    52, 97, 50, 45, 97, 57, 50, 100, 45, 54, 101, 52, 55, 101, 101, 49, 101, 100, 54, 97, 51, 125, 0, 0, 0, 0,
];

#[test]
fn test_packet_split_up() {
    let mut packets = [&[0u8][..]; 128];
    let packet_count = RtcpPacket::split_up_packets(&FIREFOX_PACKET[..], &mut packets[..]);
    assert_eq!(packet_count.unwrap(), 1usize);
}

#[test]
fn test_packet_parse() {
    let parsed = RtcpPacket::parse(&FIREFOX_PACKET[..]).expect("failed to decode valid packet");
    println!("{:?}", parsed);
}

#[test]
fn firefox_packet_source_description() {
    match RtcpPacket::parse(&FIREFOX_PACKET[..]).expect("decode") {
        RtcpPacket::SourceDescription(sd) => {
            assert_eq!(sd.descriptions.len(), 1);
            assert_eq!(sd.descriptions[0].0, 1308369285);
            assert_eq!(
                sd.descriptions[0].1,
                SourceDescription::CName(String::from("{4b1d1d86-d4bc-44a2-a92d-6e47ee1ed6a3}"))
            );
            // The writer does not pad a description of 40 bytes, so the four
            // zero bytes of the received packet are not reproduced.
            let mut buffer = [0u8; 64];
            let size = sd.write(&mut buffer, 0).expect("write");
            assert_eq!(size, 48);
            assert_eq!(&buffer[..4], &[129, 202, 0, 11]);
            assert_eq!(&buffer[4..48], &FIREFOX_PACKET[4..48]);
        },
        other => panic!("unexpected packet {:?}", other),
    }
}

#[test]
fn split_up_compound_packet() {
    let mut compound = Vec::new();
    compound.extend_from_slice(&[0x80, 201, 0, 1, 1, 2, 3, 4]);
    compound.extend_from_slice(&[0x81, 203, 0, 1, 0, 0, 0, 9]);
    let mut packets = [&[0u8][..]; 4];
    assert_eq!(RtcpPacket::split_up_packets(&compound, &mut packets[..]), Ok(2));
    assert_eq!(packets[0], &compound[0..8]);
    assert_eq!(packets[1], &compound[8..16]);
    assert_eq!(packets[2], &[0u8][..]);
    // the slices, one after another, make up the compound packet
    let joined: Vec<u8> = packets[..2].iter().flat_map(|p| p.iter().copied()).collect();
    assert_eq!(joined, compound);
    for p in &packets[..2] {
        assert_eq!(p.len(), 4 + 4 * u16::from_be_bytes([p[2], p[3]]) as usize);
    }

    let mut one = [&[0u8][..]; 1];
    assert_eq!(RtcpPacket::split_up_packets(&compound, &mut one[..]), Err(Error::TooManyPackets));
    assert_eq!(one[0], &compound[0..8]);

    let bad_length = [0x80u8, 201, 0, 5, 0, 0, 0, 0];
    assert_eq!(RtcpPacket::split_up_packets(&bad_length, &mut packets[..]), Err(Error::InvalidLength));
    let truncated = [0x80u8, 201, 0];
    assert_eq!(RtcpPacket::split_up_packets(&truncated, &mut packets[..]), Err(Error::UnexpectedEof));
    assert_eq!(RtcpPacket::split_up_packets(&[], &mut packets[..]), Ok(0));
}

#[test]
fn endecode_no_reason() {
    let bye = RtcpPacketBye { src: vec![224, 66668], reason: None };
    let mut buffer = [0u8; 100];
    let length = bye.write(&mut buffer, 0).unwrap();

    let bye_parsed = RtcpPacketBye::parse(&mut ByteReader::new(&buffer[0..length])).unwrap();
    assert_eq!(bye, bye_parsed);
}

#[test]
fn endecode_with_reason() {
    let bye = RtcpPacketBye { src: vec![224, 66668], reason: Some(String::from("Hello World")) };
    let mut buffer = [0u8; 100];
    let length = bye.write(&mut buffer, 0).unwrap();

    let bye_parsed = RtcpPacketBye::parse(&mut ByteReader::new(&buffer[0..length])).unwrap();
    assert_eq!(bye, bye_parsed);
}

#[test]
fn bye_bytes_and_errors() {
    let bye = RtcpPacketBye { src: vec![1], reason: Some(String::from("ab")) };
    let mut buffer = [0u8; 13];
    assert_eq!(bye.write(&mut buffer, 0), Ok(13));
    assert_eq!(buffer, [0x81, 203, 0, 2, 0, 0, 0, 1, 2, b'a', b'b', 0, 0]);

    let too_many = RtcpPacketBye { src: vec![0; 16], reason: None };
    let mut untouched = [7u8; 80];
    assert_eq!(too_many.write(&mut untouched, 0), Err(Error::TooManyEntries));
    assert_eq!(untouched, [7u8; 80]);

    let long = RtcpPacketBye { src: vec![5], reason: Some("x".repeat(256)) };
    let mut big = [0u8; 400];
    assert_eq!(long.write(&mut big, 0), Err(Error::ValueTooLong));
    assert_eq!(&big[4..8], &[0, 0, 0, 5]);

    let mut small = [0u8; 6];
    assert_eq!(bye.write(&mut small, 0), Err(Error::WriteZero));

    let bad_version = [0x41u8, 203, 0, 0];
    assert_eq!(RtcpPacketBye::parse(&mut ByteReader::new(&bad_version)), Err(Error::InvalidVersion));
    let wrong_type = [0x80u8, 200, 0, 0];
    assert_eq!(RtcpPacketBye::parse(&mut ByteReader::new(&wrong_type)), Err(Error::UnexpectedPacketType));
}

const SENDER_SSRC: u32 = 0x12345678;
const NETWORK_TIMESTAMP: u64 = 0x1112141822242628;
const RTP_TIMESTAMP: u32 = 0x33343536;
const PACKET_COUNT: u32 = 0x44454647;
const BYTE_COUNT: u32 = 0x55565758;

const PACKET: [u8; 28] = [
    0x80, 200, 0x00, 0x06, 0x12, 0x34, 0x56, 0x78, 0x11, 0x12, 0x14, 0x18, 0x22, 0x24, 0x26, 0x28, 0x33, 0x34,
    0x35, 0x36, 0x44, 0x45, 0x46, 0x47, 0x55, 0x56, 0x57, 0x58,
];

fn do_build(packet: &RtcpPacketSenderReport) -> Vec<u8> {
    let mut buffer = [0u8; 1024];
    let written = packet.write(&mut buffer, 0).expect("failed to build packet");
    buffer[0..written].to_vec()
}

fn create_basic_sr() -> RtcpPacketSenderReport {
    RtcpPacketSenderReport {
        ssrc: SENDER_SSRC,
        packet_count: PACKET_COUNT,
        byte_count: BYTE_COUNT,
        rtp_timestamp: RTP_TIMESTAMP,
        network_timestamp: NETWORK_TIMESTAMP,
        profile_data: None,
        reports: BTreeMap::new(),
    }
}

#[test]
fn test_create_without_blocks() {
    let result = do_build(&create_basic_sr());
    assert_eq!(result, PACKET);
}

#[test]
fn test_parse_without_blocks() {
    let packet = RtcpPacketSenderReport::parse(&mut ByteReader::new(&PACKET[..])).expect("failed to parse packet");
    assert_eq!(packet.ssrc, SENDER_SSRC);
    assert_eq!(packet.packet_count, PACKET_COUNT);
    assert_eq!(packet.byte_count, BYTE_COUNT);
    assert_eq!(packet.rtp_timestamp, RTP_TIMESTAMP);
    assert_eq!(packet.network_timestamp, NETWORK_TIMESTAMP);
    assert_eq!(packet.profile_data, None);
    assert!(packet.reports.is_empty());
}

fn block(n: u32) -> RtcpReportBlock {
    RtcpReportBlock {
        fraction_lost: n as u8,
        cumulative_packets_lost: n * 3,
        highest_sequence_received: n * 5,
        jitter: n * 7,
        timestamp_last_sr: n * 11,
        delay_since_last_sr: n * 13,
    }
}

#[test]
fn sender_report_with_blocks_roundtrip() {
    let mut sr = create_basic_sr();
    sr.reports.insert(9, block(1));
    sr.reports.insert(2, block(2));
    sr.profile_data = Some(vec![1, 2, 3, 4]);
    let bytes = do_build(&sr);
    assert_eq!(bytes.len(), 28 + 2 * 24 + 4);
    assert_eq!(sr.byte_size(), bytes.len());
    // lower SSRCs come first
    assert_eq!(&bytes[28..32], &[0, 0, 0, 2]);
    let parsed = RtcpPacketSenderReport::parse(&mut ByteReader::new(&bytes)).expect("parse");
    assert_eq!(parsed.reports.len(), 2);
    assert_eq!(parsed.reports[&9], block(1));
    assert_eq!(parsed.reports[&2], block(2));
    assert_eq!(parsed.profile_data, Some(vec![1, 2, 3, 4]));
}

#[test]
fn sender_report_padded_profile_data() {
    let mut sr = create_basic_sr();
    sr.profile_data = Some(vec![9]);
    let bytes = do_build(&sr);
    assert_eq!(bytes.len(), 32);
    assert_eq!(&bytes[28..32], &[9, 0, 0, 3]);
    assert_eq!(bytes[0], 0xA0);
    assert_eq!(&bytes[2..4], &[0, 7]);
    let parsed = RtcpPacketSenderReport::parse(&mut ByteReader::new(&bytes)).expect("parse");
    assert_eq!(parsed.profile_data, Some(vec![9]));
}

#[test]
fn sender_report_padding_round_trip() {
    let mut sr = create_basic_sr();
    sr.profile_data = Some(vec![1, 2, 3]);
    let bytes = do_build(&sr);
    assert_eq!(bytes.len(), 32);
    assert_eq!(sr.byte_size(), 32);
    // V=2, P=1, RC=0; the length field counts the words less one
    assert_eq!(bytes[0], 0xA0);
    assert_eq!(4 * (u16::from_be_bytes([bytes[2], bytes[3]]) as usize + 1), 32);
    let parsed = RtcpPacketSenderReport::parse(&mut ByteReader::new(&bytes)).expect("parse");
    assert_eq!(parsed.ssrc, SENDER_SSRC);
    assert_eq!(parsed.network_timestamp, NETWORK_TIMESTAMP);
    assert_eq!(parsed.rtp_timestamp, RTP_TIMESTAMP);
    assert_eq!(parsed.packet_count, PACKET_COUNT);
    assert_eq!(parsed.byte_count, BYTE_COUNT);
    assert!(parsed.reports.is_empty());
    assert_eq!(parsed.profile_data, Some(vec![1, 2, 3]));
}

#[test]
fn report_count_takes_five_bits() {
    // padding bit set, one report block, and profile data padded to a word
    let mut sr = create_basic_sr();
    sr.reports.insert(5, block(5));
    sr.profile_data = Some(vec![7, 7]);
    let bytes = do_build(&sr);
    assert_eq!(bytes[0], 0xA1);
    assert_eq!(bytes.len(), 28 + 24 + 4);
    assert_eq!(sr.byte_size(), bytes.len());
    assert_eq!(4 * (u16::from_be_bytes([bytes[2], bytes[3]]) as usize + 1), bytes.len());
    let parsed = RtcpPacketSenderReport::parse(&mut ByteReader::new(&bytes)).expect("parse");
    assert_eq!(parsed.reports.len(), 1);
    assert_eq!(parsed.reports[&5], block(5));
    assert_eq!(parsed.profile_data, Some(vec![7, 7]));

    let mut reports = BTreeMap::new();
    reports.insert(1, block(1));
    let rr = RtcpPacketReceiverReport { ssrc: 3, reports, profile_data: Some(vec![4, 5, 6, 7, 8]) };
    let mut buffer = [0u8; 64];
    let size = rr.write(&mut buffer, 0).expect("write");
    assert_eq!(size, 8 + 24 + 8);
    assert_eq!(buffer[0], 0xA1);
    let parsed = RtcpPacketReceiverReport::parse(&mut ByteReader::new(&buffer[..size])).expect("parse");
    assert_eq!(parsed.reports[&1], block(1));
    assert_eq!(parsed.profile_data, Some(vec![4, 5, 6, 7, 8]));
}

#[test]
fn receiver_report_roundtrip() {
    let mut reports = BTreeMap::new();
    reports.insert(77, block(4));
    let rr = RtcpPacketReceiverReport { ssrc: 0xCAFE, reports, profile_data: None };
    let mut buffer = [0u8; 64];
    let size = rr.write(&mut buffer, 0).expect("write");
    assert_eq!(size, 32);
    assert_eq!(rr.byte_size(), 32);
    assert_eq!(&buffer[0..4], &[0x81, 201, 0, 7]);
    let parsed = RtcpPacketReceiverReport::parse(&mut ByteReader::new(&buffer[..size])).expect("parse");
    assert_eq!(parsed.ssrc, 0xCAFE);
    assert_eq!(parsed.reports[&77], block(4));
}

#[test]
fn report_block_encoding() {
    let b = block(1);
    assert_eq!(b.byte_size(), 20);
    assert_eq!(b.quad_byte_size(), 5);
    let mut out = Vec::new();
    b.write_to(&mut out);
    assert_eq!(out, vec![1, 0, 0, 3, 0, 0, 0, 5, 0, 0, 0, 7, 0, 0, 0, 11, 0, 0, 0, 13]);
    let parsed = RtcpReportBlock::parse(&mut ByteReader::new(&out)).expect("parse");
    assert_eq!(parsed, b);
    assert_eq!(RtcpReportBlock::parse(&mut ByteReader::new(&out[..19])), Err(Error::UnexpectedEof));
    assert_eq!(RtcpReportBlock::new(), block(0));
}

#[test]
fn rtcp_header_check() {
    assert!(!is_rtcp_header(&[0x80, 200, 0]));
    assert!(is_rtcp_header(&[0x80, 200, 0, 0]));
    // payload types outside 64..96 are not RTCP
    assert!(!is_rtcp_header(&[0x80, 0, 0, 0]));
    assert!(!is_rtcp_header(&[0x80, 96, 0, 0]));
    assert!(is_rtcp_header(&[0x80, 64, 0, 0]));
    assert!(is_rtcp_header(&[0x80, 0xDF, 0, 0]));
}

#[test]
fn packet_types() {
    for value in 200u8..=207 {
        let t = RtcpPacketType::from(value).expect("known type");
        assert_eq!(t.value(), value);
    }
    assert_eq!(RtcpPacketType::from(199), None);
    assert_eq!(RtcpPacketType::from(208), None);
}

#[test]
fn application_defined_roundtrip() {
    let app = RtcpPacketApplicationDefined { subtype: 3, src: 0x01020304, name: *b"TEST", data: vec![1, 2, 3, 4] };
    let mut buffer = [0u8; 32];
    let size = app.write(&mut buffer, 0).expect("write");
    assert_eq!(size, 16);
    assert_eq!(&buffer[0..4], &[0x83, 204, 0, 3]);
    let parsed = RtcpPacketApplicationDefined::parse(&mut ByteReader::new(&buffer[..size])).expect("parse");
    assert_eq!(parsed.subtype, 3);
    assert_eq!(parsed.src, 0x01020304);
    assert_eq!(&parsed.name, b"TEST");
    assert_eq!(parsed.data, vec![1, 2, 3, 4]);

    let unaligned = RtcpPacketApplicationDefined { subtype: 0, src: 0, name: *b"ABCD", data: vec![1] };
    assert_eq!(unaligned.write(&mut buffer, 0), Err(Error::UnalignedData));
    let short_length = [0x80u8, 204, 0, 1, 0, 0, 0, 0];
    assert_eq!(
        RtcpPacketApplicationDefined::parse(&mut ByteReader::new(&short_length)).err(),
        Some(Error::InvalidLength)
    );
}

fn lost(nack: &RtcpFeedbackGenericNACK) -> Vec<u16> {
    let mut result = Vec::new();
    let mut packets = nack.lost_packets();
    while let Some(p) = packets.next() {
        result.push(p);
    }
    result
}

#[test]
fn generic_nack_grouping() {
    let packets: Vec<SequenceNumber<u16>> = vec![10, 11, 13, 40, 41].into_iter().map(SequenceNumber::new).collect();
    match RtcpTransportFeedback::create_generic_nack(&packets) {
        RtcpTransportFeedback::GenericNACK(nacks) => {
            assert_eq!(nacks.len(), 2);
            // bit k stands for the packet k + 1 after the head
            assert_eq!(nacks[0], RtcpFeedbackGenericNACK { packet_id: 10, bitmask_lost_packets: 0b101 });
            assert_eq!(nacks[1], RtcpFeedbackGenericNACK { packet_id: 40, bitmask_lost_packets: 0b1 });
        },
    }
    // across the wrap
    let wrapped: Vec<SequenceNumber<u16>> = vec![0xFFFF, 1].into_iter().map(SequenceNumber::new).collect();
    match RtcpTransportFeedback::create_generic_nack(&wrapped) {
        RtcpTransportFeedback::GenericNACK(nacks) => {
            assert_eq!(nacks, vec![RtcpFeedbackGenericNACK { packet_id: 0xFFFF, bitmask_lost_packets: 0b10 }]);
        },
    }
    match RtcpTransportFeedback::create_generic_nack(&[]) {
        RtcpTransportFeedback::GenericNACK(nacks) => assert!(nacks.is_empty()),
    }
}

#[test]
fn generic_nack_reach() {
    // sixteen packets ahead still fits the last bit, seventeen does not
    let packets = [SequenceNumber::new(10u16), SequenceNumber::new(26u16)];
    match RtcpTransportFeedback::create_generic_nack(&packets) {
        RtcpTransportFeedback::GenericNACK(nacks) => {
            assert_eq!(nacks, vec![RtcpFeedbackGenericNACK { packet_id: 10, bitmask_lost_packets: 0x8000 }]);
        },
    }
    let packets = [SequenceNumber::new(10u16), SequenceNumber::new(27u16)];
    match RtcpTransportFeedback::create_generic_nack(&packets) {
        RtcpTransportFeedback::GenericNACK(nacks) => {
            assert_eq!(nacks, vec![
                RtcpFeedbackGenericNACK { packet_id: 10, bitmask_lost_packets: 0 },
                RtcpFeedbackGenericNACK { packet_id: 27, bitmask_lost_packets: 0 },
            ]);
        },
    }
    // a repeated packet has no bit of its own and starts the next NACK
    let packets = [SequenceNumber::new(5u16), SequenceNumber::new(5u16)];
    match RtcpTransportFeedback::create_generic_nack(&packets) {
        RtcpTransportFeedback::GenericNACK(nacks) => {
            assert_eq!(nacks, vec![
                RtcpFeedbackGenericNACK { packet_id: 5, bitmask_lost_packets: 0 },
                RtcpFeedbackGenericNACK { packet_id: 5, bitmask_lost_packets: 0 },
            ]);
        },
    }
}

#[test]
fn generic_nacks_give_back_their_packets() {
    let ids: Vec<u16> = vec![0xFFF0, 0xFFF8, 0xFFFF, 0, 3, 20, 21, 37, 38, 300];
    let packets: Vec<SequenceNumber<u16>> = ids.iter().copied().map(SequenceNumber::new).collect();
    match RtcpTransportFeedback::create_generic_nack(&packets) {
        RtcpTransportFeedback::GenericNACK(nacks) => {
            let mut all = Vec::new();
            for nack in nacks.iter() {
                all.extend(lost(nack));
            }
            assert_eq!(all, ids);
        },
    }
}

#[test]
fn generic_nack_lost_packets() {
    // bit k stands for packet id + k + 1
    let nack = RtcpFeedbackGenericNACK { packet_id: 100, bitmask_lost_packets: 0b1000_0000_0000_0101 };
    assert_eq!(lost(&nack), vec![100, 101, 103, 116]);
    let three = RtcpFeedbackGenericNACK { packet_id: 100, bitmask_lost_packets: 0b101 };
    assert_eq!(lost(&three), vec![100, 101, 103]);
    let wrap = RtcpFeedbackGenericNACK { packet_id: 0xFFFE, bitmask_lost_packets: 0b11 };
    assert_eq!(lost(&wrap), vec![0xFFFE, 0xFFFF, 0]);
    let mut it = nack.lost_packets();
    for _ in 0..4 {
        assert!(it.next().is_some());
    }
    assert_eq!(it.next(), None);
    assert_eq!(it.next(), None);
}

#[test]
fn transport_feedback_roundtrip() {
    let fb = RtcpPacketTransportFeedback {
        ssrc: 1,
        media_ssrc: 2,
        feedback: RtcpTransportFeedback::GenericNACK(vec![
            RtcpFeedbackGenericNACK { packet_id: 5, bitmask_lost_packets: 6 },
            RtcpFeedbackGenericNACK { packet_id: 7, bitmask_lost_packets: 8 },
        ]),
    };
    assert_eq!(fb.byte_size(), 20);
    assert_eq!(fb.feedback_type(), RtcpTransportFeedbackType::GenericNACK);
    let packet = RtcpPacket::TransportFeedback(fb);
    let bytes = packet.to_vec().expect("encode");
    assert_eq!(bytes, vec![0x81, 205, 0, 4, 0, 0, 0, 1, 0, 0, 0, 2, 0, 5, 0, 6, 0, 7, 0, 8]);
    match RtcpPacket::parse(&bytes).expect("decode") {
        RtcpPacket::TransportFeedback(parsed) => {
            assert_eq!(parsed.ssrc, 1);
            assert_eq!(parsed.media_ssrc, 2);
            match parsed.feedback {
                RtcpTransportFeedback::GenericNACK(nacks) => {
                    assert_eq!(nacks, vec![
                        RtcpFeedbackGenericNACK { packet_id: 5, bitmask_lost_packets: 6 },
                        RtcpFeedbackGenericNACK { packet_id: 7, bitmask_lost_packets: 8 },
                    ]);
                },
            }
        },
        other => panic!("unexpected packet {:?}", other),
    }
    let unknown_type = [0x83u8, 205, 0, 2, 0, 0, 0, 0, 0, 0, 0, 0];
    assert_eq!(RtcpPacket::parse(&unknown_type).err(), Some(Error::UnknownType));
    assert_eq!(RtcpTransportFeedbackType::from(1), Some(RtcpTransportFeedbackType::GenericNACK));
    assert_eq!(RtcpTransportFeedbackType::from(2), None);
    assert_eq!(RtcpTransportFeedbackType::GenericNACK.id(), 1);
}

#[test]
fn payload_feedback_roundtrip() {
    let pli = RtcpPacketPayloadFeedback { ssrc: 3, media_ssrc: 4, feedback: RtcpPayloadFeedback::PictureLossIndication };
    let mut buffer = [0u8; 32];
    let size = pli.write(&mut buffer, 0).expect("write");
    assert_eq!(&buffer[..size], &[0x81, 206, 0, 2, 0, 0, 0, 3, 0, 0, 0, 4]);
    let parsed = RtcpPacketPayloadFeedback::parse(&mut ByteReader::new(&buffer[..size])).expect("parse");
    assert_eq!(parsed.feedback_type(), RtcpPayloadFeedbackType::PictureLossIndication);

    let app = RtcpPacketPayloadFeedback {
        ssrc: 3,
        media_ssrc: 4,
        feedback: RtcpPayloadFeedback::ApplicationSpecific(vec![1, 2, 3, 4, 5]),
    };
    assert_eq!(app.byte_size(), 17);
    let size = app.write(&mut buffer, 0).expect("write");
    assert_eq!(size, 20);
    assert_eq!(&buffer[..4], &[0x8F, 206, 0, 4]);
    assert_eq!(&buffer[12..20], &[1, 2, 3, 4, 5, 0, 0, 3]);

    let sli = [0x82u8, 206, 0, 2, 0, 0, 0, 0, 0, 0, 0, 0];
    assert_eq!(RtcpPacketPayloadFeedback::parse(&mut ByteReader::new(&sli)).err(), Some(Error::Unsupported));
    let pli_long = [0x81u8, 206, 0, 3, 0, 0, 0, 0, 0, 0, 0, 0, 0, 0, 0, 0];
    assert_eq!(RtcpPacketPayloadFeedback::parse(&mut ByteReader::new(&pli_long)).err(), Some(Error::InvalidLength));
    for id in [1u8, 2, 3, 15] {
        assert_eq!(RtcpPayloadFeedbackType::from(id).map(|t| t.id()), Some(id));
    }
    assert_eq!(RtcpPayloadFeedbackType::from(4), None);
}

#[test]
fn source_description_items() {
    let cname = SourceDescription::CName(String::from("ab"));
    assert_eq!(cname.byte_size(), 4);
    assert_eq!(cname.description_type(), SourceDescriptionType::CName);
    let mut buffer = [0u8; 8];
    assert_eq!(cname.write(&mut buffer, 0), Ok(4));
    assert_eq!(&buffer[..4], &[1, 2, b'a', b'b']);
    let parsed = SourceDescription::parse(&mut ByteReader::new(&buffer[..4])).expect("parse");
    assert_eq!(parsed, cname);

    let tool = SourceDescription::Tool(String::from("x"));
    let mut buffer = [9u8; 8];
    assert_eq!(tool.write(&mut buffer, 0), Ok(4));
    assert_eq!(&buffer[..4], &[6, 1, b'x', 0]);

    let private = SourceDescription::Private { prefix: String::from("p"), value: String::from("v") };
    assert_eq!(private.byte_size(), 5);
    let mut buffer = [9u8; 8];
    assert_eq!(private.write(&mut buffer, 0), Ok(8));
    assert_eq!(&buffer[..8], &[8, 3, 1, b'p', b'v', 0, 0, 0]);
    let parsed = SourceDescription::parse(&mut ByteReader::new(&buffer[..5])).expect("parse");
    assert_eq!(parsed, private);

    let long = SourceDescription::Note("n".repeat(256));
    let mut buffer = [0u8; 300];
    assert_eq!(long.write(&mut buffer, 0), Err(Error::ValueTooLong));
    assert_eq!(buffer[0], 7);

    assert_eq!(SourceDescription::parse(&mut ByteReader::new(&[9, 0])).err(), Some(Error::UnknownType));
    assert_eq!(SourceDescription::parse(&mut ByteReader::new(&[1, 1, 0xFF])).err(), Some(Error::InvalidUtf8));
    for value in 1u8..=8 {
        assert_eq!(SourceDescriptionType::from(value).map(|t| t.value()), Some(value));
    }
    assert_eq!(SourceDescriptionType::from(0), None);
}

#[test]
fn source_description_items_are_word_aligned() {
    let cname = SourceDescription::CName(String::from("abc"));
    assert_eq!(cname.byte_size(), 5);
    let mut buffer = [9u8; 16];
    assert_eq!(cname.write(&mut buffer, 0), Ok(8));
    assert_eq!(&buffer[..8], &[1, 3, 0x61, 0x62, 0x63, 0, 0, 0]);
    let mut reader = ByteReader::new(&[1u8, 3, 0x61, 0x62, 0x63][..]);
    assert_eq!(SourceDescription::parse(&mut reader), Ok(cname));
    assert_eq!(reader.position(), 5);

    let private = SourceDescription::Private { prefix: String::from("ab"), value: String::from("x") };
    assert_eq!(private.byte_size(), 6);
    let mut buffer = [9u8; 16];
    assert_eq!(private.write(&mut buffer, 0), Ok(8));
    assert_eq!(&buffer[..8], &[8, 4, 2, 0x61, 0x62, 0x78, 0, 0]);
    let mut reader = ByteReader::new(&[8u8, 4, 2, 0x61, 0x62, 0x78][..]);
    assert_eq!(SourceDescription::parse(&mut reader), Ok(private));
    assert_eq!(reader.position(), 6);
}

#[test]
fn private_description_errors() {
    // the prefix length byte is missing, or reaches past the item
    assert_eq!(SourceDescription::parse(&mut ByteReader::new(&[8, 0])), Err(Error::InvalidLength));
    assert_eq!(SourceDescription::parse(&mut ByteReader::new(&[8, 2, 5, 0x61])), Err(Error::InvalidLength));
    assert_eq!(SourceDescription::parse(&mut ByteReader::new(&[8, 2, 1, 0xFF])), Err(Error::InvalidUtf8));
    assert_eq!(SourceDescription::parse(&mut ByteReader::new(&[8, 2, 0, 0xFF])), Err(Error::InvalidUtf8));
    assert_eq!(
        SourceDescription::parse(&mut ByteReader::new(&[8, 1, 0])),
        Ok(SourceDescription::Private { prefix: String::new(), value: String::new() })
    );
    assert_eq!(SourceDescription::parse(&mut ByteReader::new(&[0, 0])), Err(Error::UnknownType));
    let long = SourceDescription::Private { prefix: "p".repeat(200), value: "v".repeat(55) };
    let mut buffer = [0u8; 300];
    assert_eq!(long.write(&mut buffer, 0), Err(Error::ValueTooLong));
}

#[test]
fn source_description_packet_length() {
    let sd = RtcpPacketSourceDescription {
        descriptions: vec![
            (1, SourceDescription::CName(String::from("abc"))),
            (2, SourceDescription::CName(String::from("abc"))),
        ],
    };
    assert_eq!(sd.byte_size(), 28);
    let mut buffer = [0u8; 40];
    assert_eq!(sd.write(&mut buffer, 0), Ok(28));
    assert_eq!(&buffer[..4], &[0x82, 202, 0, 6]);
    assert_eq!(&buffer[4..16], &[0, 0, 0, 1, 1, 3, 0x61, 0x62, 0x63, 0, 0, 0]);
    match RtcpPacket::parse(&buffer[..28]).expect("decode") {
        RtcpPacket::SourceDescription(parsed) => assert_eq!(parsed.descriptions, sd.descriptions),
        other => panic!("unexpected packet {:?}", other),
    }
    let private = RtcpPacketSourceDescription {
        descriptions: vec![
            (3, SourceDescription::Private { prefix: String::from("ab"), value: String::from("x") }),
            (4, SourceDescription::Tool(String::from("t"))),
        ],
    };
    assert_eq!(private.byte_size(), 24);
    let bytes = RtcpPacket::SourceDescription(private.clone()).to_vec().expect("encode");
    assert_eq!(bytes.len(), 24);
    assert_eq!(&bytes[2..4], &[0, 5]);
    match RtcpPacket::parse(&bytes).expect("decode") {
        RtcpPacket::SourceDescription(parsed) => assert_eq!(parsed.descriptions, private.descriptions),
        other => panic!("unexpected packet {:?}", other),
    }
}

#[test]
fn source_description_packet() {
    let sd = RtcpPacketSourceDescription { descriptions: vec![(7, SourceDescription::Email(String::from("ab")))] };
    assert_eq!(sd.byte_size(), 12);
    let bytes = RtcpPacket::SourceDescription(sd).to_vec().expect("encode");
    assert_eq!(bytes, vec![0x81, 202, 0, 2, 0, 0, 0, 7, 3, 2, b'a', b'b']);
    match RtcpPacket::parse(&bytes).expect("decode") {
        RtcpPacket::SourceDescription(parsed) => {
            assert_eq!(parsed.descriptions, vec![(7, SourceDescription::Email(String::from("ab")))]);
        },
        other => panic!("unexpected packet {:?}", other),
    }
    let too_many = RtcpPacketSourceDescription { descriptions: vec![(1, SourceDescription::Name(String::new())); 16] };
    let mut buffer = [0u8; 16];
    assert_eq!(too_many.write(&mut buffer, 0), Err(Error::TooManyEntries));
}

#[test]
fn extended_report_blocks() {
    let rrt = ExtendedReportReceiverReferenceTime { timestamp: 0x0102030405060708 };
    let mut rrt_bytes = [0u8; 12];
    assert_eq!(rrt.write(&mut rrt_bytes, 0), Ok(12));
    let tb = ExtendedReportTargetBitrate {
        items: vec![TargetBitrateItem { spatial_layer: 1, temporal_layer: 2, bitrate: 300 }],
    };
    let mut tb_bytes = [0u8; 8];
    assert_eq!(tb.write(&mut tb_bytes, 0), Ok(8));
    assert_eq!(tb_bytes, [42, 0, 0, 1, 0x12, 0, 1, 44]);
    let mut delays = BTreeMap::new();
    delays.insert(5u32, (6u32, 7u32));
    let dlrr = ExtendedReportDelayLastReceiverReport { delays };
    let mut dlrr_bytes = [0u8; 16];
    assert_eq!(dlrr.write(&mut dlrr_bytes, 0), Ok(16));
    assert_eq!(dlrr_bytes, [5, 0, 0, 3, 0, 0, 0, 5, 0, 0, 0, 6, 0, 0, 0, 7]);

    let mut packet = vec![0x80, 207, 0, 0, 0, 0, 0, 42];
    packet.extend_from_slice(&rrt_bytes);
    packet.extend_from_slice(&tb_bytes);
    packet.extend_from_slice(&dlrr_bytes);
    packet.extend_from_slice(&[99, 1, 0, 1, 9, 9, 9, 9]);
    let words = (packet.len() / 4 - 1) as u8;
    packet[3] = words;
    let xr = RtcpPacketExtendedReport::parse(&mut ByteReader::new(&packet)).expect("parse");
    assert_eq!(xr.ssrc, 42);
    assert_eq!(xr.blocks.len(), 4);
    match &xr.blocks[0] {
        ExtendedReportBlock::ReceiverReferenceTime(t) => assert_eq!(t.timestamp, 0x0102030405060708),
        other => panic!("unexpected block {:?}", other),
    }
    match &xr.blocks[1] {
        ExtendedReportBlock::TargetBitrate(t) => {
            assert_eq!(t.items.len(), 1);
            assert_eq!(t.items[0], TargetBitrateItem { spatial_layer: 1, temporal_layer: 2, bitrate: 300 });
        },
        other => panic!("unexpected block {:?}", other),
    }
    match &xr.blocks[2] {
        ExtendedReportBlock::DelayLastReceiverReport(d) => assert_eq!(d.delays[&5], (6, 7)),
        other => panic!("unexpected block {:?}", other),
    }
    match &xr.blocks[3] {
        ExtendedReportBlock::Unknown { block_type, type_specific, content } => {
            assert_eq!((*block_type, *type_specific), (99, 1));
            assert_eq!(content, &vec![9, 9, 9, 9]);
        },
        other => panic!("unexpected block {:?}", other),
    }
    let as_packet = RtcpPacket::parse(&packet).expect("decode");
    assert_eq!(as_packet.to_vec().err(), Some(Error::Unsupported));

    let bad_rrt = [4u8, 0, 0, 3, 0, 0, 0, 0, 0, 0, 0, 0];
    assert_eq!(ExtendedReportReceiverReferenceTime::parse(&mut ByteReader::new(&bad_rrt)).err(), Some(Error::InvalidLength));
    let bad_dlrr = [5u8, 0, 0, 2, 0, 0, 0, 0, 0, 0, 0, 0];
    assert_eq!(ExtendedReportDelayLastReceiverReport::parse(&mut ByteReader::new(&bad_dlrr)).err(), Some(Error::InvalidLength));
    for value in [4u8, 5, 42] {
        assert_eq!(ExtendedReportBlockType::from(value).map(|t| t.value()), Some(value));
    }
    assert_eq!(ExtendedReportBlockType::from(6), None);
}

#[test]
fn unknown_and_application_packets_are_kept() {
    let app = [0x80u8, 204, 0, 2, 1, 2, 3, 4, b'N', b'A', b'M', b'E'];
    match RtcpPacket::parse(&app).expect("decode") {
        RtcpPacket::Unknown(data) => assert_eq!(data, app.to_vec()),
        other => panic!("unexpected packet {:?}", other),
    }
    let unknown = [0x80u8, 100, 0, 0];
    let packet = RtcpPacket::parse(&unknown).expect("decode");
    let mut buffer = [0u8; 8];
    assert_eq!(packet.write(&mut buffer), Ok(4));
    assert_eq!(&buffer[..4], &unknown);
    assert_eq!(RtcpPacket::parse(&[0x80]).err(), Some(Error::UnexpectedEof));
}

#[test]
fn rtp_header_check() {
    let mut packet = [0x80u8, 96, 0, 1, 0, 0, 0, 0, 0, 0, 0, 0];
    assert!(is_rtp_header(&packet));
    packet[1] = 200; // 200 & 0x7F = 72, an RTCP type
    assert!(!is_rtp_header(&packet));
    packet[1] = 0x80 | 10;
    assert!(is_rtp_header(&packet));
    assert!(!is_rtp_header(&packet[..11]));
}

#[test]
fn rtp_and_rtcp_headers_exclude_each_other() {
    let mut packet = [0x80u8, 0, 0, 1, 0, 0, 0, 0, 0, 0, 0, 0];
    for second in 0u8..=255 {
        packet[1] = second;
        assert_eq!(is_rtcp_header(&packet), !is_rtp_header(&packet));
    }
}
