use webrtc_lib::media::receiver_stats::ReceiverStats;
use webrtc_lib::transport::packet_history::RtpPacketHistory;
use webrtc_lib::srtp2::Srtp2ErrorCode;

#[test]
fn receiver_stats_seconds() {
    let mut stats = ReceiverStats::new();
    assert_eq!(stats.bandwidth_header_second(), 0);
    assert_eq!(stats.bandwidth_payload_minute_totals(), (0, 0));
    stats.register_incoming_rtp(1, 12, 100, 3);
    stats.register_incoming_rtp(2, 12, 50, 3);
    stats.register_incoming_rtp(3, 12, 70, 4);
    // the previous second is the one before the current slot
    assert_eq!(stats.bandwidth_payload_second(), 150);
    assert_eq!(stats.bandwidth_header_second(), 24);
    assert_eq!(stats.bandwidth_payload_minute_totals(), (220, 2));
    assert_eq!(stats.bandwidth_header_minute_totals(), (36, 2));
    // going round to slot 3 again clears every slot but the current one
    stats.register_incoming_rtp(4, 10, 10, 3 + 64);
    assert_eq!(stats.bandwidth_payload_minute_totals(), (80, 2));
    stats.reset();
    assert_eq!(stats.bandwidth_payload_minute_totals(), (80, 2));
    stats.reset_bandwith();
    assert_eq!(stats.bandwidth_payload_minute_totals(), (0, 0));
}

#[test]
fn receiver_stats_minute_caps_at_sixty() {
    let mut stats = ReceiverStats::new();
    for second in 0..64u64 {
        stats.register_incoming_rtp(second as u16, 1, 2, second);
    }
    assert_eq!(stats.bandwidth_payload_minute_totals(), (120, 60));
    assert_eq!(stats.bandwidth_header_minute_totals(), (60, 60));
}

#[test]
fn packet_history_resend() {
    let mut history = RtpPacketHistory::new();
    history.enqueue_send_packet(7, vec![1, 2, 3], 10_000);
    history.enqueue_send_packet(8, vec![4], 10_010);
    // within the resend interval of 50 ms
    assert!(history.resend_packet(7, 10_040).is_none());
    assert_eq!(history.resend_packet(7, 10_051), Some(&[1u8, 2, 3][..]));
    // sent again just now
    assert!(history.resend_packet(7, 10_060).is_none());
    assert!(history.resend_packet(9, 20_000).is_none());
    assert_eq!(history.resend_packet(8, 10_061), Some(&[4u8][..]));
}

#[test]
fn packet_history_limits() {
    let mut history = RtpPacketHistory::new();
    history.enqueue_send_packet(1, vec![0; 600_000], 10_000);
    history.enqueue_send_packet(2, vec![0; 600_000], 10_001);
    // more than a million bytes: the oldest goes
    assert!(history.resend_packet(1, 10_100).is_none());
    assert!(history.resend_packet(2, 10_100).is_some());
    // ten seconds after its last send a packet is too old
    history.cleanup(20_100);
    assert!(history.resend_packet(2, 20_200).is_none());

    for i in 0..1001u32 {
        history.enqueue_send_packet(i as u16, vec![1], 30_000 + i);
    }
    // only the newest thousand stay
    assert!(history.resend_packet(0, 40_000).is_none());
    assert!(history.resend_packet(1, 40_000).is_some());
}

#[test]
fn srtp_error_codes() {
    assert_eq!(Srtp2ErrorCode::Success.success(), Ok(()));
    assert_eq!(Srtp2ErrorCode::AuthFail.success(), Err(Srtp2ErrorCode::AuthFail));
    assert_eq!(Srtp2ErrorCode::from(0), Srtp2ErrorCode::Success);
    assert_eq!(Srtp2ErrorCode::from(7), Srtp2ErrorCode::AuthFail);
    assert_eq!(Srtp2ErrorCode::from(27), Srtp2ErrorCode::PktIdxAdv);
    assert_eq!(Srtp2ErrorCode::from(28), Srtp2ErrorCode::Fail);
}

use webrtc_lib::media::sender::MediaSenderSharedData;
use webrtc_lib::media::{InternalMediaTrack, NegotiationState, SsrcAttribute};

fn property(data: &MediaSenderSharedData, key: &str) -> Option<Option<String>> {
    data.properties().iter().find(|e| e.0 == key).map(|e| e.1.clone())
}

#[test]
fn sender_properties_follow_negotiation() {
    let mut data = MediaSenderSharedData::new();
    assert_eq!(data.negotiation_state(), NegotiationState::Nothing);
    assert!(data.negotiation_needed());
    // the channel name is not the user's to change
    assert!(!data.register_property(String::from("cname"), Some(String::from("x"))));
    assert_eq!(property(&data, "cname"), None);
    assert!(data.register_property(String::from("a"), Some(String::from("1"))));
    assert_eq!(data.negotiation_state(), NegotiationState::Nothing);
    assert_eq!(property(&data, "a"), Some(Some(String::from("1"))));

    data.promote_negotiation(|s| matches!(s, NegotiationState::Nothing | NegotiationState::Changed), NegotiationState::Propagated);
    assert_eq!(data.negotiation_state(), NegotiationState::Propagated);
    assert!(!data.negotiation_needed());
    // nothing changes while a change is being propagated
    assert!(!data.register_property(String::from("b"), None));
    assert!(!data.unset_property(&String::from("a")));
    assert_eq!(data.properties().len(), 1);

    data.promote_negotiation(|s| s == NegotiationState::Changed, NegotiationState::Nothing);
    assert_eq!(data.negotiation_state(), NegotiationState::Propagated);
    data.promote_negotiation(|_| true, NegotiationState::Negotiated);
    // dropping a property that is not there changes nothing but is announced
    assert!(data.unset_property(&String::from("zz")));
    assert_eq!(data.negotiation_state(), NegotiationState::Negotiated);
    assert!(data.unset_property(&String::from("a")));
    assert_eq!(data.negotiation_state(), NegotiationState::Changed);
    assert!(data.properties().is_empty());

    data.promote_negotiation(|_| true, NegotiationState::Negotiated);
    assert!(data.register_property(String::from("b"), None));
    assert_eq!(data.negotiation_state(), NegotiationState::Changed);
    assert_eq!(property(&data, "b"), Some(None));
}

#[test]
fn try_change_marks_negotiated_state() {
    let mut data = MediaSenderSharedData::new();
    assert!(data.try_change(true));
    assert_eq!(data.negotiation_state(), NegotiationState::Nothing);
    data.promote_negotiation(|_| true, NegotiationState::Negotiated);
    assert!(data.try_change(false));
    assert_eq!(data.negotiation_state(), NegotiationState::Negotiated);
    assert!(data.try_change(true));
    assert_eq!(data.negotiation_state(), NegotiationState::Changed);
    data.promote_negotiation(|_| true, NegotiationState::Propagated);
    assert!(!data.try_change(true));
    assert_eq!(data.negotiation_state(), NegotiationState::Propagated);
}

#[test]
fn inserting_a_property_replaces_its_value() {
    let mut data = MediaSenderSharedData::new();
    data.insert_property(String::from("cname"), Some(String::from("7")));
    data.insert_property(String::from("msid"), Some(String::from("7 -")));
    data.insert_property(String::from("cname"), Some(String::from("8")));
    assert_eq!(data.properties().len(), 2);
    assert_eq!(property(&data, "cname"), Some(Some(String::from("8"))));
    data.clear_properties();
    assert!(data.properties().is_empty());
}

#[test]
fn source_attributes_give_properties() {
    let attribute = |id: u32, key: Option<&str>, value: Option<&str>| SsrcAttribute {
        id,
        attribute: key.map(String::from),
        value: value.map(String::from),
    };
    let mut data = MediaSenderSharedData::new();
    data.insert_property(String::from("old"), None);
    let attributes = vec![
        attribute(5, Some("cname"), Some("a")),
        attribute(6, Some("cname"), Some("b")),
        attribute(5, None, Some("c")),
        attribute(5, Some("msid"), None),
        attribute(5, Some("cname"), Some("d")),
    ];
    InternalMediaTrack::parse_properties_from_sdp(&mut data, 5, &attributes);
    assert_eq!(data.properties().len(), 2);
    assert_eq!(property(&data, "cname"), Some(Some(String::from("d"))));
    assert_eq!(property(&data, "msid"), Some(None));
    assert_eq!(property(&data, "old"), None);

    let written = InternalMediaTrack::write_sdp(&data, 5);
    assert_eq!(written, vec![attribute(5, Some("cname"), Some("d")), attribute(5, Some("msid"), None)]);
    let empty = MediaSenderSharedData::new();
    assert_eq!(InternalMediaTrack::write_sdp(&empty, 9), vec![attribute(9, None, None)]);
}

use webrtc_lib::media::{local_media_direction, remote_streams_from_sdp, MediaDirection};

#[test]
fn remote_streams_are_distinct_sources() {
    assert_eq!(remote_streams_from_sdp(false, &[5, 7, 5, 9, 7]), vec![5, 7, 9]);
    assert_eq!(remote_streams_from_sdp(true, &[5, 7]), Vec::<u32>::new());
    assert_eq!(remote_streams_from_sdp(false, &[]), Vec::<u32>::new());
}

#[test]
fn media_direction_follows_streams() {
    assert_eq!(local_media_direction(true, true), MediaDirection::Inactive);
    assert_eq!(local_media_direction(true, false), MediaDirection::Recvonly);
    assert_eq!(local_media_direction(false, true), MediaDirection::Sendonly);
    assert_eq!(local_media_direction(false, false), MediaDirection::Sendrecv);
}

use webrtc_lib::transport::{classify_incoming, is_ssl_packet, IncomingPacketKind};

#[test]
fn incoming_datagrams_are_told_apart() {
    assert!(is_ssl_packet(&[22, 254]));
    assert!(!is_ssl_packet(&[22]));
    assert!(!is_ssl_packet(&[65, 0]));
    assert_eq!(classify_incoming(&[22, 254, 253, 0]), IncomingPacketKind::Dtls);
    let mut rtp = [0u8; 12];
    rtp[0] = 0x80;
    rtp[1] = 96;
    assert_eq!(classify_incoming(&rtp), IncomingPacketKind::Rtp);
    rtp[1] = 200;
    assert_eq!(classify_incoming(&rtp), IncomingPacketKind::Rtcp);
    assert_eq!(classify_incoming(&[0x80, 200, 0, 1]), IncomingPacketKind::Rtcp);
    assert_eq!(classify_incoming(&[0x80, 200, 0]), IncomingPacketKind::Unknown);
    // a short datagram whose payload type is outside the RTCP range
    assert_eq!(classify_incoming(&[0x80, 0, 0, 1]), IncomingPacketKind::Unknown);
    assert_eq!(classify_incoming(&[0x80, 96, 0, 1]), IncomingPacketKind::Unknown);
}

use webrtc_lib::rtc::SetupRole;
use webrtc_lib::transport::{announced_setup, negotiate_setup, RTCTransportDescriptionApplyError, RTPTransportSetup};

#[test]
fn dtls_setup_negotiation() {
    assert_eq!(negotiate_setup(RTPTransportSetup::Unset, SetupRole::Passive), Ok(RTPTransportSetup::Active));
    assert_eq!(negotiate_setup(RTPTransportSetup::Unset, SetupRole::Active), Ok(RTPTransportSetup::Passive));
    assert_eq!(negotiate_setup(RTPTransportSetup::Unset, SetupRole::Actpass), Ok(RTPTransportSetup::Passive));
    assert_eq!(negotiate_setup(RTPTransportSetup::Unset, SetupRole::Holdconn), Ok(RTPTransportSetup::Holdconn));
    assert_eq!(
        negotiate_setup(RTPTransportSetup::Actpass, SetupRole::Actpass),
        Err(RTCTransportDescriptionApplyError::InvalidSetupValue)
    );
    assert_eq!(negotiate_setup(RTPTransportSetup::Actpass, SetupRole::Passive), Ok(RTPTransportSetup::Active));
    assert_eq!(negotiate_setup(RTPTransportSetup::Active, SetupRole::Passive), Ok(RTPTransportSetup::Active));
    assert_eq!(
        negotiate_setup(RTPTransportSetup::Active, SetupRole::Actpass),
        Err(RTCTransportDescriptionApplyError::ContradictingSetupValue)
    );
    assert_eq!(negotiate_setup(RTPTransportSetup::Passive, SetupRole::Active), Ok(RTPTransportSetup::Passive));
    assert_eq!(
        negotiate_setup(RTPTransportSetup::Passive, SetupRole::Passive),
        Err(RTCTransportDescriptionApplyError::ContradictingSetupValue)
    );
    assert_eq!(negotiate_setup(RTPTransportSetup::Holdconn, SetupRole::Active), Ok(RTPTransportSetup::Holdconn));
    assert_eq!(announced_setup(RTPTransportSetup::Unset), SetupRole::Actpass);
    assert_eq!(announced_setup(RTPTransportSetup::Passive), SetupRole::Passive);
}

use webrtc_lib::transport::{update_transport_state, IceComponentState, RTCTransportFailReason, RTCTransportState};

#[test]
fn transport_state_follows_ice_and_dtls() {
    let s = RTCTransportState::Disconnected;
    assert_eq!(update_transport_state(s, IceComponentState::Gathering, false), (RTCTransportState::Connecting, true));
    let s = RTCTransportState::Connecting;
    assert_eq!(update_transport_state(s, IceComponentState::Connected, false), (RTCTransportState::Connecting, false));
    assert_eq!(update_transport_state(s, IceComponentState::Ready, true), (RTCTransportState::Connected, true));
    assert_eq!(update_transport_state(s, IceComponentState::Disconnected, true), (RTCTransportState::Disconnected, true));
    let failed = RTCTransportState::UnrecoverableFailed(RTCTransportFailReason::DtlsEof);
    assert_eq!(update_transport_state(failed, IceComponentState::Ready, true), (failed, false));
    assert_eq!(update_transport_state(failed, IceComponentState::Failed, true), (failed, false));
}

use webrtc_lib::srtp2::{master_key_lengths, split_keying_material, SrtpProfile};

#[test]
fn keying_material_splits_per_role() {
    assert_eq!(master_key_lengths(SrtpProfile::Aes128CmSha1_80), Some((16, 14)));
    assert_eq!(master_key_lengths(SrtpProfile::Aes128CmSha1_32), Some((16, 14)));
    assert_eq!(master_key_lengths(SrtpProfile::Other(7)), None);
    // client key 1 2, server key 3 4, client salt 5, server salt 6
    let material = [1u8, 2, 3, 4, 5, 6, 99];
    let (remote, local) = split_keying_material(&material, 2, 1, true);
    assert_eq!(remote, vec![1, 2, 5]);
    assert_eq!(local, vec![3, 4, 6]);
    let (remote, local) = split_keying_material(&material, 2, 1, false);
    assert_eq!(remote, vec![3, 4, 6]);
    assert_eq!(local, vec![1, 2, 5]);
}

use webrtc_lib::media::receiver::{remb_for_limit_change, remb_packet, remb_payload, resend_request};
use webrtc_lib::utils::rtcp::packets::{RtcpFeedbackGenericNACK, RtcpPayloadFeedback, RtcpTransportFeedback};
use webrtc_lib::utils::SequenceNumber;

#[test]
fn remb_payload_encodes_mantissa_and_exponent() {
    assert_eq!(remb_payload(1_000_000, 0x01020304), vec![0x52, 0x45, 0x4D, 0x42, 1, 11, 0xD0, 0x90, 1, 2, 3, 4]);
    assert_eq!(remb_payload(0, 7), vec![0x52, 0x45, 0x4D, 0x42, 1, 0, 0, 0, 0, 0, 0, 7]);
    assert_eq!(remb_payload(0x3FFFF, 7), vec![0x52, 0x45, 0x4D, 0x42, 1, 3, 0xFF, 0xFF, 0, 0, 0, 7]);
    assert_eq!(remb_payload(u32::MAX, 7), vec![0x52, 0x45, 0x4D, 0x42, 1, 59, 0xFF, 0xFF, 0, 0, 0, 7]);
    let packet = remb_packet(0, 9);
    assert_eq!(packet.ssrc, 0);
    assert_eq!(packet.media_ssrc, 9);
    assert!(matches!(packet.feedback, RtcpPayloadFeedback::ApplicationSpecific(ref p) if p.len() == 12));
}

#[test]
fn remb_sent_when_limit_changes() {
    assert_eq!(remb_for_limit_change(None, None), None);
    assert_eq!(remb_for_limit_change(Some(5), Some(5)), None);
    assert_eq!(remb_for_limit_change(None, Some(5)), Some(5));
    assert_eq!(remb_for_limit_change(Some(5), Some(6)), Some(6));
    assert_eq!(remb_for_limit_change(Some(5), None), Some(50_000_000));
}

#[test]
fn resend_request_lists_packets() {
    let packets = [SequenceNumber::new(10u16), SequenceNumber::new(12u16)];
    let request = resend_request(77, &packets);
    assert_eq!(request.ssrc, 1);
    assert_eq!(request.media_ssrc, 77);
    match request.feedback {
        RtcpTransportFeedback::GenericNACK(nacks) => {
            assert_eq!(nacks.len(), 1);
            assert_eq!(nacks[0].packet_id, 10);
            let _: RtcpFeedbackGenericNACK = nacks[0];
        },
    }
}

use webrtc_lib::media::receiver::{lost_packets_event, MediaReceiver, MediaReceiverEvent};
use webrtc_lib::utils::rtp::{ParsedRtpPacket, RtpReadError};
use webrtc_lib::media::sender::MediaSender;

fn rtp_packet(sequence: u16, payload_length: usize) -> ParsedRtpPacket {
    let mut bytes = vec![0x80u8, 96, (sequence >> 8) as u8, sequence as u8, 0, 0, 0, 1, 0, 0, 0, 5];
    bytes.extend(std::iter::repeat(7u8).take(payload_length));
    ParsedRtpPacket::new(bytes).expect("an RTP packet")
}

#[test]
fn media_receiver_activation_and_limits() {
    let mut receiver = MediaReceiver::new(5);
    assert_eq!(receiver.ssrc(), 5);
    assert_eq!(receiver.bandwidth_limit(), None);
    let (events, remb) = receiver.handle_rtp_packet(rtp_packet(1, 100), 0, 0);
    assert_eq!(events.len(), 2);
    assert!(matches!(events[0], MediaReceiverEvent::ReceiverActivated));
    assert!(matches!(&events[1], MediaReceiverEvent::DataReceived(p) if p.sequence_number() == 1));
    assert!(remb.is_none());
    let (events, remb) = receiver.handle_rtp_packet(rtp_packet(2, 50), 10, 1);
    assert_eq!(events.len(), 1);
    assert!(matches!(&events[0], MediaReceiverEvent::DataReceived(p) if p.payload().len() == 50));
    assert!(remb.is_none());
    assert_eq!(receiver.statistics().bandwidth_payload_second(), 100);
    assert_eq!(receiver.statistics().bandwidth_header_minute_totals(), (24, 2));

    // announcing a limit clears the bandwidth histories
    let remb = receiver.set_bandwidth_limit(Some(1000)).expect("limit announced");
    assert_eq!((remb.ssrc, remb.media_ssrc), (0, 5));
    assert!(matches!(remb.feedback, RtcpPayloadFeedback::ApplicationSpecific(ref p) if *p == remb_payload(1000, 5)));
    assert_eq!(receiver.statistics().bandwidth_payload_second(), 0);
    assert_eq!(receiver.statistics().bandwidth_header_minute_totals(), (0, 0));
    assert!(receiver.set_bandwidth_limit(Some(1000)).is_none());

    let bye = receiver.handle_bye(Some(String::from("done")));
    assert!(matches!(bye, MediaReceiverEvent::ByeSignalReceived(Some(ref r)) if r == "done"));
    assert!(matches!(receiver.handle_bye(None), MediaReceiverEvent::ByeSignalReceived(None)));
    let (events, remb) = receiver.handle_rtp_packet(rtp_packet(3, 10), 20, 2);
    assert_eq!(events.len(), 2);
    assert!(matches!(events[0], MediaReceiverEvent::ReceiverActivated));
    let remb = remb.expect("limit announced on activation");
    assert!(matches!(remb.feedback, RtcpPayloadFeedback::ApplicationSpecific(ref p) if *p == remb_payload(1000, 5)));
    // the announcement on activation clears the histories, this packet too
    assert_eq!(receiver.statistics().bandwidth_payload_second(), 0);
    let (_, remb) = receiver.handle_rtp_packet(rtp_packet(4, 10), 30, 2);
    assert!(remb.is_none());
    // the last full second holds only what came after the announcement
    receiver.handle_rtp_packet(rtp_packet(5, 1), 40, 3);
    assert_eq!(receiver.statistics().bandwidth_payload_second(), 10);

    // announcing the limit again clears the histories too
    assert_eq!(receiver.statistics().bandwidth_payload_second(), 10);
    let again = receiver.announce_bandwidth_limit().expect("limit announced again");
    assert!(matches!(again.feedback, RtcpPayloadFeedback::ApplicationSpecific(ref p) if *p == remb_payload(1000, 5)));
    assert_eq!(receiver.statistics().bandwidth_payload_second(), 0);

    match lost_packets_event(&[SequenceNumber::new(7u16), SequenceNumber::new(9u16)]) {
        MediaReceiverEvent::DataLost(ids) => assert_eq!(ids, vec![7, 9]),
        _ => panic!("expected lost packets"),
    }

    let lifted = receiver.set_bandwidth_limit(None).expect("lifting is announced");
    assert!(matches!(lifted.feedback, RtcpPayloadFeedback::ApplicationSpecific(ref p) if *p == remb_payload(50_000_000, 5)));
    assert!(receiver.announce_bandwidth_limit().is_none());
    receiver.handle_end();
}

use webrtc_lib::media::sender::retransmissions;

#[test]
fn retransmissions_follow_nack_bits() {
    let feedback = RtcpTransportFeedback::GenericNACK(vec![
        RtcpFeedbackGenericNACK { packet_id: 100, bitmask_lost_packets: 0b101 },
        RtcpFeedbackGenericNACK { packet_id: 0xFFFF, bitmask_lost_packets: 0 },
    ]);
    // bit k of a NACK names the packet k + 1 after its first one
    assert_eq!(retransmissions(&feedback), vec![100, 101, 103, 0xFFFF]);
    // a request built for packets 10 and 12 sets bit 1 for packet 12,
    // which reads back as packet 12
    let request = resend_request(1, &[SequenceNumber::new(10u16), SequenceNumber::new(12u16)]);
    assert_eq!(retransmissions(&request.feedback), vec![10, 12]);
}

use webrtc_lib::transport::{remote_candidate_action, RemoteCandidateAction, RemoteCandidateInfo, RTCTransportICECandidateAddError};

#[test]
fn remote_candidates_are_checked() {
    let ip = Some(RemoteCandidateInfo { fqdn: false, component: 1 });
    let connecting = RTCTransportState::Connecting;
    let failed = RTCTransportState::UnrecoverableFailed(RTCTransportFailReason::IceFailure);
    assert_eq!(remote_candidate_action(failed, None, ip, 1), Ok(RemoteCandidateAction::Ignore));
    assert_eq!(remote_candidate_action(connecting, None, ip, 1), Err(RTCTransportICECandidateAddError::RemoteStateMissing));
    assert_eq!(
        remote_candidate_action(connecting, Some(true), ip, 1),
        Err(RTCTransportICECandidateAddError::RemoteCandidatesAlreadyReceived)
    );
    assert_eq!(remote_candidate_action(connecting, Some(false), ip, 1), Ok(RemoteCandidateAction::Add));
    assert_eq!(remote_candidate_action(connecting, Some(false), None, 1), Ok(RemoteCandidateAction::EndOfCandidates));
    assert_eq!(
        remote_candidate_action(connecting, Some(false), Some(RemoteCandidateInfo { fqdn: true, component: 1 }), 1),
        Err(RTCTransportICECandidateAddError::FqdnNotYetSupported)
    );
    assert_eq!(
        remote_candidate_action(connecting, Some(false), Some(RemoteCandidateInfo { fqdn: false, component: 2 }), 1),
        Err(RTCTransportICECandidateAddError::InvalidComponentIndex)
    );
}

use webrtc_lib::media::{media_line_codecs, MediaLineParseError};

#[test]
fn media_line_codecs_need_descriptions() {
    let rtpmaps = [96u8, 111];
    assert_eq!(media_line_codecs(false, false, false, false, Some(&[96]), &rtpmaps), Err(MediaLineParseError::MissingMediaId));
    assert_eq!(media_line_codecs(true, true, true, false, None, &rtpmaps), Err(MediaLineParseError::InvalidSendRecvStatus));
    assert_eq!(media_line_codecs(true, true, false, false, None, &rtpmaps), Ok(vec![]));
    assert_eq!(media_line_codecs(true, false, false, false, None, &rtpmaps), Err(MediaLineParseError::InvalidFormatList));
    assert_eq!(media_line_codecs(true, false, false, false, Some(&[111, 96]), &rtpmaps), Ok(vec![111, 96]));
    assert_eq!(
        media_line_codecs(true, false, false, false, Some(&[111, 97, 98]), &rtpmaps),
        Err(MediaLineParseError::MissingCodecDescription(97))
    );
    // a format names the payload type of its low eight bits
    assert_eq!(media_line_codecs(true, false, false, false, Some(&[352]), &rtpmaps), Ok(vec![96]));
}

#[test]
fn rtp_packets_are_read() {
    let packet = rtp_packet(0x1234, 3);
    assert!(!packet.mark());
    assert_eq!(packet.payload_type(), 96);
    assert_eq!(packet.csrc_count(), 0);
    assert_eq!(packet.sequence_number(), 0x1234);
    assert_eq!(packet.timestamp(), 1);
    assert_eq!(packet.ssrc(), 5);
    assert_eq!(packet.payload_offset(), 12);
    assert_eq!(packet.payload(), &[7, 7, 7]);
    assert_eq!(packet.into_raw_buffer().len(), 15);

    let short = ParsedRtpPacket::new(vec![0x80, 96, 0]);
    assert!(matches!(short, Err((RtpReadError::BufferTooShort(3), ref b)) if b.len() == 3));
    let mut version_one = vec![0u8; 12];
    version_one[0] = 0x40;
    assert!(matches!(ParsedRtpPacket::new(version_one), Err((RtpReadError::UnsupportedVersion(1), _))));
    // two contributing sources announced, none there
    let mut truncated = vec![0u8; 12];
    truncated[0] = 0x82;
    assert!(matches!(
        ParsedRtpPacket::new(truncated),
        Err((RtpReadError::HeadersTruncated { header_len: 20, buffer_len: 12 }, _))
    ));
    // padding: the last byte counts the padding, here two bytes
    let mut padded = vec![0xA0u8, 96, 0, 1, 0, 0, 0, 0, 0, 0, 0, 0, 9, 9, 0, 2];
    let packet = ParsedRtpPacket::new(padded.clone()).expect("padded packet");
    assert_eq!(packet.payload(), &[9, 9]);
    padded[15] = 0;
    assert!(matches!(ParsedRtpPacket::new(padded), Err((RtpReadError::PaddingLengthInvalid(0), _))));
}

#[test]
fn rtp_header_errors_follow_the_reader() {
    // an extension announced, its header missing
    let mut ext = vec![0u8; 14];
    ext[0] = 0x90;
    assert!(matches!(
        ParsedRtpPacket::new(ext.clone()),
        Err((RtpReadError::HeadersTruncated { header_len: 16, buffer_len: 14 }, _))
    ));
    // an extension of one word announced, its data missing
    let mut ext = vec![0x90u8, 96, 0, 1, 0, 0, 0, 0, 0, 0, 0, 0, 0xBE, 0xDE, 0, 1];
    assert!(matches!(
        ParsedRtpPacket::new(ext.clone()),
        Err((RtpReadError::HeadersTruncated { header_len: 20, buffer_len: 16 }, _))
    ));
    ext.extend_from_slice(&[1, 2, 3, 4, 9]);
    let packet = ParsedRtpPacket::new(ext).expect("extended packet");
    assert_eq!(packet.payload_offset(), 20);
    assert_eq!(packet.payload(), &[9]);
    // padding announced, no byte after the headers
    let mut bare = vec![0u8; 12];
    bare[0] = 0xA0;
    assert!(matches!(
        ParsedRtpPacket::new(bare),
        Err((RtpReadError::HeadersTruncated { header_len: 12, buffer_len: 11 }, _))
    ));
    // padding longer than what follows the headers
    let long_pad = vec![0xA0u8, 96, 0, 1, 0, 0, 0, 0, 0, 0, 0, 0, 1, 3];
    assert!(matches!(ParsedRtpPacket::new(long_pad), Err((RtpReadError::PaddingLengthInvalid(3), _))));
    // the whole rest is padding
    let all_pad = vec![0xA0u8, 96, 0, 1, 0, 0, 0, 0, 0, 0, 0, 0, 0, 2];
    let packet = ParsedRtpPacket::new(all_pad).expect("padding only");
    assert_eq!(packet.payload(), &[] as &[u8]);
}

#[test]
fn sent_packets_read_back() {
    let mut sender = MediaSender::new(0xCAFE);
    sender.set_payload_type(111);
    sender.set_contributing_sources(vec![1, 2]);
    sender.set_current_sequence_no(0xFFFF);
    assert!(sender.packet_fits(4, None));
    assert!(!sender.packet_fits(2048, None));
    let (sequence, bytes) = sender.send(&[1, 2, 3, 4], true, 90, None);
    assert_eq!(sequence, 0xFFFF);
    assert_eq!(sender.current_sequence_no(), 0);
    assert_eq!(sender.last_send_timestamp(), 90);
    assert_eq!(
        bytes,
        vec![0x82, 0x80 | 111, 0xFF, 0xFF, 0, 0, 0, 90, 0, 0, 0xCA, 0xFE, 0, 0, 0, 1, 0, 0, 0, 2, 1, 2, 3, 4]
    );
    let packet = ParsedRtpPacket::new(bytes).expect("a sent packet reads back");
    assert!(packet.mark());
    assert_eq!(packet.payload_type(), 111);
    assert_eq!(packet.sequence_number(), 0xFFFF);
    assert_eq!(packet.timestamp(), 90);
    assert_eq!(packet.ssrc(), 0xCAFE);
    assert_eq!(packet.csrc_count(), 2);
    assert_eq!(packet.payload(), &[1, 2, 3, 4]);

    let bytes = sender.send_seq(&[5], 7, false, 91, Some((0xBEDE, &[1, 2, 3, 4])));
    let packet = ParsedRtpPacket::new(bytes).expect("an extended packet reads back");
    assert_eq!(packet.sequence_number(), 7);
    assert_eq!(packet.payload_offset(), 12 + 8 + 8);
    assert_eq!(packet.payload(), &[5]);
    assert_eq!(sender.current_sequence_no(), 0);
}

#[test]
fn rtp_packet_header_fields() {
    let bytes = vec![0xB2u8, 96, 0, 1, 0, 0, 0, 1, 0, 0, 0, 5, 0, 0, 0, 7, 0, 0, 0, 8, 0xBE, 0xDE, 0, 1, 1, 2, 3, 4, 9, 0, 2];
    let packet = ParsedRtpPacket::new(bytes).expect("a packet");
    assert_eq!(packet.version(), 2);
    assert_eq!(packet.padding(), Some(2));
    assert_eq!(packet.csrc(), vec![7, 8]);
    assert_eq!(packet.extension(), Some((0xBEDE, &[1u8, 2, 3, 4][..])));
    assert_eq!(packet.payload(), &[9]);
    let plain = rtp_packet(5, 3);
    assert_eq!(plain.padding(), None);
    assert!(plain.csrc().is_empty());
    assert_eq!(plain.extension(), None);
}
