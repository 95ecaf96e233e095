use std::collections::BTreeMap;
use webrtc_lib::media::NegotiationState;
use webrtc_lib::rtc::{
    line_after_local_description, line_after_remote_description, route_rtcp_message, route_rtcp_packet,
    RtcDescriptionType, RtcpRoute, SignallingState, receiver_changes, sender_media_line, MediaKind,
};
use webrtc_lib::utils::rtcp::packet::meets_empty_packet;
use webrtc_lib::utils::rtcp::{RtcpPacket, RtcpReportBlock};
use webrtc_lib::utils::rtcp::packets::{
    RtcpFeedbackGenericNACK, RtcpPacketBye, RtcpPacketPayloadFeedback, RtcpPacketReceiverReport,
    RtcpPacketSenderReport, RtcpPacketSourceDescription, RtcpPacketTransportFeedback, RtcpPayloadFeedback,
    RtcpTransportFeedback, SourceDescription,
};

fn block(n: u32) -> RtcpReportBlock {
    RtcpReportBlock {
        fraction_lost: n as u8,
        cumulative_packets_lost: n,
        highest_sequence_received: n,
        jitter: n,
        timestamp_last_sr: n,
        delay_since_last_sr: n,
    }
}

fn sender_report(ssrc: u32) -> RtcpPacketSenderReport {
    RtcpPacketSenderReport {
        ssrc,
        network_timestamp: 1,
        rtp_timestamp: 2,
        packet_count: 3,
        byte_count: 4,
        reports: BTreeMap::new(),
        profile_data: None,
    }
}

#[test]
fn receiver_report_blocks_go_to_senders_in_ssrc_order() {
    let mut reports = BTreeMap::new();
    reports.insert(9, block(9));
    reports.insert(3, block(3));
    reports.insert(5, block(5));
    let rr = RtcpPacketReceiverReport { ssrc: 1, reports, profile_data: Some(vec![1, 2, 3, 4]) };
    let routes = route_rtcp_packet(RtcpPacket::ReceiverReport(rr), &[9, 3, 7], &[5]);
    assert_eq!(routes.len(), 2);
    match &routes[0] {
        RtcpRoute::ReceiverReportBlock { ssrc, report, profile_data } => {
            assert_eq!(*ssrc, 3);
            assert_eq!(*report, block(3));
            assert_eq!(profile_data, &Some(vec![1, 2, 3, 4]));
        },
        other => panic!("unexpected route {:?}", other),
    }
    assert!(matches!(routes[1], RtcpRoute::ReceiverReportBlock { ssrc: 9, .. }));
}

#[test]
fn sender_report_goes_to_its_receiver_or_the_user() {
    let routes = route_rtcp_packet(RtcpPacket::SenderReport(sender_report(7)), &[7], &[7]);
    assert!(matches!(&routes[..], [RtcpRoute::SenderReport(sr)] if sr.ssrc == 7));
    let routes = route_rtcp_packet(RtcpPacket::SenderReport(sender_report(8)), &[8], &[7]);
    assert!(matches!(&routes[..], [RtcpRoute::Unassignable(RtcpPacket::SenderReport(sr))] if sr.ssrc == 8));
}

#[test]
fn source_descriptions_go_to_receivers() {
    let sd = RtcpPacketSourceDescription {
        descriptions: vec![
            (1, SourceDescription::CName(String::from("a"))),
            (2, SourceDescription::Name(String::from("b"))),
            (1, SourceDescription::Tool(String::from("c"))),
        ],
    };
    let routes = route_rtcp_packet(RtcpPacket::SourceDescription(sd), &[2], &[1]);
    assert_eq!(routes.len(), 2);
    assert!(matches!(&routes[0], RtcpRoute::SourceDescription { ssrc: 1, description: SourceDescription::CName(n) } if n == "a"));
    assert!(matches!(&routes[1], RtcpRoute::SourceDescription { ssrc: 1, description: SourceDescription::Tool(n) } if n == "c"));
}

#[test]
fn feedback_goes_to_the_media_sender() {
    let fb = RtcpPacketTransportFeedback {
        ssrc: 1,
        media_ssrc: 2,
        feedback: RtcpTransportFeedback::GenericNACK(vec![RtcpFeedbackGenericNACK { packet_id: 5, bitmask_lost_packets: 0 }]),
    };
    let routes = route_rtcp_packet(RtcpPacket::TransportFeedback(fb.clone()), &[2], &[]);
    assert!(matches!(&routes[..], [RtcpRoute::TransportFeedback { ssrc: 2, .. }]));
    let routes = route_rtcp_packet(RtcpPacket::TransportFeedback(fb), &[1], &[2]);
    assert!(matches!(&routes[..], [RtcpRoute::Unassignable(RtcpPacket::TransportFeedback(_))]));
    let pli = RtcpPacketPayloadFeedback { ssrc: 3, media_ssrc: 4, feedback: RtcpPayloadFeedback::PictureLossIndication };
    let routes = route_rtcp_packet(RtcpPacket::PayloadFeedback(pli.clone()), &[4], &[]);
    assert!(matches!(&routes[..], [RtcpRoute::PayloadFeedback { ssrc: 4, feedback: RtcpPayloadFeedback::PictureLossIndication }]));
    let routes = route_rtcp_packet(RtcpPacket::PayloadFeedback(pli), &[], &[4]);
    assert!(matches!(&routes[..], [RtcpRoute::Unassignable(RtcpPacket::PayloadFeedback(_))]));
}

#[test]
fn goodbye_and_unknown_packets() {
    let bye = RtcpPacketBye { src: vec![1], reason: None };
    assert!(route_rtcp_packet(RtcpPacket::Bye(bye), &[1], &[1]).is_empty());
    let routes = route_rtcp_packet(RtcpPacket::Unknown(vec![0x80, 204, 0, 0]), &[], &[]);
    assert!(matches!(&routes[..], [RtcpRoute::Unknown(d)] if d == &vec![0x80, 204, 0, 0]));
}

#[test]
fn compound_packet_routes_each_packet() {
    let mut message = RtcpPacket::SenderReport(sender_report(7)).to_vec().unwrap();
    let bye = RtcpPacket::Bye(RtcpPacketBye { src: vec![7], reason: None }).to_vec().unwrap();
    message.extend_from_slice(&bye);
    // an application defined packet, kept as bytes
    message.extend_from_slice(&[0x80, 204, 0, 1, 0, 0, 0, 9]);
    assert!(!meets_empty_packet(&message, 128));
    let routes = route_rtcp_message(&message, &[], &[7]);
    assert_eq!(routes.len(), 2);
    assert!(matches!(&routes[0], RtcpRoute::SenderReport(sr) if sr.ssrc == 7));
    assert!(matches!(&routes[1], RtcpRoute::Unknown(d) if d.len() == 8));
    // a message whose length fields do not add up routes nothing
    message.push(0);
    assert!(route_rtcp_message(&message, &[], &[7]).is_empty());
}

#[test]
fn empty_packets_are_found() {
    assert!(meets_empty_packet(&[0x80, 200, 0, 0], 128));
    assert!(!meets_empty_packet(&[0x80, 200, 0, 0], 0));
    assert!(!meets_empty_packet(&[0x80, 200, 0, 1, 0, 0, 0, 0], 128));
    assert!(meets_empty_packet(&[0x80, 200, 0, 1, 0, 0, 0, 0, 0x80, 201, 0, 0], 128));
}

#[test]
fn descriptions_allowed_by_signalling_state() {
    let states = [
        SignallingState::Nothing,
        SignallingState::HaveLocalOffer,
        SignallingState::HaveRemoteOffer,
        SignallingState::Negotiated,
        SignallingState::NegotiationRequired,
    ];
    let offers: Vec<bool> = states.iter().map(|s| s.remote_description_allowed(RtcDescriptionType::Offer)).collect();
    assert_eq!(offers, vec![true, false, false, true, false]);
    let answers: Vec<bool> = states.iter().map(|s| s.remote_description_allowed(RtcDescriptionType::Answer)).collect();
    assert_eq!(answers, vec![false, true, false, false, false]);
    let local: Vec<bool> = states.iter().map(|s| s.local_description_allowed()).collect();
    assert_eq!(local, vec![true, false, true, false, true]);
}

#[test]
fn offer_answer_rounds() {
    // a local offer and the remote answer
    let s = SignallingState::Nothing.after_local_description();
    assert_eq!(s, SignallingState::HaveLocalOffer);
    let line = line_after_local_description(SignallingState::Nothing, NegotiationState::Nothing);
    assert_eq!(line, NegotiationState::Propagated);
    assert_eq!(line_after_local_description(SignallingState::Nothing, NegotiationState::Negotiated), NegotiationState::Negotiated);
    assert_eq!(line_after_remote_description(s, line), NegotiationState::Negotiated);
    assert_eq!(line_after_remote_description(s, NegotiationState::Changed), NegotiationState::Changed);
    assert_eq!(s.after_remote_description(), SignallingState::Negotiated);
    // a remote offer and the local answer
    let s = SignallingState::Negotiated.after_remote_description();
    assert_eq!(s, SignallingState::HaveRemoteOffer);
    assert_eq!(line_after_remote_description(SignallingState::Negotiated, NegotiationState::Propagated), NegotiationState::Propagated);
    assert_eq!(line_after_local_description(s, NegotiationState::Changed), NegotiationState::Negotiated);
    assert_eq!(s.after_local_description(), SignallingState::Negotiated);
    assert_eq!(SignallingState::NegotiationRequired.after_local_description(), SignallingState::HaveLocalOffer);
}

#[test]
fn negotiation_required_once_negotiated() {
    let s = SignallingState::Negotiated;
    assert!(!s.negotiation_required(&[NegotiationState::Negotiated, NegotiationState::Propagated], false));
    assert!(s.negotiation_required(&[NegotiationState::Negotiated, NegotiationState::Changed], false));
    assert!(s.negotiation_required(&[NegotiationState::Nothing], false));
    assert!(s.negotiation_required(&[], true));
    assert!(!SignallingState::HaveLocalOffer.negotiation_required(&[NegotiationState::Changed], true));
}

#[test]
fn receivers_follow_remote_streams() {
    let receivers = [(5, 0), (6, 0), (7, 1), (8, 0)];
    let (ended, started) = receiver_changes(&receivers, 0, &[6, 9, 7, 9, 10]);
    assert_eq!(ended, vec![5, 8]);
    assert_eq!(started, vec![9, 10]);
    let (ended, started) = receiver_changes(&[], 0, &[]);
    assert!(ended.is_empty() && started.is_empty());
}

#[test]
fn senders_reuse_free_media_lines() {
    let lines = [(MediaKind::Audio, false), (MediaKind::Video, true), (MediaKind::Audio, true)];
    assert_eq!(sender_media_line(&lines, MediaKind::Audio), Some(2));
    assert_eq!(sender_media_line(&lines, MediaKind::Video), Some(1));
    assert_eq!(sender_media_line(&lines, MediaKind::Application), None);
}
