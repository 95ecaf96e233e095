use webrtc_lib::description::{
    apply_remote_description, create_local_description, KnownLine, LineChange, LocalLine, LocalLineContent,
    LocalMediaContent, LocalTransport, RemoteMediaLine,
};
use webrtc_lib::media::media_line::{Codec, CodecFeedback, MediaExtension, MediaLine, RemoteFmtp, RemoteRtcpFb, RemoteRtpmap};
use webrtc_lib::media::{MediaDirection, MediaLineParseError, NegotiationState, SsrcAttribute};
use webrtc_lib::rtc::{
    CreateAnswerError, MediaKind, RemoteDescriptionApplyError, RemoteLineAttribute, RtcDescriptionType, SetupRole,
    SignallingState,
};
use webrtc_lib::transport::{ICECredentials, RTPTransportSetup};

fn credentials(user: &str, pass: &str) -> ICECredentials {
    ICECredentials { username: String::from(user), password: String::from(pass) }
}

fn transport(id: u32, setup: RTPTransportSetup) -> LocalTransport {
    LocalTransport { id, credentials: credentials("local", "pw"), fingerprint: vec![0xAB, 0xCD], setup }
}

fn codec(payload_type: u8) -> Codec {
    Codec {
        payload_type,
        codec_name: String::from("opus"),
        frequency: 48000,
        channels: Some(2),
        parameters: Some(String::from("minptime=10")),
        feedback: vec![CodecFeedback { feedback_type: String::from("nack"), parameter: String::new(), extra: String::new() }],
    }
}

fn audio_line(index: u32, transport_id: u32, payload_types: Vec<u8>, state: NegotiationState) -> LocalLine {
    LocalLine {
        index,
        mid: format!("{}", index),
        transport_id,
        negotiation_state: state,
        content: LocalLineContent::Media {
            kind: MediaKind::Audio,
            codecs: payload_types.into_iter().map(codec).collect(),
            extensions: vec![MediaExtension { id: 1, url: String::from("urn:ietf:params:rtp-hdrext:ssrc-audio-level") }],
            has_local_streams: true,
            has_remote_streams: false,
        },
        ssrc_attributes: vec![SsrcAttribute { id: 5, attribute: Some(String::from("cname")), value: Some(String::from("x")) }],
    }
}

#[test]
fn local_description_describes_every_line() {
    let lines = vec![
        audio_line(0, 7, vec![111, 0], NegotiationState::Changed),
        LocalLine {
            index: 1,
            mid: String::from("data"),
            transport_id: 7,
            negotiation_state: NegotiationState::Negotiated,
            content: LocalLineContent::Application { sctp_port: 5000, max_channels: 1024 },
            ssrc_attributes: Vec::new(),
        },
    ];
    let transports = vec![transport(3, RTPTransportSetup::Active), transport(7, RTPTransportSetup::Unset)];
    let senders = vec![NegotiationState::Nothing, NegotiationState::Negotiated];
    let (d, state, line_states, sender_states) =
        create_local_description(SignallingState::Nothing, &lines, &transports, &senders).expect("a description");
    assert_eq!(d.bundle, vec![String::from("0"), String::from("data")]);
    assert_eq!(d.media.len(), 2);
    let m = &d.media[0];
    assert_eq!(m.mid, "0");
    assert_eq!((m.ice_ufrag.as_str(), m.ice_pwd.as_str(), m.trickle), ("local", "pw", true));
    assert_eq!(m.fingerprint, vec![0xAB, 0xCD]);
    // an undecided transport lets the remote side choose
    assert_eq!(m.setup, SetupRole::Actpass);
    match &m.content {
        LocalMediaContent::Media { kind, codecs, extensions, direction } => {
            assert_eq!(*kind, MediaKind::Audio);
            assert_eq!(codecs, &vec![codec(111), codec(0)]);
            assert_eq!(extensions.len(), 1);
            assert_eq!(extensions[0].id, 1);
            assert_eq!(*direction, MediaDirection::Sendonly);
        },
        other => panic!("unexpected content {:?}", other),
    }
    assert_eq!(m.ssrc_attributes, lines[0].ssrc_attributes);
    match &d.media[1].content {
        LocalMediaContent::Application { sctp_port, max_channels } => assert_eq!((*sctp_port, *max_channels), (5000, 1024)),
        other => panic!("unexpected content {:?}", other),
    }
    assert!(d.media[1].ssrc_attributes.is_empty());
    // an offer propagates what is new or changed
    assert_eq!(state, SignallingState::HaveLocalOffer);
    assert_eq!(line_states, vec![NegotiationState::Propagated, NegotiationState::Negotiated]);
    assert_eq!(sender_states, vec![NegotiationState::Propagated, NegotiationState::Negotiated]);

    // an answer settles everything
    let (_, state, line_states, sender_states) =
        create_local_description(SignallingState::HaveRemoteOffer, &lines, &transports, &senders).expect("an answer");
    assert_eq!(state, SignallingState::Negotiated);
    assert_eq!(line_states, vec![NegotiationState::Negotiated; 2]);
    assert_eq!(sender_states, vec![NegotiationState::Negotiated; 2]);
}

#[test]
fn local_description_errors() {
    let transports = vec![transport(7, RTPTransportSetup::Passive)];
    let lines = vec![audio_line(0, 7, vec![111], NegotiationState::Changed)];
    assert!(matches!(
        create_local_description(SignallingState::HaveLocalOffer, &lines, &transports, &[]),
        Err(CreateAnswerError::InvalidNegotiationState)
    ));
    assert!(matches!(
        create_local_description(SignallingState::Negotiated, &lines, &transports, &[]),
        Err(CreateAnswerError::InvalidNegotiationState)
    ));
    let lines = vec![
        audio_line(0, 7, vec![111], NegotiationState::Changed),
        audio_line(1, 9, vec![111], NegotiationState::Changed),
        audio_line(2, 7, vec![], NegotiationState::Changed),
    ];
    assert!(matches!(
        create_local_description(SignallingState::Nothing, &lines, &transports, &[]),
        Err(CreateAnswerError::MissingTransportChannel(1))
    ));
    let lines = vec![audio_line(0, 7, vec![], NegotiationState::Changed), audio_line(1, 9, vec![111], NegotiationState::Changed)];
    assert!(matches!(
        create_local_description(SignallingState::Nothing, &lines, &transports, &[]),
        Err(CreateAnswerError::DescribeError(0))
    ));
}

fn rtpmap(payload_type: u8) -> RemoteRtpmap {
    RemoteRtpmap { payload_type, codec_name: format!("c{}", payload_type), frequency: 90000, channels: None }
}

fn remote_line(user: &str, setup: SetupRole, formats: Vec<u32>, described: Vec<u8>) -> RemoteMediaLine {
    RemoteMediaLine {
        ice_ufrag: Some(String::from(user)),
        ice_pwd: Some(String::from("pw")),
        setup: Some(setup),
        has_mid: true,
        application: false,
        receive_only: false,
        send_only: false,
        formats: Some(formats),
        rtpmaps: described.into_iter().map(rtpmap).collect(),
        fmtps: Vec::new(),
        rtcp_fbs: Vec::new(),
        ssrc_ids: vec![9, 9, 4],
    }
}

#[test]
fn remote_description_applies_its_lines() {
    let transports = vec![(credentials("a", "pw"), RTPTransportSetup::Passive)];
    let known = vec![KnownLine { transport: 0, negotiation_state: NegotiationState::Propagated }];
    let remote = vec![
        remote_line("a", SetupRole::Active, vec![111], vec![111]),
        remote_line("b", SetupRole::Passive, vec![96, 97], vec![97, 96]),
        remote_line("b", SetupRole::Passive, vec![0], vec![0]),
    ];
    let senders = vec![NegotiationState::Propagated, NegotiationState::Changed];
    let out = apply_remote_description(SignallingState::HaveLocalOffer, RtcDescriptionType::Answer, &known, &remote, &transports, &senders);
    let (state, line_states, sender_states) = out.result.expect("applied");
    assert_eq!(state, SignallingState::Negotiated);
    assert_eq!(line_states, vec![NegotiationState::Negotiated]);
    assert_eq!(sender_states, vec![NegotiationState::Negotiated, NegotiationState::Changed]);
    assert_eq!(out.changes.len(), 3);
    match &out.changes[0] {
        LineChange::Updated { remote_streams } => assert_eq!(remote_streams, &vec![9, 4]),
        other => panic!("unexpected change {:?}", other),
    }
    // the second line gets a new transport, the third shares it
    match &out.changes[1] {
        LineChange::Created { transport, codecs, remote_streams } => {
            assert_eq!(*transport, 1);
            let types: Vec<u8> = codecs.iter().map(|c| c.payload_type).collect();
            assert_eq!(types, vec![96, 97]);
            assert_eq!(codecs[1].codec_name, "c97");
            assert_eq!(remote_streams, &vec![9, 4]);
        },
        other => panic!("unexpected change {:?}", other),
    }
    match &out.changes[2] {
        LineChange::Created { transport, codecs, .. } => {
            assert_eq!(*transport, 1);
            assert_eq!(codecs.len(), 1);
            assert_eq!(codecs[0].payload_type, 0);
        },
        other => panic!("unexpected change {:?}", other),
    }
    assert_eq!(out.new_transports.len(), 1);
    assert_eq!(out.new_transports[0].0.username, "b");
    assert_eq!(out.new_transports[0].1, RTPTransportSetup::Active);
}

#[test]
fn remote_description_errors() {
    let transports = vec![(credentials("a", "pw"), RTPTransportSetup::Passive)];
    let known = vec![KnownLine { transport: 0, negotiation_state: NegotiationState::Negotiated }];
    let good = remote_line("a", SetupRole::Active, vec![111], vec![111]);
    let out = apply_remote_description(SignallingState::HaveRemoteOffer, RtcDescriptionType::Offer, &known, &[good.clone()], &transports, &[]);
    assert_eq!(out.result.err(), Some(RemoteDescriptionApplyError::InvalidNegotiationState));
    let out = apply_remote_description(SignallingState::Negotiated, RtcDescriptionType::Offer, &known, &[], &transports, &[]);
    assert_eq!(out.result.err(), Some(RemoteDescriptionApplyError::MissingMediaLines));
    // a known line changing its credentials
    let moved = remote_line("z", SetupRole::Active, vec![111], vec![111]);
    let out = apply_remote_description(SignallingState::Negotiated, RtcDescriptionType::Offer, &known, &[moved], &transports, &[]);
    assert_eq!(out.result.err(), Some(RemoteDescriptionApplyError::MissMatchingIceSettings { media_index: 0 }));
    // a known line whose transport is gone
    let lost = vec![KnownLine { transport: 4, negotiation_state: NegotiationState::Negotiated }];
    let out = apply_remote_description(SignallingState::Negotiated, RtcDescriptionType::Offer, &lost, &[good.clone()], &transports, &[]);
    assert_eq!(out.result.err(), Some(RemoteDescriptionApplyError::MissingTransport { media_index: 0 }));
    // the second line lacks its password; the first one was applied
    let mut no_pwd = good.clone();
    no_pwd.ice_pwd = None;
    let out = apply_remote_description(SignallingState::Negotiated, RtcDescriptionType::Offer, &known, &[good.clone(), no_pwd], &transports, &[]);
    assert_eq!(
        out.result.err(),
        Some(RemoteDescriptionApplyError::MissingAttribute { media_index: 1, attribute: RemoteLineAttribute::IcePwd })
    );
    assert_eq!(out.changes.len(), 1);
    // a new line sharing a transport with another role
    let mixed = remote_line("a", SetupRole::Passive, vec![111], vec![111]);
    let out = apply_remote_description(SignallingState::Negotiated, RtcDescriptionType::Offer, &known, &[good.clone(), mixed], &transports, &[]);
    assert_eq!(out.result.err(), Some(RemoteDescriptionApplyError::MixedIceSetupStates));
    // a new line whose codec is not described keeps the transport made for it
    let undescribed = remote_line("c", SetupRole::Active, vec![96], vec![97]);
    let out = apply_remote_description(SignallingState::Nothing, RtcDescriptionType::Offer, &[], &[undescribed], &transports, &[]);
    assert_eq!(
        out.result.err(),
        Some(RemoteDescriptionApplyError::MediaLineParseError {
            media_line: 0,
            error: MediaLineParseError::MissingCodecDescription(96)
        })
    );
    assert_eq!(out.new_transports.len(), 1);
    assert!(out.changes.is_empty());
}

#[test]
fn media_line_registries() {
    let mut line = MediaLine::new(2, String::from("audio"), MediaKind::Audio);
    assert!(!line.requires_negotiation);
    line.register_local_codec(codec(111));
    line.register_local_codec(codec(0));
    let mut replacement = codec(111);
    replacement.frequency = 16000;
    line.register_local_codec(replacement.clone());
    assert!(line.requires_negotiation);
    assert_eq!(line.local_codecs, vec![codec(0), replacement]);
    line.unregister_local_codec(0);
    assert_eq!(line.local_codecs.len(), 1);
    line.register_local_extension(MediaExtension { id: 3, url: String::from("a") });
    line.register_local_extension(MediaExtension { id: 4, url: String::from("b") });
    line.register_local_extension(MediaExtension { id: 3, url: String::from("c") });
    line.unregister_local_extension(4);
    assert_eq!(line.local_extensions, vec![MediaExtension { id: 3, url: String::from("c") }]);
    line.local_streams.push(9);
    match line.local_content() {
        LocalLineContent::Media { kind, codecs, extensions, has_local_streams, has_remote_streams } => {
            assert_eq!(kind, MediaKind::Audio);
            assert_eq!(codecs, line.local_codecs);
            assert_eq!(extensions, line.local_extensions);
            assert!(has_local_streams);
            assert!(!has_remote_streams);
        },
        other => panic!("unexpected content {:?}", other),
    }
}

#[test]
fn remote_codecs_gather_their_attributes() {
    let mut line = remote_line("n", SetupRole::Active, vec![96, 97], vec![96, 97, 96]);
    line.rtpmaps[2].codec_name = String::from("shadowed");
    line.fmtps = vec![
        RemoteFmtp { payload_type: 97, parameters: String::from("apt=96") },
        RemoteFmtp { payload_type: 96, parameters: String::from("first") },
        RemoteFmtp { payload_type: 96, parameters: String::from("second") },
    ];
    let fb = |t: &str| CodecFeedback { feedback_type: String::from(t), parameter: String::new(), extra: String::new() };
    line.rtcp_fbs = vec![
        RemoteRtcpFb { payload_type: Some(96), feedback: fb("nack") },
        RemoteRtcpFb { payload_type: None, feedback: fb("transport-cc") },
        RemoteRtcpFb { payload_type: Some(97), feedback: fb("ccm") },
    ];
    let out = apply_remote_description(SignallingState::Nothing, RtcDescriptionType::Offer, &[], &[line], &[], &[]);
    assert!(out.result.is_ok());
    match &out.changes[0] {
        LineChange::Created { codecs, .. } => {
            assert_eq!(codecs[0].codec_name, "c96");
            assert_eq!(codecs[0].parameters, Some(String::from("first")));
            assert_eq!(codecs[0].feedback, vec![fb("nack"), fb("transport-cc")]);
            assert_eq!(codecs[1].parameters, Some(String::from("apt=96")));
            assert_eq!(codecs[1].feedback, vec![fb("transport-cc"), fb("ccm")]);
            assert_eq!(codecs[1].frequency, 90000);
        },
        other => panic!("unexpected change {:?}", other),
    }
}
