use webrtc_lib::rtc::{
    check_known_line, check_media_line_count, ice_event_action, remote_line_transport,
    rtp_route, shared_transport, CreateAnswerError, IceEventAction, RemoteLineAttribute, RemoteDescriptionApplyError, RtpRoute,
    SetupRole, TransportEventKind,
};
use webrtc_lib::srtp2::{selected_profile_key_lengths, SrtpProfile, SrtpProfileError};
use webrtc_lib::transport::{
    apply_remote_attributes, transport_poll_step, ICECredentials, IceComponentState,
    RTCTransportDescriptionApplyError, RTCTransportFailReason, RTCTransportState, RTPTransportSetup,
    RemoteTransportAttributes, TransportEvent, TransportPollAction, TransportPollInput, TransportPollSource,
    TransportPollState,
};

fn credentials(user: &str, pass: &str) -> ICECredentials {
    ICECredentials { username: String::from(user), password: String::from(pass) }
}

fn attributes() -> RemoteTransportAttributes {
    RemoteTransportAttributes {
        rtcp_mux: true,
        application: false,
        ice_ufrag: Some(String::from("user")),
        ice_pwd: Some(String::from("secret")),
        fingerprint: Some(vec![1, 2, 3]),
        setup: Some(SetupRole::Actpass),
    }
}

#[test]
fn remote_transport_attributes_are_checked_in_order() {
    let mut a = attributes();
    a.rtcp_mux = false;
    a.ice_ufrag = None;
    let (state, r) = apply_remote_attributes(RTPTransportSetup::Unset, false, &a);
    assert!(state.is_none());
    assert_eq!(r, Err(RTCTransportDescriptionApplyError::MissingRtcpMux));
    // application lines need no RTCP multiplexing
    a.application = true;
    assert_eq!(
        apply_remote_attributes(RTPTransportSetup::Unset, false, &a).1,
        Err(RTCTransportDescriptionApplyError::MissingUsernameFragment)
    );
    let mut a = attributes();
    a.ice_pwd = None;
    assert_eq!(apply_remote_attributes(RTPTransportSetup::Unset, false, &a).1, Err(RTCTransportDescriptionApplyError::MissingPassword));
    let mut a = attributes();
    a.fingerprint = None;
    assert_eq!(apply_remote_attributes(RTPTransportSetup::Unset, false, &a).1, Err(RTCTransportDescriptionApplyError::MissingFingerprint));
    let mut a = attributes();
    a.setup = None;
    assert_eq!(apply_remote_attributes(RTPTransportSetup::Unset, false, &a).1, Err(RTCTransportDescriptionApplyError::MissingSetup));
}

#[test]
fn remote_transport_attributes_set_the_peer() {
    let (state, r) = apply_remote_attributes(RTPTransportSetup::Unset, false, &attributes());
    assert_eq!(r, Ok(RTPTransportSetup::Passive));
    let state = state.expect("peer state");
    assert_eq!(state.credentials.username, "user");
    assert_eq!(state.credentials.password, "secret");
    assert_eq!(state.fingerprint, vec![1, 2, 3]);
    assert!(!state.candidates_gathered);
    // a transport that let the remote side choose cannot be told to choose
    let (state, r) = apply_remote_attributes(RTPTransportSetup::Actpass, false, &attributes());
    assert!(state.is_some());
    assert_eq!(r, Err(RTCTransportDescriptionApplyError::InvalidSetupValue));
    // a transport that knows its peer keeps it and its role
    let (state, r) = apply_remote_attributes(RTPTransportSetup::Active, true, &attributes());
    assert!(state.is_none());
    assert_eq!(r, Ok(RTPTransportSetup::Active));
}

#[test]
fn remote_media_lines_are_checked() {
    assert_eq!(check_media_line_count(3, 2), Err(RemoteDescriptionApplyError::MissingMediaLines));
    assert_eq!(check_media_line_count(2, 2), Ok(()));
    let user = Some(String::from("u"));
    let pass = Some(String::from("p"));
    assert_eq!(
        remote_line_transport(4, &None, &pass, Some(SetupRole::Active)).err(),
        Some(RemoteDescriptionApplyError::MissingAttribute { media_index: 4, attribute: RemoteLineAttribute::IceUfrag })
    );
    assert_eq!(
        remote_line_transport(4, &user, &None, Some(SetupRole::Active)).err(),
        Some(RemoteDescriptionApplyError::MissingAttribute { media_index: 4, attribute: RemoteLineAttribute::IcePwd })
    );
    assert_eq!(
        remote_line_transport(4, &user, &pass, None).err(),
        Some(RemoteDescriptionApplyError::MissingAttribute { media_index: 4, attribute: RemoteLineAttribute::Setup })
    );
    assert_eq!(
        remote_line_transport(4, &user, &pass, Some(SetupRole::Holdconn)).err(),
        Some(RemoteDescriptionApplyError::IceSetupUnsupported { media_index: 4 })
    );
    let (c, local) = remote_line_transport(0, &user, &pass, Some(SetupRole::Active)).expect("line");
    assert_eq!((c.username.as_str(), c.password.as_str(), local), ("u", "p", SetupRole::Passive));
    let (_, local) = remote_line_transport(0, &user, &pass, Some(SetupRole::Passive)).expect("line");
    assert_eq!(local, SetupRole::Active);
    let (_, local) = remote_line_transport(0, &user, &pass, Some(SetupRole::Actpass)).expect("line");
    assert_eq!(local, SetupRole::Passive);
}

#[test]
fn known_lines_keep_their_transport() {
    let c = credentials("u", "p");
    assert_eq!(check_known_line(1, &c, RTPTransportSetup::Passive, &credentials("u", "p"), SetupRole::Passive), Ok(()));
    assert_eq!(
        check_known_line(1, &c, RTPTransportSetup::Passive, &credentials("u", "q"), SetupRole::Passive),
        Err(RemoteDescriptionApplyError::MissMatchingIceSettings { media_index: 1 })
    );
    assert_eq!(
        check_known_line(2, &c, RTPTransportSetup::Active, &credentials("u", "p"), SetupRole::Passive),
        Err(RemoteDescriptionApplyError::MissMatchingIceSettings { media_index: 2 })
    );
    let transports = vec![
        (credentials("a", "1"), RTPTransportSetup::Active),
        (credentials("b", "2"), RTPTransportSetup::Passive),
    ];
    assert_eq!(shared_transport(&transports, &credentials("b", "2"), SetupRole::Passive), Ok(Some(1)));
    assert_eq!(shared_transport(&transports, &credentials("b", "2"), SetupRole::Active), Err(RemoteDescriptionApplyError::MixedIceSetupStates));
    assert_eq!(shared_transport(&transports, &credentials("c", "3"), SetupRole::Active), Ok(None));
}

#[test]
fn transport_events_are_dispatched() {
    let connected = RTCTransportState::Connected;
    let connecting = RTCTransportState::Connecting;
    assert_eq!(
        ice_event_action(TransportEventKind::LocalIceCandidate, connecting, 3),
        IceEventAction::AnnounceLocalCandidate { end: false, media_line: 3 }
    );
    assert_eq!(
        ice_event_action(TransportEventKind::LocalIceGatheringFinished, connecting, 3),
        IceEventAction::AnnounceLocalCandidate { end: true, media_line: 3 }
    );
    assert_eq!(ice_event_action(TransportEventKind::TransportStateChanged, connected, 0), IceEventAction::TransportConnected);
    assert_eq!(ice_event_action(TransportEventKind::TransportStateChanged, connecting, 0), IceEventAction::Ignore);
    assert_eq!(ice_event_action(TransportEventKind::MessageReceivedDtls, connected, 0), IceEventAction::ApplicationData);
    assert_eq!(ice_event_action(TransportEventKind::MessageReceivedRtcp, connected, 0), IceEventAction::RouteRtcp);
    assert_eq!(ice_event_action(TransportEventKind::MessageReceivedRtp, connected, 0), IceEventAction::RouteRtp);
    assert_eq!(ice_event_action(TransportEventKind::MessageDropped, connected, 0), IceEventAction::Ignore);
    assert_eq!(ice_event_action(TransportEventKind::IceStateChanged, connected, 0), IceEventAction::Ignore);

    let receivers = [(10u32, 1u32), (20, 2)];
    assert_eq!(rtp_route(20, &receivers, 2), RtpRoute::Receiver(1));
    assert_eq!(rtp_route(20, &receivers, 1), RtpRoute::WrongTransport);
    assert_eq!(rtp_route(30, &receivers, 1), RtpRoute::Unassignable);
}

#[test]
fn srtp_profile_is_required() {
    assert_eq!(selected_profile_key_lengths(None), Err(SrtpProfileError::MissingSrtpProfile));
    assert_eq!(selected_profile_key_lengths(Some(SrtpProfile::Other(7))), Err(SrtpProfileError::SrtpProfileNotSupported));
    assert_eq!(selected_profile_key_lengths(Some(SrtpProfile::Aes128CmSha1_80)), Ok((16, 14)));
    assert_eq!(selected_profile_key_lengths(Some(SrtpProfile::Aes128CmSha1_32)), Ok((16, 14)));
}

fn poll_state() -> TransportPollState {
    TransportPollState {
        state: RTCTransportState::Disconnected,
        candidates_gathered: false,
        dtls_connected: false,
        pending: Vec::new(),
    }
}

#[test]
fn transport_polling_follows_its_sources() {
    let mut p = poll_state();
    assert_eq!(transport_poll_step(&mut p, TransportPollInput::Begin), TransportPollAction::Poll(TransportPollSource::Gathering));
    assert_eq!(
        transport_poll_step(&mut p, TransportPollInput::Gathering(Some(Some(4)))),
        TransportPollAction::Emit(TransportEvent::LocalIceCandidate(4))
    );
    assert_eq!(
        transport_poll_step(&mut p, TransportPollInput::Gathering(None)),
        TransportPollAction::Poll(TransportPollSource::ComponentState)
    );
    assert_eq!(
        transport_poll_step(&mut p, TransportPollInput::Gathering(Some(None))),
        TransportPollAction::Emit(TransportEvent::LocalIceGatheringFinished)
    );
    assert!(p.candidates_gathered);
    // once gathered, polls go to the component state
    assert_eq!(
        transport_poll_step(&mut p, TransportPollInput::Begin),
        TransportPollAction::Poll(TransportPollSource::ComponentState)
    );
    // a change of the transport state is queued behind the component state
    assert_eq!(
        transport_poll_step(&mut p, TransportPollInput::ComponentState(Some(Some(IceComponentState::Connecting)))),
        TransportPollAction::Emit(TransportEvent::IceStateChanged(IceComponentState::Connecting))
    );
    assert_eq!(p.state, RTCTransportState::Connecting);
    assert_eq!(p.pending, vec![TransportEvent::TransportStateChanged]);
    assert_eq!(
        transport_poll_step(&mut p, TransportPollInput::Begin),
        TransportPollAction::Emit(TransportEvent::TransportStateChanged)
    );
    assert!(p.pending.is_empty());
    assert_eq!(
        transport_poll_step(&mut p, TransportPollInput::ComponentState(None)),
        TransportPollAction::Poll(TransportPollSource::Data)
    );
    // a failed component fails the transport for good
    assert_eq!(
        transport_poll_step(&mut p, TransportPollInput::ComponentState(Some(Some(IceComponentState::Failed)))),
        TransportPollAction::Emit(TransportEvent::TransportStateChanged)
    );
    assert_eq!(p.state, RTCTransportState::UnrecoverableFailed(RTCTransportFailReason::IceFailure));
    assert_eq!(transport_poll_step(&mut p, TransportPollInput::Begin), TransportPollAction::Pending);

    let mut p = poll_state();
    p.candidates_gathered = true;
    assert_eq!(
        transport_poll_step(&mut p, TransportPollInput::ComponentState(Some(None))),
        TransportPollAction::Emit(TransportEvent::TransportStateChanged)
    );
    assert_eq!(p.state, RTCTransportState::UnrecoverableFailed(RTCTransportFailReason::IceFinished));
}

