use webrtc_lib::application::{
    ApplicationAction, ApplicationChannelEvent, ApplicationChannelState, ChannelApplication,
    DataChannelAction, DataChannelEvent, DataChannelMessage, DataChannelState,
};
use webrtc_lib::rtc::SetupRole;
use webrtc_lib::sctp::message::{
    DataChannelControlMessage, DataChannelControlMessageOpen, DataChannelControlMessageOpenAck,
    DataChannelMessage as RawMessage, DataChannelType,
};
use webrtc_lib::sctp::notification::{
    SctpNotification, SctpNotificationAssocChange, SctpNotificationStreamReset, SctpSacState,
};

fn open_request(label: &str) -> DataChannelControlMessage {
    DataChannelControlMessage::Open(DataChannelControlMessageOpen {
        channel_type: DataChannelType::Reliable,
        priority: 7,
        label: String::from(label),
        protocol: String::from("chat"),
    })
}

fn comm_up() -> SctpNotification {
    SctpNotification::AssocChange(SctpNotificationAssocChange {
        flags: 0,
        state: SctpSacState::CommUp,
        error: 0,
        outbound_streams: 1024,
        inbound_streams: 1024,
        assoc_id: 1,
    })
}

fn stream_reset(flags: u16, streams: Vec<u16>) -> SctpNotification {
    SctpNotification::StreamReset(SctpNotificationStreamReset { flags, assoc_id: 1, streams })
}

/// An application channel of the DTLS server side whose association is up.
fn connected_server() -> ChannelApplication {
    let mut app = ChannelApplication::new();
    assert_eq!(app.set_remote_description(Some(SetupRole::Active), Some(5001)), Ok(Some(5001)));
    app.remote_configured(5001);
    assert_eq!(app.handle_transport_connected(true), Some(5001));
    let (event, actions) = app.process_sctp_notification(&comm_up());
    assert!(matches!(event, Some(ApplicationChannelEvent::StateChanged { new_state: ApplicationChannelState::Connected })));
    assert!(actions.is_empty());
    app
}

#[test]
fn new_application_channel_is_disconnected() {
    let app = ChannelApplication::new();
    assert_eq!(app.state(), ApplicationChannelState::Disconnected);
    assert_eq!(app.max_outgoing_channel(), 1024);
}

#[test]
fn client_creates_even_streams_while_disconnected() {
    let mut app = ChannelApplication::new();
    for k in 0..3u16 {
        let (channel, actions) = app
            .create_data_channel(DataChannelType::Reliable, String::from("a"), None, 1)
            .unwrap();
        assert!(actions.is_empty());
        assert_eq!(channel.unique_id(), k as u32);
        assert_eq!(*channel.state(), DataChannelState::Closed);
        assert_eq!(channel.protocol(), "");
        assert_eq!(channel.label(), "a");
        let mut channel = channel;
        assert_eq!(channel.send_text_message(None), Err(String::from("channel isn't open")));
        assert_eq!(channel.close(), None);
    }
}

#[test]
fn server_creates_odd_streams_and_sends_open_request() {
    let mut app = connected_server();
    let (mut channel, actions) = app
        .create_data_channel(DataChannelType::ReliableUnordered, String::from("x"), Some(String::from("p")), 3)
        .unwrap();
    assert_eq!(*channel.state(), DataChannelState::Connecting);
    assert_eq!(
        actions,
        vec![
            ApplicationAction::SendMessage {
                stream_id: 1,
                message: RawMessage::Control(DataChannelControlMessage::Open(DataChannelControlMessageOpen {
                    channel_type: DataChannelType::ReliableUnordered,
                    priority: 3,
                    label: String::from("x"),
                    protocol: String::from("p"),
                })),
                flags: 0x2000,
            },
            ApplicationAction::SendMessage { stream_id: 1, message: RawMessage::String(String::from("HEY!")), flags: 0x2000 },
        ]
    );
    assert_eq!(channel.close(), Some(DataChannelAction::Close(1)));
    let (_, actions) = app.create_data_channel(DataChannelType::Reliable, String::new(), None, 0).unwrap();
    assert!(matches!(actions[0], ApplicationAction::SendMessage { stream_id: 3, .. }));
}

#[test]
fn open_ack_opens_a_connecting_channel() {
    let mut app = connected_server();
    let (channel, _) = app.create_data_channel(DataChannelType::ReliableUnordered, String::new(), None, 0).unwrap();
    let ack = DataChannelControlMessage::OpenAck(DataChannelControlMessageOpenAck {});
    let (event, actions) = app.process_control_message(1, ack);
    assert!(event.is_none());
    assert_eq!(
        actions,
        vec![ApplicationAction::ChannelEvent {
            channel_id: channel.unique_id(),
            event: DataChannelEvent::StateChanged(DataChannelState::Open),
        }]
    );
    // a second acknowledgement finds the channel open and does nothing
    let ack = DataChannelControlMessage::OpenAck(DataChannelControlMessageOpenAck {});
    let (event, actions) = app.process_control_message(1, ack);
    assert!(event.is_none() && actions.is_empty());
    // an open unordered channel sends its messages unordered
    let actions = app.handle_channel_action(DataChannelAction::SendMessage(1, RawMessage::BinaryEmpty()));
    assert_eq!(actions, vec![ApplicationAction::SendMessage { stream_id: 1, message: RawMessage::BinaryEmpty(), flags: 0x2400 }]);
    // an unknown stream gets nothing
    assert!(app.handle_channel_action(DataChannelAction::SendMessage(9, RawMessage::BinaryEmpty())).is_empty());
}

#[test]
fn remote_open_request_creates_acknowledged_channel() {
    let mut app = connected_server();
    let (event, actions) = app.process_control_message(2, open_request("remote"));
    match event {
        Some(ApplicationChannelEvent::DataChannelReceived(channel)) => {
            assert_eq!(channel.label(), "remote");
            assert_eq!(channel.protocol(), "chat");
            assert_eq!(*channel.state(), DataChannelState::Open);
            assert_eq!(channel.unique_id(), 0);
        },
        _ => panic!("expected a received channel"),
    }
    assert_eq!(
        actions,
        vec![ApplicationAction::SendMessage {
            stream_id: 2,
            message: RawMessage::Control(DataChannelControlMessage::OpenAck(DataChannelControlMessageOpenAck {})),
            flags: 0x2000,
        }]
    );
    // messages on the stream reach the channel
    let (event, actions) = app.process_sctp_message(2, RawMessage::String(String::from("hi")));
    assert!(event.is_none());
    assert_eq!(
        actions,
        vec![ApplicationAction::ChannelEvent {
            channel_id: 0,
            event: DataChannelEvent::MessageReceived(DataChannelMessage::String(Some(String::from("hi")))),
        }]
    );
    let (_, actions) = app.process_sctp_message(2, RawMessage::BinaryEmpty());
    assert_eq!(
        actions,
        vec![ApplicationAction::ChannelEvent { channel_id: 0, event: DataChannelEvent::MessageReceived(DataChannelMessage::Binary(None)) }]
    );
    // messages on a stream without a channel are dropped
    let (_, actions) = app.process_sctp_message(4, RawMessage::String(String::from("hi")));
    assert!(actions.is_empty());
}

#[test]
fn open_request_on_own_parity_resets_stream() {
    let mut app = connected_server();
    let (event, actions) = app.process_control_message(5, open_request("bad"));
    assert!(event.is_none());
    assert_eq!(actions, vec![ApplicationAction::ResetStreams(vec![5])]);
    // the reset failed: the stream stays pending
    app.stream_resets_sent(false);
    let (_, actions) = app.process_sctp_notification(&stream_reset(0, vec![]));
    assert_eq!(actions, vec![ApplicationAction::ResetStreams(vec![5])]);
    app.stream_resets_sent(true);
    let (_, actions) = app.process_sctp_notification(&stream_reset(0, vec![]));
    assert!(actions.is_empty());
}

#[test]
fn open_request_on_taken_stream_closes_channel() {
    let mut app = connected_server();
    app.process_control_message(2, open_request("first"));
    let (event, actions) = app.process_control_message(2, open_request("second"));
    assert!(event.is_none());
    assert_eq!(
        actions,
        vec![
            ApplicationAction::ChannelEvent { channel_id: 0, event: DataChannelEvent::StateChanged(DataChannelState::Closing) },
            ApplicationAction::ResetStreams(vec![2]),
        ]
    );
    // a closing channel is not closed again
    assert!(app.handle_channel_action(DataChannelAction::Close(2)).is_empty());
    // and its messages no longer reach it
    let (_, actions) = app.process_sctp_message(2, RawMessage::StringEmpty());
    assert!(actions.is_empty());
}

#[test]
fn incoming_stream_reset_closes_channels() {
    let mut app = connected_server();
    app.process_control_message(2, open_request("a"));
    app.process_control_message(4, open_request("b"));
    // a denied reset changes nothing
    let (_, actions) = app.process_sctp_notification(&stream_reset(0x0001 | 0x0004, vec![2]));
    assert!(actions.is_empty());
    let (event, actions) = app.process_sctp_notification(&stream_reset(0x0001, vec![2, 6]));
    assert!(event.is_none());
    assert_eq!(
        actions,
        vec![ApplicationAction::ChannelEvent { channel_id: 0, event: DataChannelEvent::StateChanged(DataChannelState::Closed) }]
    );
    let (_, actions) = app.process_sctp_message(2, RawMessage::StringEmpty());
    assert!(actions.is_empty());
    let (_, actions) = app.process_sctp_message(4, RawMessage::StringEmpty());
    assert_eq!(actions.len(), 1);
    // the stream is free again for the remote side
    let (event, _) = app.process_control_message(2, open_request("c"));
    assert!(matches!(event, Some(ApplicationChannelEvent::DataChannelReceived(_))));
}

#[test]
fn remote_description_fixes_role_and_port() {
    let mut app = ChannelApplication::new();
    assert_eq!(app.set_remote_description(Some(SetupRole::Holdconn), None), Err(String::from("missing/invalid setup type")));
    assert_eq!(app.set_remote_description(None, None), Err(String::from("missing/invalid setup type")));
    assert_eq!(app.set_remote_description(Some(SetupRole::Actpass), None), Ok(Some(5000)));
    app.remote_configured(5000);
    assert_eq!(app.set_remote_description(Some(SetupRole::Actpass), None), Ok(None));
    assert_eq!(app.set_remote_description(Some(SetupRole::Active), Some(5000)), Ok(None));
    assert_eq!(
        app.set_remote_description(Some(SetupRole::Passive), None),
        Err(String::from("client/server role miss match to previous description"))
    );
    assert_eq!(
        app.set_remote_description(Some(SetupRole::Active), Some(5002)),
        Err(String::from("remote port miss match to previous description"))
    );
    // Actpass makes this side the DTLS server: its streams are odd
    let (channel, _) = app.create_data_channel(DataChannelType::Reliable, String::new(), None, 0).unwrap();
    assert_eq!(channel.unique_id(), 0);
    assert!(app.process_control_message(1, open_request("x")).0.is_none());
}

#[test]
fn transport_connects_once() {
    let mut app = ChannelApplication::new();
    assert_eq!(app.set_remote_description(Some(SetupRole::Passive), None), Ok(Some(5000)));
    app.remote_configured(5000);
    assert_eq!(app.handle_transport_connected(false), None);
    assert_eq!(app.state(), ApplicationChannelState::Disconnected);
    assert_eq!(app.handle_transport_connected(true), Some(5000));
    assert_eq!(app.state(), ApplicationChannelState::Connecting);
    assert_eq!(app.handle_transport_connected(true), None);
}

#[test]
fn channel_limit_is_the_negotiated_stream_count() {
    let mut app = ChannelApplication::new();
    for _ in 0..1024 {
        app.create_data_channel(DataChannelType::Reliable, String::new(), None, 0).unwrap();
    }
    let r = app.create_data_channel(DataChannelType::Reliable, String::new(), None, 0);
    assert_eq!(r.err(), Some(String::from("max amount of channels reached")));
}

#[test]
fn open_channel_makes_send_requests() {
    let mut app = connected_server();
    let (event, _) = app.process_control_message(2, open_request("r"));
    let mut channel = match event {
        Some(ApplicationChannelEvent::DataChannelReceived(channel)) => channel,
        _ => panic!("expected a received channel"),
    };
    assert_eq!(
        channel.send_text_message(Some(String::from("t"))),
        Ok(DataChannelAction::SendMessage(2, RawMessage::String(String::from("t"))))
    );
    assert_eq!(channel.send_binary_message(None), Ok(DataChannelAction::SendMessage(2, RawMessage::BinaryEmpty())));
    assert_eq!(channel.send_binary_message(Some(vec![1])), Ok(DataChannelAction::SendMessage(2, RawMessage::Binary(vec![1]))));
    let actions = app.handle_channel_action(channel.close().unwrap());
    assert_eq!(
        actions,
        vec![
            ApplicationAction::ChannelEvent { channel_id: 0, event: DataChannelEvent::StateChanged(DataChannelState::Closing) },
            ApplicationAction::ResetStreams(vec![2]),
        ]
    );
}
