use webrtc_lib::sctp::message::{
    DataChannelType, DataChannelControlMessageType, DataChannelControlMessageOpen,
    DataChannelControlMessageOpenAck, DataChannelControlMessage, DataChannelMessage, DataChannelMessageType,
};
use webrtc_lib::error::Error;

#[test]
fn test_data_channel_type() {
    let values = vec![
        DataChannelType::Reliable,
        DataChannelType::ReliableUnordered,
        DataChannelType::PartialReliableRexmit(22),
        DataChannelType::PartialReliableRexmitUnordered(33),
        DataChannelType::PartialReliableTimed(12),
        DataChannelType::PartialReliableTimedUnordered(38),
    ];
    for value in values.iter() {
        assert_eq!(DataChannelType::from(value.value(), value.reliability_parameter()), Some(*value));
    }
}

#[test]
fn test_data_channel_control_message() {
    let values = vec![DataChannelControlMessageType::Open, DataChannelControlMessageType::OpenAck];
    for value in values.iter() {
        assert_eq!(DataChannelControlMessageType::from(value.value()), Some(*value));
    }
}

#[test]
fn test_data_channel_open_message() {
    let message = DataChannelControlMessageOpen {
        label: String::from("Hello World"),
        protocol: String::from("Some protocol"),
        priority: 10,
        channel_type: DataChannelType::PartialReliableRexmit(22),
    };
    let mut buffer = [0u8; 100];
    let size = message.write(&mut buffer).expect("failed to encode opening message");
    let parsed = DataChannelControlMessageOpen::parse(&buffer[0..size]).expect("failed to parse message");
    assert_eq!(message, parsed);
}

#[test]
fn test_data_channel_open_ack_message() {
    let message = DataChannelControlMessageOpenAck {};
    let mut buffer = [0u8; 2];
    let size = message.write(&mut buffer).expect("failed to encode open ack message");
    let parsed = DataChannelControlMessageOpenAck::parse(&buffer[0..size]).expect("failed to parse message");
    assert_eq!(message, parsed);
}

#[test]
fn data_channel_type_values() {
    assert_eq!(DataChannelType::Reliable.value(), 0x00);
    assert_eq!(DataChannelType::ReliableUnordered.value(), 0x80);
    assert_eq!(DataChannelType::PartialReliableRexmit(1).value(), 0x01);
    assert_eq!(DataChannelType::PartialReliableRexmitUnordered(1).value(), 0x81);
    assert_eq!(DataChannelType::PartialReliableTimed(1).value(), 0x02);
    assert_eq!(DataChannelType::PartialReliableTimedUnordered(1).value(), 0x82);
    assert!(DataChannelType::Reliable.is_ordered());
    assert!(!DataChannelType::ReliableUnordered.is_ordered());
    assert_eq!(DataChannelType::Reliable.reliability_parameter(), 0);
    assert_eq!(DataChannelType::PartialReliableTimed(77).reliability_parameter(), 77);
    assert_eq!(DataChannelType::from(0x03, 0), None);
}

#[test]
fn open_message_bytes() {
    let message = DataChannelControlMessageOpen {
        label: String::from("ab"),
        protocol: String::from("c"),
        priority: 0x0102,
        channel_type: DataChannelType::PartialReliableTimed(0x0A0B0C0D),
    };
    assert_eq!(message.expected_length(), 15);
    let mut buffer = [0u8; 15];
    assert_eq!(message.write(&mut buffer), Ok(15));
    assert_eq!(buffer, [0x03, 0x02, 0x01, 0x02, 0x0A, 0x0B, 0x0C, 0x0D, 0x00, 0x02, 0x00, 0x01, b'a', b'b', b'c']);
}

#[test]
fn open_message_cut_off_and_too_short() {
    let message = DataChannelControlMessageOpen {
        label: String::from("abcdef"),
        protocol: String::new(),
        priority: 0,
        channel_type: DataChannelType::Reliable,
    };
    let mut small = [0u8; 8];
    assert_eq!(message.write(&mut small), Err(Error::WriteZero));
    let mut partial = [0u8; 14];
    assert_eq!(message.write(&mut partial), Ok(14));
    assert_eq!(&partial[12..], b"ab");
}

#[test]
fn open_message_parse_errors() {
    assert_eq!(DataChannelControlMessageOpen::parse(&[0x03, 0x00]), Err(Error::UnexpectedEof));
    let not_open = [0x02u8, 0, 0, 0, 0, 0, 0, 0, 0, 0, 0, 0];
    assert!(DataChannelControlMessageOpen::parse(&not_open).is_err());
    let bad_utf8 = [0x03u8, 0x00, 0, 0, 0, 0, 0, 0, 0, 1, 0, 0, 0xFF];
    assert_eq!(DataChannelControlMessageOpen::parse(&bad_utf8), Err(Error::InvalidUtf8));
}

#[test]
fn control_message_roundtrip() {
    let ack = DataChannelControlMessage::OpenAck(DataChannelControlMessageOpenAck {});
    let mut buffer = [0u8; 4];
    let size = ack.write(&mut buffer).expect("write");
    assert_eq!(size, 1);
    assert_eq!(DataChannelControlMessage::parse(&buffer[..size]), Ok(ack));
}

#[test]
fn data_channel_message_roundtrip() {
    let message = DataChannelMessage::String(String::from("hi"));
    let mut buffer = [0u8; 16];
    let size = message.write(&mut buffer).expect("write");
    let ppid = message.message_type().value();
    assert_eq!(ppid, DataChannelMessageType::String.value());
    assert_eq!(DataChannelMessage::parse(&buffer[..size], ppid), Ok(message));
    assert_eq!(DataChannelMessageType::from(12345), None);
}
