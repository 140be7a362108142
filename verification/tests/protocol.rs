//! Wire-protocol tests: message-type codes, flag round trips, frame
//! serialization and the parser's boundary behavior.

use lsftp::error::Error;
use lsftp::protocol::{Flags, Frame, MessageType, FRAME_TAG_LEN, MAX_FRAME_PAYLOAD, MIN_FRAME_LEN};

#[test]
fn test_message_type_conversion() {
    assert_eq!(MessageType::Handshake.code(), 0x01);
    assert_eq!(MessageType::FileOpen.code(), 0x02);
    assert_eq!(MessageType::FileData.code(), 0x03);
    assert_eq!(MessageType::FileClose.code(), 0x04);
    assert_eq!(MessageType::Heartbeat.code(), 0x05);
    assert_eq!(MessageType::PolicyUpdate.code(), 0x06);
    assert_eq!(MessageType::EmergencyStop.code(), 0x07);
}

#[test]
fn test_flags_conversion() {
    let flags = Flags {
        eom: true,
        compressed: false,
        encrypted: true,
        requires_ack: false,
        high_priority: true,
    };

    let value: u16 = flags.into();
    let flags_back: Flags = value.into();

    assert_eq!(flags.eom, flags_back.eom);
    assert_eq!(flags.compressed, flags_back.compressed);
    assert_eq!(flags.encrypted, flags_back.encrypted);
    assert_eq!(flags.requires_ack, flags_back.requires_ack);
    assert_eq!(flags.high_priority, flags_back.high_priority);
}

#[test]
fn test_frame_serialization() {
    let frame = Frame::new(MessageType::Handshake, b"test payload".to_vec());
    let serialized = frame.serialize().unwrap();
    let deserialized = Frame::deserialize(&serialized).unwrap();

    assert_eq!(frame.version, deserialized.version);
    assert_eq!(frame.message_type, deserialized.message_type);
    assert_eq!(frame.length, deserialized.length);
    assert_eq!(frame.payload, deserialized.payload);
}

#[test]
fn all_flag_combinations_round_trip() {
    for bits in 0u16..32 {
        let flags = Flags::from(bits);
        let encoded = u16::from(flags);
        assert_eq!(encoded, bits);
        let back = Flags::from(encoded);
        assert_eq!(flags, back);
    }
}

#[test]
fn message_type_codes_round_trip_and_others_fail() {
    for value in 0u16..=255 {
        let value = value as u8;
        let decoded = MessageType::try_from(value);
        if (0x01..=0x07).contains(&value) {
            assert_eq!(decoded.unwrap().code(), value);
        } else {
            match decoded {
                Err(Error::Protocol(_)) => {}
                _ => panic!("byte 0x{value:02x} must be a protocol error"),
            }
        }
    }
}

#[test]
fn frame_round_trip_with_sequence_and_timestamp() {
    let mut frame = Frame::new(MessageType::FileData, vec![7u8, 8, 9]);
    frame.sequence = 42;
    frame.timestamp = 1_700_000_000;
    frame.hmac = [0xAB; 32];
    let bytes = frame.serialize().unwrap();
    assert_eq!(bytes.len(), MIN_FRAME_LEN + 3);
    let back = Frame::deserialize(&bytes).unwrap();
    assert_eq!(back.sequence, 42);
    assert_eq!(back.timestamp, 1_700_000_000);
    assert_eq!(back.hmac, [0xAB; 32]);
    assert_eq!(back.payload, vec![7u8, 8, 9]);
}

#[test]
fn short_frame_is_protocol_error() {
    let data = [0u8; 10];
    match Frame::deserialize(&data) {
        Err(Error::Protocol(_)) => {}
        _ => panic!("a frame shorter than {MIN_FRAME_LEN} bytes must be rejected"),
    }
    let almost = [1u8; 55];
    assert!(Frame::deserialize(&almost).is_err());
}

#[test]
fn oversized_length_is_protocol_error() {
    let frame = Frame::new(MessageType::Heartbeat, Vec::new());
    let mut bytes = frame.serialize().unwrap();
    assert_eq!(bytes.len(), MIN_FRAME_LEN);
    // Overwrite the length field with a value over the ceiling.
    let too_big = MAX_FRAME_PAYLOAD + 1;
    bytes[4..8].copy_from_slice(&too_big.to_be_bytes());
    match Frame::deserialize(&bytes) {
        Err(Error::Protocol(_)) => {}
        _ => panic!("a length over the ceiling must be rejected"),
    }
}

#[test]
fn wrong_version_is_protocol_error() {
    let frame = Frame::new(MessageType::Heartbeat, Vec::new());
    let mut bytes = frame.serialize().unwrap();
    bytes[0] = 2;
    assert!(Frame::deserialize(&bytes).is_err());
}

#[test]
fn reserved_flag_bits_are_rejected() {
    let frame = Frame::new(MessageType::Heartbeat, Vec::new());
    let mut bytes = frame.serialize().unwrap();
    bytes[2] = 0x80;
    assert!(Frame::deserialize(&bytes).is_err());
}

#[test]
fn truncated_payload_is_rejected() {
    let frame = Frame::new(MessageType::FileData, vec![1u8; 100]);
    let mut bytes = frame.serialize().unwrap();
    bytes.truncate(bytes.len() - FRAME_TAG_LEN - 10);
    assert!(Frame::deserialize(&bytes).is_err());
}
