//! Message-layer tests: encode/decode round trips for every payload type
//! and the message dispatch, plus the library's protocol constants.

use lsftp::crypto::CryptoSuite;
use lsftp::error::Error;
use lsftp::message::{
    EmergencyStopPayload, FileClosePayload, FileDataPayload, FileOpenPayload, HandshakePayload,
    HealthStatus, HeartbeatPayload, Message, MessagePayload, PolicyRule, PolicyRuleType,
    PolicyUpdatePayload, TransferStatistics,
};
use lsftp::protocol::MessageType;
use lsftp::{
    AUDIT_LOG_RETENTION_DAYS, DEFAULT_CHUNK_SIZE, DEFAULT_PORT, HARDWARE_AUTH_TIMEOUT_SECS,
    KEY_ROTATION_INTERVAL_SECS, MAX_CONCURRENT_CONNECTIONS, MAX_FILE_SIZE, MAX_TRANSFER_RATE,
    PROTOCOL_VERSION, SESSION_TIMEOUT_SECS, TPM_DEVICE_PATH, YUBIKEY_DEVICE_PATTERN,
};

#[test]
fn test_protocol_constants() {
    assert_eq!(PROTOCOL_VERSION, 1);
    assert_eq!(DEFAULT_CHUNK_SIZE, 1024 * 1024);
    assert_eq!(DEFAULT_PORT, 8443);
    assert_eq!(MAX_FILE_SIZE, 100 * 1024 * 1024 * 1024);
    assert_eq!(SESSION_TIMEOUT_SECS, 3600);
    assert_eq!(KEY_ROTATION_INTERVAL_SECS, 300);
}

#[test]
fn test_linux_specific_constants() {
    assert_eq!(TPM_DEVICE_PATH, "/dev/tpmrm0");
    assert_eq!(YUBIKEY_DEVICE_PATTERN, "/dev/hidraw*");
    assert_eq!(MAX_CONCURRENT_CONNECTIONS, 1000);
    assert_eq!(MAX_TRANSFER_RATE, 10 * 1024 * 1024 * 1024);
}

#[test]
fn remaining_limits_hold() {
    assert_eq!(HARDWARE_AUTH_TIMEOUT_SECS, 30);
    assert_eq!(AUDIT_LOG_RETENTION_DAYS, 2555);
}

#[test]
fn handshake_payload_round_trip() {
    let payload = HandshakePayload {
        client_random: [1u8; 32],
        server_random: [2u8; 32],
        crypto_suites: vec![CryptoSuite::default()],
        hardware_attestation: Some(vec![9, 9, 9]),
        certificate_chain: vec![vec![1, 2, 3], vec![], vec![4]],
    };
    let bytes = payload.encode();
    let back = HandshakePayload::decode(&bytes).unwrap();
    assert_eq!(back.client_random, payload.client_random);
    assert_eq!(back.server_random, payload.server_random);
    assert_eq!(back.crypto_suites, payload.crypto_suites);
    assert_eq!(back.hardware_attestation, payload.hardware_attestation);
    assert_eq!(back.certificate_chain, payload.certificate_chain);

    let without = HandshakePayload { hardware_attestation: None, ..payload };
    let bytes2 = without.encode();
    let back2 = HandshakePayload::decode(&bytes2).unwrap();
    assert_eq!(back2.hardware_attestation, None);
}

#[test]
fn file_open_payload_round_trip() {
    let payload = FileOpenPayload {
        path: "dir/naïve name.bin".to_string(),
        size: 3145728,
        hash: [0u8; 32],
        permissions: 0o644,
        metadata: vec![("owner".to_string(), "alice".to_string())],
    };
    let bytes = payload.encode();
    let back = FileOpenPayload::decode(&bytes).unwrap();
    assert_eq!(back.path, payload.path);
    assert_eq!(back.size, payload.size);
    assert_eq!(back.hash, payload.hash);
    assert_eq!(back.permissions, payload.permissions);
    assert_eq!(back.metadata, payload.metadata);
}

#[test]
fn file_data_payload_round_trip() {
    let payload = FileDataPayload {
        file_id: 0x0123_4567_89AB_CDEF_0011_2233_4455_6677u128,
        chunk_index: 7,
        data: vec![5u8; 1000],
        chunk_hash: [0xCC; 32],
        chunk_signature: vec![1, 2],
    };
    let bytes = payload.encode();
    let back = FileDataPayload::decode(&bytes).unwrap();
    assert_eq!(back.file_id, payload.file_id);
    assert_eq!(back.chunk_index, payload.chunk_index);
    assert_eq!(back.data, payload.data);
    assert_eq!(back.chunk_hash, payload.chunk_hash);
    assert_eq!(back.chunk_signature, payload.chunk_signature);
}

#[test]
fn file_close_payload_round_trip() {
    let payload = FileClosePayload {
        file_id: 42,
        final_hash: [0xEE; 32],
        global_signature: vec![8; 64],
        statistics: TransferStatistics {
            bytes_transferred: 3145728,
            duration_ms: 1500,
            throughput_bps: 2097152,
            chunks_count: 3,
            retries_count: 0,
        },
    };
    let bytes = payload.encode();
    let back = FileClosePayload::decode(&bytes).unwrap();
    assert_eq!(back.file_id, 42);
    assert_eq!(back.final_hash, payload.final_hash);
    assert_eq!(back.global_signature, payload.global_signature);
    assert_eq!(back.statistics, payload.statistics);
}

#[test]
fn heartbeat_payload_round_trip() {
    for status in [
        HealthStatus::Healthy,
        HealthStatus::Warning,
        HealthStatus::Critical,
        HealthStatus::Unknown,
    ] {
        let payload = HeartbeatPayload { session_id: 99, health_status: status, timestamp: 123 };
        let bytes = payload.encode();
        let back = HeartbeatPayload::decode(&bytes).unwrap();
        assert_eq!(back.session_id, 99);
        assert_eq!(back.health_status, status);
        assert_eq!(back.timestamp, 123);
    }
}

#[test]
fn policy_update_payload_round_trip() {
    let payload = PolicyUpdatePayload {
        policy_id: 1,
        version: 2,
        rules: vec![
            PolicyRule {
                id: "r1".to_string(),
                rule_type: PolicyRuleType::RateLimit,
                parameters: vec![("limit".to_string(), "10".to_string())],
            },
            PolicyRule {
                id: "r2".to_string(),
                rule_type: PolicyRuleType::AccessControl,
                parameters: vec![],
            },
        ],
        effective_at: 1_700_000_000,
    };
    let bytes = payload.encode();
    let back = PolicyUpdatePayload::decode(&bytes).unwrap();
    assert_eq!(back.policy_id, 1);
    assert_eq!(back.version, 2);
    assert_eq!(back.rules.len(), 2);
    assert_eq!(back.rules[0].id, "r1");
    assert_eq!(back.rules[0].rule_type, PolicyRuleType::RateLimit);
    assert_eq!(back.rules[0].parameters, vec![("limit".to_string(), "10".to_string())]);
    assert_eq!(back.rules[1].id, "r2");
    assert_eq!(back.effective_at, 1_700_000_000);
}

#[test]
fn emergency_stop_payload_round_trip() {
    let payload = EmergencyStopPayload {
        session_id: 5,
        reason: "credential revoked".to_string(),
        timestamp: 1234,
        signature: vec![1, 2, 3, 4],
    };
    let bytes = payload.encode();
    let back = EmergencyStopPayload::decode(&bytes).unwrap();
    assert_eq!(back.session_id, 5);
    assert_eq!(back.reason, payload.reason);
    assert_eq!(back.timestamp, 1234);
    assert_eq!(back.signature, payload.signature);
}

#[test]
fn truncated_or_padded_payloads_are_protocol_errors() {
    let payload = HeartbeatPayload {
        session_id: 9,
        health_status: HealthStatus::Healthy,
        timestamp: 1,
    };
    let bytes = payload.encode();
    match HeartbeatPayload::decode(&bytes[..bytes.len() - 1]) {
        Err(Error::Protocol(_)) => {}
        _ => panic!("a truncated payload must be a protocol error"),
    }
    let mut padded = bytes.clone();
    padded.push(0);
    assert!(HeartbeatPayload::decode(&padded).is_err());
    // An unknown health code is rejected.
    let mut bad = bytes;
    bad[16] = 9;
    assert!(HeartbeatPayload::decode(&bad).is_err());
}

#[test]
fn message_wraps_payload_and_parses_it_back() {
    let payload = HeartbeatPayload {
        session_id: 77,
        health_status: HealthStatus::Warning,
        timestamp: 456,
    };
    let message =
        Message::new(MessageType::Heartbeat, Some(MessagePayload::Heartbeat(payload))).unwrap();
    assert_eq!(message.frame.message_type, MessageType::Heartbeat);
    assert_eq!(message.frame.length as usize, message.frame.payload.len());

    // Ship the frame and parse it on the other side.
    let wire = message.frame.serialize().unwrap();
    let frame = lsftp::protocol::Frame::deserialize(&wire).unwrap();
    let mut received = Message { frame, payload: None };
    received.parse_payload().unwrap();
    match received.payload {
        Some(MessagePayload::Heartbeat(hb)) => {
            assert_eq!(hb.session_id, 77);
            assert_eq!(hb.health_status, HealthStatus::Warning);
            assert_eq!(hb.timestamp, 456);
        }
        _ => panic!("the parsed payload must be the heartbeat sent"),
    }
}

#[test]
fn message_without_payload_has_empty_frame() {
    let message = Message::new(MessageType::Heartbeat, None).unwrap();
    assert_eq!(message.frame.length, 0);
    assert!(message.frame.payload.is_empty());
}

#[test]
fn garbage_payload_bytes_fail_to_parse() {
    let frame = lsftp::protocol::Frame::new(MessageType::FileOpen, vec![0xFF; 8]);
    let mut message = Message { frame, payload: None };
    match message.parse_payload() {
        Err(Error::Protocol(_)) => {}
        _ => panic!("garbage bytes must be a protocol error"),
    }
}

#[test]
fn invalid_utf8_in_a_string_field_is_rejected() {
    let payload = FileOpenPayload {
        path: "ok.bin".to_string(),
        size: 1,
        hash: [0u8; 32],
        permissions: 0,
        metadata: Vec::new(),
    };
    let mut bytes = payload.encode();
    // Corrupt the path's first byte into an invalid UTF-8 lead byte.
    bytes[4] = 0xFF;
    match FileOpenPayload::decode(&bytes) {
        Err(Error::Protocol(_)) => {}
        _ => panic!("invalid UTF-8 must be a protocol error"),
    }
}
