//! Audit trail tests: event construction, the severity table, canonical
//! signing and verification, and SIEM escalation.

use lsftp::audit::{
    AuditAction, AuditConfig, AuditEvent, AuditLogger, AuditResult, SecurityLogger, Severity,
};
use lsftp::crypto::{CryptoSuite, HashAlgorithm};

#[test]
fn test_audit_event_creation() {
    let event = AuditEvent::new(AuditAction::Authentication, AuditResult::Success)
        .with_user_id("test_user".to_string())
        .with_hardware_id("test_hardware".to_string())
        .with_source_ip("127.0.0.1".to_string());

    assert_eq!(event.user_id, Some("test_user".to_string()));
    assert_eq!(event.hardware_id, Some("test_hardware".to_string()));
    assert_eq!(event.source_ip, Some("127.0.0.1".to_string()));
    assert_eq!(event.action, AuditAction::Authentication);
    assert_eq!(event.result, AuditResult::Success);
}

#[test]
fn test_severity_ordering() {
    assert!(Severity::Debug < Severity::Info);
    assert!(Severity::Info < Severity::Warning);
    assert!(Severity::Warning < Severity::Error);
    assert!(Severity::Error < Severity::Critical);
}

#[test]
fn test_audit_logger_creation() {
    let config = AuditConfig::default();
    let crypto_suite = CryptoSuite::default();
    let logger = AuditLogger::new(config, crypto_suite);
    assert!(logger.is_ok());
}

#[test]
fn severity_table_is_exact() {
    let sev = |a: AuditAction, r: AuditResult| AuditEvent::new(a, r).severity();
    assert_eq!(sev(AuditAction::Authentication, AuditResult::Success), Severity::Info);
    assert_eq!(sev(AuditAction::Authentication, AuditResult::Failure), Severity::Error);
    assert_eq!(sev(AuditAction::Authentication, AuditResult::Denied), Severity::Warning);
    assert_eq!(sev(AuditAction::SecurityEvent, AuditResult::Success), Severity::Warning);
    assert_eq!(sev(AuditAction::SecurityEvent, AuditResult::Failure), Severity::Critical);
    assert_eq!(sev(AuditAction::SecurityEvent, AuditResult::Denied), Severity::Warning);
    assert_eq!(sev(AuditAction::FileUpload, AuditResult::Success), Severity::Debug);
    assert_eq!(sev(AuditAction::FileUpload, AuditResult::Failure), Severity::Warning);
    assert_eq!(sev(AuditAction::FileDownload, AuditResult::Denied), Severity::Warning);
}

#[test]
fn siem_escalation_on_failures_and_security_events() {
    let failure = AuditEvent::new(AuditAction::FileUpload, AuditResult::Failure);
    assert!(failure.requires_siem_escalation());
    let security = AuditEvent::new(AuditAction::SecurityEvent, AuditResult::Success);
    assert!(security.requires_siem_escalation());
    let ordinary = AuditEvent::new(AuditAction::FileUpload, AuditResult::Success);
    assert!(!ordinary.requires_siem_escalation());
}

#[test]
fn signed_event_verifies() {
    let logger = AuditLogger::new(AuditConfig::default(), CryptoSuite::default()).unwrap();
    let mut event = AuditEvent::new(AuditAction::FileUpload, AuditResult::Success)
        .with_user_id("operator".to_string())
        .with_file_path("data/report.bin".to_string())
        .with_file_hash([7u8; 32]);
    assert!(!logger.verify_event_signature(&event).unwrap());
    logger.sign_event(&mut event).unwrap();
    assert!(event.signature.is_some());
    assert!(logger.verify_event_signature(&event).unwrap());
}

#[test]
fn tampered_event_no_longer_verifies() {
    let logger = AuditLogger::new(AuditConfig::default(), CryptoSuite::default()).unwrap();
    let mut event = AuditEvent::new(AuditAction::FileUpload, AuditResult::Success)
        .with_user_id("operator".to_string());
    logger.sign_event(&mut event).unwrap();
    event.user_id = Some("intruder".to_string());
    assert!(!logger.verify_event_signature(&event).unwrap());
}

#[test]
fn signing_works_with_either_hash_algorithm() {
    for hash in [HashAlgorithm::Blake3, HashAlgorithm::Sha3256] {
        let suite = CryptoSuite { hash, ..CryptoSuite::default() };
        let logger = AuditLogger::new(AuditConfig::default(), suite).unwrap();
        let mut event = AuditEvent::new(AuditAction::SessionStart, AuditResult::Success);
        logger.sign_event(&mut event).unwrap();
        assert!(logger.verify_event_signature(&event).unwrap());
    }
}

#[test]
fn signing_disabled_leaves_event_unsigned() {
    let mut config = AuditConfig::default();
    config.audit_log_signing = false;
    let logger = AuditLogger::new(config, CryptoSuite::default()).unwrap();
    let mut event = AuditEvent::new(AuditAction::SessionEnd, AuditResult::Success);
    logger.sign_event(&mut event).unwrap();
    assert!(event.signature.is_none());
}

#[test]
fn metadata_keeps_one_entry_per_key() {
    let event = AuditEvent::new(AuditAction::SystemEvent, AuditResult::Success)
        .with_metadata("zone".to_string(), "a".to_string())
        .with_metadata("mode".to_string(), "fast".to_string())
        .with_metadata("zone".to_string(), "b".to_string());
    assert_eq!(event.metadata.len(), 2);
    assert!(event.metadata.contains(&("mode".to_string(), "fast".to_string())));
    assert!(event.metadata.contains(&("zone".to_string(), "b".to_string())));
    assert!(!event.metadata.contains(&("zone".to_string(), "a".to_string())));
}

#[test]
fn security_logger_builds_tagged_events() {
    let logger = AuditLogger::new(AuditConfig::default(), CryptoSuite::default()).unwrap();
    let security = SecurityLogger::new(logger);
    let auth = security.auth_attempt_event(
        Some("alice".to_string()),
        None,
        Some("10.0.0.1".to_string()),
        false,
        Some("bad_signature".to_string()),
    );
    assert_eq!(auth.action, AuditAction::Authentication);
    assert_eq!(auth.result, AuditResult::Failure);
    assert_eq!(auth.user_id, Some("alice".to_string()));
    assert_eq!(auth.hardware_id, Some("unknown".to_string()));
    assert_eq!(auth.error_code, Some("bad_signature".to_string()));

    let transfer = security.file_transfer_event(
        Some("alice".to_string()),
        Some("in/file.bin".to_string()),
        Some([3u8; 32]),
        4096,
        120,
        AuditAction::FileDownload,
        true,
    );
    assert_eq!(transfer.bytes_transferred, Some(4096));
    assert_eq!(transfer.duration_ms, Some(120));
    assert_eq!(transfer.file_hash, Some([3u8; 32]));

    let tagged = security.tag_security_event(AuditEvent::new(
        AuditAction::SecurityEvent,
        AuditResult::Denied,
    ));
    assert!(tagged.metadata.contains(&("security_event".to_string(), "true".to_string())));
}

#[test]
fn keyed_signing_uses_the_audit_key() {
    let plain = AuditLogger::new(AuditConfig::default(), CryptoSuite::default()).unwrap();
    let keyed = AuditLogger::new(AuditConfig::default(), CryptoSuite::default())
        .unwrap()
        .with_audit_key(vec![0x5Au8; 32]);
    let mut event = AuditEvent::new(AuditAction::FileUpload, AuditResult::Success)
        .with_user_id("operator".to_string());
    let mut keyed_event = AuditEvent { signature: None, ..clone_event(&event) };
    plain.sign_event(&mut event).unwrap();
    keyed.sign_event(&mut keyed_event).unwrap();
    // The keyed signature verifies under the keyed logger and differs from
    // the plain digest; a different key refutes it.
    assert!(keyed.verify_event_signature(&keyed_event).unwrap());
    assert_ne!(event.signature, keyed_event.signature);
    let other = AuditLogger::new(AuditConfig::default(), CryptoSuite::default())
        .unwrap()
        .with_audit_key(vec![0xA5u8; 32]);
    assert!(!other.verify_event_signature(&keyed_event).unwrap());
}

#[test]
fn canonical_bytes_cover_every_field() {
    // Moving content between adjacent optional fields changes the
    // canonical bytes, so a signature over one split refutes the other.
    let logger = AuditLogger::new(AuditConfig::default(), CryptoSuite::default()).unwrap();
    let mut a = AuditEvent::new(AuditAction::Authentication, AuditResult::Success);
    a.timestamp = 7;
    a.event_id = 9;
    a.user_id = Some("ab".to_string());
    a.hardware_id = Some("c".to_string());
    let mut b = clone_event(&a);
    b.user_id = Some("a".to_string());
    b.hardware_id = Some("bc".to_string());
    logger.sign_event(&mut a).unwrap();
    assert!(logger.verify_event_signature(&a).unwrap());
    b.signature = a.signature.clone();
    assert!(!logger.verify_event_signature(&b).unwrap());
    // Fields outside the old ad-hoc subset are covered too.
    let mut c = clone_event(&a);
    c.bytes_transferred = Some(1);
    assert!(!logger.verify_event_signature(&c).unwrap());
    let mut d = clone_event(&a);
    d.metadata.push(("k".to_string(), "v".to_string()));
    assert!(!logger.verify_event_signature(&d).unwrap());
    let mut e = clone_event(&a);
    e.source_ip = Some("10.0.0.1".to_string());
    assert!(!logger.verify_event_signature(&e).unwrap());
}

fn clone_event(e: &AuditEvent) -> AuditEvent {
    AuditEvent {
        timestamp: e.timestamp,
        event_id: e.event_id,
        user_id: e.user_id.clone(),
        hardware_id: e.hardware_id.clone(),
        action: e.action,
        file_path: e.file_path.clone(),
        file_hash: e.file_hash,
        source_ip: e.source_ip.clone(),
        session_id: e.session_id,
        bytes_transferred: e.bytes_transferred,
        duration_ms: e.duration_ms,
        result: e.result,
        error_code: e.error_code.clone(),
        metadata: e.metadata.clone(),
        signature: e.signature.clone(),
    }
}

#[test]
fn auth_attempt_defaults_are_the_stated_ones() {
    let logger = AuditLogger::new(AuditConfig::default(), CryptoSuite::default()).unwrap();
    let security = SecurityLogger::new(logger);
    let event = security.auth_attempt_event(None, None, None, true, None);
    assert_eq!(event.user_id, Some("unknown".to_string()));
    assert_eq!(event.hardware_id, Some("unknown".to_string()));
    assert_eq!(event.source_ip, Some("unknown".to_string()));
    assert_eq!(event.error_code, Some("none".to_string()));
}
