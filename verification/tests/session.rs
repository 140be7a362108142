//! Session engine tests: sequence numbers, the replay window, the state
//! machine, heartbeats, key rotation and suite negotiation.

use lsftp::crypto::{AeadAlgorithm, CryptoSuite, HashAlgorithm, KemAlgorithm, SignatureAlgorithm};
use lsftp::error::Error;
use lsftp::protocol::MessageType;
use lsftp::crypto::{derive_rekey, derive_session_keys};
use lsftp::protocol::Frame;
use lsftp::session::{
    accept_client_hello, seal_frame, select_suite, timestamp_within_skew, validate_chosen_suite,
    validate_server_hello, verify_frame_tag, ReplayCheck, ReplayWindow, Session, SessionState,
    KEEP_ALIVE_INTERVAL_SECS, MAX_TIMESTAMP_SKEW_SECS, REKEY_OVERLAP_SECS,
    REPLAY_ERROR_THRESHOLD,
};

fn classical_suite() -> CryptoSuite {
    CryptoSuite {
        kem: KemAlgorithm::EcdheP256,
        signature: SignatureAlgorithm::Ed25519,
        aead: AeadAlgorithm::Aes256Gcm,
        hash: HashAlgorithm::Sha3256,
        version: 1,
    }
}

fn pq_suite() -> CryptoSuite {
    CryptoSuite {
        kem: KemAlgorithm::MlKem768,
        signature: SignatureAlgorithm::MlDsa65,
        aead: AeadAlgorithm::ChaCha20Poly1305,
        hash: HashAlgorithm::Sha3256,
        version: 1,
    }
}

#[test]
fn sequence_numbers_rise_by_one_per_frame() {
    let mut session = Session::new(7, 1000);
    assert_eq!(session.tx_sequence, 0);
    assert_eq!(session.next_sequence(), 1);
    assert_eq!(session.next_sequence(), 2);
    assert_eq!(session.next_sequence(), 3);
    assert_eq!(session.tx_sequence, 3);
}

#[test]
fn replay_window_accepts_fresh_and_drops_seen() {
    let mut w = ReplayWindow::new(16);
    assert_eq!(w.record(1), ReplayCheck::Accept);
    assert_eq!(w.record(2), ReplayCheck::Accept);
    assert_eq!(w.record(2), ReplayCheck::Replay);
    assert_eq!(w.record(1), ReplayCheck::Replay);
    assert_eq!(w.record(5), ReplayCheck::Accept);
    // Out-of-order but in-window and unseen: accepted once.
    assert_eq!(w.record(3), ReplayCheck::Accept);
    assert_eq!(w.record(3), ReplayCheck::Replay);
}

#[test]
fn sequence_below_window_is_discarded() {
    let mut w = ReplayWindow::new(16);
    assert_eq!(w.record(100), ReplayCheck::Accept);
    // 100 - 16 = 84: everything at or below it is out of the window.
    assert_eq!(w.record(84), ReplayCheck::TooOld);
    assert_eq!(w.record(83), ReplayCheck::TooOld);
    assert_eq!(w.record(85), ReplayCheck::Accept);
}

#[test]
fn replay_attack_drops_frame_and_counts_errors() {
    let mut session = Session::new(1, 0);
    for s in 1..=100u64 {
        assert_eq!(session.accept_sequence(s), ReplayCheck::Accept);
    }
    // An attacker re-injects the captured frame with sequence 42.
    assert_eq!(session.accept_sequence(42), ReplayCheck::Replay);
    assert_eq!(session.replay_errors, 1);
    assert_ne!(session.state, SessionState::Error);
    // The session keeps working.
    assert_eq!(session.accept_sequence(101), ReplayCheck::Accept);
    // At the threshold the session turns to the error state.
    for _ in 1..REPLAY_ERROR_THRESHOLD {
        session.accept_sequence(42);
    }
    assert_eq!(session.replay_errors, REPLAY_ERROR_THRESHOLD);
    assert_eq!(session.state, SessionState::Error);
}

#[test]
fn state_machine_walks_the_happy_path() {
    let mut session = Session::new(2, 0);
    assert_eq!(session.state, SessionState::Initial);
    session.state = SessionState::Initial;
    session.handle_message_type(MessageType::Handshake);
    assert_eq!(session.state, SessionState::Handshaking);
    session.handle_message_type(MessageType::Handshake);
    assert_eq!(session.state, SessionState::Ready);
    session.handle_message_type(MessageType::FileOpen);
    assert_eq!(session.state, SessionState::Transferring);
    session.handle_message_type(MessageType::FileData);
    assert_eq!(session.state, SessionState::Transferring);
    session.handle_message_type(MessageType::FileClose);
    assert_eq!(session.state, SessionState::Ready);
}

#[test]
fn unexpected_message_turns_session_to_error() {
    let mut session = Session::new(3, 0);
    session.handle_message_type(MessageType::FileData);
    assert_eq!(session.state, SessionState::Error);
    // An error session can only close.
    session.handle_message_type(MessageType::Handshake);
    assert_eq!(session.state, SessionState::Error);
    session.handle_message_type(MessageType::EmergencyStop);
    assert_eq!(session.state, SessionState::Closed);
}

#[test]
fn emergency_stop_always_closes() {
    for start in [
        SessionState::Initial,
        SessionState::Handshaking,
        SessionState::Ready,
        SessionState::Transferring,
        SessionState::Error,
    ] {
        let mut session = Session::new(4, 0);
        session.state = start;
        session.handle_message_type(MessageType::EmergencyStop);
        assert_eq!(session.state, SessionState::Closed);
    }
}

#[test]
fn timestamp_skew_is_bounded_both_ways() {
    assert!(timestamp_within_skew(1000, 1000, MAX_TIMESTAMP_SKEW_SECS));
    assert!(timestamp_within_skew(1000, 1300, MAX_TIMESTAMP_SKEW_SECS));
    assert!(timestamp_within_skew(1300, 1000, MAX_TIMESTAMP_SKEW_SECS));
    assert!(!timestamp_within_skew(1000, 1301, MAX_TIMESTAMP_SKEW_SECS));
    assert!(!timestamp_within_skew(1301, 1000, MAX_TIMESTAMP_SKEW_SECS));
}

#[test]
fn key_rotation_after_interval_or_byte_budget() {
    let mut session = Session::new(5, 1000);
    assert!(!session.needs_key_rotation(1000));
    assert!(!session.needs_key_rotation(1299));
    assert!(session.needs_key_rotation(1300));
    session.rotate_keys(1300);
    assert_eq!(session.key_generation, 1);
    assert!(!session.needs_key_rotation(1301));
    // The byte budget forces rotation on its own.
    session.note_sent(u64::MAX, 1301);
    assert!(session.needs_key_rotation(1301));
}

#[test]
fn heartbeats_after_quiet_interval_and_misses_close() {
    let mut session = Session::new(6, 0);
    session.state = SessionState::Ready;
    session.note_received(10, 100);
    assert!(!session.needs_heartbeat(100 + KEEP_ALIVE_INTERVAL_SECS - 1));
    assert!(session.needs_heartbeat(100 + KEEP_ALIVE_INTERVAL_SECS));
    session.note_heartbeat_missed();
    session.note_heartbeat_missed();
    assert_ne!(session.state, SessionState::Closed);
    session.note_heartbeat_missed();
    assert_eq!(session.state, SessionState::Closed);
}

#[test]
fn server_selects_first_offered_suite_it_permits() {
    let hybrid = CryptoSuite::default();
    let offered = vec![hybrid, pq_suite()];
    let permitted = vec![pq_suite(), hybrid];
    // Tie-break: the client's order decides.
    assert_eq!(select_suite(&offered, &permitted), Some(hybrid));
    let only_pq = vec![pq_suite()];
    assert_eq!(select_suite(&offered, &only_pq), Some(pq_suite()));
    let nothing = vec![classical_suite()];
    assert_eq!(select_suite(&offered, &nothing), None);
}

#[test]
fn handshake_downgrade_is_refused() {
    // The client offers hybrid and pq-only; a malicious server answers with
    // classical-only.
    let offered = vec![CryptoSuite::default(), pq_suite()];
    let chosen = classical_suite();
    match validate_chosen_suite(&offered, &chosen) {
        Err(Error::Auth(code)) => assert_eq!(code, "suite_not_offered"),
        _ => panic!("a suite outside the offer must be an authentication error"),
    }
    // A suite the client did offer passes.
    assert!(validate_chosen_suite(&offered, &pq_suite()).is_ok());
}

#[test]
fn sealed_frame_verifies_and_forgery_fails() {
    let mac_key = vec![0x11u8; 32];
    let other_key = vec![0x22u8; 32];
    let mut frame = Frame::new(MessageType::FileData, vec![1, 2, 3, 4]);
    frame.sequence = 9;
    seal_frame(&mut frame, &mac_key);
    assert_ne!(frame.hmac, [0u8; 32]);
    assert!(verify_frame_tag(&frame, &mac_key));
    assert!(!verify_frame_tag(&frame, &other_key));
    // Any change to the payload or header refutes the tag.
    frame.payload[0] ^= 1;
    assert!(!verify_frame_tag(&frame, &mac_key));
    frame.payload[0] ^= 1;
    frame.sequence = 10;
    assert!(!verify_frame_tag(&frame, &mac_key));
}

#[test]
fn session_keys_are_distinct_and_deterministic() {
    let shared = vec![0x42u8; 64];
    let transcript = vec![0x37u8; 32];
    let keys = derive_session_keys(&shared, &transcript);
    assert_eq!(keys.tx_data.len(), 32);
    assert_eq!(keys.rx_data.len(), 32);
    assert_eq!(keys.tx_mac.len(), 32);
    assert_eq!(keys.rx_mac.len(), 32);
    assert_ne!(keys.tx_data, keys.rx_data);
    assert_ne!(keys.tx_data, keys.tx_mac);
    assert_ne!(keys.tx_mac, keys.rx_mac);
    // The same inputs derive the same keys on both peers.
    let again = derive_session_keys(&shared, &transcript);
    assert_eq!(keys.tx_data, again.tx_data);
    assert_eq!(keys.rx_mac, again.rx_mac);
    // Rotation derives a fresh key per generation.
    let g1 = derive_rekey(&keys.tx_data, 1);
    let g2 = derive_rekey(&keys.tx_data, 2);
    assert_eq!(g1.len(), 32);
    assert_ne!(g1, g2);
    assert_ne!(g1, keys.tx_data);
}

#[test]
fn server_judges_the_opening_flight() {
    let offered = vec![CryptoSuite::default(), pq_suite()];
    let permitted = vec![CryptoSuite::default()];
    // A common suite and no hardware requirement: accepted.
    assert_eq!(
        accept_client_hello(&offered, &permitted, false, false, false).unwrap(),
        CryptoSuite::default()
    );
    // Hardware demanded but missing or unverified: hardware errors.
    assert!(matches!(
        accept_client_hello(&offered, &permitted, true, false, false),
        Err(Error::HardwareAuth(_))
    ));
    assert!(matches!(
        accept_client_hello(&offered, &permitted, true, true, false),
        Err(Error::HardwareAuth(_))
    ));
    assert!(accept_client_hello(&offered, &permitted, true, true, true).is_ok());
    // No intersection: an authentication error.
    let nothing = vec![classical_suite()];
    assert!(matches!(
        accept_client_hello(&offered, &nothing, false, false, false),
        Err(Error::Auth(_))
    ));
}

#[test]
fn client_judges_the_answering_flight() {
    let offered = vec![CryptoSuite::default(), pq_suite()];
    let hybrid = CryptoSuite::default();
    assert!(validate_server_hello(&offered, &hybrid, true, true, false, false).is_ok());
    // A downgrade below the offer carries the structured code.
    match validate_server_hello(&offered, &classical_suite(), true, true, false, false) {
        Err(Error::Auth(code)) => assert_eq!(code, "suite_not_offered"),
        _ => panic!("a downgrade must be refused with its code"),
    }
    // A failed certificate chain or transcript signature is refused.
    assert!(validate_server_hello(&offered, &hybrid, false, true, false, false).is_err());
    assert!(validate_server_hello(&offered, &hybrid, true, false, false, false).is_err());
    // A demanded but unverified attestation is refused.
    assert!(matches!(
        validate_server_hello(&offered, &hybrid, true, true, true, false),
        Err(Error::HardwareAuth(_))
    ));
    assert!(validate_server_hello(&offered, &hybrid, true, true, true, true).is_ok());
}

#[test]
fn previous_key_generation_is_accepted_only_in_the_overlap() {
    let mut session = Session::new(12, 0);
    assert!(session.accepts_key_generation(0, 0));
    session.rotate_keys(1000);
    // The new generation always; the old one only within the overlap.
    assert!(session.accepts_key_generation(1, 1000));
    assert!(session.accepts_key_generation(0, 1000));
    assert!(session.accepts_key_generation(0, 1000 + REKEY_OVERLAP_SECS));
    assert!(!session.accepts_key_generation(0, 1001 + REKEY_OVERLAP_SECS));
    // Generations further back are never accepted.
    session.rotate_keys(2000);
    assert!(!session.accepts_key_generation(0, 2000));
    assert!(session.accepts_key_generation(1, 2000));
    assert!(session.accepts_key_generation(2, 9999));
}
