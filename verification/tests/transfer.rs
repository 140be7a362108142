//! File-transfer engine tests: the server-side table's boundary checks, the
//! path-traversal guard, streaming integrity end to end, corruption
//! detection and key rotation mid-transfer.

use lsftp::audit::{AuditAction, AuditEvent, AuditResult, Severity};
use lsftp::error::Error;
use lsftp::session::Session;
use lsftp::transfer::{
    chunk_count, path_escapes_root, retry_backoff_ms, DownloadState, FileTransferTable,
    UploadState, MAX_CONCURRENT_FILE_SESSIONS,
};
use lsftp::{DEFAULT_CHUNK_SIZE, KEY_ROTATION_INTERVAL_SECS, MAX_FILE_SIZE};

fn patterned(len: usize) -> Vec<u8> {
    let mut data = Vec::with_capacity(len);
    for i in 0..len {
        data.push((i % 256) as u8);
    }
    data
}

#[test]
fn oversized_file_open_is_rejected() {
    let mut table = FileTransferTable::new(MAX_CONCURRENT_FILE_SESSIONS, MAX_FILE_SIZE);
    match table.open_file(1, "ok/file.bin".to_string(), MAX_FILE_SIZE + 1) {
        Err(Error::File(_)) => {}
        _ => panic!("a declared size over the limit must be rejected"),
    }
    assert!(!table.has_session(1));
    assert!(table.open_file(1, "ok/file.bin".to_string(), MAX_FILE_SIZE).is_ok());
}

#[test]
fn path_traversal_is_rejected() {
    // Scenario: FileOpen with path "../../etc/passwd" against the root.
    let mut table = FileTransferTable::new(MAX_CONCURRENT_FILE_SESSIONS, MAX_FILE_SIZE);
    match table.open_file(9, "../../etc/passwd".to_string(), 100) {
        Err(Error::File(_)) => {}
        _ => panic!("a traversal path must be a file error"),
    }
    assert!(!table.has_session(9), "no file session may be created");
    // The denial is a security event of warning severity.
    let event = AuditEvent::new(AuditAction::SecurityEvent, AuditResult::Denied)
        .with_file_path("../../etc/passwd".to_string());
    assert_eq!(event.severity(), Severity::Warning);
    assert!(event.requires_siem_escalation());
}

#[test]
fn traversal_guard_judges_paths_by_resolution() {
    assert!(path_escapes_root("../../etc/passwd"));
    assert!(path_escapes_root("/etc/passwd"));
    assert!(path_escapes_root("a/../../b"));
    assert!(path_escapes_root(".."));
    assert!(!path_escapes_root("a/../b"));
    assert!(!path_escapes_root("./a/b/../c"));
    assert!(!path_escapes_root("deep/nested/dir/file.txt"));
    assert!(!path_escapes_root(""));
    assert!(!path_escapes_root("."));
}

#[test]
fn duplicate_file_open_is_rejected() {
    let mut table = FileTransferTable::new(MAX_CONCURRENT_FILE_SESSIONS, MAX_FILE_SIZE);
    assert!(table.open_file(5, "a.bin".to_string(), 10).is_ok());
    match table.open_file(5, "b.bin".to_string(), 10) {
        Err(Error::File(_)) => {}
        _ => panic!("the second open with the same file identity must be rejected"),
    }
    assert!(table.has_session(5));
    // A different identity is fine.
    assert!(table.open_file(6, "b.bin".to_string(), 10).is_ok());
}

#[test]
fn session_cap_is_enforced() {
    let mut table = FileTransferTable::new(2, MAX_FILE_SIZE);
    assert!(table.open_file(1, "a".to_string(), 1).is_ok());
    assert!(table.open_file(2, "b".to_string(), 1).is_ok());
    assert!(table.open_file(3, "c".to_string(), 1).is_err());
}

#[test]
fn hybrid_upload_happy_path() {
    // A 3 MiB file with contents i mod 256, uploaded in 1 MiB chunks.
    let size = 3 * 1024 * 1024;
    let contents = patterned(size);
    let file_id = 0xABCDu128;

    let mut client = UploadState::begin(file_id);
    let mut table = FileTransferTable::new(MAX_CONCURRENT_FILE_SESSIONS, MAX_FILE_SIZE);
    table.open_file(file_id, "upload/data.bin".to_string(), size as u64).unwrap();

    let mut received: Vec<u8> = Vec::new();
    let mut chunks = 0u32;
    for chunk in contents.chunks(DEFAULT_CHUNK_SIZE) {
        assert_eq!(chunk.len(), DEFAULT_CHUNK_SIZE);
        let (index, chunk_hash) = client.next_chunk(chunk);
        assert_eq!(index, chunks);
        let server_index = table.handle_chunk(file_id, chunk, &chunk_hash).unwrap();
        assert_eq!(server_index, chunks);
        received.extend_from_slice(chunk);
        chunks += 1;
    }
    assert_eq!(chunks, 3, "a 3 MiB file travels in exactly 3 chunks");
    assert_eq!(chunk_count(size as u64, DEFAULT_CHUNK_SIZE as u64), 3);

    let final_hash = client.final_hash();
    let outcome = table.close_file(file_id, &final_hash).unwrap();
    assert_eq!(outcome.bytes_written, 3145728);
    assert_eq!(outcome.chunks_received, 3);
    assert!(!table.has_session(file_id));

    // The server-side bytes hash to the client's digest.
    let client_sha3 = lsftp::crypto::sha3_256_hash(&contents);
    let server_sha3 = lsftp::crypto::sha3_256_hash(&received);
    assert_eq!(client_sha3, server_sha3);

    // One successful upload audit event with the transferred byte count.
    let event = AuditEvent::new(AuditAction::FileUpload, AuditResult::Success)
        .with_bytes_transferred(outcome.bytes_written);
    assert_eq!(event.bytes_transferred, Some(3145728));
    assert_eq!(event.action, AuditAction::FileUpload);
    assert_eq!(event.result, AuditResult::Success);
}

#[test]
fn corruption_is_detected_at_chunk_granularity() {
    // A 2 MiB upload whose second chunk is altered between send and write.
    let size = 2 * 1024 * 1024;
    let contents = patterned(size);
    let file_id = 0x77u128;

    let mut client = UploadState::begin(file_id);
    let mut table = FileTransferTable::new(MAX_CONCURRENT_FILE_SESSIONS, MAX_FILE_SIZE);
    table.open_file(file_id, "upload/corrupt.bin".to_string(), size as u64).unwrap();

    let chunks: Vec<&[u8]> = contents.chunks(DEFAULT_CHUNK_SIZE).collect();
    let (i0, h0) = client.next_chunk(chunks[0]);
    assert_eq!(i0, 0);
    table.handle_chunk(file_id, chunks[0], &h0).unwrap();

    let (i1, h1) = client.next_chunk(chunks[1]);
    assert_eq!(i1, 1);
    let mut altered = chunks[1].to_vec();
    altered[0] ^= 0xFF;
    match table.handle_chunk(file_id, &altered, &h1) {
        Err(Error::File(code)) => assert_eq!(code, "chunk_integrity"),
        _ => panic!("the altered chunk must fail its integrity check"),
    }
    // The transfer is aborted: the session is gone and nothing was kept.
    assert!(!table.has_session(file_id));
    // The failure event escalates to the SIEM sink.
    let event = AuditEvent::new(AuditAction::FileUpload, AuditResult::Failure)
        .with_error_code("chunk_integrity".to_string());
    assert_eq!(event.error_code, Some("chunk_integrity".to_string()));
    assert!(event.requires_siem_escalation());
}

#[test]
fn close_with_missing_bytes_or_wrong_hash_fails() {
    let contents = patterned(1024);
    let file_id = 3u128;
    let mut client = UploadState::begin(file_id);
    let mut table = FileTransferTable::new(MAX_CONCURRENT_FILE_SESSIONS, MAX_FILE_SIZE);

    // Declared size not reached: close fails.
    table.open_file(file_id, "short.bin".to_string(), 2048).unwrap();
    let (_, h) = client.next_chunk(&contents);
    table.handle_chunk(file_id, &contents, &h).unwrap();
    let final_hash = client.final_hash();
    assert!(table.close_file(file_id, &final_hash).is_err());

    // Right size, wrong final hash: close fails.
    let mut client2 = UploadState::begin(4);
    table.open_file(4, "bad-hash.bin".to_string(), 1024).unwrap();
    let (_, h2) = client2.next_chunk(&contents);
    table.handle_chunk(4, &contents, &h2).unwrap();
    let wrong = vec![0u8; 32];
    assert!(table.close_file(4, &wrong).is_err());

    // Closing an unknown identity fails too.
    assert!(table.close_file(99, &wrong).is_err());
}

#[test]
fn download_verifies_chunks_and_final_hash() {
    let contents = patterned(600_000);
    let mut sender = UploadState::begin(1);
    let mut receiver = DownloadState::begin();
    for chunk in contents.chunks(200_000) {
        let (index, hash) = sender.next_chunk(chunk);
        let got = receiver.verify_chunk(chunk, &hash).unwrap();
        assert_eq!(got, index);
    }
    receiver.verify_final(&sender.final_hash()).unwrap();
    // A wrong final hash is refused.
    assert!(receiver.verify_final(&vec![0u8; 32]).is_err());
}

#[test]
fn download_aborts_on_mismatched_chunk() {
    let mut sender = UploadState::begin(1);
    let mut receiver = DownloadState::begin();
    let (_, hash) = sender.next_chunk(&[1, 2, 3]);
    match receiver.verify_chunk(&[1, 2, 4], &hash) {
        Err(Error::File(_)) => {}
        _ => panic!("a mismatched chunk must be a file error"),
    }
}

#[test]
fn emergency_stop_aborts_all_transfers() {
    let mut table = FileTransferTable::new(MAX_CONCURRENT_FILE_SESSIONS, MAX_FILE_SIZE);
    table.open_file(1, "a.bin".to_string(), 10).unwrap();
    table.open_file(2, "b.bin".to_string(), 10).unwrap();
    let paths = table.abort_all();
    assert_eq!(paths, vec!["a.bin".to_string(), "b.bin".to_string()]);
    assert!(!table.has_session(1));
    assert!(!table.has_session(2));
}

#[test]
fn key_rotation_mid_transfer_keeps_integrity() {
    // A 64 MiB upload spans the rotation interval; the clock is accelerated.
    let size = 64 * 1024 * 1024;
    let contents = patterned(size);
    let file_id = 0xFEEDu128;

    let mut session = Session::new(11, 0);
    let mut client = UploadState::begin(file_id);
    let mut table = FileTransferTable::new(MAX_CONCURRENT_FILE_SESSIONS, MAX_FILE_SIZE);
    table.open_file(file_id, "big.bin".to_string(), size as u64).unwrap();

    let mut now = 0u64;
    let mut rotations = 0u64;
    for chunk in contents.chunks(DEFAULT_CHUNK_SIZE) {
        now += 10; // ten accelerated seconds per chunk: 640 s over the file
        if session.needs_key_rotation(now) {
            session.rotate_keys(now);
            rotations += 1;
        }
        session.next_sequence();
        session.note_sent(chunk.len() as u64, now);
        let (_, hash) = client.next_chunk(chunk);
        table.handle_chunk(file_id, chunk, &hash).unwrap();
    }
    assert!(rotations >= 1, "the rotation interval must have elapsed mid-transfer");
    assert_eq!(session.key_generation, rotations);
    assert!(now > KEY_ROTATION_INTERVAL_SECS);

    // One close finalizes the file and the hash matches.
    let outcome = table.close_file(file_id, &client.final_hash()).unwrap();
    assert_eq!(outcome.bytes_written, size as u64);
    assert_eq!(outcome.chunks_received, 64);
}

#[test]
fn chunk_math_and_backoff() {
    assert_eq!(chunk_count(0, 1024), 0);
    assert_eq!(chunk_count(1, 1024), 1);
    assert_eq!(chunk_count(1024, 1024), 1);
    assert_eq!(chunk_count(1025, 1024), 2);
    assert_eq!(chunk_count(3 * 1024 * 1024, DEFAULT_CHUNK_SIZE as u64), 3);
    assert_eq!(retry_backoff_ms(1), 100);
    assert_eq!(retry_backoff_ms(2), 200);
    assert_eq!(retry_backoff_ms(3), 300);
}

#[test]
fn chunk_hashes_match_an_independent_rehash() {
    // The streaming hasher's per-chunk digests must equal a one-shot hash
    // of the cumulative bytes, computed independently.
    let contents = patterned(300_000);
    let mut upload = UploadState::begin(1);
    let mut cumulative: Vec<u8> = Vec::new();
    for chunk in contents.chunks(100_000) {
        cumulative.extend_from_slice(chunk);
        let (_, chunk_hash) = upload.next_chunk(chunk);
        let independent = blake3::hash(&cumulative);
        assert_eq!(chunk_hash.as_slice(), independent.as_bytes());
    }
    let final_hash = upload.final_hash();
    assert_eq!(final_hash.as_slice(), blake3::hash(&contents).as_bytes());
}
