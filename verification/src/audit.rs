//! Audit trail: structured events, the severity classification, canonical
//! signing bytes, signing and verification, and SIEM escalation.
//!
//! Writing events to sinks (console, journal file, syslog, SIEM push) is
//! I/O and lives outside the library; everything the sinks receive is
//! computed here.

use vstd::prelude::*;
use vstd::string::StrSliceExecFns;

use crate::clock::now_unix_seconds;
use crate::crypto::{blake3_of, sha3_256_of, CryptoSuite, HashAlgorithm};
use crate::error::Error;
use crate::protocol::{u32_be, u64_be, u128_be};
use crate::util::push_bytes;

verus! {

/// Audit event severity levels, in rising order.
#[derive(Debug, Clone, Copy, PartialEq, Eq, PartialOrd, Ord, Structural)]
pub enum Severity {
    /// Debug information
    Debug,
    /// Informational message
    Info,
    /// Warning message
    Warning,
    /// Error condition
    Error,
    /// Critical error
    Critical,
}

/// Audit action types.
#[derive(Debug, Clone, Copy, PartialEq, Eq, Structural)]
pub enum AuditAction {
    /// User authentication
    Authentication,
    /// File upload
    FileUpload,
    /// File download
    FileDownload,
    /// File deletion
    FileDelete,
    /// Policy change
    PolicyChange,
    /// Session start
    SessionStart,
    /// Session end
    SessionEnd,
    /// Configuration change
    ConfigChange,
    /// Security event
    SecurityEvent,
    /// System event
    SystemEvent,
}

/// Outcome an audit event records.
#[derive(Debug, Clone, Copy, PartialEq, Eq, Structural)]
pub enum AuditResult {
    /// Operation successful
    Success,
    /// Operation failed
    Failure,
    /// Operation denied
    Denied,
    /// Operation in progress
    InProgress,
}

/// The canonical byte code of an action.
pub open spec fn action_code(a: AuditAction) -> u8 {
    match a {
        AuditAction::Authentication => 0,
        AuditAction::FileUpload => 1,
        AuditAction::FileDownload => 2,
        AuditAction::FileDelete => 3,
        AuditAction::PolicyChange => 4,
        AuditAction::SessionStart => 5,
        AuditAction::SessionEnd => 6,
        AuditAction::ConfigChange => 7,
        AuditAction::SecurityEvent => 8,
        AuditAction::SystemEvent => 9,
    }
}

/// The canonical byte code of a result.
pub open spec fn result_code(x: AuditResult) -> u8 {
    match x {
        AuditResult::Success => 0,
        AuditResult::Failure => 1,
        AuditResult::Denied => 2,
        AuditResult::InProgress => 3,
    }
}

impl AuditAction {
    /// The canonical byte code of this action.
    pub fn code(&self) -> (r: u8)
        ensures
            r == action_code(*self),
    {
        match self {
            AuditAction::Authentication => 0,
            AuditAction::FileUpload => 1,
            AuditAction::FileDownload => 2,
            AuditAction::FileDelete => 3,
            AuditAction::PolicyChange => 4,
            AuditAction::SessionStart => 5,
            AuditAction::SessionEnd => 6,
            AuditAction::ConfigChange => 7,
            AuditAction::SecurityEvent => 8,
            AuditAction::SystemEvent => 9,
        }
    }
}

impl AuditResult {
    /// The canonical byte code of this result.
    pub fn code(&self) -> (r: u8)
        ensures
            r == result_code(*self),
    {
        match self {
            AuditResult::Success => 0,
            AuditResult::Failure => 1,
            AuditResult::Denied => 2,
            AuditResult::InProgress => 3,
        }
    }
}

/// The severity an event is classified with, from its action and result:
/// authentication succeeds quietly and fails loudly; security events are
/// never below warning; everything else logs low on success and warns on
/// failure or denial.
pub open spec fn spec_severity(action: AuditAction, result: AuditResult) -> Severity {
    match result {
        AuditResult::Success => match action {
            AuditAction::SecurityEvent => Severity::Warning,
            AuditAction::Authentication => Severity::Info,
            _ => Severity::Debug,
        },
        AuditResult::Failure => match action {
            AuditAction::SecurityEvent => Severity::Critical,
            AuditAction::Authentication => Severity::Error,
            _ => Severity::Warning,
        },
        AuditResult::Denied => Severity::Warning,
        AuditResult::InProgress => Severity::Info,
    }
}

/// One structured audit record. Optional fields are absent unless the
/// operation they describe sets them; the signature, when present, covers
/// the canonical serialization of every field but itself.
pub struct AuditEvent {
    /// Event timestamp, seconds since the Unix epoch.
    pub timestamp: u64,
    /// Event identity.
    pub event_id: u128,
    /// User behind the operation.
    pub user_id: Option<String>,
    /// Hardware device behind the operation.
    pub hardware_id: Option<String>,
    /// Action performed.
    pub action: AuditAction,
    /// File path, for file operations.
    pub file_path: Option<String>,
    /// File hash, for file operations.
    pub file_hash: Option<[u8; 32]>,
    /// Source address.
    pub source_ip: Option<String>,
    /// Session the event belongs to.
    pub session_id: Option<u128>,
    /// Bytes transferred, for transfers.
    pub bytes_transferred: Option<u64>,
    /// Duration in milliseconds, for transfers.
    pub duration_ms: Option<u64>,
    /// Outcome.
    pub result: AuditResult,
    /// Machine-readable error code, for failures.
    pub error_code: Option<String>,
    /// Additional key-value metadata; one entry per key.
    pub metadata: Vec<(String, String)>,
    /// Signature over the canonical bytes, when signing is enabled.
    pub signature: Option<Vec<u8>>,
}

/// An optional text field of the canonical form: a presence tag, then the
/// length-prefixed UTF-8 bytes.
pub open spec fn opt_string_bytes(o: Option<String>) -> Seq<u8> {
    match o {
        None => seq![0u8],
        Some(s) => seq![1u8] + crate::message::enc_string(s@),
    }
}

/// An optional `u64` field of the canonical form: a presence tag, then the
/// big-endian bytes.
pub open spec fn opt_u64_bytes(o: Option<u64>) -> Seq<u8> {
    match o {
        None => seq![0u8],
        Some(x) => seq![1u8] + u64_be(x),
    }
}

/// An optional `u128` field of the canonical form: a presence tag, then the
/// big-endian bytes.
pub open spec fn opt_u128_bytes(o: Option<u128>) -> Seq<u8> {
    match o {
        None => seq![0u8],
        Some(x) => seq![1u8] + u128_be(x),
    }
}

/// An optional hash field of the canonical form: a presence tag, then the
/// 32 digest bytes.
pub open spec fn opt_hash_bytes(o: Option<[u8; 32]>) -> Seq<u8> {
    match o {
        None => seq![0u8],
        Some(h) => seq![1u8] + h@,
    }
}

/// The canonical bytes an event is signed over: every field but the
/// signature, in the stable order timestamp, event identity, action code,
/// result code, user identity, hardware identity, session identity, file
/// path, file hash, bytes transferred, duration, error code, metadata
/// (count-prefixed key-value pairs, one entry per key, in the record's
/// order), and finally the source address. Optional fields carry a presence
/// tag and variable-length fields a length prefix, so distinct events never
/// share canonical bytes by sliding content between fields.
pub open spec fn spec_signature_data(e: AuditEvent) -> Seq<u8> {
    u64_be(e.timestamp) + u128_be(e.event_id) + seq![
        action_code(e.action),
        result_code(e.result),
    ] + opt_string_bytes(e.user_id) + opt_string_bytes(e.hardware_id) + opt_u128_bytes(
        e.session_id,
    ) + opt_string_bytes(e.file_path) + opt_hash_bytes(e.file_hash) + opt_u64_bytes(
        e.bytes_transferred,
    ) + opt_u64_bytes(e.duration_ms) + opt_string_bytes(e.error_code) + u32_be(
        e.metadata@.len() as u32,
    ) + crate::message::enc_pair_items(e.metadata@) + opt_string_bytes(e.source_ip)
}

/// Whether every variable-length field of an event fits its length prefix
/// in the canonical form.
pub open spec fn spec_canonicalizable(e: AuditEvent) -> bool {
    &&& (e.user_id matches Some(s) ==> crate::message::string_fits(s@))
    &&& (e.hardware_id matches Some(s) ==> crate::message::string_fits(s@))
    &&& (e.file_path matches Some(s) ==> crate::message::string_fits(s@))
    &&& (e.error_code matches Some(s) ==> crate::message::string_fits(s@))
    &&& (e.source_ip matches Some(s) ==> crate::message::string_fits(s@))
    &&& crate::message::pairs_fit(e.metadata@)
}

/// The digest a suite's hash algorithm assigns to bytes.
pub open spec fn spec_suite_digest(suite: CryptoSuite, data: Seq<u8>) -> Seq<u8> {
    if suite.hash == HashAlgorithm::Blake3 {
        blake3_of(data)
    } else {
        sha3_256_of(data)
    }
}

/// The signature bytes a logger assigns to canonical data: the keyed BLAKE3
/// digest under the audit key when one is configured, the suite's plain
/// digest otherwise.
pub open spec fn spec_logger_signature(
    suite: CryptoSuite,
    audit_key: Option<Vec<u8>>,
    data: Seq<u8>,
) -> Seq<u8> {
    match audit_key {
        Some(k) => crate::crypto::blake3_keyed_of(k@, data),
        None => spec_suite_digest(suite, data),
    }
}

/// Two events that agree on everything but the signature field.
pub open spec fn same_but_signature(a: AuditEvent, b: AuditEvent) -> bool {
    &&& a.timestamp == b.timestamp
    &&& a.event_id == b.event_id
    &&& a.user_id == b.user_id
    &&& a.hardware_id == b.hardware_id
    &&& a.action == b.action
    &&& a.file_path == b.file_path
    &&& a.file_hash == b.file_hash
    &&& a.source_ip == b.source_ip
    &&& a.session_id == b.session_id
    &&& a.bytes_transferred == b.bytes_transferred
    &&& a.duration_ms == b.duration_ms
    &&& a.result == b.result
    &&& a.error_code == b.error_code
    &&& a.metadata == b.metadata
}

/// The canonical bytes do not depend on the signature field: signing an
/// event does not change what its signature covers.
pub proof fn lemma_canonical_ignores_signature(a: AuditEvent, b: AuditEvent)
    requires
        same_but_signature(a, b),
    ensures
        spec_signature_data(a) == spec_signature_data(b),
{
}

/// With signing enabled, a signed event verifies: a signature computed over
/// an event's canonical bytes — keyed or plain — still matches after it is
/// stored in the event, since the canonical bytes ignore the signature
/// field.
pub proof fn lemma_signed_event_verifies(
    suite: CryptoSuite,
    audit_key: Option<Vec<u8>>,
    e: AuditEvent,
    signed: AuditEvent,
)
    requires
        same_but_signature(e, signed),
        signed.signature matches Some(s) && s@ == spec_logger_signature(
            suite,
            audit_key,
            spec_signature_data(e),
        ),
    ensures
        signed.signature matches Some(s) && s@ == spec_logger_signature(
            suite,
            audit_key,
            spec_signature_data(signed),
        ),
{
    lemma_canonical_ignores_signature(e, signed);
}

/// Relies on `uuid::Uuid::new_v4` and `Uuid::as_u128`: a freshly drawn
/// 128-bit identity. The value is random, so nothing is promised of it.
#[verifier::external_body]
pub(crate) fn fresh_id() -> u128 {
    uuid::Uuid::new_v4().as_u128()
}

/// The metadata pairs with the given key taken out, order otherwise kept.
pub open spec fn remove_key(m: Seq<(String, String)>, k: Seq<char>) -> Seq<(String, String)>
    decreases m.len(),
{
    if m.len() == 0 {
        m
    } else if m.last().0@ == k {
        remove_key(m.drop_last(), k)
    } else {
        remove_key(m.drop_last(), k).push(m.last())
    }
}

impl AuditEvent {
    /// A fresh event for an action and result, stamped with the clock and a
    /// fresh identity; every optional field starts absent.
    pub fn new(action: AuditAction, result: AuditResult) -> (r: Self)
        ensures
            r.action == action,
            r.result == result,
            r.user_id is None,
            r.hardware_id is None,
            r.file_path is None,
            r.file_hash is None,
            r.source_ip is None,
            r.session_id is None,
            r.bytes_transferred is None,
            r.duration_ms is None,
            r.error_code is None,
            r.metadata@.len() == 0,
            r.signature is None,
    {
        AuditEvent {
            timestamp: now_unix_seconds(),
            event_id: fresh_id(),
            user_id: None,
            hardware_id: None,
            action,
            file_path: None,
            file_hash: None,
            source_ip: None,
            session_id: None,
            bytes_transferred: None,
            duration_ms: None,
            result,
            error_code: None,
            metadata: Vec::new(),
            signature: None,
        }
    }

    /// Set the user identity.
    pub fn with_user_id(self, user_id: String) -> (r: Self)
        ensures
            r == (AuditEvent { user_id: Some(user_id), ..self }),
    {
        AuditEvent { user_id: Some(user_id), ..self }
    }

    /// Set the hardware identity.
    pub fn with_hardware_id(self, hardware_id: String) -> (r: Self)
        ensures
            r == (AuditEvent { hardware_id: Some(hardware_id), ..self }),
    {
        AuditEvent { hardware_id: Some(hardware_id), ..self }
    }

    /// Set the file path.
    pub fn with_file_path(self, file_path: String) -> (r: Self)
        ensures
            r == (AuditEvent { file_path: Some(file_path), ..self }),
    {
        AuditEvent { file_path: Some(file_path), ..self }
    }

    /// Set the file hash.
    pub fn with_file_hash(self, file_hash: [u8; 32]) -> (r: Self)
        ensures
            r == (AuditEvent { file_hash: Some(file_hash), ..self }),
    {
        AuditEvent { file_hash: Some(file_hash), ..self }
    }

    /// Set the source address.
    pub fn with_source_ip(self, source_ip: String) -> (r: Self)
        ensures
            r == (AuditEvent { source_ip: Some(source_ip), ..self }),
    {
        AuditEvent { source_ip: Some(source_ip), ..self }
    }

    /// Set the session identity.
    pub fn with_session_id(self, session_id: u128) -> (r: Self)
        ensures
            r == (AuditEvent { session_id: Some(session_id), ..self }),
    {
        AuditEvent { session_id: Some(session_id), ..self }
    }

    /// Set the bytes transferred.
    pub fn with_bytes_transferred(self, bytes: u64) -> (r: Self)
        ensures
            r == (AuditEvent { bytes_transferred: Some(bytes), ..self }),
    {
        AuditEvent { bytes_transferred: Some(bytes), ..self }
    }

    /// Set the duration.
    pub fn with_duration(self, duration_ms: u64) -> (r: Self)
        ensures
            r == (AuditEvent { duration_ms: Some(duration_ms), ..self }),
    {
        AuditEvent { duration_ms: Some(duration_ms), ..self }
    }

    /// Set the error code.
    pub fn with_error_code(self, error_code: String) -> (r: Self)
        ensures
            r == (AuditEvent { error_code: Some(error_code), ..self }),
    {
        AuditEvent { error_code: Some(error_code), ..self }
    }

    /// Set one metadata key to a value: any earlier entry for the key goes,
    /// the new pair comes last, everything else keeps its order.
    pub fn with_metadata(self, key: String, value: String) -> (r: Self)
        ensures
            r.metadata@ == remove_key(self.metadata@, key@).push((key, value)),
            same_but_signature(r, AuditEvent { metadata: r.metadata, ..self }),
            r.signature == self.signature,
    {
        let ghost m = self.metadata@;
        let mut filtered: Vec<(String, String)> = Vec::new();
        let mut i: usize = 0;
        let n = self.metadata.len();
        while i < n
            invariant
                i <= n,
                n == m.len(),
                self.metadata@ == m,
                filtered@ == remove_key(m.take(i as int), key@),
            decreases n - i,
        {
            proof {
                assert(m.take(i + 1).drop_last() =~= m.take(i as int));
                assert(m.take(i + 1).last() == m[i as int]);
            }
            if !(self.metadata[i].0 == key) {
                let pair = clone_pair(&self.metadata[i]);
                filtered.push(pair);
            }
            i = i + 1;
        }
        proof {
            assert(m.take(n as int) =~= m);
        }
        filtered.push((key, value));
        AuditEvent { metadata: filtered, ..self }
    }

    /// Set the signature bytes.
    pub fn with_signature(self, signature: Vec<u8>) -> (r: Self)
        ensures
            r == (AuditEvent { signature: Some(signature), ..self }),
    {
        AuditEvent { signature: Some(signature), ..self }
    }

    /// The severity of this event under the classification table.
    pub fn severity(&self) -> (r: Severity)
        ensures
            r == spec_severity(self.action, self.result),
    {
        match self.result {
            AuditResult::Success => match self.action {
                AuditAction::SecurityEvent => Severity::Warning,
                AuditAction::Authentication => Severity::Info,
                _ => Severity::Debug,
            },
            AuditResult::Failure => match self.action {
                AuditAction::SecurityEvent => Severity::Critical,
                AuditAction::Authentication => Severity::Error,
                _ => Severity::Warning,
            },
            AuditResult::Denied => Severity::Warning,
            AuditResult::InProgress => Severity::Info,
        }
    }

    /// Whether the event must additionally be pushed to the SIEM sink:
    /// every failure, and every security event whatever its outcome.
    pub fn requires_siem_escalation(&self) -> (r: bool)
        ensures
            r == (self.result == AuditResult::Failure || self.action
                == AuditAction::SecurityEvent),
    {
        self.result == AuditResult::Failure || self.action == AuditAction::SecurityEvent
    }

    /// Whether every variable-length field fits the canonical form's length
    /// prefixes.
    pub fn canonicalizable(&self) -> (r: bool)
        ensures
            r == spec_canonicalizable(*self),
    {
        if !(opt_string_fits(&self.user_id) && opt_string_fits(&self.hardware_id)
            && opt_string_fits(&self.file_path) && opt_string_fits(&self.error_code)
            && opt_string_fits(&self.source_ip)) {
            return false;
        }
        if self.metadata.len() > u32::MAX as usize {
            return false;
        }
        let mut i: usize = 0;
        while i < self.metadata.len()
            invariant
                i <= self.metadata@.len(),
                forall|k: int|
                    0 <= k < i ==> crate::message::string_fits(
                        (#[trigger] self.metadata@[k]).0@,
                    ) && crate::message::string_fits(self.metadata@[k].1@),
            decreases self.metadata@.len() - i,
        {
            let over = self.metadata[i].0.as_str().as_bytes().len() > u32::MAX as usize
                || self.metadata[i].1.as_str().as_bytes().len() > u32::MAX as usize;
            if over {
                return false;
            }
            i = i + 1;
        }
        true
    }

    /// The canonical bytes this event is signed over.
    #[verifier::rlimit(60)]
    pub fn signature_data(&self) -> (r: Vec<u8>)
        requires
            spec_canonicalizable(*self),
        ensures
            r@ == spec_signature_data(*self),
    {
        let mut data: Vec<u8> = Vec::new();
        crate::protocol::push_u64_be(&mut data, self.timestamp);
        crate::protocol::push_u64_be(&mut data, (self.event_id >> 64) as u64);
        crate::protocol::push_u64_be(&mut data, self.event_id as u64);
        data.push(self.action.code());
        data.push(self.result.code());
        push_opt_string(&mut data, &self.user_id);
        push_opt_string(&mut data, &self.hardware_id);
        push_opt_u128(&mut data, &self.session_id);
        push_opt_string(&mut data, &self.file_path);
        push_opt_hash(&mut data, &self.file_hash);
        push_opt_u64(&mut data, &self.bytes_transferred);
        push_opt_u64(&mut data, &self.duration_ms);
        push_opt_string(&mut data, &self.error_code);
        crate::message::push_pairs(&mut data, &self.metadata);
        push_opt_string(&mut data, &self.source_ip);
        proof {
            assert(data@ =~= spec_signature_data(*self));
        }
        data
    }
}

/// Whether an optional text field fits its length prefix.
fn opt_string_fits(o: &Option<String>) -> (r: bool)
    ensures
        r == (o matches Some(s) ==> crate::message::string_fits(s@)),
{
    match o {
        None => true,
        Some(s) => s.as_str().as_bytes().len() <= u32::MAX as usize,
    }
}

/// Append an optional text field with its presence tag.
fn push_opt_string(out: &mut Vec<u8>, o: &Option<String>)
    requires
        o matches Some(s) ==> crate::message::string_fits(s@),
    ensures
        final(out)@ == old(out)@ + opt_string_bytes(*o),
{
    let ghost start = out@;
    match o {
        None => {
            out.push(0);
        },
        Some(s) => {
            out.push(1);
            crate::message::push_enc_string(out, s.as_str());
        },
    }
    proof {
        assert(out@ =~= start + opt_string_bytes(*o));
    }
}

/// Append an optional `u64` field with its presence tag.
fn push_opt_u64(out: &mut Vec<u8>, o: &Option<u64>)
    ensures
        final(out)@ == old(out)@ + opt_u64_bytes(*o),
{
    let ghost start = out@;
    match o {
        None => {
            out.push(0);
        },
        Some(x) => {
            out.push(1);
            crate::protocol::push_u64_be(out, *x);
        },
    }
    proof {
        assert(out@ =~= start + opt_u64_bytes(*o));
    }
}

/// Append an optional `u128` field with its presence tag.
fn push_opt_u128(out: &mut Vec<u8>, o: &Option<u128>)
    ensures
        final(out)@ == old(out)@ + opt_u128_bytes(*o),
{
    let ghost start = out@;
    match o {
        None => {
            out.push(0);
        },
        Some(x) => {
            out.push(1);
            crate::protocol::push_u64_be(out, (*x >> 64) as u64);
            crate::protocol::push_u64_be(out, #[verifier::truncate] (*x as u64));
        },
    }
    proof {
        assert(out@ =~= start + opt_u128_bytes(*o));
    }
}

/// Append an optional hash field with its presence tag.
fn push_opt_hash(out: &mut Vec<u8>, o: &Option<[u8; 32]>)
    ensures
        final(out)@ == old(out)@ + opt_hash_bytes(*o),
{
    let ghost start = out@;
    match o {
        None => {
            out.push(0);
        },
        Some(h) => {
            out.push(1);
            push_bytes(out, h.as_slice());
        },
    }
    proof {
        assert(out@ =~= start + opt_hash_bytes(*o));
    }
}

/// Relies on `Clone` for `(String, String)`: the copy holds the same two
/// strings.
#[verifier::external_body]
fn clone_pair(p: &(String, String)) -> (r: (String, String))
    ensures
        r == *p,
{
    (p.0.clone(), p.1.clone())
}

/// Audit logger configuration.
#[derive(Debug, Clone)]
pub struct AuditConfig {
    /// Least severity that is logged.
    pub log_level: Severity,
    /// Log format name.
    pub log_format: String,
    /// Sink names events are written to.
    pub log_destinations: Vec<String>,
    /// Remote syslog server, when one is configured.
    pub syslog_server: Option<String>,
    /// Protocol used towards the syslog server.
    pub syslog_protocol: String,
    /// Whether the syslog server's certificate is verified.
    pub syslog_cert_verify: bool,
    /// Path of the on-disk audit journal.
    pub audit_log_path: String,
    /// Journal rotation policy name.
    pub audit_log_rotation: String,
    /// Whether journal entries are encrypted.
    pub audit_log_encryption: bool,
    /// Whether events are signed.
    pub audit_log_signing: bool,
}

impl Default for AuditConfig {
    /// Informational level, JSON format, console and journal sinks, signing
    /// and encryption on.
    fn default() -> (r: Self)
        ensures
            r.log_level == Severity::Info,
            r.syslog_server is None,
            r.syslog_cert_verify == true,
            r.audit_log_encryption == true,
            r.audit_log_signing == true,
            r.log_destinations@.len() == 2,
    {
        let mut log_destinations: Vec<String> = Vec::new();
        log_destinations.push(String::from_str("stdout"));
        log_destinations.push(String::from_str("audit_file"));
        AuditConfig {
            log_level: Severity::Info,
            log_format: String::from_str("json"),
            log_destinations,
            syslog_server: None,
            syslog_protocol: String::from_str("tls"),
            syslog_cert_verify: true,
            audit_log_path: String::from_str("/var/log/lsftp/audit.json"),
            audit_log_rotation: String::from_str("daily"),
            audit_log_encryption: true,
            audit_log_signing: true,
        }
    }
}

/// The audit logger: configuration, the crypto suite whose hash signs
/// events when no audit key is set, and the optional 32-byte audit key for
/// keyed signing. Writing to the configured sinks is the embedding
/// application's I/O; the logger computes everything the sinks carry.
pub struct AuditLogger {
    /// Configuration.
    pub config: AuditConfig,
    /// Suite whose hash algorithm signs events when no audit key is set.
    pub crypto_suite: CryptoSuite,
    /// Key for keyed event signing, 32 bytes when present.
    pub audit_key: Option<Vec<u8>>,
}

impl AuditLogger {
    /// The audit key, when present, is a full-size key.
    pub open spec fn wf(self) -> bool {
        self.audit_key matches Some(k) ==> k@.len() == 32
    }

    /// A logger from a configuration and a crypto suite, with no audit key:
    /// the whole configuration and the suite are kept as given.
    pub fn new(config: AuditConfig, crypto_suite: CryptoSuite) -> (r: Result<Self, Error>)
        ensures
            r matches Ok(l) && l.config == config && l.crypto_suite == crypto_suite
                && l.audit_key is None && l.wf(),
    {
        Ok(AuditLogger { config, crypto_suite, audit_key: None })
    }

    /// Install a 32-byte audit key; events are then signed with the keyed
    /// digest under it instead of the suite's plain hash.
    pub fn with_audit_key(self, key: Vec<u8>) -> (r: Self)
        requires
            key@.len() == 32,
        ensures
            r.config == self.config,
            r.crypto_suite == self.crypto_suite,
            r.audit_key == Some(key),
            r.wf(),
    {
        AuditLogger { audit_key: Some(key), ..self }
    }

    /// The severity the logger classifies an event with.
    pub fn get_severity(&self, event: &AuditEvent) -> (r: Severity)
        ensures
            r == spec_severity(event.action, event.result),
    {
        event.severity()
    }

    /// Sign an event over its canonical bytes: with the keyed digest under
    /// the audit key when one is set, with the suite's hash otherwise. With
    /// signing disabled the event is left untouched; with signing enabled
    /// the signature is set to the digest of the canonical bytes and every
    /// other field keeps its value, so the stored signature verifies. An
    /// audit key of the wrong size is an audit error and leaves the event
    /// untouched.
    pub fn sign_event(&self, event: &mut AuditEvent) -> (r: Result<(), Error>)
        requires
            spec_canonicalizable(*old(event)),
        ensures
            r is Ok <==> (!self.config.audit_log_signing || self.wf()),
            r matches Err(e) ==> e is Audit && *final(event) == *old(event),
            !self.config.audit_log_signing ==> *final(event) == *old(event),
            self.config.audit_log_signing && r is Ok ==> same_but_signature(
                *old(event),
                *final(event),
            ) && (final(event).signature matches Some(s) && s@ == spec_logger_signature(
                self.crypto_suite,
                self.audit_key,
                spec_signature_data(*old(event)),
            )),
    {
        if !self.config.audit_log_signing {
            return Ok(());
        }
        let digest = self.canonical_digest(event)?;
        event.signature = Some(digest);
        Ok(())
    }

    /// The digest of an event's canonical bytes under the logger's signing
    /// choice.
    fn canonical_digest(&self, event: &AuditEvent) -> (r: Result<Vec<u8>, Error>)
        requires
            spec_canonicalizable(*event),
        ensures
            r is Ok <==> self.wf(),
            r matches Ok(d) ==> d@ == spec_logger_signature(
                self.crypto_suite,
                self.audit_key,
                spec_signature_data(*event),
            ),
            r matches Err(e) ==> e is Audit,
    {
        let data = event.signature_data();
        match &self.audit_key {
            Some(key) => {
                if key.len() != 32 {
                    return Err(Error::Audit(String::from_str("audit key must be 32 bytes")));
                }
                Ok(crate::crypto::blake3_keyed_hash(key.as_slice(), data.as_slice()))
            },
            None => {
                let digest = self.crypto_suite.hash(data.as_slice())?;
                Ok(digest)
            },
        }
    }

    /// Check an event's signature against the digest of its canonical
    /// bytes under the logger's signing choice: true exactly when a
    /// signature is present and matches. An audit key of the wrong size is
    /// an audit error.
    pub fn verify_event_signature(&self, event: &AuditEvent) -> (r: Result<bool, Error>)
        requires
            spec_canonicalizable(*event),
        ensures
            r is Ok <==> self.wf(),
            r matches Ok(b) ==> b == (event.signature matches Some(s) && s@
                == spec_logger_signature(
                self.crypto_suite,
                self.audit_key,
                spec_signature_data(*event),
            )),
            r matches Err(e) ==> e is Audit,
    {
        let digest = self.canonical_digest(event)?;
        match &event.signature {
            Some(s) => Ok(crate::util::bytes_eq(digest.as_slice(), s.as_slice())),
            None => Ok(false),
        }
    }
}

/// Security-oriented event construction around the audit logger. The
/// logger's sinks live outside the library; these functions build the
/// events that are handed to them.
pub struct SecurityLogger {
    /// The logger whose sinks receive the events.
    pub audit_logger: AuditLogger,
}

impl SecurityLogger {
    /// Wrap an audit logger.
    pub fn new(audit_logger: AuditLogger) -> (r: Self)
        ensures
            r.audit_logger == audit_logger,
    {
        SecurityLogger { audit_logger }
    }

    /// Mark an event as security-relevant before it is logged: the
    /// `security_event` metadata key is set to `true`, any earlier entry for
    /// that key goes, and everything else keeps its value.
    pub fn tag_security_event(&self, event: AuditEvent) -> (r: AuditEvent)
        ensures
            r.metadata@.len() >= 1,
            r.metadata@.last().0@ == "security_event"@,
            r.metadata@.last().1@ == "true"@,
            r.metadata@ == remove_key(event.metadata@, "security_event"@).push(r.metadata@.last()),
            same_but_signature(r, AuditEvent { metadata: r.metadata, ..event }),
            r.signature == event.signature,
    {
        event.with_metadata(String::from_str("security_event"), String::from_str("true"))
    }

    /// The event recording one authentication attempt.
    pub fn auth_attempt_event(
        &self,
        user_id: Option<String>,
        hardware_id: Option<String>,
        source_ip: Option<String>,
        success: bool,
        error_code: Option<String>,
    ) -> (r: AuditEvent)
        ensures
            r.action == AuditAction::Authentication,
            r.result == (if success {
                AuditResult::Success
            } else {
                AuditResult::Failure
            }),
            user_id matches Some(u) ==> r.user_id == Some(u),
            hardware_id matches Some(h) ==> r.hardware_id == Some(h),
            source_ip matches Some(s) ==> r.source_ip == Some(s),
            error_code matches Some(c) ==> r.error_code == Some(c),
            user_id is None ==> (r.user_id matches Some(u) && u@ == "unknown"@),
            hardware_id is None ==> (r.hardware_id matches Some(h) && h@ == "unknown"@),
            source_ip is None ==> (r.source_ip matches Some(s) && s@ == "unknown"@),
            error_code is None ==> (r.error_code matches Some(c) && c@ == "none"@),
    {
        let result = if success {
            AuditResult::Success
        } else {
            AuditResult::Failure
        };
        let user = match user_id {
            Some(u) => u,
            None => String::from_str("unknown"),
        };
        let hardware = match hardware_id {
            Some(h) => h,
            None => String::from_str("unknown"),
        };
        let ip = match source_ip {
            Some(s) => s,
            None => String::from_str("unknown"),
        };
        let code = match error_code {
            Some(c) => c,
            None => String::from_str("none"),
        };
        AuditEvent::new(AuditAction::Authentication, result).with_user_id(user).with_hardware_id(
            hardware,
        ).with_source_ip(ip).with_error_code(code)
    }

    /// The event recording one file transfer.
    pub fn file_transfer_event(
        &self,
        user_id: Option<String>,
        file_path: Option<String>,
        file_hash: Option<[u8; 32]>,
        bytes_transferred: u64,
        duration_ms: u64,
        action: AuditAction,
        success: bool,
    ) -> (r: AuditEvent)
        ensures
            r.action == action,
            r.result == (if success {
                AuditResult::Success
            } else {
                AuditResult::Failure
            }),
            r.bytes_transferred == Some(bytes_transferred),
            r.duration_ms == Some(duration_ms),
            r.user_id is Some,
            r.file_path is Some,
            user_id matches Some(u) ==> r.user_id == Some(u),
            file_path matches Some(p) ==> r.file_path == Some(p),
            r.file_hash == file_hash,
    {
        let result = if success {
            AuditResult::Success
        } else {
            AuditResult::Failure
        };
        let user = match user_id {
            Some(u) => u,
            None => String::from_str("unknown"),
        };
        let path = match file_path {
            Some(p) => p,
            None => String::from_str("unknown"),
        };
        let event = AuditEvent::new(action, result).with_user_id(user).with_file_path(
            path,
        ).with_bytes_transferred(bytes_transferred).with_duration(duration_ms);
        match file_hash {
            Some(h) => event.with_file_hash(h),
            None => event,
        }
    }
}

} // verus!
