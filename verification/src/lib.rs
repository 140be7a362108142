//! A secure file-transfer protocol core: wire frames, typed messages, a
//! session engine with replay protection and key rotation, a file-transfer
//! engine with streaming integrity, hybrid cryptography, and a signed audit
//! trail.

use vstd::prelude::*;

pub mod audit;
pub mod auth;
mod clock;
pub mod config;
pub mod crypto;
pub mod error;
pub mod message;
pub mod protocol;
pub mod session;
pub mod transfer;
mod util;

verus! {

/// Protocol version carried in every frame header.
pub const PROTOCOL_VERSION: u8 = 1;

/// Default chunk size for file transfers, in bytes (1 MiB).
pub const DEFAULT_CHUNK_SIZE: usize = 1024 * 1024;

/// Default port for the transport endpoint.
pub const DEFAULT_PORT: u16 = 8443;

/// Maximum file size accepted by a server (100 GiB).
pub const MAX_FILE_SIZE: u64 = 100 * 1024 * 1024 * 1024;

/// Session idle timeout in seconds (1 hour).
pub const SESSION_TIMEOUT_SECS: u64 = 3600;

/// Interval after which session keys are rotated, in seconds.
pub const KEY_ROTATION_INTERVAL_SECS: u64 = 300;

/// Timeout for one hardware-authentication round trip, in seconds.
pub const HARDWARE_AUTH_TIMEOUT_SECS: u64 = 30;

/// Maximum concurrent connections per server.
pub const MAX_CONCURRENT_CONNECTIONS: u32 = 1000;

/// Maximum transfer rate in bytes per second (10 Gbit/s).
pub const MAX_TRANSFER_RATE: u64 = 10 * 1024 * 1024 * 1024;

/// Audit log retention period in days (seven years).
pub const AUDIT_LOG_RETENTION_DAYS: u32 = 2555;

/// Device path of the TPM resource manager on Linux.
pub const TPM_DEVICE_PATH: &'static str = "/dev/tpmrm0";

/// Glob pattern matching hardware-token device nodes on Linux.
pub const YUBIKEY_DEVICE_PATTERN: &'static str = "/dev/hidraw*";

} // verus!
