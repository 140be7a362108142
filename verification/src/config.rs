//! Configuration records for the transport endpoint and the client.
//!
//! Reading these from files or flags, and wiring them into sockets and TLS,
//! happens outside the library; the records themselves and their defaults
//! are plain data.

use vstd::prelude::*;

use crate::crypto::CryptoSuite;

verus! {

/// Transport endpoint configuration. Certificate and key locations are
/// carried as path strings for the embedding application to open.
#[derive(Debug, Clone)]
pub struct TransportConfig {
    /// Server address
    pub server_address: String,
    /// Server port
    pub server_port: u16,
    /// TLS certificate path
    pub cert_path: Option<String>,
    /// TLS private key path
    pub key_path: Option<String>,
    /// Client certificate path
    pub client_cert_path: Option<String>,
    /// Client private key path
    pub client_key_path: Option<String>,
    /// Connection timeout in seconds
    pub connection_timeout: u64,
    /// Keep-alive interval in seconds
    pub keep_alive_interval: u64,
    /// Maximum concurrent streams
    pub max_concurrent_streams: u32,
    /// Crypto suite configuration
    pub crypto_suite: CryptoSuite,
}

impl Default for TransportConfig {
    /// Loopback on the default port, no certificates, a 30-second
    /// connection timeout, 60-second keep-alive, 100 streams and the
    /// default suite.
    fn default() -> (r: Self)
        ensures
            r.server_port == crate::DEFAULT_PORT,
            r.cert_path is None,
            r.key_path is None,
            r.client_cert_path is None,
            r.client_key_path is None,
            r.connection_timeout == 30,
            r.keep_alive_interval == 60,
            r.max_concurrent_streams == 100,
            r.crypto_suite == crate::crypto::spec_default_suite(),
    {
        TransportConfig {
            server_address: String::from_str("127.0.0.1"),
            server_port: crate::DEFAULT_PORT,
            cert_path: None,
            key_path: None,
            client_cert_path: None,
            client_key_path: None,
            connection_timeout: 30,
            keep_alive_interval: 60,
            max_concurrent_streams: 100,
            crypto_suite: CryptoSuite::default(),
        }
    }
}

/// Client configuration.
#[derive(Debug, Clone)]
pub struct ClientConfig {
    /// Server address
    pub server_address: String,
    /// Server port
    pub server_port: u16,
    /// Hardware device type
    pub hardware_device: Option<String>,
    /// Certificate path
    pub cert_path: Option<String>,
    /// Private key path
    pub key_path: Option<String>,
    /// Connection timeout
    pub connection_timeout: u64,
    /// Chunk size for file transfers
    pub chunk_size: usize,
    /// Enable verbose logging
    pub verbose: bool,
}

impl Default for ClientConfig {
    /// Localhost on the default port, no hardware device or certificates, a
    /// 30-second timeout, the default chunk size, quiet.
    fn default() -> (r: Self)
        ensures
            r.server_port == crate::DEFAULT_PORT,
            r.hardware_device is None,
            r.cert_path is None,
            r.key_path is None,
            r.connection_timeout == 30,
            r.chunk_size == crate::DEFAULT_CHUNK_SIZE,
            r.verbose == false,
    {
        ClientConfig {
            server_address: String::from_str("localhost"),
            server_port: crate::DEFAULT_PORT,
            hardware_device: None,
            cert_path: None,
            key_path: None,
            connection_timeout: 30,
            chunk_size: crate::DEFAULT_CHUNK_SIZE,
            verbose: false,
        }
    }
}

} // verus!
