//! Hardware authentication data model: device families, authentication
//! results, attestations and device descriptions.
//!
//! Talking to a device (a TPM, a hardware token, a smart card) is a
//! round-trip through its driver and lives outside the library; what comes
//! back is judged here.

use vstd::prelude::*;

verus! {

/// The hardware device families the protocol can authenticate with.
#[derive(Debug, Clone, Copy, PartialEq, Eq, Structural)]
pub enum HardwareType {
    /// TPM 2.0
    Tpm,
    /// Hardware token with an on-device signing slot
    YubiKey,
    /// Smart card behind a PC/SC reader
    SmartCard,
    /// Hardware security module
    Hsm,
}

/// Outcome of one hardware authentication round trip.
#[derive(Debug, Clone)]
pub struct AuthResult {
    /// Authentication successful
    pub success: bool,
    /// User identifier
    pub user_id: Option<String>,
    /// Hardware device identifier
    pub device_id: Option<String>,
    /// Authentication timestamp, seconds since the Unix epoch
    pub timestamp: u64,
    /// Additional metadata
    pub metadata: Vec<(String, String)>,
    /// Error message if authentication failed
    pub error: Option<String>,
}

/// A hardware-signed statement about a device's identity and state.
#[derive(Debug, Clone)]
pub struct HardwareAttestation {
    /// Device family
    pub device_type: HardwareType,
    /// Device identifier
    pub device_id: String,
    /// Attestation data
    pub attestation_data: Vec<u8>,
    /// Attestation signature
    pub signature: Vec<u8>,
    /// Certificate chain
    pub certificate_chain: Vec<Vec<u8>>,
}

impl HardwareAttestation {
    /// Whether the attestation carries any evidence at all: an empty
    /// attestation is rejected whatever else it claims.
    pub fn has_evidence(&self) -> (r: bool)
        ensures
            r == (self.attestation_data@.len() > 0),
    {
        self.attestation_data.len() > 0
    }
}

/// Description of one discovered hardware device.
#[derive(Debug, Clone)]
pub struct DeviceInfo {
    /// Device family
    pub device_type: HardwareType,
    /// Device identifier
    pub device_id: String,
    /// Device manufacturer
    pub manufacturer: String,
    /// Device model
    pub model: String,
    /// Firmware version
    pub firmware_version: String,
    /// Supported algorithms
    pub supported_algorithms: Vec<String>,
    /// Device capabilities
    pub capabilities: Vec<String>,
}

} // verus!
