//! Wire protocol: message taxonomy, header flags and the frame codec.
//!
//! A frame is a fixed 24-byte header (version, message type, flags, payload
//! length, sequence number, timestamp; all multi-byte integers big-endian),
//! followed by the payload and a 32-byte authentication tag.

use vstd::prelude::*;

use crate::clock::now_unix_seconds;
use crate::error::Error;
use crate::util::push_bytes;

verus! {

/// Fixed size of the frame header in bytes.
pub const FRAME_HEADER_LEN: usize = 24;

/// Fixed size of the authentication tag that ends every frame.
pub const FRAME_TAG_LEN: usize = 32;

/// Smallest well-formed frame: header plus empty payload plus tag.
pub const MIN_FRAME_LEN: usize = 56;

/// Ceiling on the payload length of a single frame (16 MiB).
pub const MAX_FRAME_PAYLOAD: u32 = 16 * 1024 * 1024;

/// The seven message types of the protocol.
#[derive(Debug, Clone, Copy, PartialEq, Eq, Structural)]
pub enum MessageType {
    /// Handshake and authentication
    Handshake,
    /// File open request with metadata
    FileOpen,
    /// File data chunk
    FileData,
    /// File close with final signature
    FileClose,
    /// Keep-alive and health check
    Heartbeat,
    /// Policy update in real-time
    PolicyUpdate,
    /// Emergency stop and revocation
    EmergencyStop,
}

/// The wire code of a message type.
pub open spec fn message_type_code(m: MessageType) -> u8 {
    match m {
        MessageType::Handshake => 0x01,
        MessageType::FileOpen => 0x02,
        MessageType::FileData => 0x03,
        MessageType::FileClose => 0x04,
        MessageType::Heartbeat => 0x05,
        MessageType::PolicyUpdate => 0x06,
        MessageType::EmergencyStop => 0x07,
    }
}

/// The message type a wire code denotes, if any.
pub open spec fn spec_message_type_from(value: u8) -> Option<MessageType> {
    if value == 0x01 {
        Some(MessageType::Handshake)
    } else if value == 0x02 {
        Some(MessageType::FileOpen)
    } else if value == 0x03 {
        Some(MessageType::FileData)
    } else if value == 0x04 {
        Some(MessageType::FileClose)
    } else if value == 0x05 {
        Some(MessageType::Heartbeat)
    } else if value == 0x06 {
        Some(MessageType::PolicyUpdate)
    } else if value == 0x07 {
        Some(MessageType::EmergencyStop)
    } else {
        None
    }
}

impl MessageType {
    /// The wire code of this message type.
    pub fn code(&self) -> (r: u8)
        ensures
            r == message_type_code(*self),
    {
        match self {
            MessageType::Handshake => 0x01,
            MessageType::FileOpen => 0x02,
            MessageType::FileData => 0x03,
            MessageType::FileClose => 0x04,
            MessageType::Heartbeat => 0x05,
            MessageType::PolicyUpdate => 0x06,
            MessageType::EmergencyStop => 0x07,
        }
    }

    /// Decode a wire code. Codes 0x01 through 0x07 yield the corresponding
    /// message type; every other byte is a protocol error.
    pub fn try_from(value: u8) -> (r: Result<MessageType, Error>)
        ensures
            r is Ok <==> spec_message_type_from(value) is Some,
            r matches Ok(m) ==> spec_message_type_from(value) == Some(m),
            r matches Err(e) ==> e is Protocol,
    {
        match value {
            0x01 => Ok(MessageType::Handshake),
            0x02 => Ok(MessageType::FileOpen),
            0x03 => Ok(MessageType::FileData),
            0x04 => Ok(MessageType::FileClose),
            0x05 => Ok(MessageType::Heartbeat),
            0x06 => Ok(MessageType::PolicyUpdate),
            0x07 => Ok(MessageType::EmergencyStop),
            _ => Err(Error::Protocol(String::from_str("unknown message type"))),
        }
    }
}

/// Every message type decodes back from its own wire code, and only the
/// seven assigned codes decode at all.
pub proof fn lemma_message_type_round_trip(m: MessageType)
    ensures
        spec_message_type_from(message_type_code(m)) == Some(m),
{
}

/// Header flags, a bit field carried as a `u16` on the wire. Bits 5 and up
/// are reserved and must be zero.
#[derive(Debug, Clone, Copy, PartialEq, Eq, Structural)]
pub struct Flags {
    /// End of message (bit 0)
    pub eom: bool,
    /// Compressed payload (bit 1)
    pub compressed: bool,
    /// Encrypted payload (bit 2)
    pub encrypted: bool,
    /// Requires acknowledgment (bit 3)
    pub requires_ack: bool,
    /// High priority (bit 4)
    pub high_priority: bool,
}

/// A single flag as its bit value.
pub open spec fn bool_bit(b: bool) -> u16 {
    if b {
        1
    } else {
        0
    }
}

/// The wire encoding of a flag set.
pub open spec fn spec_flags_to_u16(f: Flags) -> u16 {
    bool_bit(f.eom) | (bool_bit(f.compressed) << 1) | (bool_bit(f.encrypted) << 2) | (bool_bit(
        f.requires_ack,
    ) << 3) | (bool_bit(f.high_priority) << 4)
}

/// The flag set a wire value denotes; reserved bits are ignored here and
/// checked by the frame parser.
pub open spec fn spec_flags_from_u16(v: u16) -> Flags {
    Flags {
        eom: v & 0x01 != 0,
        compressed: v & 0x02 != 0,
        encrypted: v & 0x04 != 0,
        requires_ack: v & 0x08 != 0,
        high_priority: v & 0x10 != 0,
    }
}

/// The default flag set: encrypted, nothing else.
pub open spec fn spec_default_flags() -> Flags {
    Flags { eom: false, compressed: false, encrypted: true, requires_ack: false, high_priority: false }
}

impl Default for Flags {
    /// Payloads are encrypted by default; every other flag starts clear.
    fn default() -> (r: Self)
        ensures
            r == spec_default_flags(),
    {
        Flags { eom: false, compressed: false, encrypted: true, requires_ack: false, high_priority: false }
    }
}

impl From<u16> for Flags {
    fn from(value: u16) -> (r: Self) {
        Flags {
            eom: value & 0x01 != 0,
            compressed: value & 0x02 != 0,
            encrypted: value & 0x04 != 0,
            requires_ack: value & 0x08 != 0,
            high_priority: value & 0x10 != 0,
        }
    }
}

impl vstd::std_specs::convert::FromSpecImpl<u16> for Flags {
    open spec fn obeys_from_spec() -> bool {
        true
    }

    open spec fn from_spec(value: u16) -> Self {
        spec_flags_from_u16(value)
    }
}

impl From<Flags> for u16 {
    fn from(flags: Flags) -> (r: Self) {
        let eom: u16 = if flags.eom {
            1
        } else {
            0
        };
        let compressed: u16 = if flags.compressed {
            1
        } else {
            0
        };
        let encrypted: u16 = if flags.encrypted {
            1
        } else {
            0
        };
        let requires_ack: u16 = if flags.requires_ack {
            1
        } else {
            0
        };
        let high_priority: u16 = if flags.high_priority {
            1
        } else {
            0
        };
        eom | (compressed << 1) | (encrypted << 2) | (requires_ack << 3) | (high_priority << 4)
    }
}

impl vstd::std_specs::convert::FromSpecImpl<Flags> for u16 {
    open spec fn obeys_from_spec() -> bool {
        true
    }

    open spec fn from_spec(flags: Flags) -> Self {
        spec_flags_to_u16(flags)
    }
}

/// Decoding the wire value of a flag set gives the flag set back, for every
/// combination of flags.
pub proof fn lemma_flags_round_trip(f: Flags)
    ensures
        spec_flags_from_u16(spec_flags_to_u16(f)) == f,
{
    let e = bool_bit(f.eom);
    let c = bool_bit(f.compressed);
    let n = bool_bit(f.encrypted);
    let a = bool_bit(f.requires_ack);
    let h = bool_bit(f.high_priority);
    let v = spec_flags_to_u16(f);
    assert((v & 0x01 != 0) == (e == 1) && (v & 0x02 != 0) == (c == 1) && (v & 0x04 != 0) == (n == 1)
        && (v & 0x08 != 0) == (a == 1) && (v & 0x10 != 0) == (h == 1)) by (bit_vector)
        requires
            v == e | (c << 1) | (n << 2) | (a << 3) | (h << 4),
            e <= 1,
            c <= 1,
            n <= 1,
            a <= 1,
            h <= 1,
    ;
}

/// The wire value of a flag set never sets a reserved bit.
pub proof fn lemma_flags_reserved_bits_zero(f: Flags)
    ensures
        spec_flags_to_u16(f) & 0xFFE0 == 0,
{
    let e = bool_bit(f.eom);
    let c = bool_bit(f.compressed);
    let n = bool_bit(f.encrypted);
    let a = bool_bit(f.requires_ack);
    let h = bool_bit(f.high_priority);
    let v = spec_flags_to_u16(f);
    assert(v & 0xFFE0 == 0) by (bit_vector)
        requires
            v == e | (c << 1) | (n << 2) | (a << 3) | (h << 4),
            e <= 1,
            c <= 1,
            n <= 1,
            a <= 1,
            h <= 1,
    ;
}

/// Big-endian bytes of a `u16`.
pub open spec fn u16_be(x: u16) -> Seq<u8> {
    seq![(x >> 8) as u8, x as u8]
}

/// Big-endian bytes of a `u32`.
pub open spec fn u32_be(x: u32) -> Seq<u8> {
    seq![(x >> 24) as u8, (x >> 16) as u8, (x >> 8) as u8, x as u8]
}

/// Big-endian bytes of a `u64`.
pub open spec fn u64_be(x: u64) -> Seq<u8> {
    seq![
        (x >> 56) as u8,
        (x >> 48) as u8,
        (x >> 40) as u8,
        (x >> 32) as u8,
        (x >> 24) as u8,
        (x >> 16) as u8,
        (x >> 8) as u8,
        x as u8,
    ]
}

/// Big-endian bytes of a `u128`.
pub open spec fn u128_be(x: u128) -> Seq<u8> {
    u64_be((x >> 64) as u64) + u64_be(x as u64)
}

/// The `u16` two big-endian bytes denote.
pub open spec fn be16_val(b0: u8, b1: u8) -> u16 {
    ((b0 as u16) << 8) | (b1 as u16)
}

/// The `u32` four big-endian bytes denote.
pub open spec fn be32_val(b0: u8, b1: u8, b2: u8, b3: u8) -> u32 {
    ((b0 as u32) << 24) | ((b1 as u32) << 16) | ((b2 as u32) << 8) | (b3 as u32)
}

/// The `u64` eight big-endian bytes denote.
pub open spec fn be64_val(b0: u8, b1: u8, b2: u8, b3: u8, b4: u8, b5: u8, b6: u8, b7: u8) -> u64 {
    ((b0 as u64) << 56) | ((b1 as u64) << 48) | ((b2 as u64) << 40) | ((b3 as u64) << 32) | ((
    b4 as u64) << 24) | ((b5 as u64) << 16) | ((b6 as u64) << 8) | (b7 as u64)
}

/// Reading back the big-endian bytes of a `u16` yields the value.
pub proof fn lemma_u16_be_round_trip(x: u16)
    ensures
        be16_val(u16_be(x)[0], u16_be(x)[1]) == x,
{
    assert((((x >> 8) as u8 as u16) << 8) | (x as u8 as u16) == x) by (bit_vector);
}

/// Reading back the big-endian bytes of a `u32` yields the value.
pub proof fn lemma_u32_be_round_trip(x: u32)
    ensures
        be32_val(u32_be(x)[0], u32_be(x)[1], u32_be(x)[2], u32_be(x)[3]) == x,
{
    assert((((x >> 24) as u8 as u32) << 24) | (((x >> 16) as u8 as u32) << 16) | (((x
        >> 8) as u8 as u32) << 8) | (x as u8 as u32) == x) by (bit_vector);
}

/// Reading back the big-endian bytes of a `u64` yields the value.
pub proof fn lemma_u64_be_round_trip(x: u64)
    ensures
        be64_val(
            u64_be(x)[0],
            u64_be(x)[1],
            u64_be(x)[2],
            u64_be(x)[3],
            u64_be(x)[4],
            u64_be(x)[5],
            u64_be(x)[6],
            u64_be(x)[7],
        ) == x,
{
    assert((((x >> 56) as u8 as u64) << 56) | (((x >> 48) as u8 as u64) << 48) | (((x
        >> 40) as u8 as u64) << 40) | (((x >> 32) as u8 as u64) << 32) | (((x
        >> 24) as u8 as u64) << 24) | (((x >> 16) as u8 as u64) << 16) | (((x
        >> 8) as u8 as u64) << 8) | (x as u8 as u64) == x) by (bit_vector);
}

/// The mathematical content of a frame: its header fields and the bytes of
/// its payload and tag.
#[verifier::ext_equal]
pub ghost struct FrameModel {
    pub version: u8,
    pub message_type: MessageType,
    pub flags: Flags,
    pub length: u32,
    pub sequence: u64,
    pub timestamp: u64,
    pub payload: Seq<u8>,
    pub hmac: Seq<u8>,
}

impl FrameModel {
    /// A frame whose fields agree with each other and with the protocol's
    /// limits: current version, length equal to the payload size and under
    /// the ceiling, and a full-size tag.
    pub open spec fn wf(self) -> bool {
        &&& self.version == crate::PROTOCOL_VERSION
        &&& self.length == self.payload.len()
        &&& self.payload.len() <= MAX_FRAME_PAYLOAD
        &&& self.hmac.len() == FRAME_TAG_LEN
    }
}

/// The 24 header bytes of a frame, in wire order.
pub open spec fn spec_header_bytes(m: FrameModel) -> Seq<u8> {
    let fl = spec_flags_to_u16(m.flags);
    seq![
        m.version,
        message_type_code(m.message_type),
        (fl >> 8) as u8,
        fl as u8,
        (m.length >> 24) as u8,
        (m.length >> 16) as u8,
        (m.length >> 8) as u8,
        m.length as u8,
        (m.sequence >> 56) as u8,
        (m.sequence >> 48) as u8,
        (m.sequence >> 40) as u8,
        (m.sequence >> 32) as u8,
        (m.sequence >> 24) as u8,
        (m.sequence >> 16) as u8,
        (m.sequence >> 8) as u8,
        m.sequence as u8,
        (m.timestamp >> 56) as u8,
        (m.timestamp >> 48) as u8,
        (m.timestamp >> 40) as u8,
        (m.timestamp >> 32) as u8,
        (m.timestamp >> 24) as u8,
        (m.timestamp >> 16) as u8,
        (m.timestamp >> 8) as u8,
        m.timestamp as u8,
    ]
}

/// The full wire encoding of a frame: header, payload, tag.
pub open spec fn spec_serialize_frame(m: FrameModel) -> Seq<u8> {
    spec_header_bytes(m) + m.payload + m.hmac
}

/// What a byte buffer parses to, if anything. Parsing rejects buffers
/// shorter than the minimum frame, an unknown version or message type,
/// reserved flag bits, a length over the ceiling, and a buffer that does not
/// hold exactly one whole frame.
pub open spec fn spec_parse_frame(d: Seq<u8>) -> Option<FrameModel> {
    if d.len() < MIN_FRAME_LEN {
        None
    } else {
        let length = be32_val(d[4], d[5], d[6], d[7]);
        let fl = be16_val(d[2], d[3]);
        if d[0] != crate::PROTOCOL_VERSION {
            None
        } else if spec_message_type_from(d[1]) is None {
            None
        } else if fl & 0xFFE0 != 0 {
            None
        } else if length > MAX_FRAME_PAYLOAD {
            None
        } else if d.len() != MIN_FRAME_LEN + length {
            None
        } else {
            Some(
                FrameModel {
                    version: d[0],
                    message_type: spec_message_type_from(d[1])->Some_0,
                    flags: spec_flags_from_u16(fl),
                    length,
                    sequence: be64_val(d[8], d[9], d[10], d[11], d[12], d[13], d[14], d[15]),
                    timestamp: be64_val(d[16], d[17], d[18], d[19], d[20], d[21], d[22], d[23]),
                    payload: d.subrange(
                        FRAME_HEADER_LEN as int,
                        FRAME_HEADER_LEN + length as int,
                    ),
                    hmac: d.subrange(
                        FRAME_HEADER_LEN + length as int,
                        MIN_FRAME_LEN + length as int,
                    ),
                },
            )
        }
    }
}

/// A buffer shorter than the minimum frame length never parses.
pub proof fn lemma_rejects_short_frame(d: Seq<u8>)
    requires
        d.len() < MIN_FRAME_LEN,
    ensures
        spec_parse_frame(d) is None,
{
}

/// A buffer whose length field exceeds the payload ceiling never parses.
pub proof fn lemma_rejects_oversized_length(d: Seq<u8>)
    requires
        d.len() >= MIN_FRAME_LEN,
        be32_val(d[4], d[5], d[6], d[7]) > MAX_FRAME_PAYLOAD,
    ensures
        spec_parse_frame(d) is None,
{
}

/// A protocol frame: header fields, payload and authentication tag.
#[derive(Debug, Clone)]
pub struct Frame {
    /// Protocol version
    pub version: u8,
    /// Message type
    pub message_type: MessageType,
    /// Protocol flags
    pub flags: Flags,
    /// Payload length
    pub length: u32,
    /// Sequence number
    pub sequence: u64,
    /// Timestamp, seconds since the Unix epoch
    pub timestamp: u64,
    /// Payload data
    pub payload: Vec<u8>,
    /// Authentication tag over header and payload
    pub hmac: [u8; 32],
}

impl View for Frame {
    type V = FrameModel;

    open spec fn view(&self) -> FrameModel {
        FrameModel {
            version: self.version,
            message_type: self.message_type,
            flags: self.flags,
            length: self.length,
            sequence: self.sequence,
            timestamp: self.timestamp,
            payload: self.payload@,
            hmac: self.hmac@,
        }
    }
}

/// Append the big-endian bytes of a `u16`.
pub(crate) fn push_u16_be(out: &mut Vec<u8>, x: u16)
    ensures
        final(out)@ == old(out)@ + u16_be(x),
{
    let ghost start = out@;
    out.push((x >> 8) as u8);
    out.push(#[verifier::truncate] (x as u8));
    proof {
        assert(out@ =~= start + u16_be(x));
    }
}

/// Append the big-endian bytes of a `u32`.
pub(crate) fn push_u32_be(out: &mut Vec<u8>, x: u32)
    ensures
        final(out)@ == old(out)@ + u32_be(x),
{
    let ghost start = out@;
    out.push((x >> 24) as u8);
    out.push(#[verifier::truncate] ((x >> 16) as u8));
    out.push(#[verifier::truncate] ((x >> 8) as u8));
    out.push(#[verifier::truncate] (x as u8));
    proof {
        assert(out@ =~= start + u32_be(x));
    }
}

/// Append the big-endian bytes of a `u64`.
pub(crate) fn push_u64_be(out: &mut Vec<u8>, x: u64)
    ensures
        final(out)@ == old(out)@ + u64_be(x),
{
    let ghost start = out@;
    out.push((x >> 56) as u8);
    out.push(#[verifier::truncate] ((x >> 48) as u8));
    out.push(#[verifier::truncate] ((x >> 40) as u8));
    out.push(#[verifier::truncate] ((x >> 32) as u8));
    out.push(#[verifier::truncate] ((x >> 24) as u8));
    out.push(#[verifier::truncate] ((x >> 16) as u8));
    out.push(#[verifier::truncate] ((x >> 8) as u8));
    out.push(#[verifier::truncate] (x as u8));
    proof {
        assert(out@ =~= start + u64_be(x));
    }
}

impl Frame {
    /// Create a frame around a payload, stamped with the current time. The
    /// sequence number and tag start at zero; the session engine fills them
    /// before the frame is sent.
    pub fn new(message_type: MessageType, payload: Vec<u8>) -> (r: Self)
        requires
            payload@.len() <= MAX_FRAME_PAYLOAD,
        ensures
            r.version == crate::PROTOCOL_VERSION,
            r.message_type == message_type,
            r.flags == spec_default_flags(),
            r.length == payload@.len(),
            r.sequence == 0,
            r.payload@ == payload@,
            r.hmac@ == Seq::new(32, |i: int| 0u8),
    {
        let timestamp = now_unix_seconds();
        let length = payload.len() as u32;
        let r = Frame {
            version: crate::PROTOCOL_VERSION,
            message_type,
            flags: Flags::default(),
            length,
            sequence: 0,
            timestamp,
            payload,
            hmac: [0u8; 32],
        };
        proof {
            assert(r.hmac@ =~= Seq::new(32, |i: int| 0u8));
        }
        r
    }

    /// Serialize the frame: header fields in declared order, big-endian,
    /// then the payload, then the tag.
    pub fn serialize(&self) -> (r: Result<Vec<u8>, Error>)
        ensures
            r matches Ok(b) && b@ == spec_serialize_frame(self@),
    {
        let mut buffer: Vec<u8> = Vec::new();
        buffer.push(self.version);
        buffer.push(self.message_type.code());
        let fl: u16 = u16::from(self.flags);
        push_u16_be(&mut buffer, fl);
        push_u32_be(&mut buffer, self.length);
        push_u64_be(&mut buffer, self.sequence);
        push_u64_be(&mut buffer, self.timestamp);
        proof {
            assert(buffer@ =~= spec_header_bytes(self@));
        }
        push_bytes(&mut buffer, self.payload.as_slice());
        push_bytes(&mut buffer, self.hmac.as_slice());
        Ok(buffer)
    }

    /// Parse one whole frame out of a byte buffer. Succeeds exactly when
    /// the buffer is a well-formed encoding: at least 56 bytes, version 1, a
    /// known message type, no reserved flag bits, a length within the
    /// ceiling, and a buffer holding exactly header, payload and tag.
    /// Trailing bytes are rejected deliberately: the transport hands one
    /// whole frame per stream, so anything after the tag is not this
    /// frame's. Every rejection is a protocol error.
    pub fn deserialize(data: &[u8]) -> (r: Result<Frame, Error>)
        ensures
            r is Ok <==> spec_parse_frame(data@) is Some,
            r matches Ok(f) ==> spec_parse_frame(data@) == Some(f@),
            r matches Err(e) ==> e is Protocol,
    {
        if data.len() < MIN_FRAME_LEN {
            return Err(Error::Protocol(String::from_str("frame too short")));
        }
        let version = data[0];
        if version != crate::PROTOCOL_VERSION {
            return Err(Error::Protocol(String::from_str("unsupported protocol version")));
        }
        let message_type = match MessageType::try_from(data[1]) {
            Ok(m) => m,
            Err(e) => {
                return Err(e);
            },
        };
        let fl: u16 = ((data[2] as u16) << 8) | (data[3] as u16);
        if fl & 0xFFE0 != 0 {
            return Err(Error::Protocol(String::from_str("reserved flag bits set")));
        }
        let flags = Flags::from(fl);
        let length: u32 = ((data[4] as u32) << 24) | ((data[5] as u32) << 16) | ((data[6] as u32)
            << 8) | (data[7] as u32);
        if length > MAX_FRAME_PAYLOAD {
            return Err(Error::Protocol(String::from_str("payload length over ceiling")));
        }
        if data.len() - MIN_FRAME_LEN != length as usize {
            return Err(Error::Protocol(String::from_str("frame incomplete")));
        }
        let sequence: u64 = ((data[8] as u64) << 56) | ((data[9] as u64) << 48) | ((data[10] as u64)
            << 40) | ((data[11] as u64) << 32) | ((data[12] as u64) << 24) | ((data[13] as u64)
            << 16) | ((data[14] as u64) << 8) | (data[15] as u64);
        let timestamp: u64 = ((data[16] as u64) << 56) | ((data[17] as u64) << 48) | ((
        data[18] as u64) << 40) | ((data[19] as u64) << 32) | ((data[20] as u64) << 24) | ((
        data[21] as u64) << 16) | ((data[22] as u64) << 8) | (data[23] as u64);
        let payload_len = length as usize;
        let n: usize = data.len();
        let mut payload: Vec<u8> = Vec::new();
        let mut i: usize = 0;
        while i < payload_len
            invariant
                i <= payload_len,
                n == data@.len(),
                FRAME_HEADER_LEN + payload_len + FRAME_TAG_LEN == n,
                payload@ == data@.subrange(FRAME_HEADER_LEN as int, FRAME_HEADER_LEN + i as int),
            decreases payload_len - i,
        {
            payload.push(data[FRAME_HEADER_LEN + i]);
            i = i + 1;
            proof {
                assert(payload@ =~= data@.subrange(
                    FRAME_HEADER_LEN as int,
                    FRAME_HEADER_LEN + i as int,
                ));
            }
        }
        let mut hmac: [u8; 32] = [0u8; 32];
        let mut j: usize = 0;
        while j < FRAME_TAG_LEN
            invariant
                j <= FRAME_TAG_LEN,
                n == data@.len(),
                FRAME_HEADER_LEN + payload_len + FRAME_TAG_LEN == n,
                hmac@.len() == 32,
                forall|k: int|
                    0 <= k < j ==> hmac@[k] == data@[FRAME_HEADER_LEN + payload_len + k],
            decreases FRAME_TAG_LEN - j,
        {
            hmac[j] = data[FRAME_HEADER_LEN + payload_len + j];
            j = j + 1;
        }
        let r = Frame { version, message_type, flags, length, sequence, timestamp, payload, hmac };
        proof {
            assert(r.hmac@ =~= data@.subrange(
                FRAME_HEADER_LEN + length as int,
                MIN_FRAME_LEN + length as int,
            ));
            assert(spec_parse_frame(data@) == Some(r@));
        }
        Ok(r)
    }
}

/// Round trip: parsing the serialization of any well-formed frame yields
/// that frame back, field for field.
pub proof fn lemma_frame_round_trip(m: FrameModel)
    requires
        m.wf(),
    ensures
        spec_parse_frame(spec_serialize_frame(m)) == Some(m),
{
    let s = spec_serialize_frame(m);
    let h = spec_header_bytes(m);
    let fl = spec_flags_to_u16(m.flags);
    assert(h.len() == 24);
    assert(s.len() == 56 + m.payload.len());
    assert forall|i: int| 0 <= i < 24 implies s[i] == h[i] by {}
    lemma_u16_be_round_trip(fl);
    assert(be16_val(s[2], s[3]) == fl);
    lemma_flags_reserved_bits_zero(m.flags);
    lemma_flags_round_trip(m.flags);
    lemma_u32_be_round_trip(m.length);
    assert(be32_val(s[4], s[5], s[6], s[7]) == m.length);
    lemma_u64_be_round_trip(m.sequence);
    assert(be64_val(s[8], s[9], s[10], s[11], s[12], s[13], s[14], s[15]) == m.sequence);
    lemma_u64_be_round_trip(m.timestamp);
    assert(be64_val(s[16], s[17], s[18], s[19], s[20], s[21], s[22], s[23]) == m.timestamp);
    lemma_message_type_round_trip(m.message_type);
    assert(s[1] == message_type_code(m.message_type));
    assert(s.subrange(24, 24 + m.length as int) =~= m.payload);
    assert(s.subrange(24 + m.length as int, 56 + m.length as int) =~= m.hmac);
    assert(spec_parse_frame(s) matches Some(p) && p =~= m);
}

} // verus!
