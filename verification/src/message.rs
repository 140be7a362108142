//! Message layer: the seven typed payloads and their compact binary
//! encoding.
//!
//! Every multi-byte integer is big-endian; byte strings and text are
//! length-prefixed with a `u32`; lists are count-prefixed with a `u32`;
//! optional fields carry a one-byte presence tag. A parse accepts a buffer
//! only if it is exactly the encoding of the value returned.

use vstd::prelude::*;
use vstd::string::StringSliceAdditionalSpecFns;

use crate::error::Error;
use crate::protocol::{be32_val, u16_be, u32_be, u64_be, u128_be};
use crate::util::push_bytes;

verus! {

/// A length-prefixed byte string: four length bytes, then the bytes.
pub open spec fn enc_bytes(b: Seq<u8>) -> Seq<u8> {
    u32_be(b.len() as u32) + b
}

/// A length-prefixed text string: its UTF-8 bytes, length-prefixed.
pub open spec fn enc_string(s: Seq<char>) -> Seq<u8> {
    enc_bytes(vstd::utf8::encode_utf8(s))
}

/// An optional byte string: absence tag `0`, or `1` followed by the bytes.
pub open spec fn enc_opt_bytes(o: Option<Seq<u8>>) -> Seq<u8> {
    match o {
        None => seq![0u8],
        Some(b) => seq![1u8] + enc_bytes(b),
    }
}

/// Whether a byte string fits its length prefix.
pub open spec fn bytes_fit(b: Seq<u8>) -> bool {
    b.len() <= u32::MAX
}

/// Whether a text string's UTF-8 bytes fit their length prefix.
pub open spec fn string_fits(s: Seq<char>) -> bool {
    vstd::utf8::encode_utf8(s).len() <= u32::MAX
}

/// Append a length-prefixed byte slice.
fn push_enc_bytes(out: &mut Vec<u8>, b: &[u8])
    requires
        b@.len() <= u32::MAX,
    ensures
        final(out)@ == old(out)@ + enc_bytes(b@),
{
    let ghost start = out@;
    crate::protocol::push_u32_be(out, b.len() as u32);
    push_bytes(out, b);
    proof {
        assert(out@ =~= start + enc_bytes(b@));
    }
}

/// Append a length-prefixed string.
pub(crate) fn push_enc_string(out: &mut Vec<u8>, s: &str)
    requires
        s.spec_bytes().len() <= u32::MAX,
    ensures
        final(out)@ == old(out)@ + enc_string(s@),
{
    let b = s.as_bytes();
    push_enc_bytes(out, b);
}

/// A cursor over a byte buffer; reads move the position forward and each
/// successful read consumes exactly the encoding of the value it returns.
pub struct ByteReader<'a> {
    /// The buffer being read.
    pub data: &'a [u8],
    /// Position of the next unread byte.
    pub pos: usize,
}

impl<'a> ByteReader<'a> {
    /// The position never passes the end of the buffer.
    pub open spec fn wf(self) -> bool {
        self.pos <= self.data@.len()
    }

    /// A reader at the start of a buffer.
    pub fn new(data: &'a [u8]) -> (r: Self)
        ensures
            r.wf(),
            r.data@ == data@,
            r.pos == 0,
    {
        ByteReader { data, pos: 0 }
    }

    /// Whether the whole buffer has been consumed.
    pub fn at_end(&self) -> (r: bool)
        ensures
            r == (self.pos == self.data@.len()),
    {
        self.pos == self.data.len()
    }

    /// Read one byte. Succeeds exactly when one is left.
    pub fn read_u8(&mut self) -> (r: Result<u8, Error>)
        requires
            old(self).wf(),
        ensures
            final(self).wf(),
            final(self).data@ == old(self).data@,
            r is Ok <==> old(self).pos + 1 <= old(self).data@.len(),
            r matches Err(e) ==> e is Protocol && *final(self) == *old(self),
            r matches Ok(v) ==> final(self).pos == old(self).pos + 1 && seq![v]
                == old(self).data@.subrange(old(self).pos as int, old(self).pos + 1) && v
                == old(self).data@[old(self).pos as int],
    {
        if self.pos < self.data.len() {
            let v = self.data[self.pos];
            self.pos = self.pos + 1;
            proof {
                assert(seq![v] =~= old(self).data@.subrange(
                    old(self).pos as int,
                    old(self).pos + 1,
                ));
            }
            Ok(v)
        } else {
            Err(Error::Protocol(String::from_str("payload truncated")))
        }
    }

    /// Read a big-endian `u16`; what was consumed is exactly the value's
    /// big-endian encoding.
    pub fn read_u16(&mut self) -> (r: Result<u16, Error>)
        requires
            old(self).wf(),
        ensures
            final(self).wf(),
            final(self).data@ == old(self).data@,
            r is Ok <==> old(self).pos + 2 <= old(self).data@.len(),
            r matches Err(e) ==> e is Protocol && *final(self) == *old(self),
            r matches Ok(v) ==> final(self).pos == old(self).pos + 2 && u16_be(v)
                == old(self).data@.subrange(old(self).pos as int, old(self).pos + 2),
    {
        if self.data.len() - self.pos >= 2 {
            let b0 = self.data[self.pos];
            let b1 = self.data[self.pos + 1];
            let v: u16 = ((b0 as u16) << 8) | (b1 as u16);
            self.pos = self.pos + 2;
            proof {
                assert((((((b0 as u16) << 8) | (b1 as u16)) >> 8) as u8) == b0 && ((((b0 as u16)
                    << 8) | (b1 as u16)) as u8) == b1) by (bit_vector);
                assert(u16_be(v) =~= old(self).data@.subrange(
                    old(self).pos as int,
                    old(self).pos + 2,
                ));
            }
            Ok(v)
        } else {
            Err(Error::Protocol(String::from_str("payload truncated")))
        }
    }

    /// Read a big-endian `u32`; what was consumed is exactly the value's
    /// big-endian encoding.
    pub fn read_u32(&mut self) -> (r: Result<u32, Error>)
        requires
            old(self).wf(),
        ensures
            final(self).wf(),
            final(self).data@ == old(self).data@,
            r is Ok <==> old(self).pos + 4 <= old(self).data@.len(),
            r matches Err(e) ==> e is Protocol && *final(self) == *old(self),
            r matches Ok(v) ==> final(self).pos == old(self).pos + 4 && u32_be(v)
                == old(self).data@.subrange(old(self).pos as int, old(self).pos + 4),
    {
        if self.data.len() - self.pos >= 4 {
            let b0 = self.data[self.pos];
            let b1 = self.data[self.pos + 1];
            let b2 = self.data[self.pos + 2];
            let b3 = self.data[self.pos + 3];
            let v: u32 = ((b0 as u32) << 24) | ((b1 as u32) << 16) | ((b2 as u32) << 8) | (
            b3 as u32);
            self.pos = self.pos + 4;
            proof {
                let w = ((b0 as u32) << 24) | ((b1 as u32) << 16) | ((b2 as u32) << 8) | (
                b3 as u32);
                assert(((w >> 24) as u8) == b0 && ((w >> 16) as u8) == b1 && ((w >> 8) as u8) == b2
                    && (w as u8) == b3) by (bit_vector)
                    requires
                        w == ((b0 as u32) << 24) | ((b1 as u32) << 16) | ((b2 as u32) << 8) | (
                        b3 as u32),
                ;
                assert(u32_be(v) =~= old(self).data@.subrange(
                    old(self).pos as int,
                    old(self).pos + 4,
                ));
            }
            Ok(v)
        } else {
            Err(Error::Protocol(String::from_str("payload truncated")))
        }
    }

    /// Read a big-endian `u64`; what was consumed is exactly the value's
    /// big-endian encoding.
    pub fn read_u64(&mut self) -> (r: Result<u64, Error>)
        requires
            old(self).wf(),
        ensures
            final(self).wf(),
            final(self).data@ == old(self).data@,
            r is Ok <==> old(self).pos + 8 <= old(self).data@.len(),
            r matches Err(e) ==> e is Protocol && *final(self) == *old(self),
            r matches Ok(v) ==> final(self).pos == old(self).pos + 8 && u64_be(v)
                == old(self).data@.subrange(old(self).pos as int, old(self).pos + 8),
    {
        if self.data.len() - self.pos >= 8 {
            let b0 = self.data[self.pos];
            let b1 = self.data[self.pos + 1];
            let b2 = self.data[self.pos + 2];
            let b3 = self.data[self.pos + 3];
            let b4 = self.data[self.pos + 4];
            let b5 = self.data[self.pos + 5];
            let b6 = self.data[self.pos + 6];
            let b7 = self.data[self.pos + 7];
            let v: u64 = ((b0 as u64) << 56) | ((b1 as u64) << 48) | ((b2 as u64) << 40) | ((
            b3 as u64) << 32) | ((b4 as u64) << 24) | ((b5 as u64) << 16) | ((b6 as u64) << 8) | (
            b7 as u64);
            self.pos = self.pos + 8;
            proof {
                let w = v;
                assert(((w >> 56) as u8) == b0 && ((w >> 48) as u8) == b1 && ((w >> 40) as u8) == b2
                    && ((w >> 32) as u8) == b3 && ((w >> 24) as u8) == b4 && ((w >> 16) as u8) == b5
                    && ((w >> 8) as u8) == b6 && (w as u8) == b7) by (bit_vector)
                    requires
                        w == ((b0 as u64) << 56) | ((b1 as u64) << 48) | ((b2 as u64) << 40) | ((
                        b3 as u64) << 32) | ((b4 as u64) << 24) | ((b5 as u64) << 16) | ((b6 as u64)
                            << 8) | (b7 as u64),
                ;
                assert(u64_be(v) =~= old(self).data@.subrange(
                    old(self).pos as int,
                    old(self).pos + 8,
                ));
            }
            Ok(v)
        } else {
            Err(Error::Protocol(String::from_str("payload truncated")))
        }
    }

    /// Read exactly 32 raw bytes.
    pub fn read_hash32(&mut self) -> (r: Result<[u8; 32], Error>)
        requires
            old(self).wf(),
        ensures
            final(self).wf(),
            final(self).data@ == old(self).data@,
            r is Ok <==> old(self).pos + 32 <= old(self).data@.len(),
            r matches Err(e) ==> e is Protocol && *final(self) == *old(self),
            r matches Ok(a) ==> final(self).pos == old(self).pos + 32 && a@
                == old(self).data@.subrange(old(self).pos as int, old(self).pos + 32),
    {
        if self.data.len() - self.pos >= 32 {
            let end: usize = self.pos + 32;
            let mut a: [u8; 32] = [0u8; 32];
            let mut j: usize = 0;
            while j < 32
                invariant
                    j <= 32,
                    end == old(self).pos + 32,
                    end <= old(self).data@.len(),
                    self.pos == old(self).pos,
                    self.data@ == old(self).data@,
                    a@.len() == 32,
                    forall|k: int| 0 <= k < j ==> a@[k] == self.data@[self.pos + k],
                decreases 32 - j,
            {
                a[j] = self.data[self.pos + j];
                j = j + 1;
            }
            self.pos = self.pos + 32;
            proof {
                assert(a@ =~= old(self).data@.subrange(old(self).pos as int, old(self).pos + 32));
            }
            Ok(a)
        } else {
            Err(Error::Protocol(String::from_str("payload truncated")))
        }
    }

    /// Read a length-prefixed byte string. Succeeds exactly when one whole
    /// byte string starts at the position, and what was consumed is exactly
    /// the returned bytes' encoding.
    pub fn read_bytes(&mut self) -> (r: Result<Vec<u8>, Error>)
        requires
            old(self).wf(),
        ensures
            final(self).wf(),
            final(self).data@ == old(self).data@,
            r is Ok <==> spec_bytes_at(old(self).data@, old(self).pos as int) is Some,
            r matches Err(e) ==> e is Protocol && final(self).pos == old(self).pos,
            r matches Ok(b) ==> bytes_fit(b@) && final(self).pos == old(self).pos + 4 + b@.len()
                && Some(final(self).pos as int) == spec_bytes_at(
                old(self).data@,
                old(self).pos as int,
            ) && enc_bytes(b@) == old(self).data@.subrange(
                old(self).pos as int,
                final(self).pos as int,
            ),
    {
        let ghost p0 = self.pos;
        let ghost d = self.data@;
        let len = match self.read_u32() {
            Ok(v) => v,
            Err(e) => {
                return Err(e);
            },
        };
        proof {
            assert(d[p0 as int] == u32_be(len)[0]);
            assert(d[p0 + 1] == u32_be(len)[1]);
            assert(d[p0 + 2] == u32_be(len)[2]);
            assert(d[p0 + 3] == u32_be(len)[3]);
            crate::protocol::lemma_u32_be_round_trip(len);
            assert(be32_val(d[p0 as int], d[p0 + 1], d[p0 + 2], d[p0 + 3]) == len);
        }
        if self.data.len() - self.pos < len as usize {
            self.pos = self.pos - 4;
            return Err(Error::Protocol(String::from_str("payload truncated")));
        }
        let start = self.pos;
        let end = self.pos + len as usize;
        let b = crate::util::sub_bytes(self.data, start, end);
        self.pos = end;
        proof {
            assert(u32_be(len) == old(self).data@.subrange(p0 as int, p0 + 4));
            assert(b@.len() == len);
            assert(u32_be(b@.len() as u32) == u32_be(len));
            assert(enc_bytes(b@) =~= old(self).data@.subrange(p0 as int, self.pos as int));
        }
        Ok(b)
    }

    /// Read a length-prefixed string. Succeeds exactly when one whole byte
    /// string of valid UTF-8 starts at the position, and what was consumed
    /// is exactly the returned string's encoding.
    pub fn read_string(&mut self) -> (r: Result<String, Error>)
        requires
            old(self).wf(),
        ensures
            final(self).wf(),
            final(self).data@ == old(self).data@,
            r is Ok <==> spec_string_at(old(self).data@, old(self).pos as int) is Some,
            r matches Err(e) ==> e is Protocol && final(self).pos == old(self).pos,
            r matches Ok(s) ==> string_fits(s@) && final(self).pos > old(self).pos && Some(
                final(self).pos as int,
            ) == spec_string_at(old(self).data@, old(self).pos as int) && enc_string(s@)
                == old(self).data@.subrange(old(self).pos as int, final(self).pos as int),
    {
        let ghost p0 = self.pos;
        let ghost d = self.data@;
        let b = match self.read_bytes() {
            Ok(b) => b,
            Err(e) => {
                return Err(e);
            },
        };
        let ghost bv = b@;
        let blen = b.len();
        proof {
            assert(enc_bytes(bv) == d.subrange(p0 as int, self.pos as int));
            assert forall|k: int| 0 <= k < bv.len() implies bv[k] == d[p0 + 4 + k] by {
                assert(enc_bytes(bv)[4 + k] == bv[k]);
                assert(d.subrange(p0 as int, self.pos as int)[4 + k] == d[p0 + 4 + k]);
            }
            assert(bv =~= d.subrange(p0 + 4, self.pos as int));
        }
        let s = match bytes_to_string(b) {
            Ok(s) => s,
            Err(e) => {
                self.pos = self.pos - 4 - blen;
                proof {
                    assert(self.pos == p0);
                }
                return Err(e);
            },
        };
        proof {
            vstd::utf8::decode_utf8_encode_utf8(bv);
        }
        Ok(s)
    }
}

/// Relies on `String::from_utf8`: succeeds exactly on valid UTF-8 and the
/// resulting string's characters decode those bytes.
#[verifier::external_body]
fn bytes_to_string(v: Vec<u8>) -> (r: Result<String, Error>)
    ensures
        r is Ok <==> vstd::utf8::valid_utf8(v@),
        r matches Ok(s) ==> s@ == vstd::utf8::decode_utf8(v@),
        r matches Err(e) ==> e is Protocol,
{
    String::from_utf8(v).map_err(|_| Error::Protocol(String::from_str("invalid utf-8")))
}

/// Adjacent slices of one buffer concatenate to the enclosing slice.
proof fn lemma_subrange_concat(d: Seq<u8>, a: int, b: int, c: int)
    requires
        0 <= a <= b <= c <= d.len(),
    ensures
        d.subrange(a, b) + d.subrange(b, c) == d.subrange(a, c),
{
    assert(d.subrange(a, b) + d.subrange(b, c) =~= d.subrange(a, c));
}

/// Where a length-prefixed byte string that starts at `i` ends, if the
/// buffer holds one: four length bytes, then that many bytes.
pub open spec fn spec_bytes_at(d: Seq<u8>, i: int) -> Option<int> {
    if 0 <= i && i + 4 <= d.len() {
        let n = be32_val(d[i], d[i + 1], d[i + 2], d[i + 3]) as int;
        if i + 4 + n <= d.len() {
            Some(i + 4 + n)
        } else {
            None
        }
    } else {
        None
    }
}

/// Where a length-prefixed string that starts at `i` ends, if the buffer
/// holds one whose bytes are valid UTF-8.
pub open spec fn spec_string_at(d: Seq<u8>, i: int) -> Option<int> {
    match spec_bytes_at(d, i) {
        None => None,
        Some(j) => if vstd::utf8::valid_utf8(d.subrange(i + 4, j)) {
            Some(j)
        } else {
            None
        },
    }
}

/// Where a fixed-size field of `n` bytes that starts at `i` ends, if the
/// buffer holds it.
pub open spec fn spec_fixed_at(d: Seq<u8>, i: int, n: int) -> Option<int> {
    if 0 <= i && i + n <= d.len() {
        Some(i + n)
    } else {
        None
    }
}

/// Where a crypto suite that starts at `i` ends, if the buffer holds one
/// with four known algorithm codes.
pub open spec fn spec_suite_at(d: Seq<u8>, i: int) -> Option<int> {
    if 0 <= i && i + 6 <= d.len() && d[i] <= 3 && d[i + 1] <= 3 && d[i + 2] <= 1 && d[i + 3]
        <= 1 {
        Some(i + 6)
    } else {
        None
    }
}

/// Where an optional byte string that starts at `i` ends, if the buffer
/// holds a valid presence tag and, when present, one whole byte string.
pub open spec fn spec_opt_bytes_at(d: Seq<u8>, i: int) -> Option<int> {
    if 0 <= i && i + 1 <= d.len() {
        if d[i] == 0 {
            Some(i + 1)
        } else if d[i] == 1 {
            spec_bytes_at(d, i + 1)
        } else {
            None
        }
    } else {
        None
    }
}

/// Where `count` key-value string pairs that start at `i` end, if the
/// buffer holds them all.
pub open spec fn spec_pair_items_at(d: Seq<u8>, i: int, count: int) -> Option<int>
    decreases count,
{
    if count <= 0 {
        Some(i)
    } else {
        match spec_string_at(d, i) {
            None => None,
            Some(j) => match spec_string_at(d, j) {
                None => None,
                Some(k) => spec_pair_items_at(d, k, count - 1),
            },
        }
    }
}

/// Where a count-prefixed key-value list that starts at `i` ends, if the
/// buffer holds it whole.
pub open spec fn spec_pairs_at(d: Seq<u8>, i: int) -> Option<int> {
    if 0 <= i && i + 4 <= d.len() {
        spec_pair_items_at(d, i + 4, be32_val(d[i], d[i + 1], d[i + 2], d[i + 3]) as int)
    } else {
        None
    }
}

/// Where `count` crypto suites that start at `i` end, if the buffer holds
/// them all.
pub open spec fn spec_suite_items_at(d: Seq<u8>, i: int, count: int) -> Option<int>
    decreases count,
{
    if count <= 0 {
        Some(i)
    } else {
        match spec_suite_at(d, i) {
            None => None,
            Some(j) => spec_suite_items_at(d, j, count - 1),
        }
    }
}

/// Where a count-prefixed suite list that starts at `i` ends, if the
/// buffer holds it whole.
pub open spec fn spec_suites_at(d: Seq<u8>, i: int) -> Option<int> {
    if 0 <= i && i + 4 <= d.len() {
        spec_suite_items_at(d, i + 4, be32_val(d[i], d[i + 1], d[i + 2], d[i + 3]) as int)
    } else {
        None
    }
}

/// Where `count` byte strings that start at `i` end, if the buffer holds
/// them all.
pub open spec fn spec_bytes_items_at(d: Seq<u8>, i: int, count: int) -> Option<int>
    decreases count,
{
    if count <= 0 {
        Some(i)
    } else {
        match spec_bytes_at(d, i) {
            None => None,
            Some(j) => spec_bytes_items_at(d, j, count - 1),
        }
    }
}

/// Where a count-prefixed byte-string list that starts at `i` ends, if the
/// buffer holds it whole.
pub open spec fn spec_bytes_list_at(d: Seq<u8>, i: int) -> Option<int> {
    if 0 <= i && i + 4 <= d.len() {
        spec_bytes_items_at(d, i + 4, be32_val(d[i], d[i + 1], d[i + 2], d[i + 3]) as int)
    } else {
        None
    }
}

/// Where a policy rule that starts at `i` ends, if the buffer holds one
/// whole rule with a known kind code.
pub open spec fn spec_rule_at(d: Seq<u8>, i: int) -> Option<int> {
    match spec_string_at(d, i) {
        None => None,
        Some(j) => if j + 1 <= d.len() && d[j] <= 4 {
            spec_pairs_at(d, j + 1)
        } else {
            None
        },
    }
}

/// Where `count` policy rules that start at `i` end, if the buffer holds
/// them all.
pub open spec fn spec_rule_items_at(d: Seq<u8>, i: int, count: int) -> Option<int>
    decreases count,
{
    if count <= 0 {
        Some(i)
    } else {
        match spec_rule_at(d, i) {
            None => None,
            Some(j) => spec_rule_items_at(d, j, count - 1),
        }
    }
}

/// The wire code of a key-exchange algorithm.
pub open spec fn kem_code(k: crate::crypto::KemAlgorithm) -> u8 {
    match k {
        crate::crypto::KemAlgorithm::EcdheP256 => 0,
        crate::crypto::KemAlgorithm::HybridEcdheP256MlKem768 => 1,
        crate::crypto::KemAlgorithm::MlKem768 => 2,
        crate::crypto::KemAlgorithm::MlKem1024 => 3,
    }
}

/// The wire code of a signature algorithm.
pub open spec fn sig_code(s: crate::crypto::SignatureAlgorithm) -> u8 {
    match s {
        crate::crypto::SignatureAlgorithm::Ed25519 => 0,
        crate::crypto::SignatureAlgorithm::HybridEd25519MlDsa65 => 1,
        crate::crypto::SignatureAlgorithm::MlDsa65 => 2,
        crate::crypto::SignatureAlgorithm::MlDsa87 => 3,
    }
}

/// The wire code of an AEAD algorithm.
pub open spec fn aead_code(a: crate::crypto::AeadAlgorithm) -> u8 {
    match a {
        crate::crypto::AeadAlgorithm::ChaCha20Poly1305 => 0,
        crate::crypto::AeadAlgorithm::Aes256Gcm => 1,
    }
}

/// The wire code of a hash algorithm.
pub open spec fn hash_code(h: crate::crypto::HashAlgorithm) -> u8 {
    match h {
        crate::crypto::HashAlgorithm::Blake3 => 0,
        crate::crypto::HashAlgorithm::Sha3256 => 1,
    }
}

/// The wire encoding of a crypto suite: the four algorithm codes, then the
/// suite version.
pub open spec fn enc_suite(s: crate::crypto::CryptoSuite) -> Seq<u8> {
    seq![kem_code(s.kem), sig_code(s.signature), aead_code(s.aead), hash_code(s.hash)] + u16_be(
        s.version,
    )
}

/// Append the wire encoding of a crypto suite.
fn push_suite(out: &mut Vec<u8>, s: &crate::crypto::CryptoSuite)
    ensures
        final(out)@ == old(out)@ + enc_suite(*s),
{
    let ghost start = out@;
    out.push(
        match s.kem {
            crate::crypto::KemAlgorithm::EcdheP256 => 0,
            crate::crypto::KemAlgorithm::HybridEcdheP256MlKem768 => 1,
            crate::crypto::KemAlgorithm::MlKem768 => 2,
            crate::crypto::KemAlgorithm::MlKem1024 => 3,
        },
    );
    out.push(
        match s.signature {
            crate::crypto::SignatureAlgorithm::Ed25519 => 0,
            crate::crypto::SignatureAlgorithm::HybridEd25519MlDsa65 => 1,
            crate::crypto::SignatureAlgorithm::MlDsa65 => 2,
            crate::crypto::SignatureAlgorithm::MlDsa87 => 3,
        },
    );
    out.push(
        match s.aead {
            crate::crypto::AeadAlgorithm::ChaCha20Poly1305 => 0,
            crate::crypto::AeadAlgorithm::Aes256Gcm => 1,
        },
    );
    out.push(
        match s.hash {
            crate::crypto::HashAlgorithm::Blake3 => 0,
            crate::crypto::HashAlgorithm::Sha3256 => 1,
        },
    );
    crate::protocol::push_u16_be(out, s.version);
    proof {
        assert(out@ =~= start + enc_suite(*s));
    }
}

/// Read one crypto suite; rejects unknown algorithm codes, and what was
/// consumed is exactly the suite's encoding.
fn read_suite(rd: &mut ByteReader) -> (r: Result<crate::crypto::CryptoSuite, Error>)
    requires
        old(rd).wf(),
    ensures
        final(rd).wf(),
        final(rd).data@ == old(rd).data@,
        r matches Err(e) ==> e is Protocol,
        r is Ok <==> spec_suite_at(old(rd).data@, old(rd).pos as int) is Some,
        r matches Ok(s) ==> final(rd).pos == old(rd).pos + 6 && Some(final(rd).pos as int)
            == spec_suite_at(old(rd).data@, old(rd).pos as int) && enc_suite(s)
            == old(rd).data@.subrange(old(rd).pos as int, final(rd).pos as int),
{
    let ghost p0 = rd.pos;
    let kb = rd.read_u8()?;
    let kem = match kb {
        0 => crate::crypto::KemAlgorithm::EcdheP256,
        1 => crate::crypto::KemAlgorithm::HybridEcdheP256MlKem768,
        2 => crate::crypto::KemAlgorithm::MlKem768,
        3 => crate::crypto::KemAlgorithm::MlKem1024,
        _ => {
            return Err(Error::Protocol(String::from_str("unknown key-exchange code")));
        },
    };
    let sb = rd.read_u8()?;
    let signature = match sb {
        0 => crate::crypto::SignatureAlgorithm::Ed25519,
        1 => crate::crypto::SignatureAlgorithm::HybridEd25519MlDsa65,
        2 => crate::crypto::SignatureAlgorithm::MlDsa65,
        3 => crate::crypto::SignatureAlgorithm::MlDsa87,
        _ => {
            return Err(Error::Protocol(String::from_str("unknown signature code")));
        },
    };
    let ab = rd.read_u8()?;
    let aead = match ab {
        0 => crate::crypto::AeadAlgorithm::ChaCha20Poly1305,
        1 => crate::crypto::AeadAlgorithm::Aes256Gcm,
        _ => {
            return Err(Error::Protocol(String::from_str("unknown cipher code")));
        },
    };
    let hb = rd.read_u8()?;
    let hash = match hb {
        0 => crate::crypto::HashAlgorithm::Blake3,
        1 => crate::crypto::HashAlgorithm::Sha3256,
        _ => {
            return Err(Error::Protocol(String::from_str("unknown hash code")));
        },
    };
    let version = rd.read_u16()?;
    let s = crate::crypto::CryptoSuite { kem, signature, aead, hash, version };
    proof {
        let d = rd.data@;
        assert(d[p0 as int] == kb);
        assert(d[p0 + 1] == sb);
        assert(d[p0 + 2] == ab);
        assert(d[p0 + 3] == hb);
        assert(u16_be(s.version) == d.subrange(p0 + 4, p0 + 6));
        assert(enc_suite(s) =~= d.subrange(p0 as int, rd.pos as int));
    }
    Ok(s)
}

/// Read a big-endian `u128`; what was consumed is exactly the value's
/// big-endian encoding.
fn read_u128(rd: &mut ByteReader) -> (r: Result<u128, Error>)
    requires
        old(rd).wf(),
    ensures
        final(rd).wf(),
        final(rd).data@ == old(rd).data@,
        r matches Err(e) ==> e is Protocol,
        r is Ok <==> spec_fixed_at(old(rd).data@, old(rd).pos as int, 16) is Some,
        r matches Ok(v) ==> final(rd).pos == old(rd).pos + 16 && u128_be(v)
            == old(rd).data@.subrange(old(rd).pos as int, final(rd).pos as int),
{
    let ghost p0 = rd.pos;
    let hi = rd.read_u64()?;
    let lo = rd.read_u64()?;
    let v: u128 = ((hi as u128) << 64) | (lo as u128);
    proof {
        assert((((((hi as u128) << 64) | (lo as u128)) >> 64) as u64) == hi && ((((hi as u128)
            << 64) | (lo as u128)) as u64) == lo) by (bit_vector);
        lemma_subrange_concat(rd.data@, p0 as int, p0 + 8, p0 + 16);
        assert(u128_be(v) == rd.data@.subrange(p0 as int, rd.pos as int));
    }
    Ok(v)
}

/// Append the big-endian bytes of a `u128`.
fn push_u128_be(out: &mut Vec<u8>, x: u128)
    ensures
        final(out)@ == old(out)@ + u128_be(x),
{
    let ghost start = out@;
    crate::protocol::push_u64_be(out, (x >> 64) as u64);
    crate::protocol::push_u64_be(out, #[verifier::truncate] (x as u64));
    proof {
        assert(out@ =~= start + u128_be(x));
    }
}

/// Append the 32 bytes of a hash.
fn push_hash32(out: &mut Vec<u8>, h: &[u8; 32])
    ensures
        final(out)@ == old(out)@ + h@,
{
    push_bytes(out, h.as_slice());
}

/// The item bytes of a list of crypto suites, in order.
pub open spec fn enc_suite_items(l: Seq<crate::crypto::CryptoSuite>) -> Seq<u8>
    decreases l.len(),
{
    if l.len() == 0 {
        Seq::empty()
    } else {
        enc_suite_items(l.drop_last()) + enc_suite(l.last())
    }
}

/// The item bytes of a list of byte strings, in order.
pub open spec fn enc_bytes_items(l: Seq<Seq<u8>>) -> Seq<u8>
    decreases l.len(),
{
    if l.len() == 0 {
        Seq::empty()
    } else {
        enc_bytes_items(l.drop_last()) + enc_bytes(l.last())
    }
}

/// The item bytes of a list of key-value string pairs, in order.
pub open spec fn enc_pair_items(l: Seq<(String, String)>) -> Seq<u8>
    decreases l.len(),
{
    if l.len() == 0 {
        Seq::empty()
    } else {
        enc_pair_items(l.drop_last()) + enc_string(l.last().0@) + enc_string(l.last().1@)
    }
}

/// Whether every pair of a key-value list fits its length prefixes.
pub open spec fn pairs_fit(l: Seq<(String, String)>) -> bool {
    l.len() <= u32::MAX && forall|i: int|
        0 <= i < l.len() ==> string_fits((#[trigger] l[i]).0@) && string_fits(l[i].1@)
}

/// Append a count-prefixed key-value list.
pub(crate) fn push_pairs(out: &mut Vec<u8>, l: &Vec<(String, String)>)
    requires
        pairs_fit(l@),
    ensures
        final(out)@ == old(out)@ + u32_be(l@.len() as u32) + enc_pair_items(l@),
{
    let ghost start = out@;
    crate::protocol::push_u32_be(out, l.len() as u32);
    let mut i: usize = 0;
    while i < l.len()
        invariant
            i <= l@.len(),
            pairs_fit(l@),
            out@ == start + u32_be(l@.len() as u32) + enc_pair_items(l@.take(i as int)),
        decreases l@.len() - i,
    {
        push_enc_string(out, l[i].0.as_str());
        push_enc_string(out, l[i].1.as_str());
        i = i + 1;
        proof {
            assert(l@.take(i as int).drop_last() =~= l@.take(i - 1));
            assert(l@.take(i as int).last() == l@[i - 1]);
            assert(out@ =~= start + u32_be(l@.len() as u32) + enc_pair_items(l@.take(i as int)));
        }
    }
    proof {
        assert(l@.take(l@.len() as int) =~= l@);
    }
}

/// Read a count-prefixed key-value list; what was consumed is exactly the
/// returned list's encoding.
fn read_pairs(rd: &mut ByteReader) -> (r: Result<Vec<(String, String)>, Error>)
    requires
        old(rd).wf(),
    ensures
        final(rd).wf(),
        final(rd).data@ == old(rd).data@,
        r matches Err(e) ==> e is Protocol,
        r is Ok <==> spec_pairs_at(old(rd).data@, old(rd).pos as int) is Some,
        r matches Ok(l) ==> pairs_fit(l@) && final(rd).pos >= old(rd).pos && Some(
            final(rd).pos as int,
        ) == spec_pairs_at(old(rd).data@, old(rd).pos as int) && u32_be(l@.len() as u32)
            + enc_pair_items(l@) == old(rd).data@.subrange(
            old(rd).pos as int,
            final(rd).pos as int,
        ),
{
    let ghost p0 = rd.pos;
    let ghost d = rd.data@;
    let count = rd.read_u32()?;
    let ghost p1 = rd.pos;
    proof {
        assert(d[p0 as int] == u32_be(count)[0]);
        assert(d[p0 + 1] == u32_be(count)[1]);
        assert(d[p0 + 2] == u32_be(count)[2]);
        assert(d[p0 + 3] == u32_be(count)[3]);
        crate::protocol::lemma_u32_be_round_trip(count);
        assert(spec_pairs_at(d, p0 as int) == spec_pair_items_at(d, p1 as int, count as int));
    }
    let mut l: Vec<(String, String)> = Vec::new();
    let mut i: u32 = 0;
    while i < count
        invariant
            i <= count,
            rd.wf(),
            d == old(rd).data@,
            p0 == old(rd).pos,
            rd.data@ == d,
            p1 <= rd.pos,
            l@.len() == i,
            pairs_fit(l@),
            enc_pair_items(l@) == d.subrange(p1 as int, rd.pos as int),
            spec_pairs_at(d, p0 as int) == spec_pair_items_at(
                d,
                rd.pos as int,
                (count - i) as int,
            ),
        decreases count - i,
    {
        let ghost q0 = rd.pos;
        let ghost lprev = l@;
        let k = match rd.read_string() {
            Ok(k) => k,
            Err(e) => {
                proof {
                    assert(spec_pair_items_at(d, q0 as int, (count - i) as int) is None);
                }
                return Err(e);
            },
        };
        let ghost q1 = rd.pos;
        let v = match rd.read_string() {
            Ok(v) => v,
            Err(e) => {
                proof {
                    assert(spec_pair_items_at(d, q0 as int, (count - i) as int) is None);
                }
                return Err(e);
            },
        };
        let ghost q2 = rd.pos;
        l.push((k, v));
        i = i + 1;
        proof {
            assert(l@.drop_last() =~= lprev);
            assert(l@.last().0@ == k@ && l@.last().1@ == v@);
            lemma_subrange_concat(rd.data@, q0 as int, q1 as int, q2 as int);
            lemma_subrange_concat(rd.data@, p1 as int, q0 as int, q2 as int);
            assert(enc_pair_items(l@) =~= rd.data@.subrange(p1 as int, rd.pos as int));
            assert(spec_pair_items_at(d, q0 as int, (count - i + 1) as int)
                == spec_pair_items_at(d, q2 as int, (count - i) as int));
        }
    }
    proof {
        lemma_subrange_concat(rd.data@, p0 as int, p1 as int, rd.pos as int);
        assert(u32_be(count) == rd.data@.subrange(p0 as int, p1 as int));
        assert(l@.len() as u32 == count);
        assert(spec_pair_items_at(d, rd.pos as int, 0) == Some(rd.pos as int));
    }
    Ok(l)
}

/// Append a count-prefixed list of crypto suites.
fn push_suites(out: &mut Vec<u8>, l: &Vec<crate::crypto::CryptoSuite>)
    requires
        l@.len() <= u32::MAX,
    ensures
        final(out)@ == old(out)@ + u32_be(l@.len() as u32) + enc_suite_items(l@),
{
    let ghost start = out@;
    crate::protocol::push_u32_be(out, l.len() as u32);
    let mut i: usize = 0;
    while i < l.len()
        invariant
            i <= l@.len(),
            out@ == start + u32_be(l@.len() as u32) + enc_suite_items(l@.take(i as int)),
        decreases l@.len() - i,
    {
        push_suite(out, &l[i]);
        i = i + 1;
        proof {
            assert(l@.take(i as int).drop_last() =~= l@.take(i - 1));
            assert(l@.take(i as int).last() == l@[i - 1]);
            assert(out@ =~= start + u32_be(l@.len() as u32) + enc_suite_items(l@.take(i as int)));
        }
    }
    proof {
        assert(l@.take(l@.len() as int) =~= l@);
    }
}

/// Read a count-prefixed list of crypto suites; what was consumed is
/// exactly the returned list's encoding.
fn read_suites(rd: &mut ByteReader) -> (r: Result<Vec<crate::crypto::CryptoSuite>, Error>)
    requires
        old(rd).wf(),
    ensures
        final(rd).wf(),
        final(rd).data@ == old(rd).data@,
        r matches Err(e) ==> e is Protocol,
        r is Ok <==> spec_suites_at(old(rd).data@, old(rd).pos as int) is Some,
        r matches Ok(l) ==> l@.len() <= u32::MAX && final(rd).pos >= old(rd).pos && Some(
            final(rd).pos as int,
        ) == spec_suites_at(old(rd).data@, old(rd).pos as int) && u32_be(l@.len() as u32)
            + enc_suite_items(l@) == old(rd).data@.subrange(
            old(rd).pos as int,
            final(rd).pos as int,
        ),
{
    let ghost p0 = rd.pos;
    let ghost d = rd.data@;
    let count = rd.read_u32()?;
    let ghost p1 = rd.pos;
    proof {
        assert(d[p0 as int] == u32_be(count)[0]);
        assert(d[p0 + 1] == u32_be(count)[1]);
        assert(d[p0 + 2] == u32_be(count)[2]);
        assert(d[p0 + 3] == u32_be(count)[3]);
        crate::protocol::lemma_u32_be_round_trip(count);
        assert(spec_suites_at(d, p0 as int) == spec_suite_items_at(d, p1 as int, count as int));
    }
    let mut l: Vec<crate::crypto::CryptoSuite> = Vec::new();
    let mut i: u32 = 0;
    while i < count
        invariant
            i <= count,
            rd.wf(),
            d == old(rd).data@,
            p0 == old(rd).pos,
            rd.data@ == d,
            p1 <= rd.pos,
            l@.len() == i,
            enc_suite_items(l@) == d.subrange(p1 as int, rd.pos as int),
            spec_suites_at(d, p0 as int) == spec_suite_items_at(
                d,
                rd.pos as int,
                (count - i) as int,
            ),
        decreases count - i,
    {
        let ghost q0 = rd.pos;
        let ghost lprev = l@;
        let s = match read_suite(rd) {
            Ok(s) => s,
            Err(e) => {
                proof {
                    assert(spec_suite_items_at(d, q0 as int, (count - i) as int) is None);
                }
                return Err(e);
            },
        };
        l.push(s);
        i = i + 1;
        proof {
            assert(l@.drop_last() =~= lprev);
            lemma_subrange_concat(rd.data@, p1 as int, q0 as int, rd.pos as int);
            assert(enc_suite_items(l@) =~= rd.data@.subrange(p1 as int, rd.pos as int));
            assert(spec_suite_items_at(d, q0 as int, (count - i + 1) as int)
                == spec_suite_items_at(d, rd.pos as int, (count - i) as int));
        }
    }
    proof {
        lemma_subrange_concat(rd.data@, p0 as int, p1 as int, rd.pos as int);
        assert(l@.len() as u32 == count);
        assert(spec_suite_items_at(d, rd.pos as int, 0) == Some(rd.pos as int));
    }
    Ok(l)
}

/// Append a count-prefixed list of byte strings.
fn push_bytes_list(out: &mut Vec<u8>, l: &Vec<Vec<u8>>)
    requires
        l@.len() <= u32::MAX,
        forall|i: int| 0 <= i < l@.len() ==> (#[trigger] l@[i])@.len() <= u32::MAX,
    ensures
        final(out)@ == old(out)@ + u32_be(l@.len() as u32) + enc_bytes_items(
            l@.map_values(|v: Vec<u8>| v@),
        ),
{
    let ghost start = out@;
    let ghost m = l@.map_values(|v: Vec<u8>| v@);
    crate::protocol::push_u32_be(out, l.len() as u32);
    let mut i: usize = 0;
    while i < l.len()
        invariant
            i <= l@.len(),
            m == l@.map_values(|v: Vec<u8>| v@),
            forall|k: int| 0 <= k < l@.len() ==> (#[trigger] l@[k])@.len() <= u32::MAX,
            out@ == start + u32_be(l@.len() as u32) + enc_bytes_items(m.take(i as int)),
        decreases l@.len() - i,
    {
        push_enc_bytes(out, l[i].as_slice());
        i = i + 1;
        proof {
            assert(m.take(i as int).drop_last() =~= m.take(i - 1));
            assert(m.take(i as int).last() == l@[i - 1]@);
            assert(out@ =~= start + u32_be(l@.len() as u32) + enc_bytes_items(m.take(i as int)));
        }
    }
    proof {
        assert(m.take(m.len() as int) =~= m);
    }
}

/// Read a count-prefixed list of byte strings; what was consumed is exactly
/// the returned list's encoding.
fn read_bytes_list(rd: &mut ByteReader) -> (r: Result<Vec<Vec<u8>>, Error>)
    requires
        old(rd).wf(),
    ensures
        final(rd).wf(),
        final(rd).data@ == old(rd).data@,
        r matches Err(e) ==> e is Protocol,
        r is Ok <==> spec_bytes_list_at(old(rd).data@, old(rd).pos as int) is Some,
        r matches Ok(l) ==> l@.len() <= u32::MAX && (forall|i: int|
            0 <= i < l@.len() ==> (#[trigger] l@[i])@.len() <= u32::MAX) && final(rd).pos >= old(
            rd,
        ).pos && Some(final(rd).pos as int) == spec_bytes_list_at(
            old(rd).data@,
            old(rd).pos as int,
        ) && u32_be(l@.len() as u32) + enc_bytes_items(l@.map_values(|v: Vec<u8>| v@)) == old(
            rd,
        ).data@.subrange(old(rd).pos as int, final(rd).pos as int),
{
    let ghost p0 = rd.pos;
    let ghost d = rd.data@;
    let count = rd.read_u32()?;
    let ghost p1 = rd.pos;
    proof {
        assert(d[p0 as int] == u32_be(count)[0]);
        assert(d[p0 + 1] == u32_be(count)[1]);
        assert(d[p0 + 2] == u32_be(count)[2]);
        assert(d[p0 + 3] == u32_be(count)[3]);
        crate::protocol::lemma_u32_be_round_trip(count);
        assert(spec_bytes_list_at(d, p0 as int) == spec_bytes_items_at(
            d,
            p1 as int,
            count as int,
        ));
    }
    let mut l: Vec<Vec<u8>> = Vec::new();
    let mut i: u32 = 0;
    while i < count
        invariant
            i <= count,
            rd.wf(),
            d == old(rd).data@,
            p0 == old(rd).pos,
            rd.data@ == d,
            p1 <= rd.pos,
            l@.len() == i,
            forall|k: int| 0 <= k < l@.len() ==> (#[trigger] l@[k])@.len() <= u32::MAX,
            enc_bytes_items(l@.map_values(|v: Vec<u8>| v@)) == d.subrange(
                p1 as int,
                rd.pos as int,
            ),
            spec_bytes_list_at(d, p0 as int) == spec_bytes_items_at(
                d,
                rd.pos as int,
                (count - i) as int,
            ),
        decreases count - i,
    {
        let ghost q0 = rd.pos;
        let ghost mprev = l@.map_values(|v: Vec<u8>| v@);
        let b = match rd.read_bytes() {
            Ok(b) => b,
            Err(e) => {
                proof {
                    assert(spec_bytes_items_at(d, q0 as int, (count - i) as int) is None);
                }
                return Err(e);
            },
        };
        l.push(b);
        i = i + 1;
        proof {
            let m = l@.map_values(|v: Vec<u8>| v@);
            assert(m.drop_last() =~= mprev);
            assert(m.last() == l@.last()@);
            lemma_subrange_concat(rd.data@, p1 as int, q0 as int, rd.pos as int);
            assert(enc_bytes_items(m) =~= rd.data@.subrange(p1 as int, rd.pos as int));
            assert(spec_bytes_items_at(d, q0 as int, (count - i + 1) as int)
                == spec_bytes_items_at(d, rd.pos as int, (count - i) as int));
        }
    }
    proof {
        lemma_subrange_concat(rd.data@, p0 as int, p1 as int, rd.pos as int);
        assert(l@.len() as u32 == count);
        assert(spec_bytes_items_at(d, rd.pos as int, 0) == Some(rd.pos as int));
    }
    Ok(l)
}

/// The view of an optional byte vector.
pub open spec fn opt_bytes_view(o: Option<Vec<u8>>) -> Option<Seq<u8>> {
    match o {
        None => None,
        Some(v) => Some(v@),
    }
}

/// Append an optional byte string with its presence tag.
fn push_opt_bytes(out: &mut Vec<u8>, o: &Option<Vec<u8>>)
    requires
        o matches Some(v) ==> v@.len() <= u32::MAX,
    ensures
        final(out)@ == old(out)@ + enc_opt_bytes(opt_bytes_view(*o)),
{
    let ghost start = out@;
    match o {
        None => {
            out.push(0);
            proof {
                assert(out@ =~= start + enc_opt_bytes(opt_bytes_view(*o)));
            }
        },
        Some(v) => {
            out.push(1);
            push_enc_bytes(out, v.as_slice());
            proof {
                assert(out@ =~= start + enc_opt_bytes(opt_bytes_view(*o)));
            }
        },
    }
}

/// Read an optional byte string; what was consumed is exactly the returned
/// option's encoding.
fn read_opt_bytes(rd: &mut ByteReader) -> (r: Result<Option<Vec<u8>>, Error>)
    requires
        old(rd).wf(),
    ensures
        final(rd).wf(),
        final(rd).data@ == old(rd).data@,
        r matches Err(e) ==> e is Protocol,
        r is Ok <==> spec_opt_bytes_at(old(rd).data@, old(rd).pos as int) is Some,
        r matches Ok(o) ==> (o matches Some(v) ==> v@.len() <= u32::MAX) && final(rd).pos > old(
            rd,
        ).pos && Some(final(rd).pos as int) == spec_opt_bytes_at(
            old(rd).data@,
            old(rd).pos as int,
        ) && enc_opt_bytes(opt_bytes_view(o)) == old(rd).data@.subrange(
            old(rd).pos as int,
            final(rd).pos as int,
        ),
{
    let ghost p0 = rd.pos;
    let tag = rd.read_u8()?;
    if tag == 0 {
        proof {
            assert(enc_opt_bytes(opt_bytes_view(None::<Vec<u8>>)) =~= rd.data@.subrange(
                p0 as int,
                rd.pos as int,
            ));
        }
        Ok(None)
    } else if tag == 1 {
        let ghost p1 = rd.pos;
        let b = rd.read_bytes()?;
        proof {
            lemma_subrange_concat(rd.data@, p0 as int, p1 as int, rd.pos as int);
            assert(enc_opt_bytes(opt_bytes_view(Some(b))) =~= rd.data@.subrange(
                p0 as int,
                rd.pos as int,
            ));
        }
        Ok(Some(b))
    } else {
        Err(Error::Protocol(String::from_str("invalid presence tag")))
    }
}

/// Handshake payload: the two nonces, the offered suites, an optional
/// hardware attestation and the certificate chain.
pub struct HandshakePayload {
    /// Client random
    pub client_random: [u8; 32],
    /// Server random
    pub server_random: [u8; 32],
    /// Offered crypto suites
    pub crypto_suites: Vec<crate::crypto::CryptoSuite>,
    /// Hardware attestation data
    pub hardware_attestation: Option<Vec<u8>>,
    /// Certificate chain
    pub certificate_chain: Vec<Vec<u8>>,
}

impl HandshakePayload {
    /// Every variable-length field fits its length prefix.
    pub open spec fn encodable(self) -> bool {
        &&& self.crypto_suites@.len() <= u32::MAX
        &&& (self.hardware_attestation matches Some(v) ==> v@.len() <= u32::MAX)
        &&& self.certificate_chain@.len() <= u32::MAX
        &&& forall|i: int|
            0 <= i < self.certificate_chain@.len() ==> (#[trigger] self.certificate_chain@[i])@.len()
                <= u32::MAX
    }

    /// The wire encoding of this payload.
    pub open spec fn spec_encode(self) -> Seq<u8> {
        self.client_random@ + self.server_random@ + u32_be(self.crypto_suites@.len() as u32)
            + enc_suite_items(self.crypto_suites@) + enc_opt_bytes(
            opt_bytes_view(self.hardware_attestation),
        ) + u32_be(self.certificate_chain@.len() as u32) + enc_bytes_items(
            self.certificate_chain@.map_values(|v: Vec<u8>| v@),
        )
    }

    /// Whether a buffer is exactly one handshake payload: the two nonces,
    /// a whole suite list, a whole optional attestation and a whole
    /// certificate chain, with nothing left over.
    pub open spec fn spec_decodes(d: Seq<u8>) -> bool {
        if d.len() < 64 {
            false
        } else {
            match spec_suites_at(d, 64) {
                None => false,
                Some(a) => match spec_opt_bytes_at(d, a) {
                    None => false,
                    Some(b) => match spec_bytes_list_at(d, b) {
                        None => false,
                        Some(c) => c == d.len(),
                    },
                },
            }
        }
    }

    /// Encode the payload.
    pub fn encode(&self) -> (r: Vec<u8>)
        requires
            self.encodable(),
        ensures
            r@ == self.spec_encode(),
    {
        let mut out: Vec<u8> = Vec::new();
        push_hash32(&mut out, &self.client_random);
        push_hash32(&mut out, &self.server_random);
        push_suites(&mut out, &self.crypto_suites);
        push_opt_bytes(&mut out, &self.hardware_attestation);
        push_bytes_list(&mut out, &self.certificate_chain);
        proof {
            assert(out@ =~= self.spec_encode());
        }
        out
    }

    /// Parse a payload. Succeeds exactly when the buffer is one whole
    /// payload, and then the buffer is exactly the returned payload's
    /// encoding; every rejection is a protocol error.
    #[verifier::rlimit(80)]
    pub fn decode(data: &[u8]) -> (r: Result<Self, Error>)
        ensures
            r matches Err(e) ==> e is Protocol,
            r is Ok <==> Self::spec_decodes(data@),
            r matches Ok(p) ==> p.encodable() && p.spec_encode() == data@,
    {
        let mut rd = ByteReader::new(data);
        let ghost p0 = rd.pos;
        let client_random = rd.read_hash32()?;
        let ghost p1 = rd.pos;
        let server_random = rd.read_hash32()?;
        let ghost p2 = rd.pos;
        let crypto_suites = read_suites(&mut rd)?;
        let ghost p3 = rd.pos;
        let hardware_attestation = match read_opt_bytes(&mut rd) {
            Ok(o) => o,
            Err(e) => {
                proof {
                    assert(spec_suites_at(rd.data@, 64) == Some(p3 as int));
                    assert(!Self::spec_decodes(data@));
                }
                return Err(e);
            },
        };
        let ghost p4 = rd.pos;
        let certificate_chain = match read_bytes_list(&mut rd) {
            Ok(c) => c,
            Err(e) => {
                proof {
                    assert(spec_suites_at(rd.data@, 64) == Some(p3 as int));
                    assert(spec_opt_bytes_at(rd.data@, p3 as int) == Some(p4 as int));
                    assert(!Self::spec_decodes(data@));
                }
                return Err(e);
            },
        };
        let ghost p5 = rd.pos;
        if !rd.at_end() {
            return Err(Error::Protocol(String::from_str("trailing bytes in payload")));
        }
        let p = HandshakePayload {
            client_random,
            server_random,
            crypto_suites,
            hardware_attestation,
            certificate_chain,
        };
        proof {
            let d = rd.data@;
            lemma_subrange_concat(d, p0 as int, p1 as int, p2 as int);
            lemma_subrange_concat(d, p0 as int, p2 as int, p3 as int);
            lemma_subrange_concat(d, p0 as int, p3 as int, p4 as int);
            lemma_subrange_concat(d, p0 as int, p4 as int, p5 as int);
            assert(d.subrange(0, d.len() as int) =~= d);
            assert(p.spec_encode() =~= d);
        }
        Ok(p)
    }
}

/// File-open payload: the requested path and what is known of the file.
pub struct FileOpenPayload {
    /// File path
    pub path: String,
    /// File size
    pub size: u64,
    /// File hash
    pub hash: [u8; 32],
    /// File permissions
    pub permissions: u32,
    /// File metadata; one entry per key
    pub metadata: Vec<(String, String)>,
}

impl FileOpenPayload {
    /// Every variable-length field fits its length prefix.
    pub open spec fn encodable(self) -> bool {
        string_fits(self.path@) && pairs_fit(self.metadata@)
    }

    /// The wire encoding of this payload.
    pub open spec fn spec_encode(self) -> Seq<u8> {
        enc_string(self.path@) + u64_be(self.size) + self.hash@ + u32_be(self.permissions)
            + u32_be(self.metadata@.len() as u32) + enc_pair_items(self.metadata@)
    }

    /// Whether a buffer is exactly one file-open payload: a whole path
    /// string, the fixed fields and a whole metadata list, with nothing
    /// left over.
    pub open spec fn spec_decodes(d: Seq<u8>) -> bool {
        match spec_string_at(d, 0) {
            None => false,
            Some(a) => if a + 44 <= d.len() {
                match spec_pairs_at(d, a + 44) {
                    None => false,
                    Some(b) => b == d.len(),
                }
            } else {
                false
            },
        }
    }

    /// Encode the payload.
    pub fn encode(&self) -> (r: Vec<u8>)
        requires
            self.encodable(),
        ensures
            r@ == self.spec_encode(),
    {
        let mut out: Vec<u8> = Vec::new();
        push_enc_string(&mut out, self.path.as_str());
        crate::protocol::push_u64_be(&mut out, self.size);
        push_hash32(&mut out, &self.hash);
        crate::protocol::push_u32_be(&mut out, self.permissions);
        push_pairs(&mut out, &self.metadata);
        proof {
            assert(out@ =~= self.spec_encode());
        }
        out
    }

    /// Parse a payload. Succeeds exactly when the buffer is one whole
    /// payload, and then the buffer is exactly the returned payload's
    /// encoding; every rejection is a protocol error.
    pub fn decode(data: &[u8]) -> (r: Result<Self, Error>)
        ensures
            r matches Err(e) ==> e is Protocol,
            r is Ok <==> Self::spec_decodes(data@),
            r matches Ok(p) ==> p.encodable() && p.spec_encode() == data@,
    {
        let mut rd = ByteReader::new(data);
        let ghost p0 = rd.pos;
        let path = rd.read_string()?;
        let ghost p1 = rd.pos;
        let size = rd.read_u64()?;
        let ghost p2 = rd.pos;
        let hash = rd.read_hash32()?;
        let ghost p3 = rd.pos;
        let permissions = rd.read_u32()?;
        let ghost p4 = rd.pos;
        let metadata = read_pairs(&mut rd)?;
        let ghost p5 = rd.pos;
        if !rd.at_end() {
            return Err(Error::Protocol(String::from_str("trailing bytes in payload")));
        }
        let p = FileOpenPayload { path, size, hash, permissions, metadata };
        proof {
            let d = rd.data@;
            lemma_subrange_concat(d, p0 as int, p1 as int, p2 as int);
            lemma_subrange_concat(d, p0 as int, p2 as int, p3 as int);
            lemma_subrange_concat(d, p0 as int, p3 as int, p4 as int);
            lemma_subrange_concat(d, p0 as int, p4 as int, p5 as int);
            assert(d.subrange(0, d.len() as int) =~= d);
            assert(p.spec_encode() =~= d);
        }
        Ok(p)
    }
}

/// File-data payload: one chunk and the hash of everything sent so far.
pub struct FileDataPayload {
    /// File transfer identity
    pub file_id: u128,
    /// Chunk index
    pub chunk_index: u32,
    /// Chunk data
    pub data: Vec<u8>,
    /// Hash of the cumulative bytes up to and including this chunk
    pub chunk_hash: [u8; 32],
    /// Chunk signature
    pub chunk_signature: Vec<u8>,
}

impl FileDataPayload {
    /// Every variable-length field fits its length prefix.
    pub open spec fn encodable(self) -> bool {
        bytes_fit(self.data@) && bytes_fit(self.chunk_signature@)
    }

    /// The wire encoding of this payload.
    pub open spec fn spec_encode(self) -> Seq<u8> {
        u128_be(self.file_id) + u32_be(self.chunk_index) + enc_bytes(self.data@)
            + self.chunk_hash@ + enc_bytes(self.chunk_signature@)
    }

    /// Whether a buffer is exactly one file-data payload: the fixed fields,
    /// a whole data string, the chunk hash and a whole signature string,
    /// with nothing left over.
    pub open spec fn spec_decodes(d: Seq<u8>) -> bool {
        if d.len() < 20 {
            false
        } else {
            match spec_bytes_at(d, 20) {
                None => false,
                Some(a) => if a + 32 <= d.len() {
                    match spec_bytes_at(d, a + 32) {
                        None => false,
                        Some(b) => b == d.len(),
                    }
                } else {
                    false
                },
            }
        }
    }

    /// Encode the payload.
    pub fn encode(&self) -> (r: Vec<u8>)
        requires
            self.encodable(),
        ensures
            r@ == self.spec_encode(),
    {
        let mut out: Vec<u8> = Vec::new();
        push_u128_be(&mut out, self.file_id);
        crate::protocol::push_u32_be(&mut out, self.chunk_index);
        push_enc_bytes(&mut out, self.data.as_slice());
        push_hash32(&mut out, &self.chunk_hash);
        push_enc_bytes(&mut out, self.chunk_signature.as_slice());
        proof {
            assert(out@ =~= self.spec_encode());
        }
        out
    }

    /// Parse a payload. Succeeds exactly when the buffer is one whole
    /// payload, and then the buffer is exactly the returned payload's
    /// encoding; every rejection is a protocol error.
    pub fn decode(data: &[u8]) -> (r: Result<Self, Error>)
        ensures
            r matches Err(e) ==> e is Protocol,
            r is Ok <==> Self::spec_decodes(data@),
            r matches Ok(p) ==> p.encodable() && p.spec_encode() == data@,
    {
        let mut rd = ByteReader::new(data);
        let ghost p0 = rd.pos;
        let file_id = read_u128(&mut rd)?;
        let ghost p1 = rd.pos;
        let chunk_index = rd.read_u32()?;
        let ghost p2 = rd.pos;
        let chunk_data = rd.read_bytes()?;
        let ghost p3 = rd.pos;
        let chunk_hash = rd.read_hash32()?;
        let ghost p4 = rd.pos;
        let chunk_signature = rd.read_bytes()?;
        let ghost p5 = rd.pos;
        if !rd.at_end() {
            return Err(Error::Protocol(String::from_str("trailing bytes in payload")));
        }
        let p = FileDataPayload { file_id, chunk_index, data: chunk_data, chunk_hash, chunk_signature };
        proof {
            let d = rd.data@;
            lemma_subrange_concat(d, p0 as int, p1 as int, p2 as int);
            lemma_subrange_concat(d, p0 as int, p2 as int, p3 as int);
            lemma_subrange_concat(d, p0 as int, p3 as int, p4 as int);
            lemma_subrange_concat(d, p0 as int, p4 as int, p5 as int);
            assert(d.subrange(0, d.len() as int) =~= d);
            assert(p.spec_encode() =~= d);
        }
        Ok(p)
    }
}

/// Transfer statistics carried in a file-close payload.
#[derive(Debug, Clone, Copy, PartialEq, Eq, Structural)]
pub struct TransferStatistics {
    /// Total bytes transferred
    pub bytes_transferred: u64,
    /// Transfer duration in milliseconds
    pub duration_ms: u64,
    /// Average throughput in bytes per second
    pub throughput_bps: u64,
    /// Number of chunks
    pub chunks_count: u32,
    /// Number of retries
    pub retries_count: u32,
}

/// The wire encoding of transfer statistics.
pub open spec fn enc_statistics(s: TransferStatistics) -> Seq<u8> {
    u64_be(s.bytes_transferred) + u64_be(s.duration_ms) + u64_be(s.throughput_bps) + u32_be(
        s.chunks_count,
    ) + u32_be(s.retries_count)
}

/// Append the wire encoding of transfer statistics.
fn push_statistics(out: &mut Vec<u8>, s: &TransferStatistics)
    ensures
        final(out)@ == old(out)@ + enc_statistics(*s),
{
    let ghost start = out@;
    crate::protocol::push_u64_be(out, s.bytes_transferred);
    crate::protocol::push_u64_be(out, s.duration_ms);
    crate::protocol::push_u64_be(out, s.throughput_bps);
    crate::protocol::push_u32_be(out, s.chunks_count);
    crate::protocol::push_u32_be(out, s.retries_count);
    proof {
        assert(out@ =~= start + enc_statistics(*s));
    }
}

/// Read transfer statistics; what was consumed is exactly their encoding.
fn read_statistics(rd: &mut ByteReader) -> (r: Result<TransferStatistics, Error>)
    requires
        old(rd).wf(),
    ensures
        final(rd).wf(),
        final(rd).data@ == old(rd).data@,
        r matches Err(e) ==> e is Protocol,
        r is Ok <==> spec_fixed_at(old(rd).data@, old(rd).pos as int, 32) is Some,
        r matches Ok(s) ==> final(rd).pos == old(rd).pos + 32 && enc_statistics(s)
            == old(rd).data@.subrange(old(rd).pos as int, final(rd).pos as int),
{
    let ghost p0 = rd.pos;
    let bytes_transferred = rd.read_u64()?;
    let ghost p1 = rd.pos;
    let duration_ms = rd.read_u64()?;
    let ghost p2 = rd.pos;
    let throughput_bps = rd.read_u64()?;
    let ghost p3 = rd.pos;
    let chunks_count = rd.read_u32()?;
    let ghost p4 = rd.pos;
    let retries_count = rd.read_u32()?;
    let s = TransferStatistics {
        bytes_transferred,
        duration_ms,
        throughput_bps,
        chunks_count,
        retries_count,
    };
    proof {
        let d = rd.data@;
        lemma_subrange_concat(d, p0 as int, p1 as int, p2 as int);
        lemma_subrange_concat(d, p0 as int, p2 as int, p3 as int);
        lemma_subrange_concat(d, p0 as int, p3 as int, p4 as int);
        lemma_subrange_concat(d, p0 as int, p4 as int, rd.pos as int);
        assert(enc_statistics(s) =~= d.subrange(p0 as int, rd.pos as int));
    }
    Ok(s)
}

/// File-close payload: the final hash, a global signature and statistics.
pub struct FileClosePayload {
    /// File transfer identity
    pub file_id: u128,
    /// Final hash of the whole file
    pub final_hash: [u8; 32],
    /// Global signature
    pub global_signature: Vec<u8>,
    /// Transfer statistics
    pub statistics: TransferStatistics,
}

impl FileClosePayload {
    /// Every variable-length field fits its length prefix.
    pub open spec fn encodable(self) -> bool {
        bytes_fit(self.global_signature@)
    }

    /// The wire encoding of this payload.
    pub open spec fn spec_encode(self) -> Seq<u8> {
        u128_be(self.file_id) + self.final_hash@ + enc_bytes(self.global_signature@)
            + enc_statistics(self.statistics)
    }

    /// Whether a buffer is exactly one file-close payload: the fixed
    /// fields, a whole signature string and the statistics block, with
    /// nothing left over.
    pub open spec fn spec_decodes(d: Seq<u8>) -> bool {
        if d.len() < 48 {
            false
        } else {
            match spec_bytes_at(d, 48) {
                None => false,
                Some(a) => a + 32 == d.len(),
            }
        }
    }

    /// Encode the payload.
    pub fn encode(&self) -> (r: Vec<u8>)
        requires
            self.encodable(),
        ensures
            r@ == self.spec_encode(),
    {
        let mut out: Vec<u8> = Vec::new();
        push_u128_be(&mut out, self.file_id);
        push_hash32(&mut out, &self.final_hash);
        push_enc_bytes(&mut out, self.global_signature.as_slice());
        push_statistics(&mut out, &self.statistics);
        proof {
            assert(out@ =~= self.spec_encode());
        }
        out
    }

    /// Parse a payload. Succeeds exactly when the buffer is one whole
    /// payload, and then the buffer is exactly the returned payload's
    /// encoding; every rejection is a protocol error.
    pub fn decode(data: &[u8]) -> (r: Result<Self, Error>)
        ensures
            r matches Err(e) ==> e is Protocol,
            r is Ok <==> Self::spec_decodes(data@),
            r matches Ok(p) ==> p.encodable() && p.spec_encode() == data@,
    {
        let mut rd = ByteReader::new(data);
        let ghost p0 = rd.pos;
        let file_id = read_u128(&mut rd)?;
        let ghost p1 = rd.pos;
        let final_hash = rd.read_hash32()?;
        let ghost p2 = rd.pos;
        let global_signature = rd.read_bytes()?;
        let ghost p3 = rd.pos;
        let statistics = read_statistics(&mut rd)?;
        let ghost p4 = rd.pos;
        if !rd.at_end() {
            return Err(Error::Protocol(String::from_str("trailing bytes in payload")));
        }
        let p = FileClosePayload { file_id, final_hash, global_signature, statistics };
        proof {
            let d = rd.data@;
            lemma_subrange_concat(d, p0 as int, p1 as int, p2 as int);
            lemma_subrange_concat(d, p0 as int, p2 as int, p3 as int);
            lemma_subrange_concat(d, p0 as int, p3 as int, p4 as int);
            assert(d.subrange(0, d.len() as int) =~= d);
            assert(p.spec_encode() =~= d);
        }
        Ok(p)
    }
}

/// Health states a heartbeat can report.
#[derive(Debug, Clone, Copy, PartialEq, Eq, Structural)]
pub enum HealthStatus {
    /// Healthy
    Healthy,
    /// Warning
    Warning,
    /// Critical
    Critical,
    /// Unknown
    Unknown,
}

/// The wire code of a health status.
pub open spec fn health_code(h: HealthStatus) -> u8 {
    match h {
        HealthStatus::Healthy => 0,
        HealthStatus::Warning => 1,
        HealthStatus::Critical => 2,
        HealthStatus::Unknown => 3,
    }
}

/// Heartbeat payload: the session, its health and the sender's clock.
pub struct HeartbeatPayload {
    /// Session identity
    pub session_id: u128,
    /// Health status
    pub health_status: HealthStatus,
    /// Current timestamp
    pub timestamp: u64,
}

impl HeartbeatPayload {
    /// The wire encoding of this payload.
    pub open spec fn spec_encode(self) -> Seq<u8> {
        u128_be(self.session_id) + seq![health_code(self.health_status)] + u64_be(self.timestamp)
    }

    /// Whether a buffer is exactly one heartbeat payload: the fixed fields
    /// with a known health code and nothing left over.
    pub open spec fn spec_decodes(d: Seq<u8>) -> bool {
        d.len() == 25 && d[16] <= 3
    }

    /// Encode the payload.
    pub fn encode(&self) -> (r: Vec<u8>)
        ensures
            r@ == self.spec_encode(),
    {
        let mut out: Vec<u8> = Vec::new();
        push_u128_be(&mut out, self.session_id);
        out.push(
            match self.health_status {
                HealthStatus::Healthy => 0,
                HealthStatus::Warning => 1,
                HealthStatus::Critical => 2,
                HealthStatus::Unknown => 3,
            },
        );
        crate::protocol::push_u64_be(&mut out, self.timestamp);
        proof {
            assert(out@ =~= self.spec_encode());
        }
        out
    }

    /// Parse a payload. Succeeds exactly when the buffer is one whole
    /// payload, and then the buffer is exactly the returned payload's
    /// encoding; every rejection is a protocol error.
    pub fn decode(data: &[u8]) -> (r: Result<Self, Error>)
        ensures
            r matches Err(e) ==> e is Protocol,
            r is Ok <==> Self::spec_decodes(data@),
            r matches Ok(p) ==> p.spec_encode() == data@,
    {
        let mut rd = ByteReader::new(data);
        let ghost p0 = rd.pos;
        let session_id = read_u128(&mut rd)?;
        let ghost p1 = rd.pos;
        let hb = rd.read_u8()?;
        let health_status = match hb {
            0 => HealthStatus::Healthy,
            1 => HealthStatus::Warning,
            2 => HealthStatus::Critical,
            3 => HealthStatus::Unknown,
            _ => {
                return Err(Error::Protocol(String::from_str("unknown health code")));
            },
        };
        let ghost p2 = rd.pos;
        let timestamp = rd.read_u64()?;
        let ghost p3 = rd.pos;
        if !rd.at_end() {
            return Err(Error::Protocol(String::from_str("trailing bytes in payload")));
        }
        let p = HeartbeatPayload { session_id, health_status, timestamp };
        proof {
            let d = rd.data@;
            lemma_subrange_concat(d, p0 as int, p1 as int, p2 as int);
            lemma_subrange_concat(d, p0 as int, p2 as int, p3 as int);
            assert(d.subrange(0, d.len() as int) =~= d);
            assert(p.spec_encode() =~= d);
        }
        Ok(p)
    }
}

/// Kinds of policy rule.
#[derive(Debug, Clone, Copy, PartialEq, Eq, Structural)]
pub enum PolicyRuleType {
    /// Access control
    AccessControl,
    /// Rate limiting
    RateLimit,
    /// File size limit
    FileSizeLimit,
    /// Encryption requirement
    EncryptionRequirement,
    /// Audit requirement
    AuditRequirement,
}

/// The wire code of a policy rule type.
pub open spec fn rule_type_code(t: PolicyRuleType) -> u8 {
    match t {
        PolicyRuleType::AccessControl => 0,
        PolicyRuleType::RateLimit => 1,
        PolicyRuleType::FileSizeLimit => 2,
        PolicyRuleType::EncryptionRequirement => 3,
        PolicyRuleType::AuditRequirement => 4,
    }
}

/// One policy rule: its identity, kind and parameters.
pub struct PolicyRule {
    /// Rule identity
    pub id: String,
    /// Rule kind
    pub rule_type: PolicyRuleType,
    /// Rule parameters; one entry per key
    pub parameters: Vec<(String, String)>,
}

/// The wire encoding of one policy rule.
pub open spec fn enc_rule(r: PolicyRule) -> Seq<u8> {
    enc_string(r.id@) + seq![rule_type_code(r.rule_type)] + u32_be(r.parameters@.len() as u32)
        + enc_pair_items(r.parameters@)
}

/// Whether a rule's variable-length fields fit their length prefixes.
pub open spec fn rule_fits(r: PolicyRule) -> bool {
    string_fits(r.id@) && pairs_fit(r.parameters@)
}

/// The item bytes of a list of rules, in order.
pub open spec fn enc_rule_items(l: Seq<PolicyRule>) -> Seq<u8>
    decreases l.len(),
{
    if l.len() == 0 {
        Seq::empty()
    } else {
        enc_rule_items(l.drop_last()) + enc_rule(l.last())
    }
}

/// Append the wire encoding of one rule.
fn push_rule(out: &mut Vec<u8>, r: &PolicyRule)
    requires
        rule_fits(*r),
    ensures
        final(out)@ == old(out)@ + enc_rule(*r),
{
    let ghost start = out@;
    push_enc_string(out, r.id.as_str());
    out.push(
        match r.rule_type {
            PolicyRuleType::AccessControl => 0,
            PolicyRuleType::RateLimit => 1,
            PolicyRuleType::FileSizeLimit => 2,
            PolicyRuleType::EncryptionRequirement => 3,
            PolicyRuleType::AuditRequirement => 4,
        },
    );
    push_pairs(out, &r.parameters);
    proof {
        assert(out@ =~= start + enc_rule(*r));
    }
}

/// Read one rule; what was consumed is exactly the rule's encoding.
fn read_rule(rd: &mut ByteReader) -> (r: Result<PolicyRule, Error>)
    requires
        old(rd).wf(),
    ensures
        final(rd).wf(),
        final(rd).data@ == old(rd).data@,
        r matches Err(e) ==> e is Protocol,
        r is Ok <==> spec_rule_at(old(rd).data@, old(rd).pos as int) is Some,
        r matches Ok(rule) ==> rule_fits(rule) && final(rd).pos > old(rd).pos && Some(
            final(rd).pos as int,
        ) == spec_rule_at(old(rd).data@, old(rd).pos as int) && enc_rule(rule)
            == old(rd).data@.subrange(old(rd).pos as int, final(rd).pos as int),
{
    let ghost p0 = rd.pos;
    let id = rd.read_string()?;
    let ghost p1 = rd.pos;
    let tb = rd.read_u8()?;
    let rule_type = match tb {
        0 => PolicyRuleType::AccessControl,
        1 => PolicyRuleType::RateLimit,
        2 => PolicyRuleType::FileSizeLimit,
        3 => PolicyRuleType::EncryptionRequirement,
        4 => PolicyRuleType::AuditRequirement,
        _ => {
            return Err(Error::Protocol(String::from_str("unknown rule kind code")));
        },
    };
    let ghost p2 = rd.pos;
    let parameters = read_pairs(rd)?;
    let ghost p3 = rd.pos;
    let rule = PolicyRule { id, rule_type, parameters };
    proof {
        let d = rd.data@;
        lemma_subrange_concat(d, p0 as int, p1 as int, p2 as int);
        lemma_subrange_concat(d, p0 as int, p2 as int, p3 as int);
        assert(enc_rule(rule) =~= d.subrange(p0 as int, rd.pos as int));
    }
    Ok(rule)
}

/// Policy-update payload: a versioned set of rules and when they apply.
pub struct PolicyUpdatePayload {
    /// Policy identity
    pub policy_id: u128,
    /// Policy version
    pub version: u32,
    /// Policy rules
    pub rules: Vec<PolicyRule>,
    /// Effective timestamp
    pub effective_at: u64,
}

impl PolicyUpdatePayload {
    /// Every variable-length field fits its length prefix.
    pub open spec fn encodable(self) -> bool {
        self.rules@.len() <= u32::MAX && forall|i: int|
            0 <= i < self.rules@.len() ==> rule_fits(#[trigger] self.rules@[i])
    }

    /// The wire encoding of this payload.
    pub open spec fn spec_encode(self) -> Seq<u8> {
        u128_be(self.policy_id) + u32_be(self.version) + u32_be(self.rules@.len() as u32)
            + enc_rule_items(self.rules@) + u64_be(self.effective_at)
    }

    /// Whether a buffer is exactly one policy-update payload: the fixed
    /// fields, a whole rule list and the effective time, with nothing left
    /// over.
    pub open spec fn spec_decodes(d: Seq<u8>) -> bool {
        if d.len() < 24 {
            false
        } else {
            match spec_rule_items_at(
                d,
                24,
                be32_val(d[20], d[21], d[22], d[23]) as int,
            ) {
                None => false,
                Some(a) => a + 8 == d.len(),
            }
        }
    }

    /// Encode the payload.
    pub fn encode(&self) -> (r: Vec<u8>)
        requires
            self.encodable(),
        ensures
            r@ == self.spec_encode(),
    {
        let mut out: Vec<u8> = Vec::new();
        push_u128_be(&mut out, self.policy_id);
        crate::protocol::push_u32_be(&mut out, self.version);
        crate::protocol::push_u32_be(&mut out, self.rules.len() as u32);
        let ghost mid = out@;
        let mut i: usize = 0;
        while i < self.rules.len()
            invariant
                i <= self.rules@.len(),
                self.encodable(),
                out@ == mid + enc_rule_items(self.rules@.take(i as int)),
            decreases self.rules@.len() - i,
        {
            push_rule(&mut out, &self.rules[i]);
            i = i + 1;
            proof {
                assert(self.rules@.take(i as int).drop_last() =~= self.rules@.take(i - 1));
                assert(self.rules@.take(i as int).last() == self.rules@[i - 1]);
                assert(out@ =~= mid + enc_rule_items(self.rules@.take(i as int)));
            }
        }
        proof {
            assert(self.rules@.take(self.rules@.len() as int) =~= self.rules@);
        }
        crate::protocol::push_u64_be(&mut out, self.effective_at);
        proof {
            assert(out@ =~= self.spec_encode());
        }
        out
    }

    /// Parse a payload. Succeeds exactly when the buffer is one whole
    /// payload, and then the buffer is exactly the returned payload's
    /// encoding; every rejection is a protocol error.
    pub fn decode(data: &[u8]) -> (r: Result<Self, Error>)
        ensures
            r matches Err(e) ==> e is Protocol,
            r is Ok <==> Self::spec_decodes(data@),
            r matches Ok(p) ==> p.encodable() && p.spec_encode() == data@,
    {
        let mut rd = ByteReader::new(data);
        let ghost p0 = rd.pos;
        let policy_id = read_u128(&mut rd)?;
        let ghost p1 = rd.pos;
        let version = rd.read_u32()?;
        let ghost p2 = rd.pos;
        let count = rd.read_u32()?;
        let ghost p3 = rd.pos;
        proof {
            let d = data@;
            assert(d[20] == u32_be(count)[0]);
            assert(d[21] == u32_be(count)[1]);
            assert(d[22] == u32_be(count)[2]);
            assert(d[23] == u32_be(count)[3]);
            crate::protocol::lemma_u32_be_round_trip(count);
            assert(be32_val(d[20], d[21], d[22], d[23]) == count);
        }
        let mut rules: Vec<PolicyRule> = Vec::new();
        let mut i: u32 = 0;
        while i < count
            invariant
                i <= count,
                rd.wf(),
                rd.data@ == data@,
                p3 == 24,
                p3 <= rd.pos,
                rules@.len() == i,
                be32_val(data@[20], data@[21], data@[22], data@[23]) == count,
                data@.len() >= 24,
                forall|k: int| 0 <= k < rules@.len() ==> rule_fits(#[trigger] rules@[k]),
                enc_rule_items(rules@) == rd.data@.subrange(p3 as int, rd.pos as int),
                spec_rule_items_at(data@, 24, count as int) == spec_rule_items_at(
                    data@,
                    rd.pos as int,
                    (count - i) as int,
                ),
            decreases count - i,
        {
            let ghost q0 = rd.pos;
            let ghost rprev = rules@;
            let rule = match read_rule(&mut rd) {
                Ok(rule) => rule,
                Err(e) => {
                    proof {
                        assert(spec_rule_items_at(data@, q0 as int, (count - i) as int) is None);
                        assert(!Self::spec_decodes(data@));
                    }
                    return Err(e);
                },
            };
            rules.push(rule);
            i = i + 1;
            proof {
                assert(rules@.drop_last() =~= rprev);
                lemma_subrange_concat(rd.data@, p3 as int, q0 as int, rd.pos as int);
                assert(enc_rule_items(rules@) =~= rd.data@.subrange(p3 as int, rd.pos as int));
                assert(spec_rule_items_at(data@, q0 as int, (count - i + 1) as int)
                    == spec_rule_items_at(data@, rd.pos as int, (count - i) as int));
            }
        }
        proof {
            assert(spec_rule_items_at(data@, rd.pos as int, 0) == Some(rd.pos as int));
        }
        let ghost p4 = rd.pos;
        let effective_at = rd.read_u64()?;
        let ghost p5 = rd.pos;
        if !rd.at_end() {
            return Err(Error::Protocol(String::from_str("trailing bytes in payload")));
        }
        let p = PolicyUpdatePayload { policy_id, version, rules, effective_at };
        proof {
            let d = rd.data@;
            assert(p.rules@.len() as u32 == count);
            lemma_subrange_concat(d, p0 as int, p1 as int, p2 as int);
            lemma_subrange_concat(d, p0 as int, p2 as int, p3 as int);
            lemma_subrange_concat(d, p0 as int, p3 as int, p4 as int);
            lemma_subrange_concat(d, p0 as int, p4 as int, p5 as int);
            assert(d.subrange(0, d.len() as int) =~= d);
            assert(p.spec_encode() =~= d);
        }
        Ok(p)
    }
}

/// Emergency-stop payload: the session to stop, a reason and a signature.
pub struct EmergencyStopPayload {
    /// Session identity to stop
    pub session_id: u128,
    /// Reason for the stop
    pub reason: String,
    /// Stop timestamp
    pub timestamp: u64,
    /// Stop signature
    pub signature: Vec<u8>,
}

impl EmergencyStopPayload {
    /// Every variable-length field fits its length prefix.
    pub open spec fn encodable(self) -> bool {
        string_fits(self.reason@) && bytes_fit(self.signature@)
    }

    /// The wire encoding of this payload.
    pub open spec fn spec_encode(self) -> Seq<u8> {
        u128_be(self.session_id) + enc_string(self.reason@) + u64_be(self.timestamp) + enc_bytes(
            self.signature@,
        )
    }

    /// Whether a buffer is exactly one emergency-stop payload: the session
    /// identity, a whole reason string, the timestamp and a whole signature
    /// string, with nothing left over.
    pub open spec fn spec_decodes(d: Seq<u8>) -> bool {
        if d.len() < 16 {
            false
        } else {
            match spec_string_at(d, 16) {
                None => false,
                Some(a) => if a + 8 <= d.len() {
                    match spec_bytes_at(d, a + 8) {
                        None => false,
                        Some(b) => b == d.len(),
                    }
                } else {
                    false
                },
            }
        }
    }

    /// Encode the payload.
    pub fn encode(&self) -> (r: Vec<u8>)
        requires
            self.encodable(),
        ensures
            r@ == self.spec_encode(),
    {
        let mut out: Vec<u8> = Vec::new();
        push_u128_be(&mut out, self.session_id);
        push_enc_string(&mut out, self.reason.as_str());
        crate::protocol::push_u64_be(&mut out, self.timestamp);
        push_enc_bytes(&mut out, self.signature.as_slice());
        proof {
            assert(out@ =~= self.spec_encode());
        }
        out
    }

    /// Parse a payload. Succeeds exactly when the buffer is one whole
    /// payload, and then the buffer is exactly the returned payload's
    /// encoding; every rejection is a protocol error.
    pub fn decode(data: &[u8]) -> (r: Result<Self, Error>)
        ensures
            r matches Err(e) ==> e is Protocol,
            r is Ok <==> Self::spec_decodes(data@),
            r matches Ok(p) ==> p.encodable() && p.spec_encode() == data@,
    {
        let mut rd = ByteReader::new(data);
        let ghost p0 = rd.pos;
        let session_id = read_u128(&mut rd)?;
        let ghost p1 = rd.pos;
        let reason = rd.read_string()?;
        let ghost p2 = rd.pos;
        let timestamp = rd.read_u64()?;
        let ghost p3 = rd.pos;
        let signature = rd.read_bytes()?;
        let ghost p4 = rd.pos;
        if !rd.at_end() {
            return Err(Error::Protocol(String::from_str("trailing bytes in payload")));
        }
        let p = EmergencyStopPayload { session_id, reason, timestamp, signature };
        proof {
            let d = rd.data@;
            lemma_subrange_concat(d, p0 as int, p1 as int, p2 as int);
            lemma_subrange_concat(d, p0 as int, p2 as int, p3 as int);
            lemma_subrange_concat(d, p0 as int, p3 as int, p4 as int);
            assert(d.subrange(0, d.len() as int) =~= d);
            assert(p.spec_encode() =~= d);
        }
        Ok(p)
    }
}

/// A slice of a located segment equals the segment's own slice.
proof fn lemma_subrange_slice(d: Seq<u8>, i: int, total: Seq<u8>, a: int, b: int)
    requires
        0 <= i,
        0 <= a <= b <= total.len(),
        i + total.len() <= d.len(),
        d.subrange(i, i + total.len() as int) == total,
    ensures
        d.subrange(i + a, i + b) == total.subrange(a, b),
{
    assert forall|k: int| 0 <= k < b - a implies d.subrange(i + a, i + b)[k] == total.subrange(
        a,
        b,
    )[k] by {
        assert(d.subrange(i, i + total.len() as int)[a + k] == total[a + k]);
    }
    assert(d.subrange(i + a, i + b) =~= total.subrange(a, b));
}

/// A byte string's encoding, standing at `i` in a buffer, is accepted
/// there and ends where the encoding ends.
proof fn lemma_bytes_at_prefix(d: Seq<u8>, i: int, b: Seq<u8>)
    requires
        0 <= i,
        bytes_fit(b),
        i + 4 + b.len() <= d.len(),
        d.subrange(i, i + 4 + b.len() as int) == enc_bytes(b),
    ensures
        spec_bytes_at(d, i) == Some(i + 4 + b.len() as int),
{
    let e = enc_bytes(b);
    let n = b.len() as u32;
    assert(d[i] == e[0]);
    assert(d[i + 1] == e[1]);
    assert(d[i + 2] == e[2]);
    assert(d[i + 3] == e[3]);
    crate::protocol::lemma_u32_be_round_trip(n);
    assert(be32_val(d[i], d[i + 1], d[i + 2], d[i + 3]) == n);
}

/// A string's encoding, standing at `i` in a buffer, is accepted there and
/// ends where the encoding ends.
proof fn lemma_string_at_prefix(d: Seq<u8>, i: int, s: Seq<char>)
    requires
        0 <= i,
        string_fits(s),
        i + enc_string(s).len() <= d.len(),
        d.subrange(i, i + enc_string(s).len() as int) == enc_string(s),
    ensures
        spec_string_at(d, i) == Some(i + enc_string(s).len() as int),
{
    let eu = vstd::utf8::encode_utf8(s);
    lemma_bytes_at_prefix(d, i, eu);
    let j = i + 4 + eu.len() as int;
    assert(d.subrange(i + 4, j) =~= eu) by {
        assert forall|k: int| 0 <= k < eu.len() implies d.subrange(i + 4, j)[k] == eu[k] by {
            assert(d.subrange(i, j)[4 + k] == enc_string(s)[4 + k]);
        }
    }
    vstd::utf8::encode_utf8_valid_utf8(s);
}

/// A suite's encoding, standing at `i` in a buffer, is accepted there.
proof fn lemma_suite_at_prefix(d: Seq<u8>, i: int, s: crate::crypto::CryptoSuite)
    requires
        0 <= i,
        i + 6 <= d.len(),
        d.subrange(i, i + 6) == enc_suite(s),
    ensures
        spec_suite_at(d, i) == Some(i + 6),
{
    assert(d[i] == enc_suite(s)[0]);
    assert(d[i + 1] == enc_suite(s)[1]);
    assert(d[i + 2] == enc_suite(s)[2]);
    assert(d[i + 3] == enc_suite(s)[3]);
    assert(kem_code(s.kem) <= 3);
    assert(sig_code(s.signature) <= 3);
    assert(aead_code(s.aead) <= 1);
    assert(hash_code(s.hash) <= 1);
}

/// An optional byte string's encoding, standing at `i` in a buffer, is
/// accepted there and ends where the encoding ends.
proof fn lemma_opt_bytes_at_prefix(d: Seq<u8>, i: int, o: Option<Seq<u8>>)
    requires
        0 <= i,
        (o matches Some(b) ==> bytes_fit(b)),
        i + enc_opt_bytes(o).len() <= d.len(),
        d.subrange(i, i + enc_opt_bytes(o).len() as int) == enc_opt_bytes(o),
    ensures
        spec_opt_bytes_at(d, i) == Some(i + enc_opt_bytes(o).len() as int),
{
    let e = enc_opt_bytes(o);
    assert(d[i] == e[0]);
    match o {
        None => {},
        Some(b) => {
            assert(d.subrange(i + 1, i + e.len() as int) =~= enc_bytes(b)) by {
                assert forall|k: int|
                    0 <= k < enc_bytes(b).len() implies d.subrange(i + 1, i + e.len() as int)[k]
                    == enc_bytes(b)[k] by {
                    assert(d.subrange(i, i + e.len() as int)[1 + k] == e[1 + k]);
                }
            }
            lemma_bytes_at_prefix(d, i + 1, b);
        },
    }
}

/// A key-value list's items decompose at the front.
proof fn lemma_pair_items_front(l: Seq<(String, String)>)
    requires
        l.len() > 0,
    ensures
        enc_pair_items(l) == enc_string(l[0].0@) + enc_string(l[0].1@) + enc_pair_items(
            l.drop_first(),
        ),
    decreases l.len(),
{
    if l.len() == 1 {
        assert(l.drop_last() =~= Seq::<(String, String)>::empty());
        assert(l.drop_first() =~= Seq::<(String, String)>::empty());
        assert(enc_pair_items(l) =~= enc_string(l[0].0@) + enc_string(l[0].1@) + enc_pair_items(
            l.drop_first(),
        ));
    } else {
        let m = l.drop_last();
        lemma_pair_items_front(m);
        assert(l.drop_first().drop_last() =~= m.drop_first());
        assert(l.drop_first().last() == l.last());
        assert(enc_pair_items(l.drop_first()) == enc_pair_items(m.drop_first()) + enc_string(
            l.last().0@,
        ) + enc_string(l.last().1@));
        assert(enc_pair_items(l) =~= enc_string(l[0].0@) + enc_string(l[0].1@) + enc_pair_items(
            l.drop_first(),
        ));
    }
}

/// A list of key-value items, standing whole at `i` in a buffer, is
/// accepted pair by pair and ends where the items end.
proof fn lemma_pair_items_at_prefix(d: Seq<u8>, i: int, l: Seq<(String, String)>)
    requires
        0 <= i,
        forall|k: int|
            0 <= k < l.len() ==> string_fits((#[trigger] l[k]).0@) && string_fits(l[k].1@),
        i + enc_pair_items(l).len() <= d.len(),
        d.subrange(i, i + enc_pair_items(l).len() as int) == enc_pair_items(l),
    ensures
        spec_pair_items_at(d, i, l.len() as int) == Some(i + enc_pair_items(l).len() as int),
    decreases l.len(),
{
    if l.len() == 0 {
        assert(enc_pair_items(l) =~= Seq::<u8>::empty());
    } else {
        lemma_pair_items_front(l);
        let e0 = enc_string(l[0].0@);
        let e1 = enc_string(l[0].1@);
        let rest = enc_pair_items(l.drop_first());
        let n0 = e0.len() as int;
        let n1 = e1.len() as int;
        let nr = rest.len() as int;
        let total = e0 + e1 + rest;
        assert(total.subrange(0, n0) =~= e0);
        assert(total.subrange(n0, n0 + n1) =~= e1);
        assert(total.subrange(n0 + n1, n0 + n1 + nr) =~= rest);
        lemma_subrange_slice(d, i, total, 0, n0);
        lemma_subrange_slice(d, i, total, n0, n0 + n1);
        lemma_subrange_slice(d, i, total, n0 + n1, n0 + n1 + nr);
        lemma_string_at_prefix(d, i, l[0].0@);
        lemma_string_at_prefix(d, i + n0, l[0].1@);
        assert forall|k: int|
            0 <= k < l.drop_first().len() implies string_fits(
            (#[trigger] l.drop_first()[k]).0@,
        ) && string_fits(l.drop_first()[k].1@) by {
            assert(l.drop_first()[k] == l[k + 1]);
        }
        lemma_pair_items_at_prefix(d, i + n0 + n1, l.drop_first());
        assert(l.drop_first().len() == l.len() - 1);
    }
}

/// A count-prefixed key-value list, standing whole at `i` in a buffer, is
/// accepted and ends where the list ends.
proof fn lemma_pairs_at_prefix(d: Seq<u8>, i: int, l: Seq<(String, String)>)
    requires
        0 <= i,
        pairs_fit(l),
        i + 4 + enc_pair_items(l).len() <= d.len(),
        d.subrange(i, i + 4 + enc_pair_items(l).len() as int) == u32_be(l.len() as u32)
            + enc_pair_items(l),
    ensures
        spec_pairs_at(d, i) == Some(i + 4 + enc_pair_items(l).len() as int),
{
    let e = u32_be(l.len() as u32) + enc_pair_items(l);
    assert(d[i] == e[0]);
    assert(d[i + 1] == e[1]);
    assert(d[i + 2] == e[2]);
    assert(d[i + 3] == e[3]);
    crate::protocol::lemma_u32_be_round_trip(l.len() as u32);
    assert(be32_val(d[i], d[i + 1], d[i + 2], d[i + 3]) == l.len() as u32);
    assert(d.subrange(i + 4, i + 4 + enc_pair_items(l).len() as int) =~= enc_pair_items(l)) by {
        assert forall|k: int|
            0 <= k < enc_pair_items(l).len() implies d.subrange(
            i + 4,
            i + 4 + enc_pair_items(l).len() as int,
        )[k] == enc_pair_items(l)[k] by {
            assert(d.subrange(i, i + 4 + enc_pair_items(l).len() as int)[4 + k] == e[4 + k]);
        }
    }
    lemma_pair_items_at_prefix(d, i + 4, l);
}

/// A suite list's items decompose at the front.
proof fn lemma_suite_items_front(l: Seq<crate::crypto::CryptoSuite>)
    requires
        l.len() > 0,
    ensures
        enc_suite_items(l) == enc_suite(l[0]) + enc_suite_items(l.drop_first()),
    decreases l.len(),
{
    if l.len() == 1 {
        assert(l.drop_last() =~= Seq::<crate::crypto::CryptoSuite>::empty());
        assert(l.drop_first() =~= Seq::<crate::crypto::CryptoSuite>::empty());
        assert(enc_suite_items(l) =~= enc_suite(l[0]) + enc_suite_items(l.drop_first()));
    } else {
        let m = l.drop_last();
        lemma_suite_items_front(m);
        assert(l.drop_first().drop_last() =~= m.drop_first());
        assert(l.drop_first().last() == l.last());
        assert(enc_suite_items(l.drop_first()) == enc_suite_items(m.drop_first()) + enc_suite(
            l.last(),
        ));
        assert(enc_suite_items(l) =~= enc_suite(l[0]) + enc_suite_items(l.drop_first()));
    }
}

/// A run of suite items, standing whole at `i` in a buffer, is accepted
/// suite by suite and ends where the items end.
proof fn lemma_suite_items_at_prefix(d: Seq<u8>, i: int, l: Seq<crate::crypto::CryptoSuite>)
    requires
        0 <= i,
        i + enc_suite_items(l).len() <= d.len(),
        d.subrange(i, i + enc_suite_items(l).len() as int) == enc_suite_items(l),
    ensures
        spec_suite_items_at(d, i, l.len() as int) == Some(i + enc_suite_items(l).len() as int),
    decreases l.len(),
{
    if l.len() == 0 {
        assert(enc_suite_items(l) =~= Seq::<u8>::empty());
    } else {
        lemma_suite_items_front(l);
        let rest = enc_suite_items(l.drop_first());
        let total = enc_suite(l[0]) + rest;
        assert(total.subrange(0, 6) =~= enc_suite(l[0]));
        assert(total.subrange(6, 6 + rest.len() as int) =~= rest);
        lemma_subrange_slice(d, i, total, 0, 6);
        lemma_subrange_slice(d, i, total, 6, 6 + rest.len() as int);
        lemma_suite_at_prefix(d, i, l[0]);
        lemma_suite_items_at_prefix(d, i + 6, l.drop_first());
        assert(l.drop_first().len() == l.len() - 1);
    }
}

/// A count-prefixed suite list, standing whole at `i` in a buffer, is
/// accepted and ends where the list ends.
proof fn lemma_suites_at_prefix(d: Seq<u8>, i: int, l: Seq<crate::crypto::CryptoSuite>)
    requires
        0 <= i,
        l.len() <= u32::MAX,
        i + 4 + enc_suite_items(l).len() <= d.len(),
        d.subrange(i, i + 4 + enc_suite_items(l).len() as int) == u32_be(l.len() as u32)
            + enc_suite_items(l),
    ensures
        spec_suites_at(d, i) == Some(i + 4 + enc_suite_items(l).len() as int),
{
    let e = u32_be(l.len() as u32) + enc_suite_items(l);
    assert(d[i] == e[0]);
    assert(d[i + 1] == e[1]);
    assert(d[i + 2] == e[2]);
    assert(d[i + 3] == e[3]);
    crate::protocol::lemma_u32_be_round_trip(l.len() as u32);
    assert(d.subrange(i + 4, i + 4 + enc_suite_items(l).len() as int) =~= enc_suite_items(l)) by {
        assert forall|k: int|
            0 <= k < enc_suite_items(l).len() implies d.subrange(
            i + 4,
            i + 4 + enc_suite_items(l).len() as int,
        )[k] == enc_suite_items(l)[k] by {
            assert(d.subrange(i, i + 4 + enc_suite_items(l).len() as int)[4 + k] == e[4 + k]);
        }
    }
    lemma_suite_items_at_prefix(d, i + 4, l);
}

/// A byte-string list's items decompose at the front.
proof fn lemma_bytes_items_front(l: Seq<Seq<u8>>)
    requires
        l.len() > 0,
    ensures
        enc_bytes_items(l) == enc_bytes(l[0]) + enc_bytes_items(l.drop_first()),
    decreases l.len(),
{
    if l.len() == 1 {
        assert(l.drop_last() =~= Seq::<Seq<u8>>::empty());
        assert(l.drop_first() =~= Seq::<Seq<u8>>::empty());
        assert(enc_bytes_items(l) =~= enc_bytes(l[0]) + enc_bytes_items(l.drop_first()));
    } else {
        let m = l.drop_last();
        lemma_bytes_items_front(m);
        assert(l.drop_first().drop_last() =~= m.drop_first());
        assert(l.drop_first().last() == l.last());
        assert(enc_bytes_items(l.drop_first()) == enc_bytes_items(m.drop_first()) + enc_bytes(
            l.last(),
        ));
        assert(enc_bytes_items(l) =~= enc_bytes(l[0]) + enc_bytes_items(l.drop_first()));
    }
}

/// A run of byte-string items, standing whole at `i` in a buffer, is
/// accepted one by one and ends where the items end.
proof fn lemma_bytes_items_at_prefix(d: Seq<u8>, i: int, l: Seq<Seq<u8>>)
    requires
        0 <= i,
        forall|k: int| 0 <= k < l.len() ==> bytes_fit(#[trigger] l[k]),
        i + enc_bytes_items(l).len() <= d.len(),
        d.subrange(i, i + enc_bytes_items(l).len() as int) == enc_bytes_items(l),
    ensures
        spec_bytes_items_at(d, i, l.len() as int) == Some(i + enc_bytes_items(l).len() as int),
    decreases l.len(),
{
    if l.len() == 0 {
        assert(enc_bytes_items(l) =~= Seq::<u8>::empty());
    } else {
        lemma_bytes_items_front(l);
        let e0 = enc_bytes(l[0]);
        let rest = enc_bytes_items(l.drop_first());
        let total = e0 + rest;
        assert(total.subrange(0, e0.len() as int) =~= e0);
        assert(total.subrange(e0.len() as int, total.len() as int) =~= rest);
        lemma_subrange_slice(d, i, total, 0, e0.len() as int);
        lemma_subrange_slice(d, i, total, e0.len() as int, total.len() as int);
        lemma_bytes_at_prefix(d, i, l[0]);
        assert forall|k: int| 0 <= k < l.drop_first().len() implies bytes_fit(
            #[trigger] l.drop_first()[k],
        ) by {
            assert(l.drop_first()[k] == l[k + 1]);
        }
        lemma_bytes_items_at_prefix(d, i + e0.len() as int, l.drop_first());
        assert(l.drop_first().len() == l.len() - 1);
    }
}

/// A count-prefixed byte-string list, standing whole at `i` in a buffer,
/// is accepted and ends where the list ends.
proof fn lemma_bytes_list_at_prefix(d: Seq<u8>, i: int, l: Seq<Seq<u8>>)
    requires
        0 <= i,
        l.len() <= u32::MAX,
        forall|k: int| 0 <= k < l.len() ==> bytes_fit(#[trigger] l[k]),
        i + 4 + enc_bytes_items(l).len() <= d.len(),
        d.subrange(i, i + 4 + enc_bytes_items(l).len() as int) == u32_be(l.len() as u32)
            + enc_bytes_items(l),
    ensures
        spec_bytes_list_at(d, i) == Some(i + 4 + enc_bytes_items(l).len() as int),
{
    let e = u32_be(l.len() as u32) + enc_bytes_items(l);
    assert(d[i] == e[0]);
    assert(d[i + 1] == e[1]);
    assert(d[i + 2] == e[2]);
    assert(d[i + 3] == e[3]);
    crate::protocol::lemma_u32_be_round_trip(l.len() as u32);
    assert(d.subrange(i + 4, i + 4 + enc_bytes_items(l).len() as int) =~= enc_bytes_items(l)) by {
        assert forall|k: int|
            0 <= k < enc_bytes_items(l).len() implies d.subrange(
            i + 4,
            i + 4 + enc_bytes_items(l).len() as int,
        )[k] == enc_bytes_items(l)[k] by {
            assert(d.subrange(i, i + 4 + enc_bytes_items(l).len() as int)[4 + k] == e[4 + k]);
        }
    }
    lemma_bytes_items_at_prefix(d, i + 4, l);
}

/// A rule's encoding, standing at `i` in a buffer, is accepted there and
/// ends where the encoding ends.
proof fn lemma_rule_at_prefix(d: Seq<u8>, i: int, r: PolicyRule)
    requires
        0 <= i,
        rule_fits(r),
        i + enc_rule(r).len() <= d.len(),
        d.subrange(i, i + enc_rule(r).len() as int) == enc_rule(r),
    ensures
        spec_rule_at(d, i) == Some(i + enc_rule(r).len() as int),
{
    let e = enc_rule(r);
    let e0 = enc_string(r.id@);
    let n0 = e0.len() as int;
    assert(e.subrange(0, n0) =~= e0);
    lemma_subrange_slice(d, i, e, 0, n0);
    lemma_string_at_prefix(d, i, r.id@);
    assert(d[i + n0] == e[n0]);
    assert(rule_type_code(r.rule_type) <= 4);
    let pe = u32_be(r.parameters@.len() as u32) + enc_pair_items(r.parameters@);
    assert(e.subrange(n0 + 1, e.len() as int) =~= pe);
    lemma_subrange_slice(d, i, e, n0 + 1, e.len() as int);
    lemma_pairs_at_prefix(d, i + n0 + 1, r.parameters@);
}

/// A rule list's items decompose at the front.
proof fn lemma_rule_items_front(l: Seq<PolicyRule>)
    requires
        l.len() > 0,
    ensures
        enc_rule_items(l) == enc_rule(l[0]) + enc_rule_items(l.drop_first()),
    decreases l.len(),
{
    if l.len() == 1 {
        assert(l.drop_last() =~= Seq::<PolicyRule>::empty());
        assert(l.drop_first() =~= Seq::<PolicyRule>::empty());
        assert(enc_rule_items(l) =~= enc_rule(l[0]) + enc_rule_items(l.drop_first()));
    } else {
        let m = l.drop_last();
        lemma_rule_items_front(m);
        assert(l.drop_first().drop_last() =~= m.drop_first());
        assert(l.drop_first().last() == l.last());
        assert(enc_rule_items(l.drop_first()) == enc_rule_items(m.drop_first()) + enc_rule(
            l.last(),
        ));
        assert(enc_rule_items(l) =~= enc_rule(l[0]) + enc_rule_items(l.drop_first()));
    }
}

/// A run of rule items, standing whole at `i` in a buffer, is accepted rule
/// by rule and ends where the items end.
proof fn lemma_rule_items_at_prefix(d: Seq<u8>, i: int, l: Seq<PolicyRule>)
    requires
        0 <= i,
        forall|k: int| 0 <= k < l.len() ==> rule_fits(#[trigger] l[k]),
        i + enc_rule_items(l).len() <= d.len(),
        d.subrange(i, i + enc_rule_items(l).len() as int) == enc_rule_items(l),
    ensures
        spec_rule_items_at(d, i, l.len() as int) == Some(i + enc_rule_items(l).len() as int),
    decreases l.len(),
{
    if l.len() == 0 {
        assert(enc_rule_items(l) =~= Seq::<u8>::empty());
    } else {
        lemma_rule_items_front(l);
        let e0 = enc_rule(l[0]);
        let rest = enc_rule_items(l.drop_first());
        let total = e0 + rest;
        assert(total.subrange(0, e0.len() as int) =~= e0);
        assert(total.subrange(e0.len() as int, total.len() as int) =~= rest);
        lemma_subrange_slice(d, i, total, 0, e0.len() as int);
        lemma_subrange_slice(d, i, total, e0.len() as int, total.len() as int);
        lemma_rule_at_prefix(d, i, l[0]);
        assert forall|k: int| 0 <= k < l.drop_first().len() implies rule_fits(
            #[trigger] l.drop_first()[k],
        ) by {
            assert(l.drop_first()[k] == l[k + 1]);
        }
        lemma_rule_items_at_prefix(d, i + e0.len() as int, l.drop_first());
        assert(l.drop_first().len() == l.len() - 1);
    }
}

/// Completeness of the handshake parser: the encoding of every encodable
/// handshake payload is accepted whole.
pub proof fn lemma_handshake_encode_decodes(p: HandshakePayload)
    requires
        p.encodable(),
    ensures
        HandshakePayload::spec_decodes(p.spec_encode()),
{
    let d = p.spec_encode();
    let m = p.certificate_chain@.map_values(|v: Vec<u8>| v@);
    let e_suites = u32_be(p.crypto_suites@.len() as u32) + enc_suite_items(p.crypto_suites@);
    let e_opt = enc_opt_bytes(opt_bytes_view(p.hardware_attestation));
    let e_list = u32_be(p.certificate_chain@.len() as u32) + enc_bytes_items(m);
    let total = p.client_random@ + p.server_random@ + e_suites + e_opt + e_list;
    assert(d =~= total);
    let a = 64 + e_suites.len() as int;
    let b = a + e_opt.len() as int;
    let c = b + e_list.len() as int;
    assert(total.subrange(64, a) =~= e_suites);
    assert(total.subrange(a, b) =~= e_opt);
    assert(total.subrange(b, c) =~= e_list);
    lemma_suites_at_prefix(d, 64, p.crypto_suites@);
    assert(opt_bytes_view(p.hardware_attestation) matches Some(v) ==> bytes_fit(v));
    lemma_opt_bytes_at_prefix(d, a, opt_bytes_view(p.hardware_attestation));
    assert forall|k: int| 0 <= k < m.len() implies bytes_fit(#[trigger] m[k]) by {
        assert(m[k] == p.certificate_chain@[k]@);
    }
    lemma_bytes_list_at_prefix(d, b, m);
    assert(c == d.len());
}

/// Completeness of the file-open parser: the encoding of every encodable
/// file-open payload is accepted whole.
pub proof fn lemma_file_open_encode_decodes(p: FileOpenPayload)
    requires
        p.encodable(),
    ensures
        FileOpenPayload::spec_decodes(p.spec_encode()),
{
    let d = p.spec_encode();
    let e0 = enc_string(p.path@);
    let n0 = e0.len() as int;
    let mid = u64_be(p.size) + p.hash@ + u32_be(p.permissions);
    let e_pairs = u32_be(p.metadata@.len() as u32) + enc_pair_items(p.metadata@);
    let total = e0 + mid + e_pairs;
    assert(d =~= total);
    assert(total.subrange(0, n0) =~= e0);
    assert(total.subrange(n0 + 44, n0 + 44 + e_pairs.len() as int) =~= e_pairs);
    lemma_string_at_prefix(d, 0, p.path@);
    lemma_pairs_at_prefix(d, n0 + 44, p.metadata@);
    assert(n0 + 44 + e_pairs.len() as int == d.len());
}

/// Completeness of the file-data parser: the encoding of every encodable
/// file-data payload is accepted whole.
pub proof fn lemma_file_data_encode_decodes(p: FileDataPayload)
    requires
        p.encodable(),
    ensures
        FileDataPayload::spec_decodes(p.spec_encode()),
{
    let d = p.spec_encode();
    let e_data = enc_bytes(p.data@);
    let e_sig = enc_bytes(p.chunk_signature@);
    let total = u128_be(p.file_id) + u32_be(p.chunk_index) + e_data + p.chunk_hash@ + e_sig;
    assert(d =~= total);
    let a = 20 + e_data.len() as int;
    assert(total.subrange(20, a) =~= e_data);
    assert(total.subrange(a + 32, a + 32 + e_sig.len() as int) =~= e_sig);
    lemma_bytes_at_prefix(d, 20, p.data@);
    lemma_bytes_at_prefix(d, a + 32, p.chunk_signature@);
    assert(a + 32 + e_sig.len() as int == d.len());
}

/// Completeness of the file-close parser: the encoding of every encodable
/// file-close payload is accepted whole.
pub proof fn lemma_file_close_encode_decodes(p: FileClosePayload)
    requires
        p.encodable(),
    ensures
        FileClosePayload::spec_decodes(p.spec_encode()),
{
    let d = p.spec_encode();
    let e_sig = enc_bytes(p.global_signature@);
    let total = u128_be(p.file_id) + p.final_hash@ + e_sig + enc_statistics(p.statistics);
    assert(d =~= total);
    let a = 48 + e_sig.len() as int;
    assert(total.subrange(48, a) =~= e_sig);
    lemma_bytes_at_prefix(d, 48, p.global_signature@);
    assert(a + 32 == d.len());
}

/// Completeness of the heartbeat parser: the encoding of every heartbeat
/// payload is accepted whole.
pub proof fn lemma_heartbeat_encode_decodes(p: HeartbeatPayload)
    ensures
        HeartbeatPayload::spec_decodes(p.spec_encode()),
{
    let d = p.spec_encode();
    assert(d.len() == 25);
    assert(d[16] == health_code(p.health_status));
    assert(health_code(p.health_status) <= 3);
}

/// Completeness of the policy-update parser: the encoding of every
/// encodable policy-update payload is accepted whole.
pub proof fn lemma_policy_update_encode_decodes(p: PolicyUpdatePayload)
    requires
        p.encodable(),
    ensures
        PolicyUpdatePayload::spec_decodes(p.spec_encode()),
{
    let d = p.spec_encode();
    let e_rules = enc_rule_items(p.rules@);
    let total = u128_be(p.policy_id) + u32_be(p.version) + u32_be(p.rules@.len() as u32) + e_rules
        + u64_be(p.effective_at);
    assert(d =~= total);
    let n = p.rules@.len() as u32;
    assert(d[20] == u32_be(n)[0]);
    assert(d[21] == u32_be(n)[1]);
    assert(d[22] == u32_be(n)[2]);
    assert(d[23] == u32_be(n)[3]);
    crate::protocol::lemma_u32_be_round_trip(n);
    assert(be32_val(d[20], d[21], d[22], d[23]) == n);
    let a = 24 + e_rules.len() as int;
    assert(total.subrange(24, a) =~= e_rules);
    lemma_rule_items_at_prefix(d, 24, p.rules@);
    assert(a + 8 == d.len());
}

/// Completeness of the emergency-stop parser: the encoding of every
/// encodable emergency-stop payload is accepted whole.
pub proof fn lemma_emergency_stop_encode_decodes(p: EmergencyStopPayload)
    requires
        p.encodable(),
    ensures
        EmergencyStopPayload::spec_decodes(p.spec_encode()),
{
    let d = p.spec_encode();
    let e0 = enc_string(p.reason@);
    let e_sig = enc_bytes(p.signature@);
    let total = u128_be(p.session_id) + e0 + u64_be(p.timestamp) + e_sig;
    assert(d =~= total);
    let a = 16 + e0.len() as int;
    assert(total.subrange(16, a) =~= e0);
    assert(total.subrange(a + 8, a + 8 + e_sig.len() as int) =~= e_sig);
    lemma_string_at_prefix(d, 16, p.reason@);
    lemma_bytes_at_prefix(d, a + 8, p.signature@);
    assert(a + 8 + e_sig.len() as int == d.len());
}

/// The typed payload a message carries.
pub enum MessagePayload {
    /// Handshake payload
    Handshake(HandshakePayload),
    /// File open payload
    FileOpen(FileOpenPayload),
    /// File data payload
    FileData(FileDataPayload),
    /// File close payload
    FileClose(FileClosePayload),
    /// Heartbeat payload
    Heartbeat(HeartbeatPayload),
    /// Policy update payload
    PolicyUpdate(PolicyUpdatePayload),
    /// Emergency stop payload
    EmergencyStop(EmergencyStopPayload),
}

/// The wire encoding of a typed payload.
pub open spec fn spec_encode_payload(p: MessagePayload) -> Seq<u8> {
    match p {
        MessagePayload::Handshake(x) => x.spec_encode(),
        MessagePayload::FileOpen(x) => x.spec_encode(),
        MessagePayload::FileData(x) => x.spec_encode(),
        MessagePayload::FileClose(x) => x.spec_encode(),
        MessagePayload::Heartbeat(x) => x.spec_encode(),
        MessagePayload::PolicyUpdate(x) => x.spec_encode(),
        MessagePayload::EmergencyStop(x) => x.spec_encode(),
    }
}

/// Whether a typed payload's fields fit their length prefixes.
pub open spec fn payload_encodable(p: MessagePayload) -> bool {
    match p {
        MessagePayload::Handshake(x) => x.encodable(),
        MessagePayload::FileOpen(x) => x.encodable(),
        MessagePayload::FileData(x) => x.encodable(),
        MessagePayload::FileClose(x) => x.encodable(),
        MessagePayload::Heartbeat(x) => true,
        MessagePayload::PolicyUpdate(x) => x.encodable(),
        MessagePayload::EmergencyStop(x) => x.encodable(),
    }
}

/// The encoding of an optional payload: nothing encodes to no bytes.
pub open spec fn spec_encode_opt_payload(p: Option<MessagePayload>) -> Seq<u8> {
    match p {
        None => Seq::empty(),
        Some(x) => spec_encode_payload(x),
    }
}

/// Whether a buffer is exactly one whole payload of the given message
/// type.
pub open spec fn spec_payload_decodes(mt: crate::protocol::MessageType, d: Seq<u8>) -> bool {
    match mt {
        crate::protocol::MessageType::Handshake => HandshakePayload::spec_decodes(d),
        crate::protocol::MessageType::FileOpen => FileOpenPayload::spec_decodes(d),
        crate::protocol::MessageType::FileData => FileDataPayload::spec_decodes(d),
        crate::protocol::MessageType::FileClose => FileClosePayload::spec_decodes(d),
        crate::protocol::MessageType::Heartbeat => HeartbeatPayload::spec_decodes(d),
        crate::protocol::MessageType::PolicyUpdate => PolicyUpdatePayload::spec_decodes(d),
        crate::protocol::MessageType::EmergencyStop => EmergencyStopPayload::spec_decodes(d),
    }
}

/// Whether a typed payload belongs to a message type.
pub open spec fn payload_matches_type(
    p: MessagePayload,
    mt: crate::protocol::MessageType,
) -> bool {
    match p {
        MessagePayload::Handshake(_) => mt == crate::protocol::MessageType::Handshake,
        MessagePayload::FileOpen(_) => mt == crate::protocol::MessageType::FileOpen,
        MessagePayload::FileData(_) => mt == crate::protocol::MessageType::FileData,
        MessagePayload::FileClose(_) => mt == crate::protocol::MessageType::FileClose,
        MessagePayload::Heartbeat(_) => mt == crate::protocol::MessageType::Heartbeat,
        MessagePayload::PolicyUpdate(_) => mt == crate::protocol::MessageType::PolicyUpdate,
        MessagePayload::EmergencyStop(_) => mt == crate::protocol::MessageType::EmergencyStop,
    }
}

/// A message: a frame around the encoded bytes, and its typed payload once
/// built or parsed.
pub struct Message {
    /// The wire frame.
    pub frame: crate::protocol::Frame,
    /// The typed payload, when one has been built or parsed.
    pub payload: Option<MessagePayload>,
}

impl Message {
    /// Build a message around a typed payload: the payload is encoded and
    /// wrapped in a fresh frame. Succeeds exactly when the encoding fits a
    /// frame's payload ceiling; too large a payload is a protocol error.
    pub fn new(message_type: crate::protocol::MessageType, payload: Option<MessagePayload>) -> (r:
        Result<Self, Error>)
        requires
            payload matches Some(p) ==> payload_encodable(p),
        ensures
            r is Ok <==> spec_encode_opt_payload(payload).len()
                <= crate::protocol::MAX_FRAME_PAYLOAD,
            r matches Err(e) ==> e is Protocol,
            r matches Ok(m) ==> {
                &&& m.frame.payload@ == spec_encode_opt_payload(payload)
                &&& m.frame.message_type == message_type
                &&& m.frame.version == crate::PROTOCOL_VERSION
                &&& m.frame.length == spec_encode_opt_payload(payload).len()
                &&& m.frame.sequence == 0
                &&& m.payload == payload
            },
    {
        let encoded: Vec<u8> = match &payload {
            None => Vec::new(),
            Some(MessagePayload::Handshake(x)) => x.encode(),
            Some(MessagePayload::FileOpen(x)) => x.encode(),
            Some(MessagePayload::FileData(x)) => x.encode(),
            Some(MessagePayload::FileClose(x)) => x.encode(),
            Some(MessagePayload::Heartbeat(x)) => x.encode(),
            Some(MessagePayload::PolicyUpdate(x)) => x.encode(),
            Some(MessagePayload::EmergencyStop(x)) => x.encode(),
        };
        if encoded.len() > crate::protocol::MAX_FRAME_PAYLOAD as usize {
            return Err(Error::Protocol(String::from_str("payload exceeds frame ceiling")));
        }
        let frame = crate::protocol::Frame::new(message_type, encoded);
        Ok(Message { frame, payload })
    }

    /// Parse the frame's bytes into the typed payload for the frame's
    /// message type. A payload already present is kept; otherwise parsing
    /// succeeds exactly when the frame's bytes are one whole payload of the
    /// frame's type. A parsed payload is of the frame's type, and the
    /// frame's bytes are exactly its encoding; every rejection is a
    /// protocol error and leaves the message unchanged.
    #[verifier::rlimit(80)]
    pub fn parse_payload(&mut self) -> (r: Result<(), Error>)
        ensures
            final(self).frame == old(self).frame,
            r matches Err(e) ==> e is Protocol && *final(self) == *old(self),
            old(self).payload is Some ==> r is Ok && *final(self) == *old(self),
            old(self).payload is None ==> (r is Ok <==> spec_payload_decodes(
                old(self).frame.message_type,
                old(self).frame.payload@,
            )),
            r is Ok && old(self).payload is None ==> (final(self).payload matches Some(p)
                && spec_encode_payload(p) == old(self).frame.payload@ && payload_matches_type(
                p,
                old(self).frame.message_type,
            )),
    {
        if self.payload.is_some() {
            return Ok(());
        }
        let parsed = match self.frame.message_type {
            crate::protocol::MessageType::Handshake => MessagePayload::Handshake(
                HandshakePayload::decode(self.frame.payload.as_slice())?,
            ),
            crate::protocol::MessageType::FileOpen => MessagePayload::FileOpen(
                FileOpenPayload::decode(self.frame.payload.as_slice())?,
            ),
            crate::protocol::MessageType::FileData => MessagePayload::FileData(
                FileDataPayload::decode(self.frame.payload.as_slice())?,
            ),
            crate::protocol::MessageType::FileClose => MessagePayload::FileClose(
                FileClosePayload::decode(self.frame.payload.as_slice())?,
            ),
            crate::protocol::MessageType::Heartbeat => MessagePayload::Heartbeat(
                HeartbeatPayload::decode(self.frame.payload.as_slice())?,
            ),
            crate::protocol::MessageType::PolicyUpdate => MessagePayload::PolicyUpdate(
                PolicyUpdatePayload::decode(self.frame.payload.as_slice())?,
            ),
            crate::protocol::MessageType::EmergencyStop => MessagePayload::EmergencyStop(
                EmergencyStopPayload::decode(self.frame.payload.as_slice())?,
            ),
        };
        self.payload = Some(parsed);
        Ok(())
    }
}

} // verus!
