use vstd::prelude::*;
use vstd::utf8::*;
use crate::chunk_type::{ChunkType, is_type_code};
use crate::text::utf8_to_string;

verus! {

/// The CRC-32/ISO-HDLC checksum of a byte string.
pub uninterp spec fn crc32_iso_hdlc(bytes: Seq<u8>) -> u32;

/// Relies on crc's `Crc::<u32>::checksum` under the `CRC_32_ISO_HDLC`
/// parameters: the checksum is a function of the bytes alone.
#[verifier::external_body]
fn crc32_checksum(bytes: &[u8]) -> (r: u32)
    ensures
        r == crc32_iso_hdlc(bytes@),
{
    crc::Crc::<u32>::new(&crc::CRC_32_ISO_HDLC).checksum(bytes)
}

/// The four bytes of `n`, most significant first.
pub open spec fn be_bytes(n: u32) -> Seq<u8> {
    seq![
        (n / 0x1000000) as u8,
        (n / 0x10000 % 0x100) as u8,
        (n / 0x100 % 0x100) as u8,
        (n % 0x100) as u8,
    ]
}

/// The number that the first four bytes of `s` spell, most significant first.
pub open spec fn be_value(s: Seq<u8>) -> int {
    s[0] * 0x1000000 + s[1] * 0x10000 + s[2] * 0x100 + s[3]
}

/// Four bytes read as a number and written back are the same four bytes, and
/// a number written and read back is the same number.
pub proof fn lemma_be_round_trip(s: Seq<u8>, n: u32)
    requires
        s.len() == 4,
    ensures
        0 <= be_value(s) <= u32::MAX,
        be_bytes(be_value(s) as u32) == s,
        be_value(be_bytes(n)) == n,
{
    let (b0, b1, b2, b3) = (s[0], s[1], s[2], s[3]);
    assert(0 <= b0 * 0x1000000 + b1 * 0x10000 + b2 * 0x100 + b3 <= 0xffff_ffff) by (bit_vector);
    let v: u32 = (b0 * 0x1000000 + b1 * 0x10000 + b2 * 0x100 + b3) as u32;
    assert(v == b0 * 0x1000000 + b1 * 0x10000 + b2 * 0x100 + b3);
    assert(v / 0x1000000 == b0 && v / 0x10000 % 0x100 == b1 && v / 0x100 % 0x100 == b2
        && v % 0x100 == b3) by (bit_vector)
        requires
            v == b0 * 0x1000000 + b1 * 0x10000 + b2 * 0x100 + b3,
    ;
    assert(be_bytes(be_value(s) as u32) =~= s);
    assert(n / 0x1000000 * 0x1000000 + n / 0x10000 % 0x100 * 0x10000 + n / 0x100 % 0x100 * 0x100
        + n % 0x100 == n) by (bit_vector);
}

/// Appends the four bytes of `n`, most significant first.
fn write_be_u32(out: &mut Vec<u8>, n: u32)
    ensures
        final(out)@ == old(out)@ + be_bytes(n),
{
    out.push((n / 0x1000000) as u8);
    out.push((n / 0x10000 % 0x100) as u8);
    out.push((n / 0x100 % 0x100) as u8);
    out.push((n % 0x100) as u8);
    assert(final(out)@ =~= old(out)@ + be_bytes(n));
}

/// Reads four bytes at `at` as a number, most significant first.
pub(crate) fn read_be_u32(b: &[u8], at: usize) -> (r: u32)
    requires
        at + 4 <= b@.len(),
    ensures
        r == be_value(b@.subrange(at as int, at + 4)),
{
    (b[at] as u32) * 0x1000000 + (b[at + 1] as u32) * 0x10000 + (b[at + 2] as u32) * 0x100
        + b[at + 3] as u32
}

/// Appends every byte of `src`.
pub(crate) fn push_all(out: &mut Vec<u8>, src: &[u8])
    ensures
        final(out)@ == old(out)@ + src@,
{
    let ghost start = out@;
    let mut i: usize = 0;
    while i < src.len()
        invariant
            0 <= i <= src@.len(),
            out@ == start + src@.subrange(0, i as int),
        decreases src@.len() - i,
    {
        out.push(src[i]);
        i = i + 1;
        assert(out@ =~= start + src@.subrange(0, i as int));
    }
    assert(src@.subrange(0, src@.len() as int) =~= src@);
}

/// Why a byte stream was refused.
#[derive(Debug, Clone, Copy, PartialEq, Eq, Structural)]
pub enum ParseError {
    /// The stream does not start with the container signature.
    BadSignature,
    /// The bytes end before a record does.
    Truncated,
    /// A record's declared length disagrees with its size.
    LengthMismatch,
    /// A record's type bytes are not four ASCII letters.
    InvalidType,
    /// A record's stored checksum disagrees with the one computed.
    ChecksumMismatch,
}

/// Why a payload could not be read as text.
#[derive(Debug, Clone, Copy, PartialEq, Eq, Structural)]
pub enum DecodeError {
    /// The payload is not valid UTF-8.
    NotUtf8Text,
}

/// The checksum of a record: over its type bytes followed by its payload.
pub open spec fn chunk_crc(ty: Seq<u8>, data: Seq<u8>) -> u32 {
    crc32_iso_hdlc(ty + data)
}

/// The serialized record: length, type, payload, checksum.
#[verifier::opaque]
pub open spec fn chunk_bytes(ty: Seq<u8>, data: Seq<u8>) -> Seq<u8> {
    be_bytes(data.len() as u32) + ty + data + be_bytes(chunk_crc(ty, data))
}

#[verifier::opaque]
/// What parsing `s` as exactly one record gives: its type and payload, or the
/// first check that fails, in the order length, size, type, checksum.
pub open spec fn parse_chunk_spec(s: Seq<u8>) -> Result<(Seq<u8>, Seq<u8>), ParseError> {
    if s.len() < 12 {
        Err(ParseError::Truncated)
    } else if be_value(s.subrange(0, 4)) != s.len() - 12 {
        Err(ParseError::LengthMismatch)
    } else if !is_type_code(s.subrange(4, 8)) {
        Err(ParseError::InvalidType)
    } else if chunk_crc(s.subrange(4, 8), s.subrange(8, s.len() - 4)) != be_value(
        s.subrange(s.len() - 4, s.len() as int),
    ) {
        Err(ParseError::ChecksumMismatch)
    } else {
        Ok((s.subrange(4, 8), s.subrange(8, s.len() - 4)))
    }
}

/// A record that parses is the serialization of what it parses to.
pub proof fn lemma_chunk_round_trip(s: Seq<u8>)
    requires
        parse_chunk_spec(s) is Ok,
    ensures
        chunk_bytes((parse_chunk_spec(s)->Ok_0).0, (parse_chunk_spec(s)->Ok_0).1) == s,
        (parse_chunk_spec(s)->Ok_0).1.len() <= u32::MAX,
{
    reveal(parse_chunk_spec);
    reveal(chunk_bytes);
    let n = s.len() as int;
    let ty = s.subrange(4, 8);
    let data = s.subrange(8, n - 4);
    lemma_be_round_trip(s.subrange(0, 4), 0);
    lemma_be_round_trip(s.subrange(n - 4, n), 0);
    assert(data.len() as u32 == be_value(s.subrange(0, 4)) as u32);
    assert(chunk_crc(ty, data) == be_value(s.subrange(n - 4, n)) as u32);
    assert(chunk_bytes(ty, data) =~= s);
}

/// `s` with bit `k` of byte `i` inverted.
pub open spec fn flip_bit(s: Seq<u8>, i: int, k: u8) -> Seq<u8> {
    s.update(i, s[i] ^ (1u8 << k))
}

proof fn lemma_flip_changes(s: Seq<u8>, i: int, k: u8)
    requires
        0 <= i < s.len(),
        k < 8,
    ensures
        flip_bit(s, i, k).len() == s.len(),
        flip_bit(s, i, k)[i] != s[i],
        forall|j: int| 0 <= j < s.len() && j != i ==> #[trigger] flip_bit(s, i, k)[j] == s[j],
{
    let x = s[i];
    assert(x ^ (1u8 << k) != x) by (bit_vector)
        requires
            k < 8,
    ;
}

/// Two four-byte strings that spell the same number are equal.
proof fn lemma_be_value_injective(a: Seq<u8>, b: Seq<u8>)
    requires
        a.len() == 4,
        b.len() == 4,
        be_value(a) == be_value(b),
    ensures
        a == b,
{
    lemma_be_round_trip(a, 0);
    lemma_be_round_trip(b, 0);
}

/// Inverting one bit of a well-formed record's declared length makes parsing
/// fail on the length check.
pub proof fn lemma_length_flip_detected(s: Seq<u8>, i: int, k: u8)
    requires
        parse_chunk_spec(s) is Ok,
        0 <= i < 4,
        k < 8,
    ensures
        parse_chunk_spec(flip_bit(s, i, k)) == Err::<(Seq<u8>, Seq<u8>), ParseError>(
            ParseError::LengthMismatch,
        ),
{
    reveal(parse_chunk_spec);
    let t = flip_bit(s, i, k);
    lemma_flip_changes(s, i, k);
    if be_value(t.subrange(0, 4)) == be_value(s.subrange(0, 4)) {
        lemma_be_value_injective(t.subrange(0, 4), s.subrange(0, 4));
        assert(t.subrange(0, 4)[i] == s.subrange(0, 4)[i]);
    }
}

/// Inverting one bit of a well-formed record's stored checksum makes parsing
/// fail on the checksum check.
pub proof fn lemma_checksum_flip_detected(s: Seq<u8>, i: int, k: u8)
    requires
        parse_chunk_spec(s) is Ok,
        s.len() - 4 <= i < s.len(),
        k < 8,
    ensures
        parse_chunk_spec(flip_bit(s, i, k)) == Err::<(Seq<u8>, Seq<u8>), ParseError>(
            ParseError::ChecksumMismatch,
        ),
{
    reveal(parse_chunk_spec);
    let t = flip_bit(s, i, k);
    let n = s.len() as int;
    lemma_flip_changes(s, i, k);
    assert(t.subrange(0, 4) =~= s.subrange(0, 4));
    assert(t.subrange(4, 8) =~= s.subrange(4, 8));
    assert(t.subrange(8, n - 4) =~= s.subrange(8, n - 4));
    if be_value(t.subrange(n - 4, n)) == be_value(s.subrange(n - 4, n)) {
        lemma_be_value_injective(t.subrange(n - 4, n), s.subrange(n - 4, n));
        assert(t.subrange(n - 4, n)[i - (n - 4)] == s.subrange(n - 4, n)[i - (n - 4)]);
    }
}

/// Inverting one bit of a well-formed record's type or payload makes parsing
/// fail on the type or checksum check, unless the checksum of the altered type
/// and payload equals the unaltered one.
pub proof fn lemma_body_flip_detected(s: Seq<u8>, i: int, k: u8)
    requires
        parse_chunk_spec(s) is Ok,
        4 <= i < s.len() - 4,
        k < 8,
    ensures
        ({
            let t = flip_bit(s, i, k);
            let n = s.len() as int;
            match parse_chunk_spec(t) {
                Ok(_) => chunk_crc(t.subrange(4, 8), t.subrange(8, n - 4)) == chunk_crc(
                    s.subrange(4, 8),
                    s.subrange(8, n - 4),
                ),
                Err(e) => e == ParseError::InvalidType || e == ParseError::ChecksumMismatch,
            }
        }),
{
    reveal(parse_chunk_spec);
    let t = flip_bit(s, i, k);
    let n = s.len() as int;
    lemma_flip_changes(s, i, k);
    assert(t.subrange(0, 4) =~= s.subrange(0, 4));
    assert(t.subrange(n - 4, n) =~= s.subrange(n - 4, n));
}

/// One record: a type code and its payload. Length and checksum are derived.
pub struct Chunk {
    pub chunk_type: ChunkType,
    pub chunk_data: Vec<u8>,
}

impl Chunk {
    /// The record's type bytes.
    pub open spec fn ty(&self) -> Seq<u8> {
        self.chunk_type@
    }

    /// The record's payload.
    pub open spec fn payload(&self) -> Seq<u8> {
        self.chunk_data@
    }

    /// A record of the given type and payload.
    pub fn new(chunk_type: ChunkType, chunk_data: Vec<u8>) -> (r: Chunk)
        ensures
            r.ty() == chunk_type@,
            r.payload() == chunk_data@,
    {
        Chunk { chunk_type, chunk_data }
    }

    /// The payload's length in bytes.
    pub fn length(&self) -> (r: u32)
        requires
            self.payload().len() <= u32::MAX,
        ensures
            r == self.payload().len(),
    {
        self.chunk_data.len() as u32
    }

    /// The record's type code.
    pub fn chunk_type(&self) -> (r: &ChunkType)
        ensures
            r@ == self.ty(),
    {
        &self.chunk_type
    }

    /// The record's payload.
    pub fn data(&self) -> (r: &[u8])
        ensures
            r@ == self.payload(),
    {
        self.chunk_data.as_slice()
    }

    /// The checksum over the type bytes followed by the payload.
    pub fn crc(&self) -> (r: u32)
        ensures
            r == chunk_crc(self.ty(), self.payload()),
    {
        let ty = self.chunk_type.bytes();
        let mut body: Vec<u8> = Vec::new();
        push_all(&mut body, &ty);
        push_all(&mut body, self.chunk_data.as_slice());
        crc32_checksum(body.as_slice())
    }

    /// The payload read as UTF-8 text.
    pub fn data_as_string(&self) -> (r: Result<String, DecodeError>)
        ensures
            r.is_ok() <==> valid_utf8(self.payload()),
            r matches Ok(s) ==> s@ == decode_utf8(self.payload()),
    {
        match utf8_to_string(self.chunk_data.clone()) {
            Some(s) => Ok(s),
            None => Err(DecodeError::NotUtf8Text),
        }
    }

    /// The serialized record: length, type, payload and checksum, in that order.
    pub fn as_bytes(&self) -> (r: Vec<u8>)
        requires
            self.payload().len() <= u32::MAX,
        ensures
            r@ == chunk_bytes(self.ty(), self.payload()),
    {
        proof {
            reveal(chunk_bytes);
        }
        let ty = self.chunk_type.bytes();
        let mut out: Vec<u8> = Vec::new();
        write_be_u32(&mut out, self.length());
        push_all(&mut out, &ty);
        push_all(&mut out, self.chunk_data.as_slice());
        write_be_u32(&mut out, self.crc());
        out
    }

    /// Parses exactly one serialized record.
    pub fn try_from(bytes: &[u8]) -> (r: Result<Chunk, ParseError>)
        ensures
            r.is_ok() <==> parse_chunk_spec(bytes@).is_ok(),
            r matches Ok(c) ==> parse_chunk_spec(bytes@) == Ok::<(Seq<u8>, Seq<u8>), ParseError>(
                (c.ty(), c.payload()),
            ),
            r matches Err(e) ==> parse_chunk_spec(bytes@) == Err::<(Seq<u8>, Seq<u8>), ParseError>(
                e,
            ),
    {
        proof {
            reveal(parse_chunk_spec);
        }
        let n = bytes.len();
        if n < 12 {
            return Err(ParseError::Truncated);
        }
        let declared = read_be_u32(bytes, 0);
        if declared as usize != n - 12 {
            return Err(ParseError::LengthMismatch);
        }
        let ty: [u8; 4] = [bytes[4], bytes[5], bytes[6], bytes[7]];
        assert(ty@ =~= bytes@.subrange(4, 8));
        let chunk_type = match ChunkType::from_bytes(ty) {
            Ok(ct) => ct,
            Err(_) => return Err(ParseError::InvalidType),
        };
        let mut chunk_data: Vec<u8> = Vec::new();
        push_all(&mut chunk_data, &bytes[8..n - 4]);
        let stored = read_be_u32(bytes, n - 4);
        let chunk = Chunk { chunk_type, chunk_data };
        if chunk.crc() != stored {
            Err(ParseError::ChecksumMismatch)
        } else {
            Ok(chunk)
        }
    }
}

} // verus!
