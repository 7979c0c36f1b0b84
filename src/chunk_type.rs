use vstd::prelude::*;
use vstd::utf8::*;
use vstd::string::StringSliceAdditionalSpecFns;
use crate::text::utf8_to_string;
use std::convert::TryFrom;
use std::str::FromStr;

verus! {

/// True for an ASCII letter, `A`-`Z` or `a`-`z`.
pub open spec fn is_alpha(b: u8) -> bool {
    (0x41 <= b <= 0x5a) || (0x61 <= b <= 0x7a)
}

/// True for an ASCII capital letter.
pub open spec fn is_upper(b: u8) -> bool {
    0x41 <= b <= 0x5a
}

/// True for an ASCII small letter.
pub open spec fn is_lower(b: u8) -> bool {
    0x61 <= b <= 0x7a
}

/// Bit 5 (0x20) of the byte is clear.
pub open spec fn bit5_clear(b: u8) -> bool {
    b & 0x20 == 0
}

/// Exactly four bytes, each an ASCII letter.
pub open spec fn is_type_code(s: Seq<u8>) -> bool {
    &&& s.len() == 4
    &&& forall|i: int| 0 <= i < 4 ==> #[trigger] is_alpha(s[i])
}

/// A type code is valid when it is made of letters and its third byte has
/// bit 5 clear (the reserved bit).
pub open spec fn is_valid_code(s: Seq<u8>) -> bool {
    is_type_code(s) && bit5_clear(s[2])
}

/// The textual form of a code: each byte read as the character it encodes.
pub open spec fn code_text(s: Seq<u8>) -> Seq<char> {
    Seq::new(s.len(), |i: int| s[i] as char)
}

/// Why a type code could not be built.
#[derive(Debug, Clone, Copy, PartialEq, Eq, Structural)]
pub enum ChunkTypeError {
    /// A byte is not an ASCII letter.
    NonAlphabeticByte,
    /// The text is not exactly four bytes long.
    WrongLength,
}

/// The outcome of building a type code from `s`, as a model.
pub open spec fn code_result(s: Seq<u8>) -> Result<Seq<u8>, ChunkTypeError> {
    if is_type_code(s) {
        Ok(s)
    } else {
        Err(ChunkTypeError::NonAlphabeticByte)
    }
}

/// The outcome of building a type code from the text whose UTF-8 bytes are
/// `s`, as a model.
pub open spec fn text_code_result(s: Seq<u8>) -> Result<Seq<u8>, ChunkTypeError> {
    if s.len() != 4 {
        Err(ChunkTypeError::WrongLength)
    } else {
        code_result(s)
    }
}

/// A code of letters is plain ASCII: its UTF-8 form is its own bytes, so
/// decoding those bytes gives back its textual form.
pub proof fn lemma_code_text_utf8(s: Seq<u8>)
    requires
        is_type_code(s),
    ensures
        encode_utf8(code_text(s)) == s,
        valid_utf8(s),
        decode_utf8(s) == code_text(s),
{
    let t = code_text(s);
    assert forall|i: int| 0 <= i < t.len() implies '\0' <= #[trigger] t[i] <= '\u{7f}' by {
        assert(is_alpha(s[i]));
    }
    assert(is_ascii_chars(t));
    is_ascii_chars_encode_utf8(t);
    assert(encode_utf8(t) =~= s);
    encode_utf8_valid_utf8(t);
    encode_utf8_decode_utf8(t);
}

/// For a code of letters, validity follows the case of the third byte alone:
/// a capital there makes it valid and a small letter invalid, whatever the
/// case of the other three.
pub proof fn lemma_validity_follows_third_byte(s: Seq<u8>)
    requires
        is_type_code(s),
    ensures
        is_upper(s[2]) ==> is_valid_code(s),
        is_lower(s[2]) ==> !is_valid_code(s),
{
    let b = s[2];
    assert(0x41 <= b <= 0x5a ==> b & 0x20 == 0) by (bit_vector);
    assert(0x61 <= b <= 0x7a ==> b & 0x20 != 0) by (bit_vector);
}

/// A four-letter chunk type code.
#[derive(Debug, PartialEq, Eq)]
pub struct ChunkType {
    bytes: [u8; 4],
}

impl View for ChunkType {
    type V = Seq<u8>;

    closed spec fn view(&self) -> Seq<u8> {
        self.bytes@
    }
}

fn is_ascii_letter(b: u8) -> (r: bool)
    ensures
        r == is_alpha(b),
{
    (0x41 <= b && b <= 0x5a) || (0x61 <= b && b <= 0x7a)
}

impl ChunkType {
    #[verifier::type_invariant]
    spec fn inv(self) -> bool {
        is_type_code(self.bytes@)
    }

    /// Builds a type code from four bytes; fails unless all are ASCII letters.
    pub fn from_bytes(bytes: [u8; 4]) -> (r: Result<ChunkType, ChunkTypeError>)
        ensures
            r.is_ok() <==> is_type_code(bytes@),
            r matches Ok(ct) ==> ct@ == bytes@,
            r matches Err(e) ==> e == ChunkTypeError::NonAlphabeticByte,
    {
        let mut i: usize = 0;
        while i < 4
            invariant
                0 <= i <= 4,
                forall|j: int| 0 <= j < i ==> is_alpha(#[trigger] bytes@[j]),
            decreases 4 - i,
        {
            if !is_ascii_letter(bytes[i]) {
                return Err(ChunkTypeError::NonAlphabeticByte);
            }
            i = i + 1;
        }
        Ok(ChunkType { bytes })
    }

    /// Builds a type code from text; fails with `WrongLength` unless the text
    /// is four bytes long, then as `from_bytes` does.
    pub fn from_text(s: &str) -> (r: Result<ChunkType, ChunkTypeError>)
        ensures
            r.is_ok() <==> text_code_result(s.spec_bytes()).is_ok(),
            r matches Ok(ct) ==> text_code_result(s.spec_bytes()) == Ok::<Seq<u8>, ChunkTypeError>(ct@)
                && code_text(ct@) == s@,
            r matches Err(e) ==> text_code_result(s.spec_bytes()) == Err::<Seq<u8>, ChunkTypeError>(e),
    {
        let b = s.as_bytes();
        if b.len() != 4 {
            return Err(ChunkTypeError::WrongLength);
        }
        let arr: [u8; 4] = [b[0], b[1], b[2], b[3]];
        assert(arr@ =~= s.spec_bytes());
        let r = ChunkType::from_bytes(arr);
        proof {
            if is_type_code(arr@) {
                lemma_code_text_utf8(arr@);
                encode_utf8_decode_utf8(s@);
            }
        }
        r
    }

    /// The textual form of the code: its four letters.
    pub fn to_string(&self) -> (r: String)
        ensures
            r@ == code_text(self@),
    {
        proof {
            use_type_invariant(self);
            lemma_code_text_utf8(self.bytes@);
        }
        let mut v: Vec<u8> = Vec::new();
        let mut i: usize = 0;
        while i < 4
            invariant
                0 <= i <= 4,
                v@ == self.bytes@.subrange(0, i as int),
            decreases 4 - i,
        {
            v.push(self.bytes[i]);
            i = i + 1;
            assert(v@ =~= self.bytes@.subrange(0, i as int));
        }
        assert(v@ =~= self.bytes@);
        match utf8_to_string(v) {
            Some(s) => s,
            None => String::new(),
        }
    }

    /// Whether `code` is the textual form of this type code.
    pub fn matches_text(&self, code: &str) -> (r: bool)
        ensures
            r == (code@ == code_text(self@)),
    {
        proof {
            use_type_invariant(self);
            lemma_code_text_utf8(self.bytes@);
            encode_utf8_decode_utf8(code@);
        }
        let b = code.as_bytes();
        if b.len() != 4 {
            return false;
        }
        assert(code@ == code_text(self@) ==> b@ == self.bytes@);
        let mut i: usize = 0;
        while i < 4
            invariant
                0 <= i <= 4,
                b@.len() == 4,
                b@ == code.spec_bytes(),
                code@ == code_text(self@) ==> b@ == self.bytes@,
                b@ == self.bytes@ ==> code@ == code_text(self@),
                forall|j: int| 0 <= j < i ==> b@[j] == #[trigger] self.bytes@[j],
            decreases 4 - i,
        {
            if b[i] != self.bytes[i] {
                return false;
            }
            i = i + 1;
        }
        assert(b@ =~= self.bytes@);
        true
    }

    /// The four bytes of the code.
    pub fn bytes(&self) -> (r: [u8; 4])
        ensures
            r@ == self@,
            is_type_code(r@),
    {
        proof {
            use_type_invariant(self);
        }
        self.bytes
    }

    /// The code is made of letters (always so) and its reserved bit is clear.
    pub fn is_valid(&self) -> (r: bool)
        ensures
            r == is_valid_code(self@),
    {
        proof {
            use_type_invariant(self);
        }
        let mut i: usize = 0;
        while i < 4
            invariant
                0 <= i <= 4,
                forall|j: int| 0 <= j < i ==> is_alpha(#[trigger] self.bytes@[j]),
            decreases 4 - i,
        {
            if !is_ascii_letter(self.bytes[i]) {
                return false;
            }
            i = i + 1;
        }
        self.bytes[2] & 0x20 == 0
    }

    /// Bit 5 of the first byte is clear.
    pub fn is_critical(&self) -> (r: bool)
        ensures
            r == bit5_clear(self@[0]),
    {
        self.bytes[0] & 0x20 == 0
    }

    /// Bit 5 of the second byte is clear.
    pub fn is_public(&self) -> (r: bool)
        ensures
            r == bit5_clear(self@[1]),
    {
        self.bytes[1] & 0x20 == 0
    }

    /// Bit 5 of the third byte is clear.
    pub fn is_reserved_bit_valid(&self) -> (r: bool)
        ensures
            r == bit5_clear(self@[2]),
    {
        self.bytes[2] & 0x20 == 0
    }

    /// Bit 5 of the fourth byte is set.
    pub fn is_safe_to_copy(&self) -> (r: bool)
        ensures
            r == !bit5_clear(self@[3]),
    {
        self.bytes[3] & 0x20 != 0
    }
}

impl TryFrom<[u8; 4]> for ChunkType {
    type Error = ChunkTypeError;

    fn try_from(bytes: [u8; 4]) -> Result<ChunkType, ChunkTypeError> {
        match ChunkType::from_bytes(bytes) {
            Ok(_) => Ok(ChunkType { bytes }),
            Err(e) => Err(e),
        }
    }
}

impl vstd::std_specs::convert::TryFromSpecImpl<[u8; 4]> for ChunkType {
    open spec fn obeys_try_from_spec() -> bool {
        true
    }

    closed spec fn try_from_spec(bytes: [u8; 4]) -> Result<ChunkType, ChunkTypeError> {
        if is_type_code(bytes@) {
            Ok(ChunkType { bytes })
        } else {
            Err(ChunkTypeError::NonAlphabeticByte)
        }
    }
}

impl FromStr for ChunkType {
    type Err = ChunkTypeError;

    fn from_str(s: &str) -> Result<ChunkType, ChunkTypeError> {
        ChunkType::from_text(s)
    }
}

} // verus!
