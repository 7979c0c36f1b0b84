use vstd::prelude::*;
use vstd::utf8::*;
use vstd::string::StringSliceAdditionalSpecFns;
use crate::chunk::Chunk;
use crate::chunk_type::{ChunkType, text_code_result};
use crate::png::{Png, Record, parse_png_spec, png_bytes, is_first_match, no_match};

verus! {

/// Why a command could not be carried out.
#[derive(Debug, Clone, Copy, PartialEq, Eq, Structural)]
pub enum CommandError {
    /// The command line is malformed.
    SyntaxError,
    /// A file could not be read or written.
    FileError,
    /// The file is not a valid container.
    PngFormatError,
    /// The requested type code is malformed.
    ChunkTypeError,
    /// No record of the requested type is present.
    ChunkNotFoundError,
    /// Anything else: a payload that is not text, or one too long to store.
    OtherError,
}

/// What encoding a message of bytes `msg` under the type text with bytes
/// `code` into the container bytes `file` gives: the new container's bytes.
pub open spec fn encode_spec(file: Seq<u8>, code: Seq<u8>, msg: Seq<u8>) -> Result<
    Seq<u8>,
    CommandError,
> {
    match parse_png_spec(file) {
        Err(_) => Err(CommandError::PngFormatError),
        Ok(m) => match text_code_result(code) {
            Err(_) => Err(CommandError::ChunkTypeError),
            Ok(ty) => if msg.len() > u32::MAX {
                Err(CommandError::OtherError)
            } else {
                Ok(png_bytes(m.push((ty, msg))))
            },
        },
    }
}

/// Adds a record holding `message` under the type `chunk_type` at the end of
/// the container in `file`, and returns the new container's bytes.
pub fn encode(file: &[u8], chunk_type: &str, message: &str) -> (r: Result<Vec<u8>, CommandError>)
    ensures
        r.is_ok() <==> encode_spec(file@, chunk_type.spec_bytes(), message.spec_bytes()).is_ok(),
        r matches Ok(b) ==> encode_spec(file@, chunk_type.spec_bytes(), message.spec_bytes())
            == Ok::<Seq<u8>, CommandError>(b@),
        r matches Err(e) ==> encode_spec(file@, chunk_type.spec_bytes(), message.spec_bytes())
            == Err::<Seq<u8>, CommandError>(e),
{
    let mut png = match Png::try_from(file) {
        Ok(p) => p,
        Err(_) => return Err(CommandError::PngFormatError),
    };
    let ty = match ChunkType::from_text(chunk_type) {
        Ok(t) => t,
        Err(_) => return Err(CommandError::ChunkTypeError),
    };
    let msg = message.as_bytes();
    if msg.len() > 0xffff_ffff {
        return Err(CommandError::OtherError);
    }
    let mut payload: Vec<u8> = Vec::new();
    crate::chunk::push_all(&mut payload, msg);
    assert(payload@ =~= message.spec_bytes());
    png.append_chunk(Chunk::new(ty, payload));
    Ok(png.as_bytes())
}

/// What reading the message under the type text `code` from the container
/// bytes `file` gives: the first such record's payload as text, or nothing
/// when there is no such record.
pub open spec fn decode_spec(file: Seq<u8>, code: Seq<char>) -> Result<
    Option<Seq<char>>,
    CommandError,
> {
    match parse_png_spec(file) {
        Err(_) => Err(CommandError::PngFormatError),
        Ok(m) => if no_match(m, code) {
            Ok(None)
        } else {
            let i = choose|i: int| is_first_match(m, code, i);
            if valid_utf8(m[i].1) {
                Ok(Some(decode_utf8(m[i].1)))
            } else {
                Err(CommandError::OtherError)
            }
        },
    }
}

/// Reads the message stored under `chunk_type` in the container in `file`.
pub fn decode(file: &[u8], chunk_type: &str) -> (r: Result<Option<String>, CommandError>)
    ensures
        r.is_ok() <==> decode_spec(file@, chunk_type@).is_ok(),
        r matches Ok(o) ==> match o {
            Some(s) => decode_spec(file@, chunk_type@) == Ok::<Option<Seq<char>>, CommandError>(
                Some(s@),
            ),
            None => decode_spec(file@, chunk_type@) == Ok::<Option<Seq<char>>, CommandError>(
                None,
            ),
        },
        r matches Err(e) ==> decode_spec(file@, chunk_type@) == Err::<
            Option<Seq<char>>,
            CommandError,
        >(e),
{
    let png = match Png::try_from(file) {
        Ok(p) => p,
        Err(_) => return Err(CommandError::PngFormatError),
    };
    match png.chunk_by_type(chunk_type) {
        Some(c) => {
            proof {
                let m = png@;
                let i = choose|i: int| is_first_match(m, chunk_type@, i);
                let k = choose|k: int|
                    is_first_match(m, chunk_type@, k) && m[k] == crate::png::record_of(*c);
                crate::png::lemma_first_match_unique(m, chunk_type@, i, k);
            }
            match c.data_as_string() {
                Ok(s) => Ok(Some(s)),
                Err(_) => Err(CommandError::OtherError),
            }
        },
        None => Ok(None),
    }
}

/// What removing the first record of the type text `code` from the container
/// bytes `file` gives: the remaining container's bytes.
pub open spec fn remove_spec(file: Seq<u8>, code: Seq<char>) -> Result<Seq<u8>, CommandError> {
    match parse_png_spec(file) {
        Err(_) => Err(CommandError::PngFormatError),
        Ok(m) => if no_match(m, code) {
            Err(CommandError::ChunkNotFoundError)
        } else {
            let i = choose|i: int| is_first_match(m, code, i);
            Ok(png_bytes(m.remove(i)))
        },
    }
}

/// Removes the first record of type `chunk_type` from the container in
/// `file`, and returns the remaining container's bytes.
pub fn remove(file: &[u8], chunk_type: &str) -> (r: Result<Vec<u8>, CommandError>)
    ensures
        r.is_ok() <==> remove_spec(file@, chunk_type@).is_ok(),
        r matches Ok(b) ==> remove_spec(file@, chunk_type@) == Ok::<Seq<u8>, CommandError>(b@),
        r matches Err(e) ==> remove_spec(file@, chunk_type@) == Err::<Seq<u8>, CommandError>(e),
{
    let mut png = match Png::try_from(file) {
        Ok(p) => p,
        Err(_) => return Err(CommandError::PngFormatError),
    };
    let ghost m: Seq<Record> = png@;
    match png.remove_chunk(chunk_type) {
        Ok(c) => {
            proof {
                let i = choose|i: int| is_first_match(m, chunk_type@, i);
                let k = choose|k: int|
                    is_first_match(m, chunk_type@, k) && m[k] == crate::png::record_of(c)
                        && png@ == m.remove(k);
                crate::png::lemma_first_match_unique(m, chunk_type@, i, k);
            }
            Ok(png.as_bytes())
        },
        Err(_) => Err(CommandError::ChunkNotFoundError),
    }
}

} // verus!
