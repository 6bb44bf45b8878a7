//! The framing of a bytecode file: the encoded main function, compressed with gzip.
use vstd::prelude::*;

verus! {

#[verifier::external_type_specification]
#[verifier::external_body]
pub struct ExIoError(std::io::Error);

/// The bytes that gzip at the best compression level gives for `input`.
pub uninterp spec fn gzip_best_bytes(input: Seq<u8>) -> Seq<u8>;

/// The bytes that a gzip stream decompresses to, or `None` when it is not a valid stream.
pub uninterp spec fn gunzip_bytes(input: Seq<u8>) -> Option<Seq<u8>>;

/// `flate2::write::GzEncoder` over a `Vec`, at `Compression::best()`: writes `input` and
/// finishes the stream. Claimed: it succeeds, since a `Vec` takes every byte and the
/// encoder passes the deflate backend valid parameters; the bytes written are the gzip
/// stream of `input`, which a gzip decoder reads back as `input`.
#[verifier::external_body]
fn gzip_best(input: &[u8]) -> (r: Result<Vec<u8>, std::io::Error>)
    ensures
        r is Ok,
        r matches Ok(v) ==> v@ == gzip_best_bytes(input@) && gunzip_bytes(v@) == Some(input@),
{
    let mut encoder = flate2::write::GzEncoder::new(Vec::new(), flate2::Compression::best());
    std::io::Write::write_all(&mut encoder, input)?;
    encoder.finish()
}

/// `flate2::read::GzDecoder` over `input`, read to its end. Claimed: the bytes read are
/// what the gzip stream `input` decompresses to, and an error comes exactly when it is not
/// a valid stream.
#[verifier::external_body]
fn gunzip(input: &[u8]) -> (r: Result<Vec<u8>, std::io::Error>)
    ensures
        match r {
            Ok(v) => gunzip_bytes(input@) == Some(v@),
            Err(_) => gunzip_bytes(input@) is None,
        },
{
    let mut decoder = flate2::read::GzDecoder::new(input);
    let mut buffer = Vec::new();
    std::io::Read::read_to_end(&mut decoder, &mut buffer)?;
    Ok(buffer)
}

/// Why bytecode could not be read back.
#[derive(Debug, Clone, Copy, PartialEq, Eq)]
pub enum BytecodeError {
    /// The file is not a gzip stream.
    Corrupt,
}

/// The content of a bytecode file for the encoded main function: its gzip stream at the
/// best compression level, which unpacks to `encoded`.
pub fn pack_bytecode(encoded: &[u8]) -> (r: Vec<u8>)
    ensures
        r@ == gzip_best_bytes(encoded@),
        gunzip_bytes(r@) == Some(encoded@),
{
    match gzip_best(encoded) {
        Ok(v) => v,
        Err(_) => Vec::new(),
    }
}

/// The encoded main function in the content of a bytecode file.
pub fn unpack_bytecode(file: &[u8]) -> (r: Result<Vec<u8>, BytecodeError>)
    ensures
        match r {
            Ok(v) => gunzip_bytes(file@) == Some(v@),
            Err(e) => gunzip_bytes(file@) is None && e == BytecodeError::Corrupt,
        },
{
    match gunzip(file) {
        Ok(v) => Ok(v),
        Err(_) => Err(BytecodeError::Corrupt),
    }
}

} // verus!
