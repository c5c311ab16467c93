//! Byte-level codecs of the cache: gzip compression of snapshots, and the
//! SHA-256 checksums (in lowercase hex) that guard stored entries.
use vstd::prelude::*;
use crate::errors::CacheError;
use flate2::read::GzDecoder;
use flate2::write::GzEncoder;
use flate2::Compression;
use sha2::{Digest, Sha256};
use std::io::{Read, Write};

verus! {

/// The gzip stream (default level, no file name, zero time stamp) that
/// flate2's `GzEncoder` makes of `data`.
pub uninterp spec fn gzip_compress(data: Seq<u8>) -> Seq<u8>;

/// The bytes that flate2's `GzDecoder` reads out of `data`, or `None`
/// where `data` is not a valid gzip stream.
pub uninterp spec fn gzip_decompress(data: Seq<u8>) -> Option<Seq<u8>>;

/// The SHA-256 digest of `data`.
pub uninterp spec fn sha256(data: Seq<u8>) -> Seq<u8>;

/// The lowercase hexadecimal digit of `n` (below 16).
pub open spec fn hex_digit(n: int) -> char {
    if n < 10 {
        (48 + n) as char
    } else {
        (87 + n) as char
    }
}

/// The lowercase hexadecimal text of `bytes`: two digits per byte, high
/// nibble first.
pub open spec fn hex_lower(bytes: Seq<u8>) -> Seq<char>
    decreases bytes.len(),
{
    if bytes.len() == 0 {
        Seq::empty()
    } else {
        hex_lower(bytes.drop_last()) + seq![
            hex_digit(bytes.last() as int / 16),
            hex_digit(bytes.last() as int % 16),
        ]
    }
}

/// Which step of gzip encoding failed, with the I/O error's message.
pub enum GzFailure {
    Write(String),
    Finish(String),
}

/// flate2's `GzEncoder` over a `Vec` at the default level: `write_all` of
/// the data, then `finish`. These fail only when the underlying writer
/// does, and a `Vec` never does, so the call succeeds. The stream it yields
/// is the named result; it starts with the 10-byte header that
/// `GzBuilder::into_header` writes, whose first bytes are the gzip magic
/// `1f 8b` and the deflate method `8`.
#[verifier::external_body]
fn gzip_encode(data: &[u8]) -> (r: Result<Vec<u8>, GzFailure>)
    ensures
        r is Ok,
        r matches Ok(c) ==> c@ == gzip_compress(data@),
        r matches Ok(c) ==> c@.len() >= 10 && c@[0] == 0x1f && c@[1] == 0x8b && c@[2] == 8,
{
    let mut encoder = GzEncoder::new(Vec::new(), Compression::default());
    if let Err(e) = encoder.write_all(data) {
        return Err(GzFailure::Write(e.to_string()));
    }
    match encoder.finish() {
        Ok(v) => Ok(v),
        Err(e) => Err(GzFailure::Finish(e.to_string())),
    }
}

/// flate2's `GzDecoder` over a byte slice, read to its end: the named
/// result, and that a stream `GzEncoder` made of some data reads back as
/// that data. On failure, the I/O error's message.
#[verifier::external_body]
fn gzip_decode(data: &[u8]) -> (r: Result<Vec<u8>, String>)
    ensures
        match r {
            Ok(d) => gzip_decompress(data@) == Some(d@),
            Err(_) => gzip_decompress(data@) is None,
        },
        forall|d: Seq<u8>| #[trigger]
            gzip_compress(d) == data@ ==> (r is Ok && r->Ok_0@ == d),
{
    let mut decoder = GzDecoder::new(data);
    let mut out = Vec::new();
    match decoder.read_to_end(&mut out) {
        Ok(_) => Ok(out),
        Err(e) => Err(e.to_string()),
    }
}

/// `Sha256::digest` of sha2 0.10 (`new`, `update`, `finalize`): the named
/// 32-byte digest.
#[verifier::external_body]
fn sha256_digest(data: &[u8]) -> (d: Vec<u8>)
    ensures
        d@ == sha256(data@),
        d@.len() == 32,
{
    let mut hasher = Sha256::new();
    hasher.update(data);
    hasher.finalize().to_vec()
}

/// `hex::encode` of hex 0.4: two lowercase digits per byte.
#[verifier::external_body]
fn hex_encode(bytes: &[u8]) -> (s: String)
    ensures
        s@ == hex_lower(bytes@),
{
    hex::encode(bytes)
}

/// Gzip-compresses `data` (in memory, so it always succeeds). A failing
/// write would report `IoError`, a failing finish `CompressionError`.
pub fn compress(data: &[u8]) -> (r: Result<Vec<u8>, CacheError>)
    ensures
        r is Ok,
        r matches Ok(c) ==> c@ == gzip_compress(data@),
        r matches Ok(c) ==> c@.len() >= 10 && c@[0] == 0x1f && c@[1] == 0x8b && c@[2] == 8,
{
    match gzip_encode(data) {
        Ok(c) => Ok(c),
        Err(GzFailure::Write(msg)) => Err(CacheError::IoError(msg)),
        Err(GzFailure::Finish(msg)) => Err(CacheError::CompressionError(msg)),
    }
}

/// Decompresses a gzip stream; a malformed one reports `IoError`. What
/// `compress` made of some data decompresses to that data.
pub fn decompress(data: &[u8]) -> (r: Result<Vec<u8>, CacheError>)
    ensures
        match r {
            Ok(d) => gzip_decompress(data@) == Some(d@),
            Err(e) => gzip_decompress(data@) is None && e is IoError,
        },
        forall|d: Seq<u8>| #[trigger] gzip_compress(d) == data@ ==> (r is Ok && r->Ok_0@ == d),
{
    match gzip_decode(data) {
        Ok(d) => Ok(d),
        Err(msg) => Err(CacheError::IoError(msg)),
    }
}

/// The checksum of a stored value: the lowercase hex of the SHA-256 of its
/// UTF-8 bytes.
pub open spec fn checksum_of(value: Seq<char>) -> Seq<char> {
    hex_lower(sha256(vstd::utf8::encode_utf8(value)))
}

/// The checksum of `value`.
pub fn hash_value(value: &str) -> (h: String)
    ensures
        h@ == checksum_of(value@),
        h@.len() == 64,
{
    let digest = sha256_digest(value.as_bytes());
    proof {
        lemma_hex_lower_len(digest@);
    }
    hex_encode(digest.as_slice())
}

/// The hex text has two digits per byte.
pub proof fn lemma_hex_lower_len(bytes: Seq<u8>)
    ensures
        hex_lower(bytes).len() == 2 * bytes.len(),
    decreases bytes.len(),
{
    if bytes.len() > 0 {
        lemma_hex_lower_len(bytes.drop_last());
    }
}

} // verus!
