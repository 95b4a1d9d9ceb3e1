//! Byte-level encodings used by the artifact store: lowercase hex, SHA-256
//! digests and zstd frames.

use sha2::Digest;
use vstd::prelude::*;

verus! {

/// Compression level used for every stored artifact.
pub const COMPRESSION_LEVEL: i32 = 3;

/// The lowercase hexadecimal digit for a nibble.
pub open spec fn hex_digit(n: int) -> char {
    if n < 10 {
        (n + 48) as char
    } else {
        (n + 87) as char
    }
}

/// Two lowercase hex digits per byte, most significant nibble first.
pub open spec fn hex_of(b: Seq<u8>) -> Seq<char>
    decreases b.len(),
{
    if b.len() == 0 {
        Seq::empty()
    } else {
        hex_of(b.drop_last()) + seq![hex_digit(b.last() as int / 16), hex_digit(b.last() as int % 16)]
    }
}

/// The SHA-256 digest of a byte string.
pub uninterp spec fn sha256_of(data: Seq<u8>) -> Seq<u8>;

/// What zstd decoding makes of a byte string: `None` where it is no valid frame.
pub uninterp spec fn zstd_decoded(data: Seq<u8>) -> Option<Seq<u8>>;

/// The zstd frame `encode_all` makes of a byte string at a level; `None`
/// where it makes none.
pub uninterp spec fn zstd_frame(data: Seq<u8>, level: i32) -> Option<Seq<u8>>;

/// The identity of a payload: the hex SHA-256 of its canonical JSON bytes.
pub open spec fn content_hash(json: Seq<u8>) -> Seq<char> {
    hex_of(sha256_of(json))
}

/// Relies on sha2::Sha256::digest: the 32-byte digest of the input.
#[verifier::external_body]
pub(crate) fn sha256(data: &[u8]) -> (r: Vec<u8>)
    ensures
        r@ == sha256_of(data@),
        r@.len() == 32,
{
    sha2::Sha256::digest(data).to_vec()
}

/// Relies on hex::encode: two lowercase hex digits per byte.
#[verifier::external_body]
pub(crate) fn hex_encode(data: &[u8]) -> (r: String)
    ensures
        r@ == hex_of(data@),
{
    hex::encode(data)
}

/// Relies on zstd::encode_all: the frame it makes of the input at the level,
/// which decodes back to the input.
#[verifier::external_body]
pub(crate) fn zstd_compress(data: &[u8], level: i32) -> (r: Option<Vec<u8>>)
    ensures
        match r {
            Some(c) => zstd_frame(data@, level) == Some(c@),
            None => zstd_frame(data@, level) is None,
        },
        r matches Some(c) ==> zstd_decoded(c@) == Some(data@),
{
    zstd::encode_all(data, level).ok()
}

/// Relies on zstd::decode_all: the decoded bytes, or a failure on input that is
/// no valid frame.
#[verifier::external_body]
pub(crate) fn zstd_decompress(data: &[u8]) -> (r: Option<Vec<u8>>)
    ensures
        match r {
            Some(d) => zstd_decoded(data@) == Some(d@),
            None => zstd_decoded(data@) is None,
        },
{
    zstd::decode_all(data).ok()
}

/// The content hash of a payload's canonical JSON bytes.
pub fn content_hash_of(json: &Vec<u8>) -> (r: String)
    ensures
        r@ == content_hash(json@),
        r@.len() == 64,
{
    let digest = sha256(json.as_slice());
    let r = hex_encode(digest.as_slice());
    proof {
        lemma_hex_len(digest@);
    }
    r
}

/// A hex rendering has two characters per byte.
pub proof fn lemma_hex_len(b: Seq<u8>)
    ensures
        hex_of(b).len() == 2 * b.len(),
    decreases b.len(),
{
    if b.len() > 0 {
        lemma_hex_len(b.drop_last());
    }
}

} // verus!
