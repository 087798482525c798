//! File fingerprinting: the digest record for a file's contents.  Reading
//! the file from disk and sniffing its type are the front end's work; the
//! digests and the record assembly are handled here.

use sha2::Digest;
use vstd::prelude::*;

verus! {

/// Hashes and basic type information for one file.
#[derive(Debug, Clone)]
pub struct FileInfo {
    pub path: String,
    pub size: u64,
    pub sha256: String,
    pub blake3: String,
    pub mime: Option<String>,
    pub ext: Option<String>,
}

/// The name of the SHA-256 digest of some bytes: 32 bytes, determined by the
/// input alone.
pub uninterp spec fn sha256_of(b: Seq<u8>) -> Seq<u8>;

/// Relies on sha2's `Sha256::digest`: a 32-byte digest determined by the
/// input bytes alone.
#[verifier::external_body]
fn sha256_digest(data: &Vec<u8>) -> (r: Vec<u8>)
    ensures
        r@ == sha256_of(data@),
        r@.len() == 32,
{
    sha2::Sha256::digest(data.as_slice()).to_vec()
}

/// The name of the BLAKE3 digest of some bytes: 32 bytes, determined by the
/// input alone.
pub uninterp spec fn blake3_of(b: Seq<u8>) -> Seq<u8>;

/// Relies on blake3's `hash`: a 32-byte digest determined by the input bytes
/// alone.
#[verifier::external_body]
fn blake3_digest(data: &Vec<u8>) -> (r: Vec<u8>)
    ensures
        r@ == blake3_of(data@),
        r@.len() == 32,
{
    blake3::hash(data.as_slice()).as_bytes().to_vec()
}

/// The name of hex's lowercase encoding of some bytes.
pub uninterp spec fn hex_of(b: Seq<u8>) -> Seq<char>;

/// Relies on hex's `encode`: two lowercase hex digits for each input byte,
/// determined by the input alone.
#[verifier::external_body]
fn hex_encode(data: &Vec<u8>) -> (r: String)
    ensures
        r@ == hex_of(data@),
        r@.len() == 2 * data@.len(),
{
    hex::encode(data.as_slice())
}

/// Assemble the fingerprint record for one file's bytes: its size, SHA-256
/// and BLAKE3 digests in hex, and the type information the front end
/// sniffed.
pub fn file_info_from_bytes(
    path: String,
    data: &Vec<u8>,
    mime: Option<String>,
    ext: Option<String>,
) -> (r: FileInfo)
    ensures
        r.path == path,
        r.size == data@.len(),
        r.sha256@ == hex_of(sha256_of(data@)),
        r.sha256@.len() == 64,
        r.blake3@ == hex_of(blake3_of(data@)),
        r.blake3@.len() == 64,
        r.mime == mime,
        r.ext == ext,
{
    let sha = sha256_digest(data);
    let bl = blake3_digest(data);
    FileInfo {
        path,
        size: data.len() as u64,
        sha256: hex_encode(&sha),
        blake3: hex_encode(&bl),
        mime,
        ext,
    }
}

} // verus!
