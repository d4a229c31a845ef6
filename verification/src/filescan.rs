use vstd::prelude::*;
use crate::hexcode::{spec_hex_chars, hex_encode};

verus! {

/// One scanned file and the digest of its contents.
pub struct FileHash {
    pub path: String,
    pub hash: String,
}

/// What the SHA-256 digest of the given bytes is; a fixed function of
/// the input bytes alone.
pub uninterp spec fn spec_sha256(data: Seq<u8>) -> Seq<u8>;

/// Relies on sha2::Sha256: the digest is 32 bytes and depends on the
/// input bytes alone.
#[verifier::external_body]
fn sha256(data: &[u8]) -> (r: Vec<u8>)
    ensures
        r@ == spec_sha256(data@),
        r@.len() == 32,
{
    let digest = <sha2::Sha256 as sha2::Digest>::digest(data);
    digest.to_vec()
}

/// The lower-case hex digest of one file's contents.
pub fn hash_file_bytes(data: &[u8]) -> (r: String)
    ensures
        r@ == spec_hex_chars(spec_sha256(data@)),
        r@.len() == 64,
{
    let digest = sha256(data);
    hex_encode(digest.as_slice())
}

/// Digests a batch of files read from disk: one record per file, in
/// input order, each carrying the file's path and the hex digest of its
/// contents.
pub fn scan_and_hash_files(files: &Vec<(String, Vec<u8>)>) -> (r: Vec<FileHash>)
    ensures
        r@.len() == files@.len(),
        forall|k: int| 0 <= k < files@.len() ==> {
            &&& (#[trigger] r@[k]).path@ == files@[k].0@
            &&& r@[k].hash@ == spec_hex_chars(spec_sha256(files@[k].1@))
        },
{
    let mut r: Vec<FileHash> = Vec::new();
    let mut i: usize = 0;
    while i < files.len()
        invariant
            i <= files@.len(),
            r@.len() == i,
            forall|k: int| 0 <= k < i ==> {
                &&& (#[trigger] r@[k]).path@ == files@[k].0@
                &&& r@[k].hash@ == spec_hex_chars(spec_sha256(files@[k].1@))
            },
        decreases files@.len() - i,
    {
        let path = files[i].0.clone();
        let hash = hash_file_bytes(files[i].1.as_slice());
        r.push(FileHash { path, hash });
        i = i + 1;
    }
    r
}

} // verus!
