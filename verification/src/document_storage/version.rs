//! Versions of a document and the content hash that identifies them.

use vstd::prelude::*;
use crate::utils::ids::{hex_encode, hex_lower, lemma_hex_lower_len, now_micros};
use crate::permission::permission::clone_opt_string;

verus! {

/// The SHA-256 digest of a byte string, as `sha2::Sha256` computes it.
pub uninterp spec fn sha256(data: Seq<u8>) -> Seq<u8>;

/// `sha2::Sha256::digest`: the 32-byte SHA-256 digest of `data`, named
/// `sha256`.
#[verifier::external_body]
fn sha256_digest(data: &[u8]) -> (r: Vec<u8>)
    ensures
        r@ == sha256(data@),
        r@.len() == 32,
{
    <sha2::Sha256 as sha2::Digest>::digest(data).to_vec()
}

/// The hash text of some content: the lowercase hexadecimal SHA-256 digest
/// of its UTF-8 bytes.
pub open spec fn content_hash_text(content: Seq<char>) -> Seq<char> {
    hex_lower(sha256(vstd::utf8::encode_utf8(content)))
}

/// Information about a document version
#[derive(Debug)]
pub struct VersionInfo {
    /// Version number (starts at 1)
    pub version_number: u32,
    /// When this version was created (microseconds since the epoch)
    pub created_at: i64,
    /// Who created this version
    pub created_by: String,
    /// Optional commit message
    pub message: Option<String>,
    /// SHA256 hash of the content
    pub content_hash: String,
}

impl Clone for VersionInfo {
    fn clone(&self) -> (r: Self)
        ensures
            r == *self,
    {
        VersionInfo {
            version_number: self.version_number,
            created_at: self.created_at,
            created_by: self.created_by.clone(),
            message: clone_opt_string(&self.message),
            content_hash: self.content_hash.clone(),
        }
    }
}

/// Represents a specific version of a document
#[derive(Debug)]
pub struct DocumentVersion {
    /// The version info
    pub info: VersionInfo,
    /// The content of this version
    pub content: String,
    /// Size in bytes
    pub size_bytes: usize,
}

impl Clone for DocumentVersion {
    fn clone(&self) -> (r: Self)
        ensures
            r == *self,
    {
        DocumentVersion {
            info: self.info.clone(),
            content: self.content.clone(),
            size_bytes: self.size_bytes,
        }
    }
}

/// `v` is a version numbered `number` by `by` holding `content`, with the
/// content's hash and UTF-8 size, and no message.
pub open spec fn made_version(v: DocumentVersion, number: u32, by: String, content: String) -> bool {
    &&& v.info.version_number == number
    &&& v.info.created_by == by
    &&& v.info.message is None
    &&& v.info.content_hash@ == content_hash_text(content@)
    &&& v.info.content_hash@.len() == 64
    &&& v.content == content
    &&& v.size_bytes == vstd::utf8::encode_utf8(content@).len()
}

impl DocumentVersion {
    /// Create a new document version
    ///
    /// The size is the UTF-8 length of the content, which fits in `usize`
    /// for any string held in memory.
    pub fn new(version_number: u32, created_by: String, content: String) -> (r: Self)
        requires
            vstd::utf8::encode_utf8(content@).len() <= usize::MAX,
        ensures
            made_version(r, version_number, created_by, content),
    {
        let content_hash = sha256_content(content.as_str());
        let size_bytes = content.as_str().len();
        Self {
            info: VersionInfo {
                version_number,
                created_at: now_micros(),
                created_by,
                message: None,
                content_hash,
            },
            content,
            size_bytes,
        }
    }

    /// Set a commit message for this version
    pub fn with_message(self, message: String) -> (r: Self)
        ensures
            r == (DocumentVersion {
                info: VersionInfo { message: Some(message), ..self.info },
                ..self
            }),
    {
        let mut v = self;
        v.info.message = Some(message);
        v
    }

    /// Get the content hash
    pub fn hash(&self) -> (r: &str)
        ensures
            r@ == self.info.content_hash@,
    {
        self.info.content_hash.as_str()
    }
}

/// Compute SHA256 hash of content
fn sha256_content(content: &str) -> (r: String)
    ensures
        r@ == content_hash_text(content@),
        r@.len() == 64,
{
    let digest = sha256_digest(content.as_bytes());
    proof {
        lemma_hex_lower_len(digest@);
    }
    hex_encode(digest.as_slice())
}

/// Equal contents have equal hashes: the hash is a function of the
/// content alone. (That a version's hash is 64 hexadecimal digits is stated
/// by `made_version`.)
pub proof fn lemma_content_hash(a: Seq<char>, b: Seq<char>)
    ensures
        a == b ==> content_hash_text(a) == content_hash_text(b),
{
}

} // verus!
