//! The common digest interface and the fixed-digest schemes.
use vstd::prelude::*;
use crate::text::{encode_hex, hex_lower, lemma_hex_lower_len};

verus! {

/// A hashing scheme that candidates are compared through.
///
/// `hash` and `hash_hex` are functions of the input and of what the scheme was
/// built with. For the fixed digests and scrypt, `hash_hex` is the lower-case
/// hex of `hash`. The bcrypt scheme is verification-shaped instead: its
/// `hash_hex` is the reference hash when the input matches it and empty otherwise.
pub trait HashAlgorithm {
    /// The identifier of the scheme.
    spec fn name_spec(&self) -> Seq<char>;

    /// What `hash` returns for `input`.
    spec fn digest_spec(&self, input: Seq<u8>) -> Seq<u8>;

    /// What `hash_hex` returns for `input`.
    spec fn hex_spec(&self, input: Seq<u8>) -> Seq<char>;

    /// The length of every digest, for a scheme whose digests have one.
    spec fn fixed_len(&self) -> Option<nat>;

    fn name(&self) -> (r: &'static str)
        ensures
            r@ == self.name_spec(),
    ;

    fn hash(&self, input: &[u8]) -> (r: Vec<u8>)
        ensures
            r@ == self.digest_spec(input@),
            self.fixed_len() matches Some(n) ==> r@.len() == n,
    ;

    fn hash_hex(&self, input: &[u8]) -> (r: String)
        ensures
            r@ == self.hex_spec(input@),
            self.fixed_len() matches Some(n) ==> r@.len() == 2 * n,
    ;
}

/// A scheme is a function of its input: equal inputs give equal digests and
/// equal hex renderings.
pub proof fn lemma_hash_deterministic<H: HashAlgorithm>(h: &H, a: Seq<u8>, b: Seq<u8>)
    requires
        a == b,
    ensures
        h.digest_spec(a) == h.digest_spec(b),
        h.hex_spec(a) == h.hex_spec(b),
{
}

/// The MD2 digest of the bytes.
pub uninterp spec fn md2_of(input: Seq<u8>) -> Seq<u8>;

/// Relies on `md2::Md2` (a `Digest`): new, update, finalize; 16 bytes.
#[verifier::external_body]
fn md2_digest(input: &[u8]) -> (r: Vec<u8>)
    ensures
        r@ == md2_of(input@),
        r@.len() == 16,
{
    let mut hasher = <md2::Md2 as md2::Digest>::new();
    md2::Digest::update(&mut hasher, input);
    md2::Digest::finalize(hasher).to_vec()
}

/// The MD2 digest.
pub struct Md2Hash;

impl HashAlgorithm for Md2Hash {
    open spec fn name_spec(&self) -> Seq<char> {
        "MD2HASH"@
    }

    open spec fn digest_spec(&self, input: Seq<u8>) -> Seq<u8> {
        md2_of(input)
    }

    open spec fn hex_spec(&self, input: Seq<u8>) -> Seq<char> {
        hex_lower(md2_of(input))
    }

    open spec fn fixed_len(&self) -> Option<nat> {
        Some(16)
    }

    fn name(&self) -> (r: &'static str) {
        "MD2HASH"
    }

    fn hash(&self, input: &[u8]) -> (r: Vec<u8>) {
        md2_digest(input)
    }

    fn hash_hex(&self, input: &[u8]) -> (r: String) {
        let digest = md2_digest(input);
        proof {
            lemma_hex_lower_len(digest@);
        }
        encode_hex(digest.as_slice())
    }
}

/// The MD4 digest of the bytes.
pub uninterp spec fn md4_of(input: Seq<u8>) -> Seq<u8>;

/// Relies on `md4::Md4` (a `Digest`): new, update, finalize; 16 bytes.
#[verifier::external_body]
fn md4_digest(input: &[u8]) -> (r: Vec<u8>)
    ensures
        r@ == md4_of(input@),
        r@.len() == 16,
{
    let mut hasher = <md4::Md4 as md4::Digest>::new();
    md4::Digest::update(&mut hasher, input);
    md4::Digest::finalize(hasher).to_vec()
}

/// The MD4 digest.
pub struct Md4Hash;

impl HashAlgorithm for Md4Hash {
    open spec fn name_spec(&self) -> Seq<char> {
        "MD4HASH"@
    }

    open spec fn digest_spec(&self, input: Seq<u8>) -> Seq<u8> {
        md4_of(input)
    }

    open spec fn hex_spec(&self, input: Seq<u8>) -> Seq<char> {
        hex_lower(md4_of(input))
    }

    open spec fn fixed_len(&self) -> Option<nat> {
        Some(16)
    }

    fn name(&self) -> (r: &'static str) {
        "MD4HASH"
    }

    fn hash(&self, input: &[u8]) -> (r: Vec<u8>) {
        md4_digest(input)
    }

    fn hash_hex(&self, input: &[u8]) -> (r: String) {
        let digest = md4_digest(input);
        proof {
            lemma_hex_lower_len(digest@);
        }
        encode_hex(digest.as_slice())
    }
}

/// The MD5 digest of the bytes.
pub uninterp spec fn md5_of(input: Seq<u8>) -> Seq<u8>;

/// Relies on `md5::compute`: the 16-byte MD5 digest.
#[verifier::external_body]
fn md5_digest(input: &[u8]) -> (r: Vec<u8>)
    ensures
        r@ == md5_of(input@),
        r@.len() == 16,
{
    md5::compute(input).0.to_vec()
}

/// The MD5 digest.
pub struct Md5Hash;

impl HashAlgorithm for Md5Hash {
    open spec fn name_spec(&self) -> Seq<char> {
        "MD5"@
    }

    open spec fn digest_spec(&self, input: Seq<u8>) -> Seq<u8> {
        md5_of(input)
    }

    open spec fn hex_spec(&self, input: Seq<u8>) -> Seq<char> {
        hex_lower(md5_of(input))
    }

    open spec fn fixed_len(&self) -> Option<nat> {
        Some(16)
    }

    fn name(&self) -> (r: &'static str) {
        "MD5"
    }

    fn hash(&self, input: &[u8]) -> (r: Vec<u8>) {
        md5_digest(input)
    }

    fn hash_hex(&self, input: &[u8]) -> (r: String) {
        let digest = md5_digest(input);
        proof {
            lemma_hex_lower_len(digest@);
        }
        encode_hex(digest.as_slice())
    }
}

/// The MD6-256 digest of the bytes.
pub uninterp spec fn md6_256_of(input: Seq<u8>) -> Seq<u8>;

/// Relies on `md6::Md6` with a 256-bit output (new, update, finalise): 32 bytes.
/// `Md6::new` fails only for a bit length outside 1..=512, so 256 never fails.
#[verifier::external_body]
fn md6_256_digest(input: &[u8]) -> (r: Vec<u8>)
    ensures
        r@ == md6_256_of(input@),
        r@.len() == 32,
{
    let mut result = [0u8; 32];
    let mut hasher = md6::Md6::new(256).unwrap();
    hasher.update(input);
    hasher.finalise(&mut result);
    result.to_vec()
}

/// The MD6-256 digest.
pub struct Md6Hash;

impl HashAlgorithm for Md6Hash {
    open spec fn name_spec(&self) -> Seq<char> {
        "MD6HASH"@
    }

    open spec fn digest_spec(&self, input: Seq<u8>) -> Seq<u8> {
        md6_256_of(input)
    }

    open spec fn hex_spec(&self, input: Seq<u8>) -> Seq<char> {
        hex_lower(md6_256_of(input))
    }

    open spec fn fixed_len(&self) -> Option<nat> {
        Some(32)
    }

    fn name(&self) -> (r: &'static str) {
        "MD6HASH"
    }

    fn hash(&self, input: &[u8]) -> (r: Vec<u8>) {
        md6_256_digest(input)
    }

    fn hash_hex(&self, input: &[u8]) -> (r: String) {
        let digest = md6_256_digest(input);
        proof {
            lemma_hex_lower_len(digest@);
        }
        encode_hex(digest.as_slice())
    }
}

/// The SHA-1 digest of the bytes.
pub uninterp spec fn sha1_of(input: Seq<u8>) -> Seq<u8>;

/// Relies on `sha1::Sha1` (a `Digest`): new, update, finalize; 20 bytes.
#[verifier::external_body]
fn sha1_digest(input: &[u8]) -> (r: Vec<u8>)
    ensures
        r@ == sha1_of(input@),
        r@.len() == 20,
{
    let mut hasher = <sha1::Sha1 as sha1::Digest>::new();
    sha1::Digest::update(&mut hasher, input);
    sha1::Digest::finalize(hasher).to_vec()
}

/// The SHA-1 digest.
pub struct Sha1Hash;

impl HashAlgorithm for Sha1Hash {
    open spec fn name_spec(&self) -> Seq<char> {
        "SHA1"@
    }

    open spec fn digest_spec(&self, input: Seq<u8>) -> Seq<u8> {
        sha1_of(input)
    }

    open spec fn hex_spec(&self, input: Seq<u8>) -> Seq<char> {
        hex_lower(sha1_of(input))
    }

    open spec fn fixed_len(&self) -> Option<nat> {
        Some(20)
    }

    fn name(&self) -> (r: &'static str) {
        "SHA1"
    }

    fn hash(&self, input: &[u8]) -> (r: Vec<u8>) {
        sha1_digest(input)
    }

    fn hash_hex(&self, input: &[u8]) -> (r: String) {
        let digest = sha1_digest(input);
        proof {
            lemma_hex_lower_len(digest@);
        }
        encode_hex(digest.as_slice())
    }
}

/// The SHA-256 digest of the bytes.
pub uninterp spec fn sha256_of(input: Seq<u8>) -> Seq<u8>;

/// Relies on `sha2::Sha256` (a `Digest`): new, update, finalize; 32 bytes.
#[verifier::external_body]
fn sha256_digest(input: &[u8]) -> (r: Vec<u8>)
    ensures
        r@ == sha256_of(input@),
        r@.len() == 32,
{
    let mut hasher = <sha2::Sha256 as sha2::Digest>::new();
    sha2::Digest::update(&mut hasher, input);
    sha2::Digest::finalize(hasher).to_vec()
}

/// The SHA-256 digest.
pub struct Sha2Hash;

impl HashAlgorithm for Sha2Hash {
    open spec fn name_spec(&self) -> Seq<char> {
        "SHA2HASH"@
    }

    open spec fn digest_spec(&self, input: Seq<u8>) -> Seq<u8> {
        sha256_of(input)
    }

    open spec fn hex_spec(&self, input: Seq<u8>) -> Seq<char> {
        hex_lower(sha256_of(input))
    }

    open spec fn fixed_len(&self) -> Option<nat> {
        Some(32)
    }

    fn name(&self) -> (r: &'static str) {
        "SHA2HASH"
    }

    fn hash(&self, input: &[u8]) -> (r: Vec<u8>) {
        sha256_digest(input)
    }

    fn hash_hex(&self, input: &[u8]) -> (r: String) {
        let digest = sha256_digest(input);
        proof {
            lemma_hex_lower_len(digest@);
        }
        encode_hex(digest.as_slice())
    }
}

/// The SHA3-256 digest of the bytes.
pub uninterp spec fn sha3_256_of(input: Seq<u8>) -> Seq<u8>;

/// Relies on `sha3::Sha3_256` (a `Digest`): new, update, finalize; 32 bytes.
#[verifier::external_body]
fn sha3_256_digest(input: &[u8]) -> (r: Vec<u8>)
    ensures
        r@ == sha3_256_of(input@),
        r@.len() == 32,
{
    let mut hasher = <sha3::Sha3_256 as sha3::Digest>::new();
    sha3::Digest::update(&mut hasher, input);
    sha3::Digest::finalize(hasher).to_vec()
}

/// The SHA3-256 digest.
pub struct Sha3Hash;

impl HashAlgorithm for Sha3Hash {
    open spec fn name_spec(&self) -> Seq<char> {
        "SHA3HASH"@
    }

    open spec fn digest_spec(&self, input: Seq<u8>) -> Seq<u8> {
        sha3_256_of(input)
    }

    open spec fn hex_spec(&self, input: Seq<u8>) -> Seq<char> {
        hex_lower(sha3_256_of(input))
    }

    open spec fn fixed_len(&self) -> Option<nat> {
        Some(32)
    }

    fn name(&self) -> (r: &'static str) {
        "SHA3HASH"
    }

    fn hash(&self, input: &[u8]) -> (r: Vec<u8>) {
        sha3_256_digest(input)
    }

    fn hash_hex(&self, input: &[u8]) -> (r: String) {
        let digest = sha3_256_digest(input);
        proof {
            lemma_hex_lower_len(digest@);
        }
        encode_hex(digest.as_slice())
    }
}

} // verus!
