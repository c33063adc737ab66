//! The bcrypt scheme, which checks candidates against a stored reference hash.
use vstd::prelude::*;
use vstd::utf8::encode_utf8;
use crate::digest::HashAlgorithm;

verus! {

/// What `bcrypt::verify` reports for `password` against the reference `hash`:
/// whether they match, or nothing where the reference is not a usable bcrypt hash.
pub uninterp spec fn bcrypt_verify_of(password: Seq<u8>, hash: Seq<char>) -> Option<bool>;

/// Relies on `bcrypt::verify`: it reads cost and salt from `hash`, hashes
/// `password` with them and compares in constant time; it fails on a
/// malformed hash or a cost out of range. The outcome depends on the two
/// arguments alone.
#[verifier::external_body]
fn bcrypt_verify(password: &[u8], hash: &str) -> (r: Option<bool>)
    ensures
        r == bcrypt_verify_of(password@, hash@),
{
    bcrypt::verify(password, hash).ok()
}

/// A verification-shaped scheme around a bcrypt reference hash, which already
/// holds its own salt and cost.
///
/// It computes no digest of its own: `hash_hex` gives the reference back when
/// the input matches it and an empty string otherwise, so it serves equality
/// matching but is not a hash function.
pub struct BcryptHash {
    target_hash: String,
}

impl BcryptHash {
    /// The reference hash.
    pub closed spec fn reference(&self) -> Seq<char> {
        self.target_hash@
    }

    pub fn new(target_hash: String) -> (r: Self)
        ensures
            r.reference() == target_hash@,
    {
        BcryptHash { target_hash }
    }

    pub fn reference_hash(&self) -> (r: &String)
        ensures
            r@ == self.reference(),
    {
        &self.target_hash
    }

    /// Checks `candidate` against the reference: whether it matches, or
    /// nothing where the reference is not a usable bcrypt hash.
    pub fn verify(&self, candidate: &[u8]) -> (r: Option<bool>)
        ensures
            r == bcrypt_verify_of(candidate@, self.reference()),
    {
        bcrypt_verify(candidate, self.target_hash.as_str())
    }
}

impl HashAlgorithm for BcryptHash {
    open spec fn name_spec(&self) -> Seq<char> {
        "BCRYPT"@
    }

    /// The UTF-8 bytes of `hash_hex`.
    open spec fn digest_spec(&self, input: Seq<u8>) -> Seq<u8> {
        encode_utf8(self.hex_spec(input))
    }

    /// The reference on a match, else empty (a failed check included).
    open spec fn hex_spec(&self, input: Seq<u8>) -> Seq<char> {
        if bcrypt_verify_of(input, self.reference()) == Some(true) {
            self.reference()
        } else {
            Seq::<char>::empty()
        }
    }

    /// Derived or verified outputs have no length fixed by the scheme.
    open spec fn fixed_len(&self) -> Option<nat> {
        None
    }

    fn name(&self) -> (r: &'static str) {
        "BCRYPT"
    }

    fn hash(&self, input: &[u8]) -> (r: Vec<u8>) {
        let text = self.hash_hex(input);
        text.as_str().as_bytes_vec()
    }

    fn hash_hex(&self, input: &[u8]) -> (r: String) {
        match self.verify(input) {
            Some(true) => self.target_hash.clone(),
            _ => String::new(),
        }
    }
}

} // verus!
