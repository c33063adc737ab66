//! The scrypt scheme: validated construction, raw derivation, and the
//! self-describing `$scrypt$ln=..,r=..,p=..$salt$digest` encoding.
use vstd::prelude::*;
use vstd::arithmetic::power2::{pow2, lemma_pow2_strictly_increases, lemma_pow2_unfold, lemma2_to64};
use crate::digest::HashAlgorithm;
use vstd::utf8::encode_utf8;
use crate::text::{
    chars_of, decimal, decode_hex, encode_hex, hex_decode_spec, hex_lower, lemma_decimal_digits,
    lemma_parse_decimal, lemma_split_concat, lemma_split_no_sep, parse_decimal, parse_unsigned,
    pieces_view, push_decimal, split_chars, split_spec, string_of,
};

verus! {

/// What can go wrong when building, encoding or verifying with scrypt.
#[derive(Debug, Clone, Copy, PartialEq, Eq, Structural)]
pub enum ScryptError {
    /// The construction parameters break an invariant of the scheme.
    InvalidParameters,
    /// The encoding does not have the `$scrypt$params$salt$digest` shape.
    BadStructure,
    /// A required parameter is absent or its value does not parse.
    MissingParam(ParamKey),
    /// A binary field is not valid standard base64.
    BadEncoding(EncodedField),
    /// The scrypt primitive rejected the parameter set.
    Derivation,
}

/// The parameters of the encoded form.
#[derive(Debug, Clone, Copy, PartialEq, Eq, Structural)]
pub enum ParamKey {
    Ln,
    R,
    P,
}

impl ParamKey {
    /// The key as it is written in an encoding.
    pub fn key(&self) -> (r: &'static str)
        ensures
            r@ == key_text(*self),
    {
        proof {
            reveal_strlit("ln");
            reveal_strlit("r");
            reveal_strlit("p");
        }
        match self {
            ParamKey::Ln => "ln",
            ParamKey::R => "r",
            ParamKey::P => "p",
        }
    }
}

pub open spec fn key_text(k: ParamKey) -> Seq<char> {
    match k {
        ParamKey::Ln => seq!['l', 'n'],
        ParamKey::R => seq!['r'],
        ParamKey::P => seq!['p'],
    }
}

/// The binary fields of the encoded form.
#[derive(Debug, Clone, Copy, PartialEq, Eq, Structural)]
pub enum EncodedField {
    Salt,
    Digest,
}

pub open spec fn is_pow2(n: nat) -> bool {
    exists|k: nat| pow2(k) == n
}

/// The invariants a scheme is built with.
pub open spec fn valid_config(n: u32, r: u32, p: u32, key_length: usize) -> bool {
    &&& 0 < key_length <= 1024
    &&& n >= 2
    &&& is_pow2(n as nat)
    &&& r > 0
    &&& p > 0
}

/// Whether `scrypt::Params::new` accepts the parameters, on a 64-bit target.
pub open spec fn params_accepted(log_n: u8, r: u32, p: u32, len: usize) -> bool {
    let max = 0xffff_ffff_ffff_ffffnat;
    &&& r > 0
    &&& p > 0
    &&& log_n < 64
    &&& 10 <= len <= 64
    &&& (r as nat) * 128 * pow2(log_n as nat) <= max
    &&& (r as nat) * 128 * (p as nat) <= max
    &&& (log_n as nat) < (r as nat) * 16
    &&& (r as nat) * (p as nat) < 0x4000_0000
}

/// The scrypt derivation of `password` under `salt` with cost `2^log_n`,
/// block size `r`, parallelism `p`, truncated to `len` bytes.
pub uninterp spec fn scrypt_of(password: Seq<u8>, salt: Seq<u8>, log_n: u8, r: u32, p: u32, len: usize) -> Seq<u8>;

/// What a derivation gives: the scrypt output where the parameters are accepted.
pub open spec fn derive_spec(password: Seq<u8>, salt: Seq<u8>, log_n: u8, r: u32, p: u32, len: usize) -> Option<Seq<u8>> {
    if params_accepted(log_n, r, p, len) {
        Some(scrypt_of(password, salt, log_n, r, p, len))
    } else {
        None
    }
}

/// Relies on `scrypt::Params::new`, which returns `Ok` exactly when
/// `params_accepted` holds, and on `scrypt::scrypt`, which then fills the
/// `len`-byte output (it fails only for an empty or oversized output, which
/// `Params::new` has excluded). The derivation allocates `128 * r * 2^log_n`
/// bytes; where the machine cannot give them, the allocator aborts the process.
#[verifier::external_body]
fn scrypt_derive(password: &[u8], salt: &[u8], log_n: u8, r: u32, p: u32, len: usize) -> (res: Option<Vec<u8>>)
    ensures
        res is Some <==> params_accepted(log_n, r, p, len),
        res matches Some(v) ==> v@ == scrypt_of(password@, salt@, log_n, r, p, len),
        res matches Some(v) ==> v@.len() == len,
{
    let params = scrypt::Params::new(log_n, r, p, len).ok()?;
    let mut output = vec![0u8; len];
    scrypt::scrypt(password, salt, &params, &mut output).ok()?;
    Some(output)
}

/// The exponent `k` with `2^k == n`, if `n` is a power of two.
fn exact_log2(n: u32) -> (r: Option<u8>)
    ensures
        match r {
            Some(k) => pow2(k as nat) == n as nat,
            None => !is_pow2(n as nat),
        },
{
    let mut k: u8 = 0;
    let mut m: u64 = 1;
    proof {
        lemma2_to64();
    }
    while m < n as u64
        invariant
            m as nat == pow2(k as nat),
            k <= 32,
            forall|j: nat| j < k ==> #[trigger] pow2(j) < n as nat,
        decreases 32 - k,
    {
        proof {
            lemma_pow2_unfold((k + 1) as nat);
            lemma2_to64();
        }
        m = m * 2;
        k = k + 1;
    }
    if m == n as u64 {
        Some(k)
    } else {
        proof {
            assert forall|j: nat| pow2(j) != n as nat by {
                if j > k {
                    lemma_pow2_strictly_increases(k as nat, j);
                }
            }
        }
        None
    }
}

/// An scrypt scheme: cost `n` (a power of two), block size `r`, parallelism
/// `p`, a salt, and the number of bytes to derive.
pub struct ScryptHash {
    n: u32,
    log_n: u8,
    r: u32,
    p: u32,
    salt: Vec<u8>,
    key_length: usize,
}

impl ScryptHash {
    #[verifier::type_invariant]
    spec fn inv(&self) -> bool {
        &&& valid_config(self.n, self.r, self.p, self.key_length)
        &&& pow2(self.log_n as nat) == self.n as nat
    }

    pub closed spec fn cost(&self) -> u32 {
        self.n
    }

    pub closed spec fn cost_log2(&self) -> u8 {
        self.log_n
    }

    pub closed spec fn block_size(&self) -> u32 {
        self.r
    }

    pub closed spec fn parallelism(&self) -> u32 {
        self.p
    }

    pub closed spec fn salt_bytes(&self) -> Seq<u8> {
        self.salt@
    }

    pub closed spec fn output_len(&self) -> usize {
        self.key_length
    }

    /// What `derive_raw` gives for `password`.
    pub open spec fn derive_of(&self, password: Seq<u8>) -> Option<Seq<u8>> {
        derive_spec(password, self.salt_bytes(), self.cost_log2(), self.block_size(), self.parallelism(), self.output_len())
    }

    /// Builds a scheme, checking that `key_length` is in `1..=1024`, that `n`
    /// is a power of two no smaller than 2, and that `r` and `p` are positive.
    /// The salt is the UTF-8 encoding of `salt`.
    pub fn new(n: u32, r: u32, p: u32, salt: String, key_length: usize) -> (res: Result<ScryptHash, ScryptError>)
        ensures
            match res {
                Ok(h) => {
                    &&& valid_config(n, r, p, key_length)
                    &&& h.cost() == n
                    &&& pow2(h.cost_log2() as nat) == n as nat
                    &&& h.block_size() == r
                    &&& h.parallelism() == p
                    &&& h.salt_bytes() == encode_utf8(salt@)
                    &&& h.output_len() == key_length
                },
                Err(e) => e == ScryptError::InvalidParameters && !valid_config(n, r, p, key_length),
            },
    {
        if key_length == 0 || key_length > 1024 || n < 2 || r == 0 || p == 0 {
            return Err(ScryptError::InvalidParameters);
        }
        match exact_log2(n) {
            None => Err(ScryptError::InvalidParameters),
            Some(log_n) => {
                let salt = salt.as_str().as_bytes_vec();
                Ok(ScryptHash { n, log_n, r, p, salt, key_length })
            },
        }
    }

    /// The base-2 logarithm of the cost.
    pub fn log2_n(&self) -> (k: u8)
        ensures
            k == self.cost_log2(),
            pow2(k as nat) == self.cost() as nat,
    {
        proof {
            use_type_invariant(self);
        }
        self.log_n
    }

    /// Derives `output_len()` bytes from `password`; fails where scrypt rejects
    /// the parameters.
    pub fn derive_raw(&self, password: &[u8]) -> (res: Result<Vec<u8>, ScryptError>)
        ensures
            match res {
                Ok(v) => self.derive_of(password@) == Some(v@) && v@.len() == self.output_len(),
                Err(e) => self.derive_of(password@) is None && e == ScryptError::Derivation,
            },
    {
        match scrypt_derive(password, self.salt.as_slice(), self.log2_n(), self.r, self.p, self.key_length) {
            Some(v) => Ok(v),
            None => Err(ScryptError::Derivation),
        }
    }
}

impl HashAlgorithm for ScryptHash {
    open spec fn name_spec(&self) -> Seq<char> {
        "SCRYPT"@
    }

    /// The derived bytes, or nothing where the derivation fails.
    open spec fn digest_spec(&self, input: Seq<u8>) -> Seq<u8> {
        match self.derive_of(input) {
            Some(d) => d,
            None => Seq::<u8>::empty(),
        }
    }

    /// The lower-case hex of the derived bytes, or empty where the derivation fails.
    open spec fn hex_spec(&self, input: Seq<u8>) -> Seq<char> {
        match self.derive_of(input) {
            Some(d) => hex_lower(d),
            None => Seq::<char>::empty(),
        }
    }

    /// Derived or verified outputs have no length fixed by the scheme.
    open spec fn fixed_len(&self) -> Option<nat> {
        None
    }

    fn name(&self) -> (r: &'static str) {
        "SCRYPT"
    }

    fn hash(&self, input: &[u8]) -> (r: Vec<u8>) {
        match self.derive_raw(input) {
            Ok(v) => v,
            Err(_) => Vec::new(),
        }
    }

    fn hash_hex(&self, input: &[u8]) -> (r: String) {
        match self.derive_raw(input) {
            Ok(v) => encode_hex(v.as_slice()),
            Err(_) => String::new(),
        }
    }
}

} // verus!

verus! {

/// The characters of padded standard base64.
pub open spec fn is_base64_char(c: char) -> bool {
    ||| 'A' <= c && c <= 'Z'
    ||| 'a' <= c && c <= 'z'
    ||| '0' <= c && c <= '9'
    ||| c == '+'
    ||| c == '/'
    ||| c == '='
}

pub open spec fn is_base64_text(s: Seq<char>) -> bool {
    forall|i: int| 0 <= i < s.len() ==> is_base64_char(#[trigger] s[i])
}

/// Padded standard base64 of the bytes.
pub uninterp spec fn b64_encode_of(b: Seq<u8>) -> Seq<char>;

/// The bytes that padded standard base64 text stands for, if it is valid.
pub uninterp spec fn b64_decode_of(s: Seq<char>) -> Option<Seq<u8>>;

/// Relies on `Engine::encode` of base64's `STANDARD` engine: padded standard
/// base64, written with letters, digits, `+`, `/` and `=`, which the same
/// engine decodes back to the input.
#[verifier::external_body]
fn encode_base64(b: &[u8]) -> (r: String)
    ensures
        r@ == b64_encode_of(b@),
        is_base64_text(r@),
        b64_decode_of(r@) == Some(b@),
{
    base64::Engine::encode(&base64::engine::general_purpose::STANDARD, b)
}

/// Relies on `Engine::decode` of base64's `STANDARD` engine: the bytes, or an
/// error for text that is not canonical padded base64.
#[verifier::external_body]
fn decode_base64(s: &Vec<char>) -> (r: Option<Vec<u8>>)
    ensures
        match r {
            Some(v) => b64_decode_of(s@) == Some(v@),
            None => b64_decode_of(s@) is None,
        },
{
    let text: String = s.iter().collect();
    base64::Engine::decode(&base64::engine::general_purpose::STANDARD, text).ok()
}

pub open spec fn scrypt_tag() -> Seq<char> {
    seq!['s', 'c', 'r', 'y', 'p', 't']
}

/// The parameter segment `ln=<ln>,r=<r>,p=<p>`.
pub open spec fn params_text(ln: nat, r: nat, p: nat) -> Seq<char> {
    seq!['l', 'n', '='] + decimal(ln) + seq![',', 'r', '='] + decimal(r) + seq![',', 'p', '='] + decimal(p)
}

/// The encoded form `$scrypt$ln=<ln>,r=<r>,p=<p>$<base64 salt>$<base64 digest>`.
pub open spec fn encoding_of(ln: nat, r: nat, p: nat, salt: Seq<u8>, digest: Seq<u8>) -> Seq<char> {
    seq!['$'] + scrypt_tag() + seq!['$'] + params_text(ln, r, p) + seq!['$'] + b64_encode_of(salt)
        + seq!['$'] + b64_encode_of(digest)
}

/// The value of the last `key=value` entry for `key`, parsed against `max`;
/// an entry without `=` is skipped, and only the text up to a second `=` is the value.
pub open spec fn param_spec(kvs: Seq<Seq<char>>, key: Seq<char>, max: nat) -> Option<nat>
    decreases kvs.len(),
{
    if kvs.len() == 0 {
        None
    } else {
        let kv = split_spec(kvs.last(), '=');
        if kv.len() >= 2 && kv[0] == key {
            parse_unsigned(kv[1], max)
        } else {
            param_spec(kvs.drop_last(), key, max)
        }
    }
}

/// The parts of an encoding, or the first error found in it, checked in the
/// order: shape, `ln`, `r`, `p`, salt, digest.
pub open spec fn parse_spec(s: Seq<char>) -> Result<(u8, u32, u32, Seq<u8>, Seq<u8>), ScryptError> {
    let parts = split_spec(s, '$');
    if parts.len() != 5 || parts[0].len() != 0 || parts[1] != scrypt_tag() {
        Err(ScryptError::BadStructure)
    } else {
        let kvs = split_spec(parts[2], ',');
        match param_spec(kvs, key_text(ParamKey::Ln), 0xff) {
            None => Err(ScryptError::MissingParam(ParamKey::Ln)),
            Some(ln) => match param_spec(kvs, key_text(ParamKey::R), 0xffff_ffff) {
                None => Err(ScryptError::MissingParam(ParamKey::R)),
                Some(r) => match param_spec(kvs, key_text(ParamKey::P), 0xffff_ffff) {
                    None => Err(ScryptError::MissingParam(ParamKey::P)),
                    Some(p) => match b64_decode_of(parts[3]) {
                        None => Err(ScryptError::BadEncoding(EncodedField::Salt)),
                        Some(salt) => match b64_decode_of(parts[4]) {
                            None => Err(ScryptError::BadEncoding(EncodedField::Digest)),
                            Some(digest) => Ok((ln as u8, r as u32, p as u32, salt, digest)),
                        },
                    },
                },
            },
        }
    }
}

/// The outcome of verifying `candidate` against the encoding `s`: the parse
/// error, a derivation error, or whether the derived bytes equal the digest.
pub open spec fn verify_spec(s: Seq<char>, candidate: Seq<u8>) -> Result<bool, ScryptError> {
    match parse_spec(s) {
        Err(e) => Err(e),
        Ok((ln, r, p, salt, digest)) => if !encoded_config_valid(ln, r, p, digest.len()) {
            Err(ScryptError::InvalidParameters)
        } else {
            match derive_spec(candidate, salt, ln, r, p, digest.len() as usize) {
                None => Err(ScryptError::Derivation),
                Some(d) => Ok(d == digest),
            }
        },
    }
}

/// Whether decoded parameters describe a scheme that `ScryptHash::new` would
/// build: a cost `2^ln` that is at least 2 and fits a `u32`, positive block
/// size and parallelism, and a digest of 1 to 1024 bytes.
pub open spec fn encoded_config_valid(ln: u8, r: u32, p: u32, len: nat) -> bool {
    &&& 1 <= ln < 32
    &&& r > 0
    &&& p > 0
    &&& 0 < len <= 1024
}

/// A decoded encoding: cost exponent, block size, parallelism, salt and
/// digest. Only `parse_encoded` builds one.
pub struct EncodedHash {
    log_n: u8,
    r: u32,
    p: u32,
    salt: Vec<u8>,
    digest: Vec<u8>,
}

impl EncodedHash {
    /// The decoded parts: cost exponent, block size, parallelism, salt, digest.
    pub closed spec fn parts(&self) -> (u8, u32, u32, Seq<u8>, Seq<u8>) {
        (self.log_n, self.r, self.p, self.salt@, self.digest@)
    }

    pub fn log_n(&self) -> (r: u8)
        ensures
            r == self.parts().0,
    {
        self.log_n
    }

    pub fn r(&self) -> (r: u32)
        ensures
            r == self.parts().1,
    {
        self.r
    }

    pub fn p(&self) -> (r: u32)
        ensures
            r == self.parts().2,
    {
        self.p
    }

    pub fn salt(&self) -> (r: &Vec<u8>)
        ensures
            r@ == self.parts().3,
    {
        &self.salt
    }

    pub fn digest(&self) -> (r: &Vec<u8>)
        ensures
            r@ == self.parts().4,
    {
        &self.digest
    }
}

fn same_chars(a: &Vec<char>, b: &Vec<char>) -> (r: bool)
    ensures
        r == (a@ == b@),
{
    if a.len() != b.len() {
        return false;
    }
    let mut i: usize = 0;
    while i < a.len()
        invariant
            i <= a.len(),
            a.len() == b.len(),
            forall|j: int| 0 <= j < i ==> a@[j] == b@[j],
        decreases a.len() - i,
    {
        if a[i] != b[i] {
            return false;
        }
        i += 1;
    }
    assert(a@ =~= b@);
    true
}

fn param_value(kvs: &Vec<Vec<char>>, key: &Vec<char>, max: u32) -> (r: Option<u32>)
    ensures
        match r {
            Some(v) => param_spec(pieces_view(kvs@), key@, max as nat) == Some(v as nat),
            None => param_spec(pieces_view(kvs@), key@, max as nat) is None,
        },
{
    let ghost all = pieces_view(kvs@);
    let mut found: Option<u32> = None;
    let mut i: usize = 0;
    assert(all.take(0).len() == 0);
    while i < kvs.len()
        invariant
            i <= kvs.len(),
            all == pieces_view(kvs@),
            match found {
                Some(v) => param_spec(all.take(i as int), key@, max as nat) == Some(v as nat),
                None => param_spec(all.take(i as int), key@, max as nat) is None,
            },
        decreases kvs.len() - i,
    {
        let kv = split_chars(&kvs[i], '=');
        assert(all.take(i + 1).drop_last() =~= all.take(i as int));
        assert(all.take(i + 1).last() == kvs@[i as int]@);
        if kv.len() >= 2 && same_chars(&kv[0], key) {
            assert(pieces_view(kv@)[0] == kv@[0]@);
            assert(pieces_view(kv@)[1] == kv@[1]@);
            found = parse_decimal(&kv[1], max);
        } else {
            assert(kv.len() >= 2 ==> pieces_view(kv@)[0] == kv@[0]@);
        }
        i += 1;
    }
    assert(all.take(kvs.len() as int) =~= all);
    found
}

/// Decodes `$scrypt$ln=<u8>,r=<u32>,p=<u32>$<base64 salt>$<base64 digest>`.
pub fn parse_encoded(encoded: &str) -> (res: Result<EncodedHash, ScryptError>)
    ensures
        match res {
            Ok(h) => parse_spec(encoded@) matches Ok(t) && t == h.parts(),
            Err(e) => parse_spec(encoded@) matches Err(f) && f == e,
        },
{
    let chars = chars_of(encoded);
    let parts = split_chars(&chars, '$');
    let tag: Vec<char> = vec!['s', 'c', 'r', 'y', 'p', 't'];
    assert(tag@ =~= scrypt_tag());
    if parts.len() != 5 || parts[0].len() != 0 || !same_chars(&parts[1], &tag) {
        assert(parts.len() == 5 ==> pieces_view(parts@)[0] == parts@[0]@ && pieces_view(parts@)[1] == parts@[1]@);
        return Err(ScryptError::BadStructure);
    }
    assert(pieces_view(parts@)[0] == parts@[0]@);
    assert(pieces_view(parts@)[1] == parts@[1]@);
    assert(pieces_view(parts@)[2] == parts@[2]@);
    assert(pieces_view(parts@)[3] == parts@[3]@);
    assert(pieces_view(parts@)[4] == parts@[4]@);
    let kvs = split_chars(&parts[2], ',');
    let ln_key: Vec<char> = vec!['l', 'n'];
    let r_key: Vec<char> = vec!['r'];
    let p_key: Vec<char> = vec!['p'];
    assert(ln_key@ =~= key_text(ParamKey::Ln));
    assert(r_key@ =~= key_text(ParamKey::R));
    assert(p_key@ =~= key_text(ParamKey::P));
    let log_n = match param_value(&kvs, &ln_key, 0xff) {
        Some(v) => v as u8,
        None => {
            return Err(ScryptError::MissingParam(ParamKey::Ln));
        },
    };
    let r = match param_value(&kvs, &r_key, 0xffff_ffff) {
        Some(v) => v,
        None => {
            return Err(ScryptError::MissingParam(ParamKey::R));
        },
    };
    let p = match param_value(&kvs, &p_key, 0xffff_ffff) {
        Some(v) => v,
        None => {
            return Err(ScryptError::MissingParam(ParamKey::P));
        },
    };
    let salt = match decode_base64(&parts[3]) {
        Some(v) => v,
        None => {
            return Err(ScryptError::BadEncoding(EncodedField::Salt));
        },
    };
    let digest = match decode_base64(&parts[4]) {
        Some(v) => v,
        None => {
            return Err(ScryptError::BadEncoding(EncodedField::Digest));
        },
    };
    Ok(EncodedHash { log_n, r, p, salt, digest })
}

fn same_bytes(a: &Vec<u8>, b: &Vec<u8>) -> (r: bool)
    ensures
        r == (a@ == b@),
{
    if a.len() != b.len() {
        return false;
    }
    let mut i: usize = 0;
    while i < a.len()
        invariant
            i <= a.len(),
            a.len() == b.len(),
            forall|j: int| 0 <= j < i ==> a@[j] == b@[j],
        decreases a.len() - i,
    {
        if a[i] != b[i] {
            return false;
        }
        i += 1;
    }
    assert(a@ =~= b@);
    true
}

fn push_chars(out: &mut Vec<char>, text: &str)
    ensures
        final(out)@ == old(out)@ + text@,
{
    let mut more = chars_of(text);
    out.append(&mut more);
}

impl ScryptHash {
    /// `e` is the encoding of this scheme with the bytes derived from
    /// `password`, whose base64 fields are written in the base64 alphabet and
    /// decode back to the salt and the derived bytes.
    pub open spec fn encodes(&self, password: Seq<u8>, e: Seq<char>) -> bool {
        match self.derive_of(password) {
            None => false,
            Some(d) => {
                &&& d.len() == self.output_len()
                &&& encoded_config_valid(self.cost_log2(), self.block_size(), self.parallelism(), d.len())
                &&& e == encoding_of(
                    self.cost_log2() as nat,
                    self.block_size() as nat,
                    self.parallelism() as nat,
                    self.salt_bytes(),
                    d,
                )
                &&& is_base64_text(b64_encode_of(self.salt_bytes()))
                &&& is_base64_text(b64_encode_of(d))
                &&& b64_decode_of(b64_encode_of(self.salt_bytes())) == Some(self.salt_bytes())
                &&& b64_decode_of(b64_encode_of(d)) == Some(d)
            },
        }
    }

    /// The self-describing form `$scrypt$ln=<log2 n>,r=<r>,p=<p>$<base64 salt>$<base64 derived bytes>`.
    pub fn encode_password_hash(&self, password: &[u8]) -> (res: Result<String, ScryptError>)
        ensures
            match res {
                Ok(s) => self.encodes(password@, s@),
                Err(e) => e == ScryptError::Derivation && self.derive_of(password@) is None,
            },
    {
        let dk = match self.derive_raw(password) {
            Ok(v) => v,
            Err(e) => {
                return Err(e);
            },
        };
        proof {
            use_type_invariant(self);
            lemma_exponent_range(self.log_n, self.n);
        }
        let salt_b64 = encode_base64(self.salt.as_slice());
        let dk_b64 = encode_base64(dk.as_slice());
        let mut out: Vec<char> = vec!['$', 's', 'c', 'r', 'y', 'p', 't', '$', 'l', 'n', '='];
        push_decimal(&mut out, self.log2_n() as u32);
        out.push(',');
        out.push('r');
        out.push('=');
        push_decimal(&mut out, self.r);
        out.push(',');
        out.push('p');
        out.push('=');
        push_decimal(&mut out, self.p);
        out.push('$');
        push_chars(&mut out, salt_b64.as_str());
        out.push('$');
        push_chars(&mut out, dk_b64.as_str());
        assert(out@ =~= encoding_of(
            self.log_n as nat,
            self.r as nat,
            self.p as nat,
            self.salt@,
            dk@,
        ));
        Ok(string_of(&out))
    }

    /// Verifies `candidate` against a self-describing encoding: the parse
    /// error for a malformed encoding, `InvalidParameters` where the decoded
    /// parameters break the invariants of a scheme (checked before any
    /// derivation), `Derivation` where scrypt rejects them (with the digest's
    /// length as output length), and
    /// otherwise whether the derived bytes equal the decoded digest.
    pub fn verify_encoded(encoded: &str, candidate: &[u8]) -> (res: Result<bool, ScryptError>)
        ensures
            res == verify_spec(encoded@, candidate@),
    {
        let parsed = match parse_encoded(encoded) {
            Ok(h) => h,
            Err(e) => {
                return Err(e);
            },
        };
        let len = parsed.digest.len();
        if parsed.log_n < 1 || parsed.log_n >= 32 || parsed.r == 0 || parsed.p == 0 || len == 0 || len > 1024 {
            return Err(ScryptError::InvalidParameters);
        }
        match scrypt_derive(
            candidate,
            parsed.salt.as_slice(),
            parsed.log_n,
            parsed.r,
            parsed.p,
            parsed.digest.len(),
        ) {
            None => Err(ScryptError::Derivation),
            Some(actual) => Ok(same_bytes(&actual, &parsed.digest)),
        }
    }

    /// Verifies `candidate` against a hex digest of either case:
    /// `BadEncoding(Digest)` for text that is not hex, `Derivation` where the
    /// derivation fails, else whether the derived bytes equal the decoded ones.
    pub fn verify_hex(&self, hex_hash: &str, candidate: &[u8]) -> (res: Result<bool, ScryptError>)
        ensures
            match hex_decode_spec(hex_hash@) {
                None => res == Err::<bool, ScryptError>(ScryptError::BadEncoding(EncodedField::Digest)),
                Some(expected) => match self.derive_of(candidate@) {
                    None => res == Err::<bool, ScryptError>(ScryptError::Derivation),
                    Some(actual) => res == Ok::<bool, ScryptError>(actual == expected),
                },
            },
    {
        let expected = match decode_hex(hex_hash) {
            Some(v) => v,
            None => {
                return Err(ScryptError::BadEncoding(EncodedField::Digest));
            },
        };
        match self.derive_raw(candidate) {
            Ok(actual) => Ok(same_bytes(&actual, &expected)),
            Err(e) => Err(e),
        }
    }
}

/// The exponent of a `u32` power of two that is at least 2 lies in `1..32`.
proof fn lemma_exponent_range(k: u8, n: u32)
    requires
        pow2(k as nat) == n as nat,
        n >= 2,
    ensures
        1 <= k < 32,
{
    reveal(pow2);
    lemma2_to64();
    if k > 32 {
        lemma_pow2_strictly_increases(32, k as nat);
    }
}

proof fn lemma_no_sep_in_params(ln: nat, r: nat, p: nat, sep: char)
    requires
        sep == '$' || sep == ',' || sep == '=',
    ensures
        !decimal(ln).contains(sep),
        !decimal(r).contains(sep),
        !decimal(p).contains(sep),
{
    lemma_decimal_digits(ln);
    lemma_decimal_digits(r);
    lemma_decimal_digits(p);
}

/// How a `key=<n>` entry splits at `=`.
proof fn lemma_split_entry(key: Seq<char>, n: nat)
    requires
        !key.contains('='),
    ensures
        split_spec(key + seq!['='] + decimal(n), '=') == seq![key, decimal(n)],
{
    lemma_no_sep_in_params(n, n, n, '=');
    lemma_split_concat(key, decimal(n), '=');
    lemma_split_no_sep(key, '=');
    lemma_split_no_sep(decimal(n), '=');
    assert(seq![key] + seq![decimal(n)] =~= seq![key, decimal(n)]);
}

/// How the parameter segment splits at `,`, and what each entry holds.
proof fn lemma_params_parse(ln: u8, r: u32, p: u32)
    ensures
        param_spec(split_spec(params_text(ln as nat, r as nat, p as nat), ','), key_text(ParamKey::Ln), 0xff) == Some(ln as nat),
        param_spec(split_spec(params_text(ln as nat, r as nat, p as nat), ','), key_text(ParamKey::R), 0xffff_ffff) == Some(r as nat),
        param_spec(split_spec(params_text(ln as nat, r as nat, p as nat), ','), key_text(ParamKey::P), 0xffff_ffff) == Some(p as nat),
{
    let ln_key = seq!['l', 'n'];
    let r_key = seq!['r'];
    let p_key = seq!['p'];
    let e1 = ln_key + seq!['='] + decimal(ln as nat);
    let e2 = r_key + seq!['='] + decimal(r as nat);
    let e3 = p_key + seq!['='] + decimal(p as nat);
    let text = params_text(ln as nat, r as nat, p as nat);
    assert(text =~= (e1 + seq![','] + e2) + seq![','] + e3);
    lemma_no_sep_in_params(ln as nat, r as nat, p as nat, ',');
    assert(!e1.contains(',')) by {
        assert forall|i: int| 0 <= i < e1.len() implies e1[i] != ',' by {
            if i >= 3 {
                assert(e1[i] == decimal(ln as nat)[i - 3]);
            }
        }
    }
    assert(!e2.contains(',')) by {
        assert forall|i: int| 0 <= i < e2.len() implies e2[i] != ',' by {
            if i >= 2 {
                assert(e2[i] == decimal(r as nat)[i - 2]);
            }
        }
    }
    assert(!e3.contains(',')) by {
        assert forall|i: int| 0 <= i < e3.len() implies e3[i] != ',' by {
            if i >= 2 {
                assert(e3[i] == decimal(p as nat)[i - 2]);
            }
        }
    }
    lemma_split_concat(e1 + seq![','] + e2, e3, ',');
    lemma_split_concat(e1, e2, ',');
    lemma_split_no_sep(e1, ',');
    lemma_split_no_sep(e2, ',');
    lemma_split_no_sep(e3, ',');
    let kvs = split_spec(text, ',');
    assert(kvs =~= seq![e1, e2, e3]);
    lemma_split_entry(ln_key, ln as nat);
    lemma_split_entry(r_key, r as nat);
    lemma_split_entry(p_key, p as nat);
    lemma_parse_decimal(ln as nat, 0xff);
    lemma_parse_decimal(r as nat, 0xffff_ffff);
    lemma_parse_decimal(p as nat, 0xffff_ffff);
    assert(p_key[0] != r_key[0]);
    assert(p_key != ln_key);
    assert(r_key != ln_key);
    assert(key_text(ParamKey::Ln) == ln_key);
    assert(key_text(ParamKey::R) == r_key);
    assert(key_text(ParamKey::P) == p_key);
    let k2 = seq![e1, e2];
    let k1 = seq![e1];
    assert(kvs.drop_last() =~= k2);
    assert(k2.drop_last() =~= k1);
    assert(kvs.last() == e3);
    assert(k2.last() == e2);
    assert(k1.last() == e1);
    assert(param_spec(k1, ln_key, 0xff) == Some(ln as nat));
    assert(param_spec(k2, ln_key, 0xff) == Some(ln as nat));
    assert(param_spec(kvs, ln_key, 0xff) == Some(ln as nat));
    assert(param_spec(k2, r_key, 0xffff_ffff) == Some(r as nat));
    assert(param_spec(kvs, r_key, 0xffff_ffff) == Some(r as nat));
}

/// An encoding made by a scheme parses back to the scheme's parameters, its
/// salt and the derived bytes.
pub proof fn lemma_encoding_parses(h: ScryptHash, password: Seq<u8>, encoded: Seq<char>)
    requires
        h.encodes(password, encoded),
    ensures
        h.derive_of(password) matches Some(d) && parse_spec(encoded) == Ok::<(u8, u32, u32, Seq<u8>, Seq<u8>), ScryptError>(
            (h.cost_log2(), h.block_size(), h.parallelism(), h.salt_bytes(), d),
        ),
{
    let d = h.derive_of(password).unwrap();
    let ln = h.cost_log2();
    let r = h.block_size();
    let p = h.parallelism();
    let salt = h.salt_bytes();
    let tag = scrypt_tag();
    let params = params_text(ln as nat, r as nat, p as nat);
    let s64 = b64_encode_of(salt);
    let d64 = b64_encode_of(d);
    let empty = Seq::<char>::empty();
    assert(encoded =~= (((empty + seq!['$'] + tag) + seq!['$'] + params) + seq!['$'] + s64) + seq!['$'] + d64);
    lemma_no_sep_in_params(ln as nat, r as nat, p as nat, '$');
    assert(!params.contains('$')) by {
        assert forall|i: int| 0 <= i < params.len() implies params[i] != '$' by {
            let a = decimal(ln as nat).len();
            let b = decimal(r as nat).len();
            if 3 <= i < 3 + a {
                assert(params[i] == decimal(ln as nat)[i - 3]);
            } else if 6 + a <= i < 6 + a + b {
                assert(params[i] == decimal(r as nat)[i - 6 - a]);
            } else if 9 + a + b <= i {
                assert(params[i] == decimal(p as nat)[i - 9 - a - b]);
            }
        }
    }
    assert(!tag.contains('$'));
    assert(!s64.contains('$')) by {
        assert forall|i: int| 0 <= i < s64.len() implies s64[i] != '$' by {
            assert(is_base64_char(s64[i]));
        }
    }
    assert(!d64.contains('$')) by {
        assert forall|i: int| 0 <= i < d64.len() implies d64[i] != '$' by {
            assert(is_base64_char(d64[i]));
        }
    }
    lemma_split_concat(((empty + seq!['$'] + tag) + seq!['$'] + params) + seq!['$'] + s64, d64, '$');
    lemma_split_concat((empty + seq!['$'] + tag) + seq!['$'] + params, s64, '$');
    lemma_split_concat(empty + seq!['$'] + tag, params, '$');
    lemma_split_concat(empty, tag, '$');
    lemma_split_no_sep(empty, '$');
    lemma_split_no_sep(tag, '$');
    lemma_split_no_sep(params, '$');
    lemma_split_no_sep(s64, '$');
    lemma_split_no_sep(d64, '$');
    let parts = split_spec(encoded, '$');
    assert(parts =~= seq![empty, tag, params, s64, d64]);
    lemma_params_parse(ln, r, p);
    assert(parse_spec(encoded) == Ok::<(u8, u32, u32, Seq<u8>, Seq<u8>), ScryptError>((ln, r, p, salt, d)));
}

/// Verifying a password against the encoding made from it succeeds.
pub proof fn lemma_encode_then_verify(h: ScryptHash, password: Seq<u8>, encoded: Seq<char>)
    requires
        h.encodes(password, encoded),
    ensures
        verify_spec(encoded, password) == Ok::<bool, ScryptError>(true),
{
    lemma_encoding_parses(h, password, encoded);
}

/// Verifying any candidate against an encoding made by a scheme succeeds or
/// fails as the scheme's own derivations of the two agree or differ: a
/// different password is accepted only if scrypt maps both to the same bytes.
pub proof fn lemma_verify_other_password(h: ScryptHash, password: Seq<u8>, encoded: Seq<char>, other: Seq<u8>)
    requires
        h.encodes(password, encoded),
    ensures
        h.derive_of(other) is Some,
        verify_spec(encoded, other) == Ok::<bool, ScryptError>(h.derive_of(other) == h.derive_of(password)),
{
    lemma_encoding_parses(h, password, encoded);
}

} // verus!
