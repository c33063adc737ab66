//! Scheme selection and the scan that looks for the first matching candidate.
use vstd::prelude::*;
use vstd::utf8::encode_utf8;
use crate::bcrypt::{bcrypt_verify_of, BcryptHash};
use crate::digest::{HashAlgorithm, Md2Hash, Md4Hash, Md5Hash, Md6Hash, Sha1Hash, Sha2Hash, Sha3Hash};
use crate::scrypt::{valid_config, verify_spec, ScryptError, ScryptHash};
use crate::text::{ascii_lower, chars_of, encode_hex, eq_ignore_ascii_case, hex_lower};
use vstd::arithmetic::power2::pow2;

verus! {

/// The scheme a run uses.
#[derive(Debug, Clone, Copy, PartialEq, Eq, Structural)]
pub enum HashMode {
    Md2,
    Md4,
    Md5,
    Md6,
    Sha1,
    Sha2,
    Sha3,
    Bcrypt,
    Scrypt,
}

/// The parameters of a raw scrypt comparison.
pub struct ScryptParams {
    pub n: u32,
    pub r: u32,
    pub p: u32,
    pub salt: String,
    pub key_length: usize,
}

/// One scheme instance of any family.
pub enum Hasher {
    Md2(Md2Hash),
    Md4(Md4Hash),
    Md5(Md5Hash),
    Md6(Md6Hash),
    Sha1(Sha1Hash),
    Sha2(Sha2Hash),
    Sha3(Sha3Hash),
    Bcrypt(BcryptHash),
    Scrypt(ScryptHash),
}

impl HashAlgorithm for Hasher {
    open spec fn name_spec(&self) -> Seq<char> {
        match self {
            Hasher::Md2(h) => h.name_spec(),
            Hasher::Md4(h) => h.name_spec(),
            Hasher::Md5(h) => h.name_spec(),
            Hasher::Md6(h) => h.name_spec(),
            Hasher::Sha1(h) => h.name_spec(),
            Hasher::Sha2(h) => h.name_spec(),
            Hasher::Sha3(h) => h.name_spec(),
            Hasher::Bcrypt(h) => h.name_spec(),
            Hasher::Scrypt(h) => h.name_spec(),
        }
    }

    open spec fn digest_spec(&self, input: Seq<u8>) -> Seq<u8> {
        match self {
            Hasher::Md2(h) => h.digest_spec(input),
            Hasher::Md4(h) => h.digest_spec(input),
            Hasher::Md5(h) => h.digest_spec(input),
            Hasher::Md6(h) => h.digest_spec(input),
            Hasher::Sha1(h) => h.digest_spec(input),
            Hasher::Sha2(h) => h.digest_spec(input),
            Hasher::Sha3(h) => h.digest_spec(input),
            Hasher::Bcrypt(h) => h.digest_spec(input),
            Hasher::Scrypt(h) => h.digest_spec(input),
        }
    }

    open spec fn hex_spec(&self, input: Seq<u8>) -> Seq<char> {
        match self {
            Hasher::Md2(h) => h.hex_spec(input),
            Hasher::Md4(h) => h.hex_spec(input),
            Hasher::Md5(h) => h.hex_spec(input),
            Hasher::Md6(h) => h.hex_spec(input),
            Hasher::Sha1(h) => h.hex_spec(input),
            Hasher::Sha2(h) => h.hex_spec(input),
            Hasher::Sha3(h) => h.hex_spec(input),
            Hasher::Bcrypt(h) => h.hex_spec(input),
            Hasher::Scrypt(h) => h.hex_spec(input),
        }
    }

    open spec fn fixed_len(&self) -> Option<nat> {
        match self {
            Hasher::Md2(h) => h.fixed_len(),
            Hasher::Md4(h) => h.fixed_len(),
            Hasher::Md5(h) => h.fixed_len(),
            Hasher::Md6(h) => h.fixed_len(),
            Hasher::Sha1(h) => h.fixed_len(),
            Hasher::Sha2(h) => h.fixed_len(),
            Hasher::Sha3(h) => h.fixed_len(),
            Hasher::Bcrypt(h) => h.fixed_len(),
            Hasher::Scrypt(h) => h.fixed_len(),
        }
    }

    fn name(&self) -> (r: &'static str) {
        match self {
            Hasher::Md2(h) => h.name(),
            Hasher::Md4(h) => h.name(),
            Hasher::Md5(h) => h.name(),
            Hasher::Md6(h) => h.name(),
            Hasher::Sha1(h) => h.name(),
            Hasher::Sha2(h) => h.name(),
            Hasher::Sha3(h) => h.name(),
            Hasher::Bcrypt(h) => h.name(),
            Hasher::Scrypt(h) => h.name(),
        }
    }

    fn hash(&self, input: &[u8]) -> (r: Vec<u8>) {
        match self {
            Hasher::Md2(h) => h.hash(input),
            Hasher::Md4(h) => h.hash(input),
            Hasher::Md5(h) => h.hash(input),
            Hasher::Md6(h) => h.hash(input),
            Hasher::Sha1(h) => h.hash(input),
            Hasher::Sha2(h) => h.hash(input),
            Hasher::Sha3(h) => h.hash(input),
            Hasher::Bcrypt(h) => h.hash(input),
            Hasher::Scrypt(h) => h.hash(input),
        }
    }

    fn hash_hex(&self, input: &[u8]) -> (r: String) {
        match self {
            Hasher::Md2(h) => h.hash_hex(input),
            Hasher::Md4(h) => h.hash_hex(input),
            Hasher::Md5(h) => h.hash_hex(input),
            Hasher::Md6(h) => h.hash_hex(input),
            Hasher::Sha1(h) => h.hash_hex(input),
            Hasher::Sha2(h) => h.hash_hex(input),
            Hasher::Sha3(h) => h.hash_hex(input),
            Hasher::Bcrypt(h) => h.hash_hex(input),
            Hasher::Scrypt(h) => h.hash_hex(input),
        }
    }
}

/// Why no scheme could be set up.
#[derive(Debug, Clone, Copy, PartialEq, Eq, Structural)]
pub enum SetupError {
    /// A raw scrypt comparison was asked for without its parameters.
    MissingScryptParams,
    /// The scrypt parameters break an invariant of the scheme.
    InvalidParameters,
}

pub open spec fn scrypt_prefix() -> Seq<char> {
    seq!['$', 's', 'c', 'r', 'y', 'p', 't', '$']
}

/// Whether `target` is a self-describing scrypt encoding (it starts with `$scrypt$`).
pub open spec fn is_scrypt_encoding(target: Seq<char>) -> bool {
    target.len() >= 8 && target.take(8) == scrypt_prefix()
}

/// Whether `s` starts with `$scrypt$`.
pub fn starts_with_scrypt(s: &str) -> (r: bool)
    ensures
        r == is_scrypt_encoding(s@),
{
    let chars = chars_of(s);
    let prefix: Vec<char> = vec!['$', 's', 'c', 'r', 'y', 'p', 't', '$'];
    if chars.len() < 8 {
        return false;
    }
    let mut i: usize = 0;
    while i < 8
        invariant
            i <= 8,
            chars.len() >= 8,
            chars@ == s@,
            prefix@ == scrypt_prefix(),
            forall|j: int| 0 <= j < i ==> chars@[j] == prefix@[j],
        decreases 8 - i,
    {
        if chars[i] != prefix[i] {
            assert(chars@.take(8)[i as int] != scrypt_prefix()[i as int]);
            return false;
        }
        i += 1;
    }
    assert(chars@.take(8) =~= scrypt_prefix());
    true
}

/// Sets up the scheme for `mode`. An scrypt run against an encoded target
/// (`$scrypt$...`) needs no instance, as the encoding carries its own
/// parameters; a raw scrypt run needs `scrypt`. A bcrypt scheme holds `hash`
/// as its reference.
pub fn create_hasher(mode: HashMode, hash: &str, scrypt: Option<ScryptParams>) -> (res: Result<Option<Hasher>, SetupError>)
    ensures
        match mode {
            HashMode::Md2 => res == Ok::<Option<Hasher>, SetupError>(Some(Hasher::Md2(Md2Hash))),
            HashMode::Md4 => res == Ok::<Option<Hasher>, SetupError>(Some(Hasher::Md4(Md4Hash))),
            HashMode::Md5 => res == Ok::<Option<Hasher>, SetupError>(Some(Hasher::Md5(Md5Hash))),
            HashMode::Md6 => res == Ok::<Option<Hasher>, SetupError>(Some(Hasher::Md6(Md6Hash))),
            HashMode::Sha1 => res == Ok::<Option<Hasher>, SetupError>(Some(Hasher::Sha1(Sha1Hash))),
            HashMode::Sha2 => res == Ok::<Option<Hasher>, SetupError>(Some(Hasher::Sha2(Sha2Hash))),
            HashMode::Sha3 => res == Ok::<Option<Hasher>, SetupError>(Some(Hasher::Sha3(Sha3Hash))),
            HashMode::Bcrypt => res matches Ok(Some(Hasher::Bcrypt(b))) && b.reference() == hash@,
            HashMode::Scrypt => if is_scrypt_encoding(hash@) {
                res matches Ok(None)
            } else {
                match scrypt {
                    None => res == Err::<Option<Hasher>, SetupError>(SetupError::MissingScryptParams),
                    Some(sp) => if valid_config(sp.n, sp.r, sp.p, sp.key_length) {
                        res matches Ok(Some(Hasher::Scrypt(h))) && {
                            &&& h.cost() == sp.n
                            &&& pow2(h.cost_log2() as nat) == sp.n as nat
                            &&& h.block_size() == sp.r
                            &&& h.parallelism() == sp.p
                            &&& h.salt_bytes() == encode_utf8(sp.salt@)
                            &&& h.output_len() == sp.key_length
                        }
                    } else {
                        res == Err::<Option<Hasher>, SetupError>(SetupError::InvalidParameters)
                    },
                }
            },
        },
{
    match mode {
        HashMode::Md2 => Ok(Some(Hasher::Md2(Md2Hash))),
        HashMode::Md4 => Ok(Some(Hasher::Md4(Md4Hash))),
        HashMode::Md5 => Ok(Some(Hasher::Md5(Md5Hash))),
        HashMode::Md6 => Ok(Some(Hasher::Md6(Md6Hash))),
        HashMode::Sha1 => Ok(Some(Hasher::Sha1(Sha1Hash))),
        HashMode::Sha2 => Ok(Some(Hasher::Sha2(Sha2Hash))),
        HashMode::Sha3 => Ok(Some(Hasher::Sha3(Sha3Hash))),
        HashMode::Bcrypt => {
            let reference = String::from_str(hash);
            Ok(Some(Hasher::Bcrypt(BcryptHash::new(reference))))
        },
        HashMode::Scrypt => {
            if starts_with_scrypt(hash) {
                Ok(None)
            } else {
                match scrypt {
                    None => Err(SetupError::MissingScryptParams),
                    Some(sp) => match ScryptHash::new(sp.n, sp.r, sp.p, sp.salt, sp.key_length) {
                        Ok(h) => Ok(Some(Hasher::Scrypt(h))),
                        Err(_) => Err(SetupError::InvalidParameters),
                    },
                }
            }
        },
    }
}

/// Why one candidate could not be checked.
#[derive(Debug, Clone, Copy, PartialEq, Eq, Structural)]
pub enum CandidateError {
    /// Verifying against an encoded target, or deriving for a raw one, failed.
    Scrypt(ScryptError),
    /// The bcrypt reference is not a usable bcrypt hash.
    BcryptReference,
    /// No scheme instance was set up for a comparison of hex digests.
    NoScheme,
}

/// How a scheme instance compares `input` with a hex or reference `target`,
/// ignoring ASCII case. Only a successful computation is compared: a failed
/// scrypt derivation or bcrypt check is an error, never a match.
pub open spec fn hasher_outcome(h: Hasher, input: Seq<u8>, target: Seq<char>) -> Result<bool, CandidateError> {
    match h {
        Hasher::Scrypt(s) => match s.derive_of(input) {
            None => Err(CandidateError::Scrypt(ScryptError::Derivation)),
            Some(d) => Ok(ascii_lower(hex_lower(d)) == ascii_lower(target)),
        },
        Hasher::Bcrypt(b) => match bcrypt_verify_of(input, b.reference()) {
            None => Err(CandidateError::BcryptReference),
            Some(m) => Ok(m && ascii_lower(b.reference()) == ascii_lower(target)),
        },
        _ => Ok(ascii_lower(h.hex_spec(input)) == ascii_lower(target)),
    }
}

/// How one candidate fares against `target`: an scrypt run with an encoded
/// target verifies against the encoding; every other run compares through
/// the scheme instance, which must be there.
pub open spec fn candidate_outcome(mode: HashMode, hasher: Option<Hasher>, target: Seq<char>, word: Seq<char>) -> Result<bool, CandidateError> {
    if mode == HashMode::Scrypt && is_scrypt_encoding(target) {
        match verify_spec(target, encode_utf8(word)) {
            Ok(b) => Ok(b),
            Err(e) => Err(CandidateError::Scrypt(e)),
        }
    } else {
        match hasher {
            Some(h) => hasher_outcome(h, encode_utf8(word), target),
            None => Err(CandidateError::NoScheme),
        }
    }
}

/// Whether a candidate matches; an error is no match.
pub open spec fn candidate_matches(mode: HashMode, hasher: Option<Hasher>, target: Seq<char>, word: Seq<char>) -> bool {
    candidate_outcome(mode, hasher, target, word) == Ok::<bool, CandidateError>(true)
}

fn compare_hex(computed: &String, target: &str) -> (r: bool)
    ensures
        r == (ascii_lower(computed@) == ascii_lower(target@)),
{
    let computed_chars = chars_of(computed.as_str());
    let target_chars = chars_of(target);
    eq_ignore_ascii_case(&computed_chars, &target_chars)
}

/// Checks one candidate against `target`.
pub fn check_candidate(mode: HashMode, hasher: &Option<Hasher>, target: &str, word: &str) -> (r: Result<bool, CandidateError>)
    ensures
        r == candidate_outcome(mode, *hasher, target@, word@),
{
    let bytes = word.as_bytes_vec();
    if mode == HashMode::Scrypt && starts_with_scrypt(target) {
        match ScryptHash::verify_encoded(target, bytes.as_slice()) {
            Ok(b) => Ok(b),
            Err(e) => Err(CandidateError::Scrypt(e)),
        }
    } else {
        match hasher {
            Some(Hasher::Scrypt(s)) => match s.derive_raw(bytes.as_slice()) {
                Ok(d) => Ok(compare_hex(&encode_hex(d.as_slice()), target)),
                Err(e) => Err(CandidateError::Scrypt(e)),
            },
            Some(Hasher::Bcrypt(b)) => match b.verify(bytes.as_slice()) {
                Some(m) => Ok(m && compare_hex(b.reference_hash(), target)),
                None => Err(CandidateError::BcryptReference),
            },
            Some(h) => Ok(compare_hex(&h.hash_hex(bytes.as_slice()), target)),
            None => Err(CandidateError::NoScheme),
        }
    }
}

/// A candidate whose check failed: its 1-based line and the error.
#[derive(Debug, Clone, Copy, PartialEq, Eq, Structural)]
pub struct CandidateFailure {
    pub line: usize,
    pub error: CandidateError,
}

/// What checking the candidate on one line gave.
pub enum ScanEvent {
    /// It matches: the scan is over.
    Found { line: usize, candidate: String },
    /// Its check failed; it counts as no match and the scan goes on.
    Failed(CandidateFailure),
    /// It does not match.
    NoMatch,
    /// The line could not be read; it is skipped.
    Unreadable,
}

/// Checks the candidate on 1-based `line` (`None` for a line that could not
/// be read), for a driver that reads candidates one at a time and stops at
/// the first `Found`.
pub fn scan_step(mode: HashMode, hasher: &Option<Hasher>, target: &str, line: usize, candidate: &Option<String>) -> (r: ScanEvent)
    ensures
        match candidate {
            None => r is Unreadable,
            Some(w) => match candidate_outcome(mode, *hasher, target@, w@) {
                Ok(true) => r matches ScanEvent::Found { line: l, candidate: c } && l == line && c@ == w@,
                Ok(false) => r is NoMatch,
                Err(e) => r matches ScanEvent::Failed(f) && f.line == line && f.error == e,
            },
        },
{
    match candidate {
        None => ScanEvent::Unreadable,
        Some(word) => match check_candidate(mode, hasher, target, word.as_str()) {
            Ok(true) => ScanEvent::Found { line, candidate: word.clone() },
            Ok(false) => ScanEvent::NoMatch,
            Err(error) => ScanEvent::Failed(CandidateFailure { line, error }),
        },
    }
}

/// The outcome of a scan.
pub enum MatchResult {
    /// The first match: its 1-based line and its text.
    Found { line: usize, candidate: String },
    /// No candidate matched.
    NotFound,
}

/// A scan's outcome with the candidates whose checks failed on the way, in order.
pub struct ScanReport {
    pub result: MatchResult,
    pub failures: Vec<CandidateFailure>,
}

/// Whether the candidate at `i` is readable and matches.
pub open spec fn matches_at(mode: HashMode, hasher: Option<Hasher>, target: Seq<char>, candidates: Seq<Option<String>>, i: int) -> bool {
    candidates[i] matches Some(w) && candidate_matches(mode, hasher, target, w@)
}

/// The failed checks among the first `k` candidates, as (1-based line, error).
pub open spec fn failures_upto(mode: HashMode, hasher: Option<Hasher>, target: Seq<char>, candidates: Seq<Option<String>>, k: nat) -> Seq<(nat, CandidateError)>
    decreases k,
{
    if k == 0 {
        Seq::empty()
    } else {
        let before = failures_upto(mode, hasher, target, candidates, (k - 1) as nat);
        match candidates[k - 1] {
            Some(w) => match candidate_outcome(mode, hasher, target, w@) {
                Err(e) => before.push((k, e)),
                Ok(_) => before,
            },
            None => before,
        }
    }
}

pub open spec fn failures_view(v: Seq<CandidateFailure>) -> Seq<(nat, CandidateError)> {
    v.map_values(|f: CandidateFailure| (f.line as nat, f.error))
}

/// Goes through `candidates` in order and stops at the first that matches
/// `target`. A line that could not be read (`None`) is skipped but keeps its
/// place; a candidate whose check fails counts as no match and is reported.
pub fn scan(mode: HashMode, hasher: &Option<Hasher>, target: &str, candidates: &Vec<Option<String>>) -> (r: ScanReport)
    ensures
        match r.result {
            MatchResult::Found { line, candidate } => {
                &&& 1 <= line <= candidates@.len()
                &&& candidates@[line - 1] matches Some(w) && w@ == candidate@
                &&& matches_at(mode, *hasher, target@, candidates@, line - 1)
                &&& forall|j: int| 0 <= j < line - 1 ==> !matches_at(mode, *hasher, target@, candidates@, j)
                &&& failures_view(r.failures@) == failures_upto(mode, *hasher, target@, candidates@, (line - 1) as nat)
            },
            MatchResult::NotFound => {
                &&& forall|j: int| 0 <= j < candidates@.len() ==> !matches_at(mode, *hasher, target@, candidates@, j)
                &&& failures_view(r.failures@) == failures_upto(mode, *hasher, target@, candidates@, candidates@.len())
            },
        },
{
    let mut failures: Vec<CandidateFailure> = Vec::new();
    let mut i: usize = 0;
    while i < candidates.len()
        invariant
            i <= candidates@.len(),
            forall|j: int| 0 <= j < i ==> !matches_at(mode, *hasher, target@, candidates@, j),
            failures_view(failures@) == failures_upto(mode, *hasher, target@, candidates@, i as nat),
        decreases candidates.len() - i,
    {
        match scan_step(mode, hasher, target, i + 1, &candidates[i]) {
            ScanEvent::Found { line, candidate } => {
                return ScanReport { result: MatchResult::Found { line, candidate }, failures };
            },
            ScanEvent::Failed(f) => {
                failures.push(f);
                assert(failures_view(failures@) =~= failures_upto(mode, *hasher, target@, candidates@, (i + 1) as nat));
            },
            _ => {},
        }
        i += 1;
    }
    ScanReport { result: MatchResult::NotFound, failures }
}

/// Folding the target's ASCII case changes no outcome outside the encoded
/// scrypt path: an upper-case hex target matches as its lower-case form does.
pub proof fn lemma_target_case_ignored(mode: HashMode, hasher: Option<Hasher>, t1: Seq<char>, t2: Seq<char>, word: Seq<char>)
    requires
        ascii_lower(t1) == ascii_lower(t2),
        !(mode == HashMode::Scrypt && is_scrypt_encoding(t1)),
        !(mode == HashMode::Scrypt && is_scrypt_encoding(t2)),
    ensures
        candidate_outcome(mode, hasher, t1, word) == candidate_outcome(mode, hasher, t2, word),
{
}

} // verus!
