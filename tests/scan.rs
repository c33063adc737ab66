use hashcrack::digest::{Md5Hash, Sha1Hash};
use hashcrack::matcher::{
    check_candidate, create_hasher, scan, scan_step, starts_with_scrypt, CandidateError,
    CandidateFailure, HashMode, Hasher, MatchResult, ScanEvent, ScryptParams, SetupError,
};
use hashcrack::scrypt::{ParamKey, ScryptError};
use hashcrack::bcrypt::BcryptHash;
use hashcrack::scrypt::ScryptHash;
use hashcrack::digest::HashAlgorithm;

const MD5_DEF: &str = "4ed9407630eb1000c0f6b63842defa7d";

fn lines(words: &[&str]) -> Vec<Option<String>> {
    words.iter().map(|w| Some(w.to_string())).collect()
}

fn md5_hasher() -> Option<Hasher> {
    Some(Hasher::Md5(Md5Hash))
}

#[test]
fn scan_stops_at_first_match() {
    let result = scan(HashMode::Md5, &md5_hasher(), MD5_DEF, &lines(&["abc", "def", "ghi"])).result;
    match result {
        MatchResult::Found { line, candidate } => {
            assert_eq!(line, 2);
            assert_eq!(candidate, "def");
        }
        MatchResult::NotFound => panic!("expected a match"),
    }
}

#[test]
fn scan_reports_first_of_repeated_matches() {
    let result = scan(HashMode::Md5, &md5_hasher(), MD5_DEF, &lines(&["def", "def"])).result;
    assert!(matches!(result, MatchResult::Found { line: 1, .. }));
}

#[test]
fn scan_exhausts_without_match() {
    let result = scan(HashMode::Md5, &md5_hasher(), MD5_DEF, &lines(&["abc", "ghi", "xyz"])).result;
    assert!(matches!(result, MatchResult::NotFound));
    let empty: Vec<Option<String>> = Vec::new();
    assert!(matches!(scan(HashMode::Md5, &md5_hasher(), MD5_DEF, &empty).result, MatchResult::NotFound));
}

#[test]
fn scan_ignores_target_case() {
    let upper = MD5_DEF.to_uppercase();
    let result = scan(HashMode::Md5, &md5_hasher(), &upper, &lines(&["abc", "def"])).result;
    assert!(matches!(result, MatchResult::Found { line: 2, .. }));
    assert_eq!(check_candidate(HashMode::Md5, &md5_hasher(), &upper, "def"), Ok(true));
}

#[test]
fn scan_skips_unreadable_lines_and_keeps_numbering() {
    let candidates = vec![Some("abc".to_string()), None, Some("def".to_string())];
    let result = scan(HashMode::Md5, &md5_hasher(), MD5_DEF, &candidates).result;
    match result {
        MatchResult::Found { line, candidate } => {
            assert_eq!(line, 3);
            assert_eq!(candidate, "def");
        }
        MatchResult::NotFound => panic!("expected a match"),
    }
}

#[test]
fn scan_without_hasher_finds_nothing() {
    let result = scan(HashMode::Md5, &None, MD5_DEF, &lines(&["def"])).result;
    assert!(matches!(result, MatchResult::NotFound));
}

#[test]
fn scan_encoded_scrypt_target() {
    let target = "$scrypt$ln=10,r=8,p=1$dGVzdF9zYWx0$dQODnE7utX5qScxQqALYxvv2hyYiWlNklHh2tg49W8s=";
    let hasher = create_hasher(HashMode::Scrypt, target, None).unwrap();
    assert!(hasher.is_none());
    let result = scan(HashMode::Scrypt, &hasher, target, &lines(&["nope", "test_password", "x"])).result;
    assert!(matches!(result, MatchResult::Found { line: 2, .. }));
    assert_eq!(check_candidate(HashMode::Scrypt, &hasher, target, "nope"), Ok(false));
}

#[test]
fn scan_treats_scrypt_errors_as_no_match() {
    let target = "$scrypt$ln=14,r=8$saltonly$";
    let missing = CandidateError::Scrypt(ScryptError::MissingParam(ParamKey::P));
    assert_eq!(check_candidate(HashMode::Scrypt, &None, target, "x"), Err(missing));
    let report = scan(HashMode::Scrypt, &None, target, &lines(&["x", "y"]));
    assert!(matches!(report.result, MatchResult::NotFound));
    assert_eq!(
        report.failures,
        vec![
            CandidateFailure { line: 1, error: missing },
            CandidateFailure { line: 2, error: missing },
        ]
    );
}

#[test]
fn scan_raw_scrypt_target() {
    let params = ScryptParams {
        n: 1024,
        r: 8,
        p: 1,
        salt: "test_salt".to_string(),
        key_length: 32,
    };
    let target = "7503839C4EEEB57E6A49CC50A802D8C6FBF68726225A5364947876B60E3D5BCB";
    let hasher = create_hasher(HashMode::Scrypt, target, Some(params)).unwrap();
    let result = scan(HashMode::Scrypt, &hasher, target, &lines(&["a", "test_password"])).result;
    assert!(matches!(result, MatchResult::Found { line: 2, .. }));
}

#[test]
fn scan_bcrypt_target() {
    let reference = bcrypt::hash("hunter2", 4).unwrap();
    let hasher = create_hasher(HashMode::Bcrypt, &reference, None).unwrap();
    let result = scan(HashMode::Bcrypt, &hasher, &reference, &lines(&["hunter1", "hunter2"])).result;
    assert!(matches!(result, MatchResult::Found { line: 2, .. }));
}

#[test]
fn create_hasher_for_each_mode() {
    let modes = [
        (HashMode::Md2, "MD2HASH"),
        (HashMode::Md4, "MD4HASH"),
        (HashMode::Md5, "MD5"),
        (HashMode::Md6, "MD6HASH"),
        (HashMode::Sha1, "SHA1"),
        (HashMode::Sha2, "SHA2HASH"),
        (HashMode::Sha3, "SHA3HASH"),
        (HashMode::Bcrypt, "BCRYPT"),
    ];
    for (mode, name) in modes {
        let h = create_hasher(mode, "abc", None).unwrap().unwrap();
        assert_eq!(h.name(), name);
    }
    let sha1 = create_hasher(HashMode::Sha1, "abc", None).unwrap().unwrap();
    assert_eq!(sha1.hash_hex(b"abc"), Sha1Hash.hash_hex(b"abc"));
    assert_eq!(sha1.hash(b"abc"), Sha1Hash.hash(b"abc"));
}

#[test]
fn create_hasher_scrypt_errors() {
    assert!(matches!(
        create_hasher(HashMode::Scrypt, "abcd", None),
        Err(SetupError::MissingScryptParams)
    ));
    let bad = ScryptParams {
        n: 15,
        r: 8,
        p: 1,
        salt: "salty_salty".to_string(),
        key_length: 32,
    };
    assert!(matches!(
        create_hasher(HashMode::Scrypt, "abcd", Some(bad)),
        Err(SetupError::InvalidParameters)
    ));
}

#[test]
fn scrypt_prefix_detection() {
    assert!(starts_with_scrypt("$scrypt$"));
    assert!(starts_with_scrypt("$scrypt$ln=1"));
    assert!(!starts_with_scrypt("$scrypt"));
    assert!(!starts_with_scrypt("$SCRYPT$ln=1"));
    assert!(!starts_with_scrypt(""));
}

#[test]
fn scan_reports_failures_before_the_match() {
    let target = "$scrypt$ln=10,r=8,p=1$dGVzdF9zYWx0$dQODnE7utX5qScxQqALYxvv2hyYiWlNklHh2tg49W8s=";
    let report = scan(HashMode::Scrypt, &None, target, &lines(&["a", "test_password"]));
    assert!(matches!(report.result, MatchResult::Found { line: 2, .. }));
    assert!(report.failures.is_empty());
    let report = scan(HashMode::Md5, &None, MD5_DEF, &lines(&["abc", "def"]));
    assert!(matches!(report.result, MatchResult::NotFound));
    assert_eq!(report.failures.len(), 2);
    assert_eq!(report.failures[1], CandidateFailure { line: 2, error: CandidateError::NoScheme });
}

#[test]
fn failed_scrypt_derivation_never_matches_empty_target() {
    // output lengths above 64 bytes are refused by scrypt's parameter check
    let h = ScryptHash::new(1024, 8, 1, "s".to_string(), 65).unwrap();
    let hasher = Some(Hasher::Scrypt(h));
    assert_eq!(
        check_candidate(HashMode::Scrypt, &hasher, "", "pw"),
        Err(CandidateError::Scrypt(ScryptError::Derivation))
    );
    let report = scan(HashMode::Scrypt, &hasher, "", &lines(&["pw"]));
    assert!(matches!(report.result, MatchResult::NotFound));
    assert_eq!(
        report.failures,
        vec![CandidateFailure { line: 1, error: CandidateError::Scrypt(ScryptError::Derivation) }]
    );
}

#[test]
fn failed_bcrypt_check_never_matches_empty_target() {
    let hasher = Some(Hasher::Bcrypt(BcryptHash::new(String::new())));
    assert_eq!(
        check_candidate(HashMode::Bcrypt, &hasher, "", "pw"),
        Err(CandidateError::BcryptReference)
    );
    let reference = bcrypt::hash("pw", 4).unwrap();
    let hasher = Some(Hasher::Bcrypt(BcryptHash::new(reference)));
    assert_eq!(check_candidate(HashMode::Bcrypt, &hasher, "", "other"), Ok(false));
}

#[test]
fn scan_step_events() {
    let hasher = md5_hasher();
    assert!(matches!(
        scan_step(HashMode::Md5, &hasher, MD5_DEF, 4, &None),
        ScanEvent::Unreadable
    ));
    assert!(matches!(
        scan_step(HashMode::Md5, &hasher, MD5_DEF, 4, &Some("abc".to_string())),
        ScanEvent::NoMatch
    ));
    match scan_step(HashMode::Md5, &hasher, MD5_DEF, 4, &Some("def".to_string())) {
        ScanEvent::Found { line, candidate } => {
            assert_eq!(line, 4);
            assert_eq!(candidate, "def");
        }
        _ => panic!("expected a match"),
    }
    match scan_step(HashMode::Md5, &None, MD5_DEF, 7, &Some("def".to_string())) {
        ScanEvent::Failed(f) => assert_eq!(f, CandidateFailure { line: 7, error: CandidateError::NoScheme }),
        _ => panic!("expected a failure"),
    }
}
