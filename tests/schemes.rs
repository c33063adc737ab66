use hashcrack::bcrypt::BcryptHash;
use hashcrack::digest::{
    HashAlgorithm, Md2Hash, Md4Hash, Md5Hash, Md6Hash, Sha1Hash, Sha2Hash, Sha3Hash,
};
use hashcrack::scrypt::{parse_encoded, EncodedField, ParamKey, ScryptError, ScryptHash};

const SCRYPT_HEX: &str = "7503839c4eeeb57e6a49cc50a802d8c6fbf68726225a5364947876b60e3d5bcb";
const SCRYPT_ENCODED: &str =
    "$scrypt$ln=10,r=8,p=1$dGVzdF9zYWx0$dQODnE7utX5qScxQqALYxvv2hyYiWlNklHh2tg49W8s=";

fn small_scrypt() -> ScryptHash {
    ScryptHash::new(1024, 8, 1, "test_salt".to_string(), 32).unwrap()
}

#[test]
fn md2_known_vectors() {
    assert_eq!(Md2Hash.hash_hex(b"abc"), "da853b0d3f88d99b30283a69e6ded6bb");
    assert_eq!(Md2Hash.hash_hex(b""), "8350e5a3e24c153df2275c9f80692773");
    assert_eq!(Md2Hash.name(), "MD2HASH");
}

#[test]
fn md4_known_vectors() {
    assert_eq!(Md4Hash.hash_hex(b"abc"), "a448017aaf21d8525fc10ae87aa6729d");
    assert_eq!(Md4Hash.hash_hex(b""), "31d6cfe0d16ae931b73c59d7e0c089c0");
    assert_eq!(Md4Hash.name(), "MD4HASH");
}

#[test]
fn md5_known_vectors() {
    assert_eq!(Md5Hash.hash_hex(b"abc"), "900150983cd24fb0d6963f7d28e17f72");
    assert_eq!(Md5Hash.hash_hex(b""), "d41d8cd98f00b204e9800998ecf8427e");
    assert_eq!(Md5Hash.hash(b"abc")[0], 0x90);
    assert_eq!(Md5Hash.name(), "MD5");
}

#[test]
fn sha_known_vectors() {
    assert_eq!(Sha1Hash.hash_hex(b"abc"), "a9993e364706816aba3e25717850c26c9cd0d89d");
    assert_eq!(Sha1Hash.hash_hex(b""), "da39a3ee5e6b4b0d3255bfef95601890afd80709");
    assert_eq!(
        Sha2Hash.hash_hex(b"abc"),
        "ba7816bf8f01cfea414140de5dae2223b00361a396177a9cb410ff61f20015ad"
    );
    assert_eq!(
        Sha2Hash.hash_hex(b""),
        "e3b0c44298fc1c149afbf4c8996fb92427ae41e4649b934ca495991b7852b855"
    );
    assert_eq!(
        Sha3Hash.hash_hex(b"abc"),
        "3a985da74fe225b2045c172d6bd390bd855f086e3e9d525b46bfe24511431532"
    );
    assert_eq!(
        Sha3Hash.hash_hex(b""),
        "a7ffc6f8bf1ed76651c14756a061d662f580ff4de43b49fa82d80a4b80f8434a"
    );
    assert_eq!(Sha1Hash.name(), "SHA1");
    assert_eq!(Sha2Hash.name(), "SHA2HASH");
    assert_eq!(Sha3Hash.name(), "SHA3HASH");
}

#[test]
fn md6_has_fixed_length() {
    assert_eq!(Md6Hash.hash(b"abc").len(), 32);
    assert_eq!(Md6Hash.hash(b"").len(), 32);
    assert_eq!(Md6Hash.hash_hex(b"abc").len(), 64);
    assert_ne!(Md6Hash.hash(b"abc"), Md6Hash.hash(b"abd"));
    assert_eq!(Md6Hash.name(), "MD6HASH");
}

fn assert_deterministic<H: HashAlgorithm>(h: &H, input: &[u8]) {
    assert_eq!(h.hash(input), h.hash(input));
    assert_eq!(h.hash_hex(input), h.hash_hex(input));
}

#[test]
fn fixed_digests_are_deterministic() {
    for input in [&b""[..], &b"abc"[..], &[0u8, 255, 7][..]] {
        assert_deterministic(&Md2Hash, input);
        assert_deterministic(&Md4Hash, input);
        assert_deterministic(&Md5Hash, input);
        assert_deterministic(&Md6Hash, input);
        assert_deterministic(&Sha1Hash, input);
        assert_deterministic(&Sha2Hash, input);
        assert_deterministic(&Sha3Hash, input);
    }
}

#[test]
fn scrypt_new_rejects_invalid_parameters() {
    let salt = || "salty_salty".to_string();
    assert!(matches!(ScryptHash::new(15, 8, 1, salt(), 32), Err(ScryptError::InvalidParameters)));
    assert!(matches!(ScryptHash::new(1, 8, 1, salt(), 32), Err(ScryptError::InvalidParameters)));
    assert!(matches!(ScryptHash::new(0, 8, 1, salt(), 32), Err(ScryptError::InvalidParameters)));
    assert!(matches!(ScryptHash::new(16384, 0, 1, salt(), 32), Err(ScryptError::InvalidParameters)));
    assert!(matches!(ScryptHash::new(16384, 8, 0, salt(), 32), Err(ScryptError::InvalidParameters)));
    assert!(matches!(ScryptHash::new(16384, 8, 1, salt(), 0), Err(ScryptError::InvalidParameters)));
    assert!(matches!(ScryptHash::new(16384, 8, 1, salt(), 1025), Err(ScryptError::InvalidParameters)));
}

#[test]
fn scrypt_new_accepts_valid_parameters() {
    let h = ScryptHash::new(16384, 8, 1, "salty_salty".to_string(), 32).unwrap();
    assert_eq!(h.log2_n(), 14);
    assert!(ScryptHash::new(2, 1, 1, String::new(), 1024).is_ok());
    assert_eq!(ScryptHash::new(2147483648, 8, 1, String::new(), 1).unwrap().log2_n(), 31);
    assert_eq!(h.name(), "SCRYPT");
}

#[test]
fn scrypt_derive_known_vector() {
    let h = small_scrypt();
    let dk = h.derive_raw(b"test_password").unwrap();
    assert_eq!(dk.len(), 32);
    assert_eq!(h.hash_hex(b"test_password"), SCRYPT_HEX);
    assert_eq!(h.hash(b"test_password"), dk);
}

#[test]
fn scrypt_rfc_vector() {
    let h = ScryptHash::new(16, 1, 1, String::new(), 64).unwrap();
    assert_eq!(
        h.hash_hex(b""),
        "77d6576238657b203b19ca42c18a0497f16b4844e3074ae8dfdffa3fede21442\
         fcd0069ded0948f8326a753a0fc81f17e8d3e0fb2e0d3628cf35e20c38d18906"
    );
}

#[test]
fn scrypt_derivation_error_is_reported() {
    // scrypt's parameter check takes output lengths of 10 to 64 bytes only
    let h = ScryptHash::new(1024, 8, 1, "s".to_string(), 65).unwrap();
    assert_eq!(h.derive_raw(b"pw"), Err(ScryptError::Derivation));
    assert_eq!(h.hash_hex(b"pw"), "");
    assert!(h.hash(b"pw").is_empty());
    assert_eq!(h.encode_password_hash(b"pw"), Err(ScryptError::Derivation));
}

#[test]
fn scrypt_encode_gives_canonical_form() {
    let h = small_scrypt();
    assert_eq!(h.encode_password_hash(b"test_password").unwrap(), SCRYPT_ENCODED);
}

#[test]
fn scrypt_encode_verify_round_trip() {
    let h = small_scrypt();
    for pw in [&b"test_password"[..], &b""[..], "pässwörd".as_bytes()] {
        let encoded = h.encode_password_hash(pw).unwrap();
        assert_eq!(ScryptHash::verify_encoded(&encoded, pw), Ok(true));
    }
}

#[test]
fn scrypt_verify_rejects_other_passwords() {
    let h = small_scrypt();
    let encoded = h.encode_password_hash(b"test_password").unwrap();
    for other in [&b"wrong_password"[..], &b""[..], &b"test_passwore"[..], &b"Test_password"[..]] {
        assert_eq!(ScryptHash::verify_encoded(&encoded, other), Ok(false));
    }
}

#[test]
fn scrypt_verify_known_encoding() {
    assert_eq!(ScryptHash::verify_encoded(SCRYPT_ENCODED, b"test_password"), Ok(true));
    assert_eq!(ScryptHash::verify_encoded(SCRYPT_ENCODED, b"test_passwor"), Ok(false));
}

#[test]
fn scrypt_verify_missing_param() {
    assert_eq!(
        ScryptHash::verify_encoded("$scrypt$ln=14,r=8$saltonly$", b"x"),
        Err(ScryptError::MissingParam(ParamKey::P))
    );
    assert_eq!(
        ScryptHash::verify_encoded("$scrypt$r=8,p=1$c2FsdA==$AAAA", b"x"),
        Err(ScryptError::MissingParam(ParamKey::Ln))
    );
    assert_eq!(
        ScryptHash::verify_encoded("$scrypt$ln=10,p=1$c2FsdA==$AAAA", b"x"),
        Err(ScryptError::MissingParam(ParamKey::R))
    );
    // a value that does not parse as its type counts as missing
    assert_eq!(
        ScryptHash::verify_encoded("$scrypt$ln=256,r=8,p=1$c2FsdA==$AAAA", b"x"),
        Err(ScryptError::MissingParam(ParamKey::Ln))
    );
    assert_eq!(
        ScryptHash::verify_encoded("$scrypt$ln=10,r=x,p=1$c2FsdA==$AAAA", b"x"),
        Err(ScryptError::MissingParam(ParamKey::R))
    );
    assert_eq!(ParamKey::P.key(), "p");
    assert_eq!(ParamKey::Ln.key(), "ln");
    assert_eq!(ParamKey::R.key(), "r");
}

#[test]
fn scrypt_verify_bad_structure() {
    for bad in [
        "$notscrypt$ln=14,r=8,p=1$c2FsdA==$AAAA",
        "",
        "$scrypt$ln=14,r=8,p=1$c2FsdA==",
        "$scrypt$ln=14,r=8,p=1$c2FsdA==$AAAA$",
        "x$scrypt$ln=14,r=8,p=1$c2FsdA==$AAAA",
    ] {
        assert_eq!(ScryptHash::verify_encoded(bad, b"x"), Err(ScryptError::BadStructure));
    }
}

#[test]
fn scrypt_verify_bad_encoding() {
    assert_eq!(
        ScryptHash::verify_encoded("$scrypt$ln=10,r=8,p=1$!!!$AAAA", b"x"),
        Err(ScryptError::BadEncoding(EncodedField::Salt))
    );
    assert_eq!(
        ScryptHash::verify_encoded("$scrypt$ln=10,r=8,p=1$c2FsdA==$A", b"x"),
        Err(ScryptError::BadEncoding(EncodedField::Digest))
    );
}

#[test]
fn scrypt_verify_derivation_error() {
    // a three-byte digest is below the output length that scrypt accepts
    assert_eq!(
        ScryptHash::verify_encoded("$scrypt$ln=4,r=8,p=1$c2FsdA==$AAAA", b"x"),
        Err(ScryptError::Derivation)
    );
}

#[test]
fn scrypt_parse_ignores_unknown_keys_and_keeps_last_value() {
    let h = parse_encoded("$scrypt$v=1,ln=3,r=2,p=5,ln=10$c2FsdA==$AAAA").unwrap();
    assert_eq!(h.log_n(), 10);
    assert_eq!(h.r(), 2);
    assert_eq!(h.p(), 5);
    assert_eq!(h.salt(), &b"salt".to_vec());
    assert_eq!(h.digest(), &vec![0u8, 0, 0]);
    let plus = parse_encoded("$scrypt$ln=+7,r=8,p=1$$").unwrap();
    assert_eq!(plus.log_n(), 7);
    assert!(plus.salt().is_empty());
}

#[test]
fn scrypt_verify_hex() {
    let h = small_scrypt();
    assert_eq!(h.verify_hex(SCRYPT_HEX, b"test_password"), Ok(true));
    assert_eq!(h.verify_hex(&SCRYPT_HEX.to_uppercase(), b"test_password"), Ok(true));
    assert_eq!(h.verify_hex(SCRYPT_HEX, b"other"), Ok(false));
    assert_eq!(
        h.verify_hex("zz", b"test_password"),
        Err(ScryptError::BadEncoding(EncodedField::Digest))
    );
    assert_eq!(
        h.verify_hex("abc", b"test_password"),
        Err(ScryptError::BadEncoding(EncodedField::Digest))
    );
}

#[test]
fn bcrypt_returns_reference_on_match() {
    let reference = bcrypt::hash("secret", 4).unwrap();
    let h = BcryptHash::new(reference.clone());
    assert_eq!(h.hash_hex(b"secret"), reference);
    assert_eq!(h.hash(b"secret"), reference.as_bytes().to_vec());
    assert_eq!(h.verify(b"secret"), Some(true));
    assert_eq!(h.name(), "BCRYPT");
}

#[test]
fn bcrypt_returns_empty_on_mismatch() {
    let reference = bcrypt::hash("secret", 4).unwrap();
    let h = BcryptHash::new(reference);
    assert_eq!(h.hash_hex(b"Secret"), "");
    assert!(h.hash(b"Secret").is_empty());
    assert_eq!(h.verify(b"Secret"), Some(false));
}

#[test]
fn bcrypt_malformed_reference_is_an_error() {
    let h = BcryptHash::new("not a bcrypt hash".to_string());
    assert_eq!(h.verify(b"secret"), None);
    assert_eq!(h.hash_hex(b"secret"), "");
}

#[test]
fn scrypt_verify_rejects_impossible_parameters() {
    for bad in [
        "$scrypt$ln=32,r=8,p=1$c2FsdA==$AAAAAAAAAAAAAAAAAAAAAAAAAAAAAAAAAAAAAAAAAAA=",
        "$scrypt$ln=40,r=8,p=1$c2FsdA==$AAAAAAAAAAAAAAAAAAAAAAAAAAAAAAAAAAAAAAAAAAA=",
        "$scrypt$ln=255,r=8,p=1$c2FsdA==$AAAAAAAAAAAAAAAAAAAAAAAAAAAAAAAAAAAAAAAAAAA=",
        "$scrypt$ln=0,r=8,p=1$c2FsdA==$AAAAAAAAAAAAAAAAAAAAAAAAAAAAAAAAAAAAAAAAAAA=",
        "$scrypt$ln=4,r=0,p=1$c2FsdA==$AAAAAAAAAAAAAAAAAAAAAAAAAAAAAAAAAAAAAAAAAAA=",
        "$scrypt$ln=4,r=8,p=0$c2FsdA==$AAAAAAAAAAAAAAAAAAAAAAAAAAAAAAAAAAAAAAAAAAA=",
        "$scrypt$ln=4,r=8,p=1$c2FsdA==$",
    ] {
        assert_eq!(ScryptHash::verify_encoded(bad, b"x"), Err(ScryptError::InvalidParameters));
    }
}

#[test]
fn fixed_digest_lengths() {
    for input in [&b""[..], &b"a longer input of several words"[..]] {
        assert_eq!(Md2Hash.hash(input).len(), 16);
        assert_eq!(Md4Hash.hash(input).len(), 16);
        assert_eq!(Md5Hash.hash(input).len(), 16);
        assert_eq!(Md6Hash.hash(input).len(), 32);
        assert_eq!(Sha1Hash.hash(input).len(), 20);
        assert_eq!(Sha2Hash.hash(input).len(), 32);
        assert_eq!(Sha3Hash.hash(input).len(), 32);
        assert_eq!(Sha1Hash.hash_hex(input).len(), 40);
    }
}
