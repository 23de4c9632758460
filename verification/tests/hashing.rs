use streaming_engine::blob::AudioFormat;
use streaming_engine::streamingpath::hasher::{
    compute_hash, credential_verdict, digest_path, digest_result_storage_hasher,
    digest_storage_hasher, suffix_result_storage_hasher, suffixed_name, verify_hash, AuthError,
    CredentialFault, HexFault,
};
use streaming_engine::float64::Float64;
use streaming_engine::streamingpath::params::Params;

const TEST_SECRET: &str = "test-secret";

fn f(x: f64) -> Option<Float64> {
    Some(Float64 { bits: x.to_bits() })
}

#[test]
fn test_compute_and_verify_hash() {
    let test_path = "my/test/path";
    let hash = compute_hash(test_path, TEST_SECRET).unwrap();
    verify_hash(&hash, test_path, TEST_SECRET).unwrap();
}

#[test]
fn test_verify_hash_with_invalid_input() {
    let hash = compute_hash("my/test/path", TEST_SECRET).unwrap();
    let result = verify_hash(&hash, "wrong/path", TEST_SECRET);
    assert!(result.is_err());
    if let Err(e) = result {
        assert!(matches!(e, AuthError::InvalidCredentials(_)));
    }
}

#[test]
fn test_verify_hash_with_invalid_hash_format() {
    let result = verify_hash("not-a-valid-hash-format", "some/path", TEST_SECRET);
    assert!(result.is_err());
}

#[test]
fn test_hash_consistency() {
    let test_path = "consistent/test/path";
    let hash1 = compute_hash(test_path, TEST_SECRET).unwrap();
    let hash2 = compute_hash(test_path, TEST_SECRET).unwrap();
    assert_eq!(hash1, hash2);
    verify_hash(&hash1, test_path, TEST_SECRET).unwrap();
    verify_hash(&hash2, test_path, TEST_SECRET).unwrap();
}

#[test]
fn test_digest_result_storage_hasher() {
    let result = digest_result_storage_hasher("test.mp3?format=mp3&quality=0.5");

    // xx/yy/zzzzzzzzzzzzzzzzzzzzzzzzzzzzzzzzzzzz
    assert!(result.len() >= 36);
    assert_eq!(result.chars().nth(2).unwrap(), '/');
    assert_eq!(result.chars().nth(5).unwrap(), '/');
}

#[test]
fn test_suffix_result_storage_hasher() {
    let p = Params {
        key: "test.mp3".to_string(),
        format: Some(AudioFormat::Wav),
        sample_rate: Some(44100),
        ..Default::default()
    };

    let result = suffix_result_storage_hasher(&p, "test.mp3?format=wav&sample_rate=44100");

    assert!(result.starts_with("test."));
    assert!(result.ends_with(".wav"));
    let parts: Vec<&str> = result.split('.').collect();
    assert_eq!(parts.len(), 3);
    assert_eq!(parts[0], "test");
    assert_eq!(parts[2], "wav");
    assert_eq!(parts[1].len(), 20);
    assert!(parts[1].chars().all(|c| c.is_ascii_hexdigit()));
}

#[test]
fn test_suffix_result_storage_hasher_with_format() {
    let p = Params {
        key: "example.mp3".to_string(),
        format: Some(AudioFormat::Ogg),
        quality: f(0.8),
        ..Default::default()
    };

    let result = suffix_result_storage_hasher(&p, "example.mp3?format=ogg&quality=0.8");

    assert!(result.starts_with("example."));
    assert!(result.ends_with(".ogg"));
    let parts: Vec<&str> = result.split('.').collect();
    assert_eq!(parts.len(), 3);
    assert_eq!(parts[0], "example");
    assert_eq!(parts[2], "ogg");
    assert_eq!(parts[1].len(), 20);
    assert!(parts[1].chars().all(|c| c.is_ascii_hexdigit()));
}

#[test]
fn test_suffix_result_storage_hasher_with_filters() {
    let p = Params {
        key: "input.mp3".to_string(),
        format: Some(AudioFormat::Mp3),
        volume: f(1.5),
        lowpass: f(1000.0),
        ..Default::default()
    };

    let result = suffix_result_storage_hasher(&p, "input.mp3?format=mp3&volume=1.5&lowpass=1000");

    assert!(result.starts_with("input."));
    assert!(result.ends_with(".mp3"));
    let parts: Vec<&str> = result.split('.').collect();
    assert_eq!(parts.len(), 3);
    assert_eq!(parts[0], "input");
    assert_eq!(parts[2], "mp3");
    assert_eq!(parts[1].len(), 20);
    assert!(parts[1].chars().all(|c| c.is_ascii_hexdigit()));
}

#[test]
fn storage_name_is_the_sha1_digest_in_three_parts() {
    // The SHA-1 digest of "abc".
    assert_eq!(
        digest_storage_hasher("abc"),
        "a9/99/3e364706816aba3e25717850c26c9cd0d89d"
    );
}

#[test]
fn digest_path_splits_after_two_and_four_digits() {
    assert_eq!(digest_path(&[0x0a, 0xff, 0x10, 0x00]), "0a/ff/1000");
    assert_eq!(digest_path(&[0x01, 0x02]), "01/02/");
}

#[test]
fn signature_is_the_hmac_sha256_code() {
    // RFC 4231, test case 2.
    let code = "5bdcc146bf60754e6a042426089575c75a003f089d2739839dec58b964ec3843";
    assert_eq!(compute_hash("what do ya want for nothing?", "Jefe").unwrap(), code);
    assert!(verify_hash(code, "what do ya want for nothing?", "Jefe").is_ok());
    assert!(verify_hash(&code.to_uppercase(), "what do ya want for nothing?", "Jefe").is_ok());
    assert!(verify_hash(code, "what do ya want for nothing?", "jefe").is_err());
    assert!(verify_hash(&code[..62], "what do ya want for nothing?", "Jefe").is_err());
}

#[test]
fn refusals_say_what_is_wrong_with_the_hash() {
    assert!(matches!(
        verify_hash("abc", "p", "s"),
        Err(AuthError::InvalidCredentials(CredentialFault::Format(HexFault::OddLength)))
    ));
    assert!(matches!(
        verify_hash("0aZf", "p", "s"),
        Err(AuthError::InvalidCredentials(CredentialFault::Format(
            HexFault::InvalidCharacter { c: 'Z', index: 2 }
        )))
    ));
    assert!(matches!(
        verify_hash("00ff", "p", "s"),
        Err(AuthError::InvalidCredentials(CredentialFault::Mismatch))
    ));
    let refused = verify_hash("00ff", "p", "s").unwrap_err();
    assert_eq!(refused.describe(), "Invalid credentials");
    assert_eq!(
        AuthError::UnexpectedError("Invalid HMAC key".to_string()).describe(),
        "Invalid HMAC key"
    );
}

#[test]
fn verdict_follows_the_decoding_and_the_match() {
    assert!(credential_verdict(None, true).is_ok());
    assert!(matches!(
        credential_verdict(None, false),
        Err(AuthError::InvalidCredentials(CredentialFault::Mismatch))
    ));
    assert!(matches!(
        credential_verdict(Some(HexFault::OddLength), true),
        Err(AuthError::InvalidCredentials(CredentialFault::Format(HexFault::OddLength)))
    ));
}

#[test]
fn suffix_goes_before_the_extension() {
    let digest: Vec<u8> = (0..20).collect();
    let mark = ".00010203040506070809";
    assert_eq!(suffixed_name("a/b.mp3", None, &digest), format!("a/b{mark}.mp3"));
    assert_eq!(
        suffixed_name("a/b.mp3", Some(AudioFormat::Flac), &digest),
        format!("a/b{mark}.flac")
    );
    assert_eq!(suffixed_name("a.b/c", Some(AudioFormat::Wav), &digest), format!("a.b/c{mark}"));
    assert_eq!(suffixed_name("plain", None, &digest), format!("plain{mark}"));
    assert_eq!(suffixed_name("x.tar.gz", None, &digest), format!("x.tar{mark}.gz"));
    assert_eq!(
        suffixed_name("https://host/x.ogg", None, &digest),
        format!("host/x{mark}.ogg")
    );
    assert_eq!(
        suffixed_name("http://host/x", Some(AudioFormat::Mp3), &digest),
        format!("host/x{mark}")
    );
}

#[test]
fn different_requests_are_stored_apart() {
    let p = Params { key: "k.mp3".to_string(), ..Default::default() };
    assert_ne!(
        suffix_result_storage_hasher(&p, "k.mp3?volume=0.5"),
        suffix_result_storage_hasher(&p, "k.mp3?volume=0.6")
    );
    assert_ne!(digest_result_storage_hasher("a"), digest_result_storage_hasher("b"));
}

#[test]
fn the_names_of_one_request_share_their_digits() {
    let p = Params { key: "http://h/a.b/test.mp3".to_string(), ..Default::default() };
    let name = digest_result_storage_hasher("canonical");
    assert_eq!(name.len(), 42);
    assert_eq!(name, digest_storage_hasher("canonical"));
    let digits: String = name.chars().filter(|c| *c != '/').take(20).collect();
    let marked = suffix_result_storage_hasher(&p, "canonical");
    assert_eq!(marked, format!("h/a.b/test.{digits}.mp3"));
    assert_eq!(compute_hash("p", "s").unwrap().len(), 64);
}
