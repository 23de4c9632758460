//! Storage names made of digests, and the signature of a path.

use hmac::{Hmac, Mac};
use sha1::Digest;
use vstd::prelude::*;
use vstd::slice::*;
use vstd::utf8::*;
use crate::blob::AudioFormat;
use crate::streamingpath::params::Params;
use crate::text;

verus! {

/// Why a text is not the hexadecimal form of bytes.
#[derive(Clone, Copy, PartialEq, Eq, Structural, Debug)]
pub enum HexFault {
    /// A byte that is no hexadecimal digit, with its position.
    InvalidCharacter { c: char, index: usize },
    /// An odd number of digits.
    OddLength,
    /// A length that does not fit a fixed-size target.
    InvalidStringLength,
}

/// Why credentials are refused.
#[derive(Clone, Copy, PartialEq, Eq, Structural, Debug)]
pub enum CredentialFault {
    /// The hash is not hexadecimal.
    Format(HexFault),
    /// The hash is not the one of the path.
    Mismatch,
}

/// Why a path is not admitted.
#[derive(Debug)]
pub enum AuthError {
    /// The hash does not sign the path.
    InvalidCredentials(CredentialFault),
    /// The signature could not be computed.
    UnexpectedError(String),
}

impl AuthError {
    /// The text of the error.
    pub open spec fn message(self) -> Seq<char> {
        match self {
            AuthError::InvalidCredentials(_) => "Invalid credentials"@,
            AuthError::UnexpectedError(m) => m@,
        }
    }

    /// The text of the error.
    pub fn describe(&self) -> (s: String)
        ensures
            s@ == self.message(),
    {
        match self {
            AuthError::InvalidCredentials(_) => "Invalid credentials".to_string(),
            AuthError::UnexpectedError(m) => m.clone(),
        }
    }
}

/// `hmac::digest::InvalidLength`: a key of a length that the code cannot take.
#[verifier::external_type_specification]
#[verifier::external_body]
pub struct ExInvalidLength(hmac::digest::InvalidLength);

/// The SHA-1 digest of `data`.
pub uninterp spec fn sha1(data: Seq<u8>) -> Seq<u8>;

/// `Sha1::digest`: the digest of the data, twenty bytes long.
#[verifier::external_body]
fn sha1_digest(data: &[u8]) -> (r: Vec<u8>)
    ensures
        r@ == sha1(data@),
        r@.len() == 20,
{
    sha1::Sha1::digest(data).to_vec()
}

/// The HMAC-SHA256 code of `message` under `key`.
pub uninterp spec fn hmac_sha256(key: Seq<u8>, message: Seq<u8>) -> Seq<u8>;

/// `Hmac::<Sha256>::new_from_slice`, `update`, `finalize`: the code of the message
/// under the key, thirty-two bytes long. A key of any length is taken.
#[verifier::external_body]
fn mac_code(key: &[u8], message: &[u8]) -> (r: Result<Vec<u8>, hmac::digest::InvalidLength>)
    ensures
        r is Ok,
        r->Ok_0@ == hmac_sha256(key@, message@),
        r->Ok_0@.len() == 32,
{
    let mut mac = Hmac::<sha2::Sha256>::new_from_slice(key)?;
    mac.update(message);
    Ok(mac.finalize().into_bytes().to_vec())
}

/// `Hmac::<Sha256>::new_from_slice`, `update`, `verify_slice`: whether `code` is the
/// whole code of the message under the key. A key of any length is taken.
#[verifier::external_body]
fn mac_verifies(key: &[u8], message: &[u8], code: &[u8]) -> (r: Result<
    bool,
    hmac::digest::InvalidLength,
>)
    ensures
        r is Ok,
        r->Ok_0 == (code@ == hmac_sha256(key@, message@)),
{
    let mut mac = Hmac::<sha2::Sha256>::new_from_slice(key)?;
    mac.update(message);
    Ok(mac.verify_slice(code).is_ok())
}

/// The lower-case hexadecimal digit of value `d`.
pub open spec fn hex_digit(d: int) -> char {
    if d < 10 {
        (48 + d) as u8 as char
    } else {
        (87 + d) as u8 as char
    }
}

/// `data` in lower-case hexadecimal, two digits for each byte.
pub open spec fn hex_text(data: Seq<u8>) -> Seq<char> {
    Seq::new(
        2 * data.len(),
        |i: int|
            hex_digit(
                if i % 2 == 0 {
                    data[i / 2] as int / 16
                } else {
                    data[i / 2] as int % 16
                },
            ),
    )
}

/// `hex::encode`: the data in lower-case hexadecimal.
#[verifier::external_body]
fn hex_encode(data: &[u8]) -> (s: String)
    ensures
        s@ == hex_text(data@),
{
    hex::encode(data)
}

/// The value of a hexadecimal digit, of either case.
pub open spec fn hex_value(b: u8) -> Option<int> {
    if 48 <= b <= 57 {
        Some(b - 48)
    } else if 65 <= b <= 70 {
        Some(b - 55)
    } else if 97 <= b <= 102 {
        Some(b - 87)
    } else {
        None
    }
}

/// The position of the first byte that is no hexadecimal digit.
pub open spec fn first_fault(s: Seq<u8>) -> Option<int>
    decreases s.len(),
{
    if s.len() == 0 {
        None
    } else {
        match first_fault(s.drop_last()) {
            Some(i) => Some(i),
            None => if hex_value(s.last()) is None {
                Some(s.len() - 1)
            } else {
                None
            },
        }
    }
}

/// What the bytes of a hexadecimal text stand for.
pub open spec fn hex_decoded(s: Seq<u8>) -> Result<Seq<u8>, HexFault> {
    if s.len() % 2 != 0 {
        Err(HexFault::OddLength)
    } else {
        match first_fault(s) {
            Some(i) => Err(
                HexFault::InvalidCharacter { c: s[i] as char, index: i as usize },
            ),
            None => Ok(
                Seq::new(
                    s.len() / 2,
                    |i: int|
                        (16 * hex_value(s[2 * i])->Some_0 + hex_value(s[2 * i + 1])->Some_0) as u8,
                ),
            ),
        }
    }
}

/// `hex::decode`: the bytes that a hexadecimal text of either case stands for. An odd
/// number of bytes is refused first, then the first byte that is no digit, which is
/// reported as the character of its value.
#[verifier::external_body]
fn hex_decode(s: &str) -> (r: Result<Vec<u8>, HexFault>)
    ensures
        match r {
            Ok(v) => hex_decoded(encode_utf8(s@)) == Ok::<Seq<u8>, HexFault>(v@),
            Err(e) => hex_decoded(encode_utf8(s@)) == Err::<Seq<u8>, HexFault>(e),
        },
{
    hex::decode(s).map_err(|e| match e {
        hex::FromHexError::InvalidHexCharacter { c, index } => {
            HexFault::InvalidCharacter { c, index }
        },
        hex::FromHexError::OddLength => HexFault::OddLength,
        hex::FromHexError::InvalidStringLength => HexFault::InvalidStringLength,
    })
}

/// A digest as a path of three parts: two digits, two digits, and the others.
pub open spec fn hex_path(digest: Seq<u8>) -> Seq<char> {
    let hash = hex_text(digest);
    hash.take(2).push('/') + hash.subrange(2, 4).push('/') + hash.skip(4)
}

/// Writes a digest as a path of three parts.
pub fn digest_path(digest: &[u8]) -> (s: String)
    requires
        digest@.len() >= 2,
    ensures
        s@ == hex_path(digest@),
{
    let hash: String = hex_encode(digest);
    let mut s: String = text::text_until(hash.as_str(), 2).to_string();
    text::push_char(&mut s, '/');
    let rest: &str = text::text_from(hash.as_str(), 2);
    s.append(text::text_until(rest, 2));
    text::push_char(&mut s, '/');
    s.append(text::text_from(hash.as_str(), 4));
    proof {
        assert(rest@.take(2) =~= hash@.subrange(2, 4));
        assert(s@ =~= hex_path(digest@));
    }
    s
}

/// The digest of a text.
pub open spec fn text_digest(text: Seq<char>) -> Seq<u8> {
    sha1(encode_utf8(text))
}

/// The path of three parts that the digest of a text gives.
pub open spec fn digest_name(text: Seq<char>) -> Seq<char> {
    hex_path(text_digest(text))
}

/// Whether `c` is a lower-case hexadecimal digit.
pub open spec fn is_hex_digit(c: char) -> bool {
    '0' <= c <= '9' || 'a' <= c <= 'f'
}

/// Whether a name has the shape of the path of a digest: two digits, two digits and
/// thirty-six digits, a slash between each and the next.
pub open spec fn digest_shaped(name: Seq<char>) -> bool {
    &&& name.len() == 42
    &&& forall|i: int|
        0 <= i < 42 ==> if i == 2 || i == 5 {
            #[trigger] name[i] == '/'
        } else {
            is_hex_digit(name[i])
        }
}

/// The path of three parts that the digest of a text gives.
fn hex_digest_path(path: &str) -> (s: String)
    ensures
        s@ == digest_name(path@),
        text_digest(path@).len() == 20,
        digest_shaped(s@),
{
    let digest: Vec<u8> = sha1_digest(path.as_bytes());
    proof {
        law_digest_path_shape(digest@);
    }
    digest_path(digest.as_slice())
}

/// The name under which source audio is stored.
pub fn digest_storage_hasher(audio: &str) -> (s: String)
    ensures
        s@ == digest_name(audio@),
        text_digest(audio@).len() == 20,
        digest_shaped(s@),
{
    hex_digest_path(audio)
}

/// The name under which the result of a request is stored, made of the digest alone.
/// `path` is the canonical text of the request. Source audio of that text has the same
/// name.
pub fn digest_result_storage_hasher(path: &str) -> (s: String)
    ensures
        s@ == digest_name(path@),
        text_digest(path@).len() == 20,
        digest_shaped(s@),
{
    hex_digest_path(path)
}

/// A key without the scheme of a remote URL.
pub open spec fn without_scheme(key: Seq<char>) -> Seq<char> {
    if text::begins_with(key, "https://"@) {
        key.skip(8)
    } else if text::begins_with(key, "http://"@) {
        key.skip(7)
    } else {
        key
    }
}

/// Where the extension of the last part of a path starts.
pub open spec fn extension_index(audio: Seq<char>) -> Option<int> {
    match text::last_index(audio, '.') {
        Some(dot) => match text::last_index(audio, '/') {
            Some(slash) => if slash < dot {
                Some(dot)
            } else {
                None
            },
            None => Some(dot),
        },
        None => None,
    }
}

/// The mark that a digest leaves in a name: its first ten bytes.
pub open spec fn digest_mark(digest: Seq<u8>) -> Seq<char> {
    hex_text(digest.take(10))
}

/// `key` with a dot and a mark before its extension, which the format replaces where one is
/// asked for; at the end, where there is no extension.
pub open spec fn marked(key: Seq<char>, format: Option<AudioFormat>, mark: Seq<char>) -> Seq<
    char,
> {
    let audio = without_scheme(key);
    match extension_index(audio) {
        Some(dot) => audio.take(dot) + seq!['.'] + mark + (match format {
            Some(f) => seq!['.'] + f.name(),
            None => audio.skip(dot),
        }),
        None => audio + seq!['.'] + mark,
    }
}

/// `key` with the mark of a digest.
pub open spec fn suffixed(key: Seq<char>, format: Option<AudioFormat>, digest: Seq<u8>) -> Seq<
    char,
> {
    marked(key, format, digest_mark(digest))
}

/// The digits of a name made of a digest: its three parts without the slashes.
pub open spec fn name_digits(name: Seq<char>) -> Seq<char> {
    name.take(2) + name.subrange(3, 5) + name.skip(6)
}

/// Marks the name of a key with a digest.
pub fn suffixed_name(key: &str, format: Option<AudioFormat>, digest: &[u8]) -> (s: String)
    requires
        digest@.len() >= 10,
    ensures
        s@ == suffixed(key@, format, digest@),
{
    let short: &[u8] = slice_subrange(digest, 0, 10);
    let digits: String = hex_encode(short);
    proof {
        reveal_strlit("https://");
        reveal_strlit("http://");
        reveal_strlit(".");
        assert(short@ =~= digest@.take(10));
    }
    let hash: String = text::cat(".", digits.as_str());
    assert(hash@ =~= seq!['.'] + digest_mark(digest@));
    let audio: &str = if text::starts_with(key, "https://") {
        text::text_from(key, 8)
    } else if text::starts_with(key, "http://") {
        text::text_from(key, 7)
    } else {
        key
    };
    let dot_idx: Option<usize> = text::rfind_char(audio, '.');
    let slash_idx: Option<usize> = text::rfind_char(audio, '/');
    if let Some(dot) = dot_idx {
        let in_last_part: bool = match slash_idx {
            Some(slash) => slash < dot,
            None => true,
        };
        if in_last_part {
            proof {
                text::lemma_last_index(audio@, '.');
            }
            let mut s: String = text::text_until(audio, dot).to_string();
            s.append(hash.as_str());
            match format {
                Some(f) => {
                    s.append(".");
                    s.append(f.extension());
                },
                None => {
                    s.append(text::text_from(audio, dot));
                },
            }
            proof {
                assert(s@ =~= suffixed(key@, format, digest@));
            }
            return s;
        }
    }
    let s: String = text::cat(audio, hash.as_str());
    proof {
        assert(s@ =~= suffixed(key@, format, digest@));
    }
    s
}

/// The name under which the result of a request is stored: the name of its key, with a
/// mark of the request. `path` is the canonical text of the request.
///
/// The mark is the first twenty digits of the name that is made of the digest alone.
pub fn suffix_result_storage_hasher(p: &Params, path: &str) -> (s: String)
    ensures
        s@ == suffixed(p.key@, p.format, text_digest(path@)),
        text_digest(path@).len() == 20,
        digest_mark(text_digest(path@)).len() == 20,
        s@ == marked(p.key@, p.format, name_digits(digest_name(path@)).take(20)),
{
    let digest: Vec<u8> = sha1_digest(path.as_bytes());
    proof {
        law_names_share_their_digits(digest@);
    }
    suffixed_name(p.key.as_str(), p.format, digest.as_slice())
}

/// What a hash is worth for a path whose code is `code`.
pub open spec fn hash_verdict(expected: Seq<char>, code: Seq<u8>) -> Result<(), AuthError> {
    match hex_decoded(encode_utf8(expected)) {
        Err(fault) => Err(AuthError::InvalidCredentials(CredentialFault::Format(fault))),
        Ok(bytes) => if bytes == code {
            Ok(())
        } else {
            Err(AuthError::InvalidCredentials(CredentialFault::Mismatch))
        },
    }
}

/// Judges a hash by what it decodes to and by whether the code matched.
pub fn credential_verdict(fault: Option<HexFault>, matched: bool) -> (r: Result<(), AuthError>)
    ensures
        r == match fault {
            Some(f) => Err::<(), AuthError>(
                AuthError::InvalidCredentials(CredentialFault::Format(f)),
            ),
            None => if matched {
                Ok(())
            } else {
                Err(AuthError::InvalidCredentials(CredentialFault::Mismatch))
            },
        },
{
    match fault {
        Some(f) => Err(AuthError::InvalidCredentials(CredentialFault::Format(f))),
        None => if matched {
            Ok(())
        } else {
            Err(AuthError::InvalidCredentials(CredentialFault::Mismatch))
        },
    }
}

/// Checks that `expected_path_hash` signs `path_candidate` under `secret`.
pub fn verify_hash(expected_path_hash: &str, path_candidate: &str, secret: &str) -> (r: Result<
    (),
    AuthError,
>)
    ensures
        r == hash_verdict(
            expected_path_hash@,
            hmac_sha256(encode_utf8(secret@), encode_utf8(path_candidate@)),
        ),
{
    match hex_decode(expected_path_hash) {
        Err(fault) => credential_verdict(Some(fault), false),
        Ok(bytes) => match mac_verifies(
            secret.as_bytes(),
            path_candidate.as_bytes(),
            bytes.as_slice(),
        ) {
            Ok(matched) => credential_verdict(None, matched),
            Err(_) => Err(
                AuthError::UnexpectedError("Invalid HMAC key: Invalid Length".to_string()),
            ),
        },
    }
}

/// Signs `path` under `secret`.
pub fn compute_hash(path: &str, secret: &str) -> (r: Result<String, String>)
    ensures
        r is Ok,
        r->Ok_0@ == hex_text(hmac_sha256(encode_utf8(secret@), encode_utf8(path@))),
        hmac_sha256(encode_utf8(secret@), encode_utf8(path@)).len() == 32,
        r->Ok_0@.len() == 64,
{
    match mac_code(secret.as_bytes(), path.as_bytes()) {
        Ok(code) => Ok(hex_encode(code.as_slice())),
        Err(_) => Err("Invalid HMAC key: Invalid Length".to_string()),
    }
}

proof fn lemma_no_fault(s: Seq<u8>)
    requires
        forall|i: int| 0 <= i < s.len() ==> hex_value(#[trigger] s[i]) is Some,
    ensures
        first_fault(s) is None,
    decreases s.len(),
{
    if s.len() > 0 {
        assert forall|i: int| 0 <= i < s.len() - 1 implies hex_value(
            #[trigger] s.drop_last()[i],
        ) is Some by {
            assert(s.drop_last()[i] == s[i]);
        }
        lemma_no_fault(s.drop_last());
    }
}

proof fn lemma_hex_digit(d: int)
    requires
        0 <= d < 16,
    ensures
        (hex_digit(d) as u32) < 128,
        hex_value(hex_digit(d) as u8) == Some(d),
{
}

/// Reading what hexadecimal writing wrote gives the bytes back.
pub proof fn law_hex_roundtrip(data: Seq<u8>)
    ensures
        hex_decoded(encode_utf8(hex_text(data))) == Ok::<Seq<u8>, HexFault>(data),
{
    let t = hex_text(data);
    assert forall|i: int| 0 <= i < t.len() implies '\0' <= #[trigger] t[i] <= '\u{7f}' by {
        let b = data[i / 2] as int;
        lemma_hex_digit(b / 16);
        lemma_hex_digit(b % 16);
    }
    is_ascii_chars_encode_utf8(t);
    let s = encode_utf8(t);
    assert forall|i: int| 0 <= i < s.len() implies hex_value(#[trigger] s[i]) == Some(
        if i % 2 == 0 {
            data[i / 2] as int / 16
        } else {
            data[i / 2] as int % 16
        },
    ) by {
        let b = data[i / 2] as int;
        assert(s[i] == t[i] as u8);
        lemma_hex_digit(b / 16);
        lemma_hex_digit(b % 16);
    }
    lemma_no_fault(s);
    let r = hex_decoded(s)->Ok_0;
    assert(r.len() == data.len());
    assert forall|i: int| 0 <= i < data.len() implies #[trigger] r[i] == data[i] by {
        assert(hex_value(s[2 * i]) == Some(data[i] as int / 16));
        assert(hex_value(s[2 * i + 1]) == Some(data[i] as int % 16));
        assert((2 * i) / 2 == i && (2 * i + 1) / 2 == i);
    }
    assert(r =~= data);
}

/// Different bytes have different hexadecimal texts.
pub proof fn law_hex_text_injective(a: Seq<u8>, b: Seq<u8>)
    requires
        hex_text(a) == hex_text(b),
    ensures
        a == b,
{
    law_hex_roundtrip(a);
    law_hex_roundtrip(b);
}

/// A path signed under a secret is admitted under that secret.
pub proof fn law_signed_path_verifies(path: Seq<char>, secret: Seq<char>)
    ensures
        ({
            let code = hmac_sha256(encode_utf8(secret), encode_utf8(path));
            hash_verdict(hex_text(code), code) == Ok::<(), AuthError>(())
        }),
{
    law_hex_roundtrip(hmac_sha256(encode_utf8(secret), encode_utf8(path)));
}

/// A hash that signs one path is refused for a path with another code.
pub proof fn law_other_path_refused(path: Seq<char>, other: Seq<char>, secret: Seq<char>)
    requires
        hmac_sha256(encode_utf8(secret), encode_utf8(path)) != hmac_sha256(
            encode_utf8(secret),
            encode_utf8(other),
        ),
    ensures
        hash_verdict(
            hex_text(hmac_sha256(encode_utf8(secret), encode_utf8(path))),
            hmac_sha256(encode_utf8(secret), encode_utf8(other)),
        ) == Err::<(), AuthError>(AuthError::InvalidCredentials(CredentialFault::Mismatch)),
{
    law_hex_roundtrip(hmac_sha256(encode_utf8(secret), encode_utf8(path)));
}

/// Hexadecimal writing gives digits alone, two for each byte.
pub proof fn law_hex_text_is_digits(data: Seq<u8>)
    ensures
        hex_text(data).len() == 2 * data.len(),
        forall|i: int| 0 <= i < hex_text(data).len() ==> is_hex_digit(#[trigger] hex_text(data)[i]),
{
    assert forall|i: int| 0 <= i < hex_text(data).len() implies is_hex_digit(
        #[trigger] hex_text(data)[i],
    ) by {
        let b = data[i / 2] as int;
        lemma_hex_digit(b / 16);
        lemma_hex_digit(b % 16);
    }
}

/// A digest of twenty bytes gives a path of forty digits in three parts.
pub proof fn law_digest_path_shape(digest: Seq<u8>)
    requires
        digest.len() == 20,
    ensures
        digest_shaped(hex_path(digest)),
{
    law_hex_text_is_digits(digest);
    let (name, hash) = (hex_path(digest), hex_text(digest));
    assert forall|i: int| 0 <= i < 42 implies if i == 2 || i == 5 {
        #[trigger] name[i] == '/'
    } else {
        is_hex_digit(name[i])
    } by {
        if i < 2 {
            assert(name[i] == hash[i]);
        } else if 2 < i < 5 {
            assert(name[i] == hash[i - 1]);
        } else if i > 5 {
            assert(name[i] == hash[i - 2]);
        }
    }
}

/// The path of a digest without its slashes is the hexadecimal text of the digest.
proof fn lemma_path_digits(digest: Seq<u8>)
    requires
        digest.len() >= 2,
    ensures
        name_digits(hex_path(digest)) == hex_text(digest),
{
    assert(name_digits(hex_path(digest)) =~= hex_text(digest));
}

/// The mark that a digest leaves in a name is the first twenty digits of the path that it
/// gives: the two names of one request agree on them.
pub proof fn law_names_share_their_digits(digest: Seq<u8>)
    requires
        digest.len() >= 10,
    ensures
        digest_mark(digest) == name_digits(hex_path(digest)).take(20),
        digest_mark(digest).len() == 20,
        forall|i: int| 0 <= i < 20 ==> is_hex_digit(#[trigger] digest_mark(digest)[i]),
{
    lemma_path_digits(digest);
    law_hex_text_is_digits(digest.take(10));
    assert(digest_mark(digest) =~= hex_text(digest).take(20));
}

/// Different digests are stored under different paths.
pub proof fn law_digest_path_injective(a: Seq<u8>, b: Seq<u8>)
    requires
        a.len() == b.len() >= 2,
        hex_path(a) == hex_path(b),
    ensures
        a == b,
{
    let (p, q) = (hex_path(a), hex_path(b));
    let (s, t) = (hex_text(a), hex_text(b));
    assert(s =~= p.take(2) + p.subrange(3, 5) + p.skip(6));
    assert(t =~= q.take(2) + q.subrange(3, 5) + q.skip(6));
    law_hex_text_injective(a, b);
}

/// Requests for one key and format whose digests differ in their first ten bytes are
/// stored under different names.
pub proof fn law_suffix_injective(
    key: Seq<char>,
    format: Option<AudioFormat>,
    a: Seq<u8>,
    b: Seq<u8>,
)
    requires
        a.len() >= 10,
        b.len() >= 10,
        suffixed(key, format, a) == suffixed(key, format, b),
    ensures
        a.take(10) == b.take(10),
{
    let audio = without_scheme(key);
    let at = match extension_index(audio) {
        Some(dot) => dot,
        None => audio.len() as int,
    };
    text::lemma_last_index(audio, '.');
    let (s, t) = (suffixed(key, format, a), suffixed(key, format, b));
    assert(s.subrange(at + 1, at + 21) =~= hex_text(a.take(10)));
    assert(t.subrange(at + 1, at + 21) =~= hex_text(b.take(10)));
    law_hex_text_injective(a.take(10), b.take(10));
}

/// Whether a key begins with a scheme of a remote URL.
pub open spec fn has_scheme(key: Seq<char>) -> bool {
    text::begins_with(key, "https://"@) || text::begins_with(key, "http://"@)
}

/// Where a key ends in a dot and an extension, its result is stored under the key with the
/// mark, between two dots, before the extension; a format that is asked for takes the place of
/// the extension.
pub proof fn law_mark_stands_before_the_extension(
    stem: Seq<char>,
    extension: Seq<char>,
    format: AudioFormat,
    mark: Seq<char>,
)
    requires
        !has_scheme(stem + seq!['.'] + extension),
        !extension.contains('.'),
        !extension.contains('/'),
    ensures
        marked(stem + seq!['.'] + extension, None, mark) == stem + seq!['.'] + mark + seq!['.']
            + extension,
        marked(stem + seq!['.'] + extension, Some(format), mark) == stem + seq!['.'] + mark
            + seq!['.'] + format.name(),
{
    let key = stem + seq!['.'] + extension;
    let n = stem.len() as int;
    text::law_separator_is_found(stem, '.', extension);
    text::lemma_last_index(key, '/');
    if let Some(slash) = text::last_index(key, '/') {
        if slash > n {
            assert(key[slash] == extension[slash - n - 1]);
        }
    }
    assert(key.take(n) =~= stem);
    assert(key.skip(n) =~= seq!['.'] + extension);
    assert(marked(key, None, mark) =~= stem + seq!['.'] + mark + seq!['.'] + extension);
    assert(marked(key, Some(format), mark) =~= stem + seq!['.'] + mark + seq!['.']
        + format.name());
}

/// Where the last part of a key has no dot, the mark stands at the end, behind a dot.
pub proof fn law_mark_stands_at_the_end(
    directory: Seq<char>,
    file: Seq<char>,
    format: Option<AudioFormat>,
    mark: Seq<char>,
)
    requires
        !file.contains('.'),
        !file.contains('/'),
        directory.len() == 0 || directory.last() == '/',
        !has_scheme(directory + file),
    ensures
        marked(directory + file, format, mark) == directory + file + seq!['.'] + mark,
{
    let key = directory + file;
    let n = directory.len() as int;
    text::lemma_last_index(key, '.');
    text::lemma_last_index(key, '/');
    if let Some(dot) = text::last_index(key, '.') {
        if dot >= n {
            assert(key[dot] == file[dot - n]);
        }
        assert(key[n - 1] == directory.last());
    }
}

/// The scheme of a remote key is no part of the name of its result.
pub proof fn law_scheme_is_left_out(
    rest: Seq<char>,
    format: Option<AudioFormat>,
    mark: Seq<char>,
)
    requires
        !has_scheme(rest),
    ensures
        marked("https://"@ + rest, format, mark) == marked(rest, format, mark),
        marked("http://"@ + rest, format, mark) == marked(rest, format, mark),
{
    reveal_strlit("https://");
    reveal_strlit("http://");
    let (a, b) = ("https://"@ + rest, "http://"@ + rest);
    assert(a.take(8) =~= "https://"@);
    assert(b.take(7) =~= "http://"@);
    assert(a.skip(8) =~= rest);
    assert(b.skip(7) =~= rest);
    if text::begins_with(b, "https://"@) {
        assert(b.take(8)[4] == ':');
    }
}

/// A name made of a digest alone is the three parts of the digits of the digest of the text,
/// and of nothing else.
pub proof fn law_name_is_made_of_the_digest(path: Seq<char>)
    requires
        sha1(encode_utf8(path)).len() >= 2,
    ensures
        ({
            let (name, digits) = (digest_name(path), hex_text(sha1(encode_utf8(path))));
            &&& name.len() == digits.len() + 2
            &&& name.take(2) == digits.take(2)
            &&& name[2] == '/'
            &&& name.subrange(3, 5) == digits.subrange(2, 4)
            &&& name[5] == '/'
            &&& name.skip(6) == digits.skip(4)
        }),
{
    let (name, digits) = (digest_name(path), hex_text(sha1(encode_utf8(path))));
    assert(name.take(2) =~= digits.take(2));
    assert(name.subrange(3, 5) =~= digits.subrange(2, 4));
    assert(name.skip(6) =~= digits.skip(4));
}

/// The mark is the hexadecimal text of the first ten bytes of the digest.
pub proof fn law_mark_is_half_of_the_digest(
    key: Seq<char>,
    format: Option<AudioFormat>,
    digest: Seq<u8>,
)
    requires
        digest.len() >= 10,
    ensures
        suffixed(key, format, digest) == marked(key, format, hex_text(digest).take(20)),
{
    law_names_share_their_digits(digest);
    lemma_path_digits(digest);
}

/// A hash admits exactly the code that it spells, in digits of either case; one that spells
/// another code is a mismatch, and one that spells none is malformed.
pub proof fn law_hash_admits_its_code_alone(hash: Seq<char>, code: Seq<u8>)
    ensures
        ({
            let (spelled, r) = (hex_decoded(encode_utf8(hash)), hash_verdict(hash, code));
            &&& r is Ok <==> spelled == Ok::<Seq<u8>, HexFault>(code)
            &&& spelled is Ok && spelled->Ok_0 != code ==> r == Err::<(), AuthError>(
                AuthError::InvalidCredentials(CredentialFault::Mismatch),
            )
            &&& spelled is Err ==> r == Err::<(), AuthError>(
                AuthError::InvalidCredentials(CredentialFault::Format(spelled->Err_0)),
            )
            &&& r is Err ==> r->Err_0.message() == "Invalid credentials"@
        }),
{
}

/// Digits of either case have the same value, and nothing else is a digit.
pub proof fn law_hex_digits_of_either_case(d: int, b: u8)
    requires
        0 <= d < 16,
    ensures
        d < 10 ==> hex_value(('0' as u8 + d) as u8) == Some(d),
        d >= 10 ==> hex_value(('a' as u8 + (d - 10)) as u8) == Some(d),
        d >= 10 ==> hex_value(('A' as u8 + (d - 10)) as u8) == Some(d),
        hex_value(b) is Some <==> '0' <= b as char <= '9' || 'a' <= b as char <= 'f' || 'A'
            <= b as char <= 'F',
{
}

/// A text of odd length is refused as such; one of even length for its first byte that is no
/// digit, with the place of that byte.
pub proof fn law_malformed_hash_is_located(s: Seq<u8>, at: int)
    requires
        0 <= at < s.len() <= usize::MAX,
        hex_value(s[at]) is None,
        forall|i: int| 0 <= i < at ==> hex_value(#[trigger] s[i]) is Some,
    ensures
        s.len() % 2 == 1 ==> hex_decoded(s) == Err::<Seq<u8>, HexFault>(HexFault::OddLength),
        s.len() % 2 == 0 ==> hex_decoded(s) == Err::<Seq<u8>, HexFault>(
            HexFault::InvalidCharacter { c: s[at] as char, index: at as usize },
        ),
{
    lemma_first_fault_at(s, at);
}

proof fn lemma_first_fault_at(s: Seq<u8>, at: int)
    requires
        0 <= at < s.len(),
        hex_value(s[at]) is None,
        forall|i: int| 0 <= i < at ==> hex_value(#[trigger] s[i]) is Some,
    ensures
        first_fault(s) == Some(at),
    decreases s.len(),
{
    let t = s.drop_last();
    assert forall|i: int| 0 <= i < t.len() implies t[i] == s[i] by {}
    if at < s.len() - 1 {
        lemma_first_fault_at(t, at);
    } else {
        lemma_no_fault(t);
    }
}

/// One scheme is left out at the start of a key, and nothing else.
pub proof fn law_one_scheme_is_left_out(rest: Seq<char>)
    ensures
        without_scheme("https://"@ + rest) == rest,
        without_scheme("http://"@ + rest) == rest,
        !has_scheme(rest) ==> without_scheme(rest) == rest,
{
    reveal_strlit("https://");
    reveal_strlit("http://");
    let (a, b) = ("https://"@ + rest, "http://"@ + rest);
    assert(a.take(8) =~= "https://"@);
    assert(b.take(7) =~= "http://"@);
    assert(a.skip(8) =~= rest);
    assert(b.skip(7) =~= rest);
    if text::begins_with(b, "https://"@) {
        assert(b.take(8)[4] == ':');
    }
}

} // verus!
