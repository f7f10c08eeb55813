//! Credentials: random keys, their hexadecimal form and their digests.

use sha2::{Digest, Sha256};
use vstd::prelude::*;

verus! {

/// The SHA-256 digest of the UTF-8 encoding of `text`: what the sha2 crate
/// computes, named here and not written out.
pub uninterp spec fn sha256(text: Seq<char>) -> Seq<u8>;

/// The system's random source could not deliver.
#[derive(Debug)]
pub struct EntropyError;

#[verifier::external_type_specification]
#[verifier::external_body]
pub struct ExGetrandomError(getrandom::Error);

/// The upper-case hexadecimal digit of a value below sixteen.
pub open spec fn hex_digit(nibble: int) -> char {
    if nibble == 0 {
        '0'
    } else if nibble == 1 {
        '1'
    } else if nibble == 2 {
        '2'
    } else if nibble == 3 {
        '3'
    } else if nibble == 4 {
        '4'
    } else if nibble == 5 {
        '5'
    } else if nibble == 6 {
        '6'
    } else if nibble == 7 {
        '7'
    } else if nibble == 8 {
        '8'
    } else if nibble == 9 {
        '9'
    } else if nibble == 10 {
        'A'
    } else if nibble == 11 {
        'B'
    } else if nibble == 12 {
        'C'
    } else if nibble == 13 {
        'D'
    } else if nibble == 14 {
        'E'
    } else {
        'F'
    }
}

/// Two upper-case hexadecimal digits per byte, high nibble first.
pub open spec fn hex_encode(bytes: Seq<u8>) -> Seq<char> {
    Seq::new(
        2 * bytes.len(),
        |i: int|
            if i % 2 == 0 {
                hex_digit(bytes[i / 2] as int / 16)
            } else {
                hex_digit(bytes[i / 2] as int % 16)
            },
    )
}

/// Whether `c` is one of `0`-`9` or `A`-`F`.
pub open spec fn is_upper_hex(c: char) -> bool {
    exists|nibble: int| 0 <= nibble < 16 && c == #[trigger] hex_digit(nibble)
}

/// The stored form of a credential: the hexadecimal text of its SHA-256 digest.
pub open spec fn digest_hex(text: Seq<char>) -> Seq<char> {
    hex_encode(sha256(text))
}

/// Calls `getrandom::getrandom` on a zeroed buffer of `length` bytes. On
/// success the buffer comes back, still `length` bytes long; what the bytes
/// are is not stated. On an empty buffer the outside function succeeds at
/// once, without asking the system; on any other, whether it succeeds is the
/// system's to decide.
#[verifier::external_body]
fn random_bytes(length: usize) -> (outcome: Result<Vec<u8>, getrandom::Error>)
    ensures
        outcome matches Ok(bytes) ==> bytes@.len() == length,
        length == 0 ==> outcome is Ok,
{
    let mut bytes = vec![0u8; length];
    match getrandom::getrandom(&mut bytes) {
        Ok(()) => Ok(bytes),
        Err(error) => Err(error),
    }
}

/// Calls `Sha256::digest` of the sha2 crate on the UTF-8 bytes of `text`. The
/// contract names the result and states its length, 32 bytes.
#[verifier::external_body]
fn sha256_of(text: &str) -> (digest: Vec<u8>)
    ensures
        digest@ == sha256(text@),
        digest@.len() == 32,
{
    Sha256::digest(text.as_bytes()).to_vec()
}

/// The text of the random (version 4) identifier that the uuid crate makes
/// of sixteen bytes: what `Builder::from_random_bytes` computes, named here
/// and not written out.
pub uninterp spec fn uuid_text(bytes: Seq<u8>) -> Seq<char>;

/// Calls `uuid::Builder::from_random_bytes` on the sixteen bytes, takes the
/// identifier with `into_uuid` and renders it with its `to_string`. The
/// contract names the result.
#[verifier::external_body]
fn uuid_text_of(bytes: &[u8]) -> (id: String)
    requires
        bytes@.len() == 16,
    ensures
        id@ == uuid_text(bytes@),
{
    let mut array = [0u8; 16];
    array.copy_from_slice(bytes);
    uuid::Builder::from_random_bytes(array).into_uuid().to_string()
}

/// The identifier that the bytes `bytes` make, where they are sixteen.
pub fn uuid_from_random_bytes(bytes: &[u8]) -> (id: Option<String>)
    ensures
        match id {
            Some(id) => bytes@.len() == 16 && id@ == uuid_text(bytes@),
            None => bytes@.len() != 16,
        },
{
    if bytes.len() == 16 {
        Some(uuid_text_of(bytes))
    } else {
        None
    }
}

/// A fresh random identifier: the one that sixteen bytes from the system's
/// random source make. Fails exactly when the source does.
pub fn new_uuid() -> (outcome: Result<String, EntropyError>)
    ensures
        outcome matches Ok(id) ==> exists|bytes: Seq<u8>|
            bytes.len() == 16 && id@ == #[trigger] uuid_text(bytes),
{
    match random_bytes(16) {
        Ok(bytes) => {
            match uuid_from_random_bytes(bytes.as_slice()) {
                Some(id) => Ok(id),
                None => Err(EntropyError),
            }
        },
        Err(_) => Err(EntropyError),
    }
}

fn hex_char(nibble: u8) -> (c: char)
    requires
        nibble < 16,
    ensures
        c == hex_digit(nibble as int),
{
    if nibble == 0 {
        '0'
    } else if nibble == 1 {
        '1'
    } else if nibble == 2 {
        '2'
    } else if nibble == 3 {
        '3'
    } else if nibble == 4 {
        '4'
    } else if nibble == 5 {
        '5'
    } else if nibble == 6 {
        '6'
    } else if nibble == 7 {
        '7'
    } else if nibble == 8 {
        '8'
    } else if nibble == 9 {
        '9'
    } else if nibble == 10 {
        'A'
    } else if nibble == 11 {
        'B'
    } else if nibble == 12 {
        'C'
    } else if nibble == 13 {
        'D'
    } else if nibble == 14 {
        'E'
    } else {
        'F'
    }
}

/// Renders bytes as upper-case hexadecimal text, two digits per byte.
pub fn bytes_to_hex_string(bytes: &[u8]) -> (code: String)
    ensures
        code@ == hex_encode(bytes@),
{
    let mut code = String::new();
    let mut i: usize = 0;
    while i < bytes.len()
        invariant
            i <= bytes@.len(),
            code@ == hex_encode(bytes@.take(i as int)),
        decreases bytes@.len() - i,
    {
        let b: u8 = bytes[i];
        let ghost before = code@;
        code.push(hex_char(b / 16));
        code.push(hex_char(b % 16));
        i += 1;
        assert(code@ =~= hex_encode(bytes@.take(i as int))) by {
            assert(before == hex_encode(bytes@.take(i - 1)));
            assert(code@ == before.push(hex_digit(b as int / 16)).push(hex_digit(b as int % 16)));
        }
    }
    assert(bytes@.take(i as int) =~= bytes@);
    code
}

/// The stored form of `string`: its SHA-256 digest as 64 upper-case
/// hexadecimal digits.
pub fn hash_string(string: &str) -> (hashed: String)
    ensures
        hashed@ == digest_hex(string@),
        hashed@.len() == 64,
{
    let digest = sha256_of(string);
    bytes_to_hex_string(digest.as_slice())
}

/// A fresh random credential of `length` bytes as hexadecimal text, with its
/// stored form. A credential of no bytes is the empty text and never fails;
/// any other fails exactly when the system's random source does.
fn new_rand_string(length: usize) -> (outcome: Result<(String, String), EntropyError>)
    ensures
        outcome matches Ok(pair) ==> is_credential(pair.0@, pair.1@, length as nat),
        length == 0 ==> outcome is Ok,
{
    match random_bytes(length) {
        Ok(bytes) => {
            let pair = credential_of(bytes.as_slice());
            Ok(pair)
        },
        Err(_) => Err(EntropyError),
    }
}

/// Whether `key` is the hexadecimal text of `length` bytes and `hashed` its
/// stored form.
pub open spec fn is_credential(key: Seq<char>, hashed: Seq<char>, length: nat) -> bool {
    &&& exists|bytes: Seq<u8>| bytes.len() == length && key == #[trigger] hex_encode(bytes)
    &&& hashed == digest_hex(key)
}

/// A fresh operator key of 32 random bytes (64 hexadecimal digits) and its
/// stored form. Fails only when the system's random source does.
pub fn new_key() -> (outcome: Result<(String, String), EntropyError>)
    ensures
        outcome matches Ok(pair) ==> is_credential(pair.0@, pair.1@, 32),
{
    new_rand_string(32)
}

/// A fresh invite code of 64 random bytes (128 hexadecimal digits) and its
/// stored form. Fails only when the system's random source does.
pub fn new_invite_code() -> (outcome: Result<(String, String), EntropyError>)
    ensures
        outcome matches Ok(pair) ==> is_credential(pair.0@, pair.1@, 64),
{
    new_rand_string(64)
}

/// The credential that the bytes `bytes` make: their hexadecimal text, and
/// the stored form of that text.
pub fn credential_of(bytes: &[u8]) -> (pair: (String, String))
    ensures
        pair.0@ == hex_encode(bytes@),
        pair.1@ == digest_hex(pair.0@),
        is_credential(pair.0@, pair.1@, bytes@.len()),
{
    let hex_string = bytes_to_hex_string(bytes);
    let hashed_hex_string = hash_string(hex_string.as_str());
    (hex_string, hashed_hex_string)
}

/// Hexadecimal text is twice as long as the bytes it renders and made of the
/// digits `0`-`9` and `A`-`F` only.
pub proof fn lemma_hex_encode_shape(bytes: Seq<u8>)
    ensures
        hex_encode(bytes).len() == 2 * bytes.len(),
        forall|i: int| 0 <= i < hex_encode(bytes).len() ==> is_upper_hex(#[trigger] hex_encode(bytes)[i]),
{
    assert forall|i: int| 0 <= i < hex_encode(bytes).len() implies is_upper_hex(
        #[trigger] hex_encode(bytes)[i],
    ) by {
        let b = bytes[i / 2] as int;
        if i % 2 == 0 {
            assert(hex_encode(bytes)[i] == hex_digit(b / 16));
            assert(0 <= b / 16 < 16);
        } else {
            assert(hex_encode(bytes)[i] == hex_digit(b % 16));
            assert(0 <= b % 16 < 16);
        }
    }
}

} // verus!
