//! The trusted boundary: named results and thin wrappers around the
//! outside cryptographic crates.
//!
//! Each wrapper's contract states only what the wrapped function's source
//! or documentation shows.  Results that are functions of the arguments
//! alone (hashes, signatures, curve operations) are given uninterpreted
//! names; results that depend on randomness or the clock get no name and
//! only universally true clauses.

use sha2::Digest;
use vstd::prelude::*;
use vstd::utf8::{decode_utf8, valid_utf8};

use crate::keys::x25519_secret_of;

verus! {

/// The SHA-512 digest (64 bytes) of a byte sequence.
pub uninterp spec fn sha512_of(bytes: Seq<u8>) -> Seq<u8>;

/// The BLAKE3 digest (32 bytes) of a byte sequence.
pub uninterp spec fn blake3_of(bytes: Seq<u8>) -> Seq<u8>;

/// The Ed25519 public key derived from a 32-byte secret key.
pub uninterp spec fn ed25519_public_of(secret: Seq<u8>) -> Seq<u8>;

/// The X25519 (Montgomery) point corresponding to a compressed Edwards
/// point, or `None` when the 32 bytes do not decompress.
pub uninterp spec fn x25519_point_of(ed_public: Seq<u8>) -> Option<Seq<u8>>;

/// The X25519 Diffie-Hellman output for a scalar and a Montgomery point.
pub uninterp spec fn x25519_shared_of(scalar: Seq<u8>, point: Seq<u8>) -> Seq<u8>;

/// The XSalsa20-Poly1305 decryption of `cipher` (nonce-prefixed) under
/// `key`, or `None` when authentication fails.
pub uninterp spec fn xsalsa_decrypt_of(cipher: Seq<u8>, key: Seq<u8>) -> Option<Seq<u8>>;

/// The deterministic Ed25519 signature (64 bytes) of a message under a
/// 32-byte secret key.
pub uninterp spec fn ed25519_signature_of(secret: Seq<u8>, message: Seq<u8>) -> Seq<u8>;

/// Whether an Ed25519 signature check of `signature` on `message` under
/// the public key bytes `public` succeeds.
pub uninterp spec fn ed25519_verify_of(public: Seq<u8>, message: Seq<u8>, signature: Seq<u8>) -> bool;

/// The z-base-32 string encoding of a 32-byte public key.
pub uninterp spec fn zbase32_of(public: Seq<u8>) -> Seq<char>;

/// The 32 public-key bytes recovered from a string, or `None` when the
/// string is not a well-formed, valid public key.
pub uninterp spec fn parsed_public_key_of(s: Seq<char>) -> Option<Seq<u8>>;

/// The BIP-39 seed (64 bytes) derived from an English recovery phrase and
/// a passphrase, or `None` when the phrase does not parse.
pub uninterp spec fn mnemonic_seed_of(phrase: Seq<char>, passphrase: Seq<char>) -> Option<Seq<u8>>;

/// The 32-byte secret key held in an encrypted recovery file, or `None`
/// when the file or passphrase is wrong.
pub uninterp spec fn recovery_file_secret_of(file: Seq<u8>, passphrase: Seq<char>) -> Option<Seq<u8>>;

/// Relies on sha2::Sha512: a 64-byte digest that depends on the input
/// bytes alone.
#[verifier::external_body]
pub(crate) fn sha512(input: &[u8]) -> (r: [u8; 64])
    ensures
        r@ == sha512_of(input@),
{
    let mut hasher = sha2::Sha512::new();
    hasher.update(input);
    hasher.finalize().into()
}

/// Relies on blake3::hash: a 32-byte digest that depends on the input
/// bytes alone.
#[verifier::external_body]
pub(crate) fn blake3_hash(input: &[u8]) -> (r: [u8; 32])
    ensures
        r@ == blake3_of(input@),
{
    *blake3::hash(input).as_bytes()
}

/// Relies on pkarr::Keypair::from_secret_key and public_key: the Ed25519
/// public key is a function of the secret key alone, and is always a
/// valid compressed curve point.
#[verifier::external_body]
pub(crate) fn ed25519_public(secret: &[u8; 32]) -> (r: [u8; 32])
    ensures
        r@ == ed25519_public_of(secret@),
        x25519_point_of(r@) is Some,
{
    pkarr::Keypair::from_secret_key(secret).public_key().to_bytes()
}

/// Relies on curve25519_dalek::edwards::CompressedEdwardsY::decompress
/// and EdwardsPoint::to_montgomery: decompression fails exactly on byte
/// strings that are not valid compressed points, and every genuine
/// Ed25519 public key is a valid compressed point.
#[verifier::external_body]
pub fn ed25519_public_to_x25519(ed_public: &[u8; 32]) -> (r: Option<[u8; 32]>)
    ensures
        r matches Some(m) ==> x25519_point_of(ed_public@) == Some(m@),
        r is None ==> x25519_point_of(ed_public@) is None,
        forall|s: Seq<u8>| ed_public@ == #[trigger] ed25519_public_of(s) ==> r is Some,
{
    let compressed = curve25519_dalek::edwards::CompressedEdwardsY(*ed_public);
    match compressed.decompress() {
        Some(point) => Some(point.to_montgomery().to_bytes()),
        None => None,
    }
}

/// Relies on x25519_dalek::StaticSecret::diffie_hellman: the X25519
/// function of RFC 7748.  The exchange commutes between two parties: when
/// the scalar is the converted secret of one seed and the point is the
/// converted public key of another, swapping the two seeds' roles yields
/// the same shared output (both equal the u-coordinate of the product of
/// the two clamped scalars times the base point).
#[verifier::external_body]
pub(crate) fn x25519_diffie_hellman(scalar: &[u8; 32], point: &[u8; 32]) -> (r: [u8; 32])
    ensures
        r@ == x25519_shared_of(scalar@, point@),
        forall|sa: Seq<u8>, sb: Seq<u8>|
            #![trigger sha512_of(sa), ed25519_public_of(sb)]
            (scalar@ == x25519_secret_of(sa) && x25519_point_of(ed25519_public_of(sb))
                == Some(point@)) ==> r@ == x25519_shared_of(
                x25519_secret_of(sb),
                x25519_point_of(ed25519_public_of(sa))->Some_0,
            ),
{
    let secret = x25519_dalek::StaticSecret::from(*scalar);
    let public = x25519_dalek::PublicKey::from(*point);
    *secret.diffie_hellman(&public).as_bytes()
}

/// Relies on pubky_common::crypto::encrypt: XSalsa20-Poly1305 with a
/// fresh random 24-byte nonce prefixed to the ciphertext; the empty
/// plaintext is passed through unchanged.  The output's only stated
/// relation to the input is that decrypting it under the same key gives
/// the plaintext back.
#[verifier::external_body]
pub(crate) fn xsalsa_encrypt(plain: &[u8], key: &[u8; 32]) -> (r: Vec<u8>)
    ensures
        xsalsa_decrypt_of(r@, key@) == Some(plain@),
        r@.len() == (if plain@.len() == 0 { 0int } else { plain@.len() + 40int }),
{
    pubky_common::crypto::encrypt(plain, key)
}

/// Relies on pubky_common::crypto::decrypt: deterministic authenticated
/// decryption; failure is an error value, never a panic.
#[verifier::external_body]
pub(crate) fn xsalsa_decrypt(cipher: &[u8], key: &[u8; 32]) -> (r: Option<Vec<u8>>)
    ensures
        r matches Some(p) ==> xsalsa_decrypt_of(cipher@, key@) == Some(p@),
        r is None ==> xsalsa_decrypt_of(cipher@, key@) is None,
{
    match pubky_common::crypto::decrypt(cipher, key) {
        Ok(plain) => Some(plain),
        Err(_) => None,
    }
}

/// Relies on pkarr::Keypair::sign: deterministic Ed25519 (RFC 8032)
/// signing; a signature produced this way verifies under the matching
/// public key.
#[verifier::external_body]
pub(crate) fn ed25519_sign(secret: &[u8; 32], message: &[u8]) -> (r: [u8; 64])
    ensures
        r@ == ed25519_signature_of(secret@, message@),
        ed25519_verify_of(ed25519_public_of(secret@), message@, r@),
{
    pkarr::Keypair::from_secret_key(secret).sign(message).to_bytes()
}

/// Relies on ed25519_dalek::Signature::from_bytes (infallible) and
/// pkarr::PublicKey::verify (Ed25519 signature verification).  The
/// caller must pass bytes that decompress to a curve point; under that
/// assumption constructing the key cannot fail.
#[verifier::external_body]
pub(crate) fn ed25519_verify(public: &[u8; 32], message: &[u8], signature: &[u8; 64]) -> (r: bool)
    requires
        x25519_point_of(public@) is Some,
    ensures
        r == ed25519_verify_of(public@, message@, signature@),
{
    let signature = ed25519_dalek::Signature::from_bytes(signature);
    match pkarr::PublicKey::try_from(public) {
        Ok(pk) => pk.verify(message, &signature).is_ok(),
        Err(_) => false,
    }
}

/// Relies on base32::encode with the z-base-32 alphabet, the encoding
/// pkarr uses to display public keys: 32 bytes always encode to 52
/// characters, and decoding the result gives the original bytes back.
/// The round-trip clause additionally relies on pkarr::PublicKey's string
/// parser accepting exactly this encoding for valid curve points.
#[verifier::external_body]
pub(crate) fn zbase32_encode(public: &[u8; 32]) -> (r: String)
    requires
        x25519_point_of(public@) is Some,
    ensures
        r@ == zbase32_of(public@),
        r@.len() == 52,
        parsed_public_key_of(r@) == Some(public@),
{
    base32::encode(base32::Alphabet::Z, public)
}

/// Relies on pkarr::PublicKey::try_from(&str): parses a z-base-32 public
/// key and accepts it only if the bytes form a valid curve point.
#[verifier::external_body]
pub(crate) fn parse_public_key(s: &str) -> (r: Option<[u8; 32]>)
    ensures
        r matches Some(p) ==> parsed_public_key_of(s@) == Some(p@) && x25519_point_of(p@) is Some,
        r is None ==> parsed_public_key_of(s@) is None,
{
    match pkarr::PublicKey::try_from(s) {
        Ok(pk) => Some(pk.to_bytes()),
        Err(_) => None,
    }
}

/// Relies on bip39::Mnemonic::parse_in (English word list) and
/// bip39::Mnemonic::to_seed: phrase validation and the PBKDF2 seed are
/// functions of the phrase and passphrase alone.
#[verifier::external_body]
pub(crate) fn mnemonic_to_seed(phrase: &str, passphrase: &str) -> (r: Option<[u8; 64]>)
    ensures
        r matches Some(s) ==> mnemonic_seed_of(phrase@, passphrase@) == Some(s@),
        r is None ==> mnemonic_seed_of(phrase@, passphrase@) is None,
{
    match bip39::Mnemonic::parse_in(bip39::Language::English, phrase) {
        Ok(m) => Some(m.to_seed(passphrase)),
        Err(_) => None,
    }
}

/// Relies on pubky_common::recovery_file::decrypt_recovery_file: the
/// recovered keypair is a function of the file bytes and passphrase
/// alone; failure is an error value.
#[verifier::external_body]
pub(crate) fn recovery_file_secret(file: &[u8], passphrase: &str) -> (r: Option<[u8; 32]>)
    ensures
        r matches Some(s) ==> recovery_file_secret_of(file@, passphrase@) == Some(s@),
        r is None ==> recovery_file_secret_of(file@, passphrase@) is None,
{
    match pubky_common::recovery_file::decrypt_recovery_file(file, passphrase) {
        Ok(keypair) => Some(keypair.secret_key()),
        Err(_) => None,
    }
}

/// Relies on std::string::String::from_utf8: succeeds exactly on valid
/// UTF-8 and returns the decoded characters.
#[verifier::external_body]
pub(crate) fn string_from_utf8(bytes: Vec<u8>) -> (r: Option<String>)
    ensures
        r matches Some(s) ==> valid_utf8(bytes@) && s@ == decode_utf8(bytes@),
        r is None ==> !valid_utf8(bytes@),
{
    match String::from_utf8(bytes) {
        Ok(s) => Some(s),
        Err(_) => None,
    }
}

/// Relies on std::time::SystemTime: whole seconds since the Unix epoch,
/// or zero if the clock reads earlier than the epoch.  Nothing can be
/// promised of the clock's value.
#[verifier::external_body]
pub(crate) fn unix_now_seconds() -> u64 {
    std::time::SystemTime::now()
        .duration_since(std::time::UNIX_EPOCH)
        .map(|d| d.as_secs())
        .unwrap_or(0)
}

/// Relies on uuid::Uuid::new_v4 and its Display form: a random 128-bit
/// identifier rendered as 36 hyphenated hex characters.  Nothing beyond
/// the length can be promised of a random value.
#[verifier::external_body]
pub(crate) fn generate_uuid_string() -> (r: String)
    ensures
        r@.len() == 36,
{
    uuid::Uuid::new_v4().to_string()
}

} // verus!
