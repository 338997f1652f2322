//! Message envelopes: construction, decryption and signature
//! verification of a single private message.
//!
//! The sender signs a digest of the plaintext bound to its own identity
//! and the timestamp, then content and identity are independently
//! encrypted under the symmetric channel key.  Anyone holding the key
//! can decrypt, but a verifying envelope still requires the claimed
//! sender's signing secret.

use vstd::prelude::*;
use vstd::slice::slice_to_vec;
use vstd::utf8::{decode_utf8, encode_utf8, valid_utf8};
use vstd::utf8::{encode_utf8_decode_utf8, encode_utf8_valid_utf8};

use crate::ascii::{push_bytes, u64_be_bytes, u64_to_be_bytes};
use crate::errors::MessengerError;
use crate::keys::{shared_key, shared_point_of, PublicKey, SigningKeypair};
use crate::trusted;
use crate::trusted::{
    ed25519_public_of, ed25519_signature_of, ed25519_verify_of, parsed_public_key_of,
    x25519_point_of, xsalsa_decrypt_of, zbase32_of,
};

verus! {

/// The digest the sender signs: the BLAKE3 hash of the plaintext bytes,
/// followed by the sender's raw public-key bytes, followed by the
/// big-endian 8-byte timestamp.
pub open spec fn signing_digest(
    content_bytes: Seq<u8>,
    sender_public: Seq<u8>,
    timestamp: u64,
) -> Seq<u8> {
    trusted::blake3_of(content_bytes + sender_public + u64_be_bytes(timestamp))
}

/// A stored private message: an opaque ciphertext for the sender's
/// identity, an opaque ciphertext for the body, and a detached
/// signature over the plaintext digest.
#[derive(Debug, Clone)]
pub struct PrivateMessage {
    pub timestamp: u64,
    pub encrypted_sender: Vec<u8>,
    pub encrypted_content: Vec<u8>,
    pub signature_bytes: Vec<u8>,
}

/// The application-visible view of one message after decryption.
#[derive(Debug, Clone)]
pub struct DecryptedMessage {
    pub sender: String,
    pub content: String,
    pub timestamp: u64,
    pub verified: bool,
}

/// What holds of an envelope produced for channel key `key`, plaintext
/// `content` and the signing keypair of secret `sender_secret`.
pub open spec fn wf_envelope_from(
    m: PrivateMessage,
    key: Seq<u8>,
    content: Seq<char>,
    sender_secret: Seq<u8>,
) -> bool {
    let sender_public = ed25519_public_of(sender_secret);
    let sender_string = zbase32_of(sender_public);
    let digest = signing_digest(encode_utf8(content), sender_public, m.timestamp);
    &&& xsalsa_decrypt_of(m.encrypted_content@, key) == Some(encode_utf8(content))
    &&& xsalsa_decrypt_of(m.encrypted_sender@, key) == Some(encode_utf8(sender_string))
    &&& m.signature_bytes@ == ed25519_signature_of(sender_secret, digest)
    &&& m.signature_bytes@.len() == 64
    &&& parsed_public_key_of(sender_string) == Some(sender_public)
    &&& x25519_point_of(sender_public) is Some
    &&& ed25519_verify_of(sender_public, digest, m.signature_bytes@)
}

/// The text recovered by decrypting `cipher` under `key`: a decrypt
/// failure and invalid UTF-8 are distinct errors.
pub open spec fn spec_decrypt_text(cipher: Seq<u8>, key: Seq<u8>) -> Result<
    Seq<char>,
    MessengerError,
> {
    match xsalsa_decrypt_of(cipher, key) {
        Some(plain) => if valid_utf8(plain) {
            Ok(decode_utf8(plain))
        } else {
            Err(MessengerError::InvalidUtf8)
        },
        None => Err(MessengerError::DecryptFailure),
    }
}

/// Whether an executable decryption result agrees with the specified
/// one, value for value and error for error.
pub open spec fn text_result_matches(
    r: Result<String, MessengerError>,
    s: Result<Seq<char>, MessengerError>,
) -> bool {
    match r {
        Ok(t) => s matches Ok(c) && t@ == c,
        Err(e) => s matches Err(e2) && e == e2,
    }
}

/// The outcome of checking an envelope's signature against a decrypted
/// content and sender string.
pub open spec fn spec_verify_signature(
    timestamp: u64,
    signature: Seq<u8>,
    content: Seq<char>,
    sender: Seq<char>,
) -> Result<bool, MessengerError> {
    match parsed_public_key_of(sender) {
        Some(p) => if signature.len() == 64 {
            Ok(ed25519_verify_of(p, signing_digest(encode_utf8(content), p, timestamp), signature))
        } else {
            Err(MessengerError::InvalidSignatureLength)
        },
        None => Err(MessengerError::InvalidKey),
    }
}

impl PrivateMessage {
    /// Builds the signed, encrypted envelope for `content` from `sender`
    /// to `recipient`, stamped with the current time.
    ///
    /// Succeeds exactly when the recipient's key decompresses; in
    /// particular it always succeeds when `recipient` is the public key
    /// of some signing keypair.
    pub fn new(sender: &SigningKeypair, recipient: &PublicKey, content: &str) -> (r: Result<
        PrivateMessage,
        MessengerError,
    >)
        ensures
            (r is Ok) == (x25519_point_of(recipient@) is Some),
            r matches Ok(m) ==> wf_envelope_from(
                m,
                shared_point_of(sender@, recipient@),
                content@,
                sender@,
            ),
            r matches Err(e) ==> e == MessengerError::InvalidPoint,
            forall|sb: Seq<u8>| recipient@ == #[trigger] ed25519_public_of(sb) ==> r is Ok,
    {
        let timestamp = trusted::unix_now_seconds();
        PrivateMessage::new_with_timestamp(sender, recipient, content, timestamp)
    }

    /// Builds the envelope as [`PrivateMessage::new`] does, but stamped
    /// with a caller-chosen timestamp.
    pub fn new_with_timestamp(
        sender: &SigningKeypair,
        recipient: &PublicKey,
        content: &str,
        timestamp: u64,
    ) -> (r: Result<PrivateMessage, MessengerError>)
        ensures
            (r is Ok) == (x25519_point_of(recipient@) is Some),
            r matches Ok(m) ==> wf_envelope_from(
                m,
                shared_point_of(sender@, recipient@),
                content@,
                sender@,
            ) && m.timestamp == timestamp,
            r matches Err(e) ==> e == MessengerError::InvalidPoint,
            forall|sb: Seq<u8>| recipient@ == #[trigger] ed25519_public_of(sb) ==> r is Ok,
    {
        let key = match shared_key(sender, recipient) {
            Ok(k) => k,
            Err(e) => {
                return Err(e);
            },
        };
        let sender_public = sender.public_key().to_bytes();
        let mut digest_input: Vec<u8> = Vec::new();
        push_bytes(&mut digest_input, content.as_bytes());
        push_bytes(&mut digest_input, sender_public.as_slice());
        let timestamp_bytes = u64_to_be_bytes(timestamp);
        push_bytes(&mut digest_input, timestamp_bytes.as_slice());
        let digest = trusted::blake3_hash(digest_input.as_slice());
        let signature = sender.sign(digest.as_slice());
        let encrypted_content = trusted::xsalsa_encrypt(content.as_bytes(), &key);
        let sender_string = sender.public_key_string();
        let encrypted_sender = trusted::xsalsa_encrypt(sender_string.as_str().as_bytes(), &key);
        Ok(
            PrivateMessage {
                timestamp,
                encrypted_sender,
                encrypted_content,
                signature_bytes: slice_to_vec(signature.as_slice()),
            },
        )
    }

    /// Decrypts the message body under the channel key between
    /// `receiver` and `other_participant`.  Role-symmetric: works
    /// whether the receiver is the original sender or the recipient.
    pub fn decrypt_content(
        &self,
        receiver: &SigningKeypair,
        other_participant: &PublicKey,
    ) -> (r: Result<String, MessengerError>)
        ensures
            x25519_point_of(other_participant@) is None ==> r == Err::<String, MessengerError>(
                MessengerError::InvalidPoint,
            ),
            x25519_point_of(other_participant@) is Some ==> text_result_matches(
                r,
                spec_decrypt_text(
                    self.encrypted_content@,
                    shared_point_of(receiver@, other_participant@),
                ),
            ),
            forall|sb: Seq<u8>|
                other_participant@ == #[trigger] ed25519_public_of(sb) ==> text_result_matches(
                    r,
                    spec_decrypt_text(
                        self.encrypted_content@,
                        shared_point_of(sb, ed25519_public_of(receiver@)),
                    ),
                ),
            x25519_point_of(ed25519_public_of(receiver@)) is Some,
    {
        let key = match shared_key(receiver, other_participant) {
            Ok(k) => k,
            Err(e) => {
                return Err(e);
            },
        };
        let plain = match trusted::xsalsa_decrypt(self.encrypted_content.as_slice(), &key) {
            Some(p) => p,
            None => {
                return Err(MessengerError::DecryptFailure);
            },
        };
        match trusted::string_from_utf8(plain) {
            Some(s) => Ok(s),
            None => Err(MessengerError::InvalidUtf8),
        }
    }

    /// Decrypts the sender identity string under the channel key
    /// between `receiver` and `other_participant`.
    pub fn decrypt_sender(
        &self,
        receiver: &SigningKeypair,
        other_participant: &PublicKey,
    ) -> (r: Result<String, MessengerError>)
        ensures
            x25519_point_of(other_participant@) is None ==> r == Err::<String, MessengerError>(
                MessengerError::InvalidPoint,
            ),
            x25519_point_of(other_participant@) is Some ==> text_result_matches(
                r,
                spec_decrypt_text(
                    self.encrypted_sender@,
                    shared_point_of(receiver@, other_participant@),
                ),
            ),
            forall|sb: Seq<u8>|
                other_participant@ == #[trigger] ed25519_public_of(sb) ==> text_result_matches(
                    r,
                    spec_decrypt_text(
                        self.encrypted_sender@,
                        shared_point_of(sb, ed25519_public_of(receiver@)),
                    ),
                ),
            x25519_point_of(ed25519_public_of(receiver@)) is Some,
    {
        let key = match shared_key(receiver, other_participant) {
            Ok(k) => k,
            Err(e) => {
                return Err(e);
            },
        };
        let plain = match trusted::xsalsa_decrypt(self.encrypted_sender.as_slice(), &key) {
            Some(p) => p,
            None => {
                return Err(MessengerError::DecryptFailure);
            },
        };
        match trusted::string_from_utf8(plain) {
            Some(s) => Ok(s),
            None => Err(MessengerError::InvalidUtf8),
        }
    }

    /// Checks the envelope's signature against a decrypted content and
    /// sender string: the sender string is parsed back into a public
    /// key, the digest is recomputed, and the signature is verified
    /// against both.  A failed verification is an ordinary `Ok(false)`.
    pub fn verify_signature(&self, decrypted_content: &str, decrypted_sender: &str) -> (r: Result<
        bool,
        MessengerError,
    >)
        ensures
            r == spec_verify_signature(
                self.timestamp,
                self.signature_bytes@,
                decrypted_content@,
                decrypted_sender@,
            ),
    {
        let sender_public = match trusted::parse_public_key(decrypted_sender) {
            Some(p) => p,
            None => {
                return Err(MessengerError::InvalidKey);
            },
        };
        if self.signature_bytes.len() != 64 {
            return Err(MessengerError::InvalidSignatureLength);
        }
        let mut digest_input: Vec<u8> = Vec::new();
        push_bytes(&mut digest_input, decrypted_content.as_bytes());
        push_bytes(&mut digest_input, sender_public.as_slice());
        let timestamp_bytes = u64_to_be_bytes(self.timestamp);
        push_bytes(&mut digest_input, timestamp_bytes.as_slice());
        let digest = trusted::blake3_hash(digest_input.as_slice());
        let mut signature = [0u8; 64];
        let mut i: usize = 0;
        while i < 64
            invariant
                i <= 64,
                self.signature_bytes@.len() == 64,
                forall|j: int| 0 <= j < i ==> #[trigger] signature@[j] == self.signature_bytes@[j],
            decreases 64 - i,
        {
            signature[i] = self.signature_bytes[i];
            i = i + 1;
        }
        proof {
            assert(signature@ =~= self.signature_bytes@);
        }
        Ok(trusted::ed25519_verify(&sender_public, digest.as_slice(), &signature))
    }

    /// A fresh random identifier for naming the stored object: 36
    /// hyphenated hex characters.  Not part of the envelope itself.
    pub fn generate_id() -> (r: String)
        ensures
            r@.len() == 36,
    {
        trusted::generate_uuid_string()
    }
}

/// The round trip a conversation rests on: an envelope produced for a
/// channel key decrypts, under that same key, back to its plaintext and
/// to its sender's identity string, and checking its signature against
/// those two succeeds.
pub proof fn lemma_round_trip(
    m: PrivateMessage,
    key: Seq<u8>,
    content: Seq<char>,
    sender_secret: Seq<u8>,
)
    requires
        wf_envelope_from(m, key, content, sender_secret),
    ensures
        spec_decrypt_text(m.encrypted_content@, key) == Ok::<Seq<char>, MessengerError>(content),
        spec_decrypt_text(m.encrypted_sender@, key) == Ok::<Seq<char>, MessengerError>(
            zbase32_of(ed25519_public_of(sender_secret)),
        ),
        spec_verify_signature(
            m.timestamp,
            m.signature_bytes@,
            content,
            zbase32_of(ed25519_public_of(sender_secret)),
        ) == Ok::<bool, MessengerError>(true),
{
    encode_utf8_valid_utf8(content);
    encode_utf8_decode_utf8(content);
    let sender_string = zbase32_of(ed25519_public_of(sender_secret));
    encode_utf8_valid_utf8(sender_string);
    encode_utf8_decode_utf8(sender_string);
}

} // verus!

