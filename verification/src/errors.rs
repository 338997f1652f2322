//! Error values returned by the library.

use vstd::prelude::*;

verus! {

/// Everything that can go wrong inside the messaging core.
///
/// Cryptographic and decoding failures are always recoverable error values,
/// never panics; store failures carry just enough to let the caller decide
/// whether to retry.
#[derive(Debug, Clone, Copy, PartialEq, Eq)]
pub enum MessengerError {
    /// A 32-byte public key did not decompress to a curve point.
    InvalidPoint,
    /// Authentication-tag mismatch or malformed ciphertext.
    DecryptFailure,
    /// Decrypted bytes were not valid UTF-8 text.
    InvalidUtf8,
    /// A decrypted sender identity string was not a valid public key.
    InvalidKey,
    /// An envelope's signature field did not hold exactly 64 bytes.
    InvalidSignatureLength,
    /// A recovery phrase failed to parse (word count, unknown word, checksum).
    InvalidPhrase,
    /// A recovery file could not be decrypted with the given passphrase.
    InvalidRecoveryFile,
    /// The backend reported a non-success status for a write.
    StoreWriteFailure,
    /// The backend reported a non-success status for a read.
    StoreReadFailure,
    /// The backend reported a non-success status for a delete.
    StoreDeleteFailure,
    /// The backend asked for a backoff (status 429).
    RateLimited,
}

impl MessengerError {
    /// A short human-readable description of the error.
    pub fn describe(&self) -> (r: &'static str)
        ensures
            r@.len() > 0,
    {
        proof {
            reveal_strlit("public key is not a valid curve point");
            reveal_strlit("failed to decrypt ciphertext");
            reveal_strlit("decrypted bytes are not valid UTF-8");
            reveal_strlit("decrypted sender is not a valid public key");
            reveal_strlit("signature must be exactly 64 bytes");
            reveal_strlit("invalid recovery phrase");
            reveal_strlit("failed to decrypt recovery file");
            reveal_strlit("store write failed");
            reveal_strlit("store read failed");
            reveal_strlit("store delete failed");
            reveal_strlit("store asked for a backoff");
        }
        match self {
            MessengerError::InvalidPoint => "public key is not a valid curve point",
            MessengerError::DecryptFailure => "failed to decrypt ciphertext",
            MessengerError::InvalidUtf8 => "decrypted bytes are not valid UTF-8",
            MessengerError::InvalidKey => "decrypted sender is not a valid public key",
            MessengerError::InvalidSignatureLength => "signature must be exactly 64 bytes",
            MessengerError::InvalidPhrase => "invalid recovery phrase",
            MessengerError::InvalidRecoveryFile => "failed to decrypt recovery file",
            MessengerError::StoreWriteFailure => "store write failed",
            MessengerError::StoreReadFailure => "store read failed",
            MessengerError::StoreDeleteFailure => "store delete failed",
            MessengerError::RateLimited => "store asked for a backoff",
        }
    }
}

} // verus!
