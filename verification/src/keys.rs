//! Key material: signing keypairs, public keys, recovery-phrase and
//! recovery-file derivation, and the Ed25519-to-X25519 conversion that
//! feeds the Diffie-Hellman exchange.

use vstd::prelude::*;

use crate::ascii::{hex_encode, hex_of};
use crate::errors::MessengerError;
use crate::trusted;
use crate::trusted::{
    ed25519_public_of, mnemonic_seed_of, parsed_public_key_of, recovery_file_secret_of, sha512_of,
    x25519_point_of, x25519_shared_of, zbase32_of,
};

verus! {

/// RFC 7748 scalar clamping: clear the low three bits of the first byte,
/// clear the top bit and set the second-highest bit of the last byte.
pub open spec fn clamp_scalar(s: Seq<u8>) -> Seq<u8>
    recommends
        s.len() == 32,
{
    s.update(0, (s[0] & 248) as u8).update(31, ((s[31] & 127) | 64) as u8)
}

/// The X25519 secret scalar derived from an Ed25519 secret key: the low
/// 32 bytes of its SHA-512 digest, clamped.
pub open spec fn x25519_secret_of(ed_secret: Seq<u8>) -> Seq<u8> {
    clamp_scalar(sha512_of(ed_secret).take(32))
}

/// The raw Diffie-Hellman output between one party's secret key and the
/// other party's public key.  Meaningful when the public key decompresses.
pub open spec fn shared_point_of(own_secret: Seq<u8>, peer_public: Seq<u8>) -> Seq<u8> {
    x25519_shared_of(x25519_secret_of(own_secret), x25519_point_of(peer_public)->Some_0)
}

/// Word list selector for recovery phrases.
#[derive(Clone, Copy, Debug, PartialEq, Eq, Structural)]
pub enum Language {
    English,
}

/// A 32-byte public identity, as carried on the wire.  Any 32 bytes can
/// be held; whether they decompress to a curve point is checked where it
/// matters and surfaces as `InvalidPoint`.
#[derive(Clone, Copy, Debug)]
pub struct PublicKey {
    bytes: [u8; 32],
}

impl View for PublicKey {
    type V = Seq<u8>;

    closed spec fn view(&self) -> Seq<u8> {
        self.bytes@
    }
}

impl PublicKey {
    /// Wraps raw public-key bytes.
    pub fn from_bytes(bytes: [u8; 32]) -> (r: PublicKey)
        ensures
            r@ == bytes@,
    {
        PublicKey { bytes }
    }

    /// The raw 32 bytes.
    pub fn to_bytes(&self) -> (r: [u8; 32])
        ensures
            r@ == self@,
    {
        self.bytes
    }

    /// Parses a z-base-32 public-key string, accepting it only when the
    /// bytes form a valid curve point.
    pub fn try_from_string(s: &str) -> (r: Result<PublicKey, MessengerError>)
        ensures
            (r is Ok) == (parsed_public_key_of(s@) is Some),
            r matches Ok(pk) ==> parsed_public_key_of(s@) == Some(pk@) && x25519_point_of(pk@)
                is Some,
            r matches Err(e) ==> e == MessengerError::InvalidKey,
    {
        match trusted::parse_public_key(s) {
            Some(bytes) => Ok(PublicKey { bytes }),
            None => Err(MessengerError::InvalidKey),
        }
    }
}

/// A long-term Ed25519 signing keypair.  The view is the 32-byte secret
/// key; the public half is always the one derived from it.
#[derive(Clone, Copy)]
pub struct SigningKeypair {
    secret: [u8; 32],
    public: [u8; 32],
}

impl View for SigningKeypair {
    type V = Seq<u8>;

    closed spec fn view(&self) -> Seq<u8> {
        self.secret@
    }
}

impl SigningKeypair {
    /// The public half matches the secret half and is a valid curve
    /// point.
    #[verifier::type_invariant]
    spec fn wf(self) -> bool {
        self.public@ == ed25519_public_of(self.secret@) && x25519_point_of(self.public@) is Some
    }

    /// Builds the keypair owning a 32-byte secret key.
    pub fn from_secret_key(secret: &[u8; 32]) -> (r: SigningKeypair)
        ensures
            r@ == secret@,
    {
        let public = trusted::ed25519_public(secret);
        SigningKeypair { secret: *secret, public }
    }

    /// Derives the keypair held in an encrypted recovery file.
    pub fn from_recovery_file(file: &[u8], passphrase: Option<&str>) -> (r: Result<
        SigningKeypair,
        MessengerError,
    >)
        ensures
            ({
                let pass = spec_passphrase(passphrase);
                &&& (r is Ok) == (recovery_file_secret_of(file@, pass) is Some)
                &&& (r matches Ok(kp) ==> Some(kp@) == recovery_file_secret_of(file@, pass))
                &&& (r matches Err(e) ==> e == MessengerError::InvalidRecoveryFile)
            }),
    {
        let pass = match passphrase {
            Some(p) => p,
            None => "",
        };
        proof {
            reveal_strlit("");
            assert(pass@ =~= spec_passphrase(passphrase));
        }
        match trusted::recovery_file_secret(file, pass) {
            Some(secret) => Ok(SigningKeypair::from_secret_key(&secret)),
            None => Err(MessengerError::InvalidRecoveryFile),
        }
    }

    /// Derives the keypair from a BIP-39 recovery phrase: the first 32
    /// bytes of the phrase's seed become the Ed25519 secret key.
    /// Omitted passphrase means the empty passphrase; the only supported
    /// word list is English, which is also the default.
    pub fn from_recovery_phrase(
        phrase: &str,
        passphrase: Option<&str>,
        language: Option<Language>,
    ) -> (r: Result<SigningKeypair, MessengerError>)
        ensures
            ({
                let pass = spec_passphrase(passphrase);
                &&& (r is Ok) == (mnemonic_seed_of(phrase@, pass) is Some)
                &&& (r matches Ok(kp) ==> kp@ == mnemonic_seed_of(phrase@, pass)->Some_0.take(32))
                &&& (r matches Err(e) ==> e == MessengerError::InvalidPhrase)
            }),
    {
        let Language::English = match language {
            Some(l) => l,
            None => Language::English,
        };
        let pass = match passphrase {
            Some(p) => p,
            None => "",
        };
        proof {
            reveal_strlit("");
            assert(pass@ =~= spec_passphrase(passphrase));
        }
        match trusted::mnemonic_to_seed(phrase, pass) {
            Some(seed) => {
                let mut secret = [0u8; 32];
                let mut i: usize = 0;
                while i < 32
                    invariant
                        i <= 32,
                        seed@.len() == 64,
                        forall|j: int| 0 <= j < i ==> #[trigger] secret@[j] == seed@[j],
                    decreases 32 - i,
                {
                    secret[i] = seed[i];
                    i = i + 1;
                }
                proof {
                    assert(secret@ =~= seed@.take(32));
                }
                Ok(SigningKeypair::from_secret_key(&secret))
            },
            None => Err(MessengerError::InvalidPhrase),
        }
    }

    /// The public half of the keypair.
    pub fn public_key(&self) -> (r: PublicKey)
        ensures
            r@ == ed25519_public_of(self@),
            x25519_point_of(r@) is Some,
    {
        proof {
            use_type_invariant(self);
        }
        PublicKey { bytes: self.public }
    }

    /// Signs a message with the secret half: deterministic Ed25519.  The
    /// produced signature verifies under this keypair's public key.
    pub fn sign(&self, message: &[u8]) -> (r: [u8; 64])
        ensures
            r@ == crate::trusted::ed25519_signature_of(self@, message@),
            crate::trusted::ed25519_verify_of(ed25519_public_of(self@), message@, r@),
    {
        trusted::ed25519_sign(&self.secret, message)
    }

    /// The secret half of the keypair.
    pub fn secret_key(&self) -> (r: [u8; 32])
        ensures
            r@ == self@,
    {
        self.secret
    }

    /// The public half as its z-base-32 string.
    pub fn public_key_string(&self) -> (r: String)
        ensures
            r@ == zbase32_of(ed25519_public_of(self@)),
            r@.len() == 52,
            parsed_public_key_of(r@) == Some(ed25519_public_of(self@)),
    {
        proof {
            use_type_invariant(self);
        }
        trusted::zbase32_encode(&self.public)
    }
}

/// The passphrase actually used: the given one, or empty when omitted.
pub open spec fn spec_passphrase(passphrase: Option<&str>) -> Seq<char> {
    match passphrase {
        Some(p) => p@,
        None => Seq::empty(),
    }
}

/// Converts an Ed25519 secret key to an X25519 secret scalar: SHA-512,
/// truncate to 32 bytes, clamp per RFC 7748.  Total and deterministic.
pub fn ed25519_secret_to_x25519(ed_secret: &[u8; 32]) -> (r: [u8; 32])
    ensures
        r@ == x25519_secret_of(ed_secret@),
{
    let hash = trusted::sha512(ed_secret.as_slice());
    let mut out = [0u8; 32];
    let mut i: usize = 0;
    while i < 32
        invariant
            i <= 32,
            hash@ == sha512_of(ed_secret@),
            forall|j: int| 0 <= j < i ==> #[trigger] out@[j] == hash@[j],
        decreases 32 - i,
    {
        out[i] = hash[i];
        i = i + 1;
    }
    out[0] = out[0] & 248;
    out[31] = (out[31] & 127) | 64;
    proof {
        assert(out@ =~= x25519_secret_of(ed_secret@));
    }
    out
}

/// Derives the 32-byte symmetric channel key between `own` and `peer`.
///
/// Succeeds exactly when `peer` decompresses to a curve point; in
/// particular it always succeeds when `peer` is the public key of some
/// signing keypair, and the key is then the same no matter which of the
/// two parties derives it.
pub fn shared_key(own: &SigningKeypair, peer: &PublicKey) -> (r: Result<[u8; 32], MessengerError>)
    ensures
        (r is Ok) == (x25519_point_of(peer@) is Some),
        r matches Ok(k) ==> k@ == shared_point_of(own@, peer@),
        r matches Err(e) ==> e == MessengerError::InvalidPoint,
        forall|sb: Seq<u8>|
            peer@ == #[trigger] ed25519_public_of(sb) ==> (r matches Ok(k) && k@
                == shared_point_of(sb, ed25519_public_of(own@))),
        x25519_point_of(ed25519_public_of(own@)) is Some,
{
    proof {
        use_type_invariant(own);
    }
    let x_secret = ed25519_secret_to_x25519(&own.secret);
    let point = match trusted::ed25519_public_to_x25519(&peer.bytes) {
        Some(p) => p,
        None => {
            return Err(MessengerError::InvalidPoint);
        },
    };
    let shared = trusted::x25519_diffie_hellman(&x_secret, &point);
    proof {
        assert forall|sb: Seq<u8>| peer@ == #[trigger] ed25519_public_of(sb) implies shared@
            == shared_point_of(sb, ed25519_public_of(own@)) by {
            assert(sha512_of(own@) == sha512_of(own.secret@));
        }
    }
    Ok(shared)
}

/// Derives the shared secret between `own` and `peer`, hex-encoded.
///
/// This is the symmetric-key material both parties agree on: calling it
/// as A with B's public key and as B with A's public key yields the same
/// string.
pub fn generate_shared_secret(own: &SigningKeypair, peer: &PublicKey) -> (r: Result<
    String,
    MessengerError,
>)
    ensures
        (r is Ok) == (x25519_point_of(peer@) is Some),
        r matches Ok(s) ==> s@ == hex_of(shared_point_of(own@, peer@)) && s@.len() == 64,
        r matches Err(e) ==> e == MessengerError::InvalidPoint,
        forall|sb: Seq<u8>|
            peer@ == #[trigger] ed25519_public_of(sb) ==> (r matches Ok(s) && s@ == hex_of(
                shared_point_of(sb, ed25519_public_of(own@)),
            )),
    {
    match shared_key(own, peer) {
        Ok(key) => Ok(hex_encode(key.as_slice())),
        Err(e) => Err(e),
    }
}


/// The public key a recovery phrase derives, when the phrase parses.
pub open spec fn recovered_public_of(phrase: Seq<char>, passphrase: Seq<char>) -> Option<Seq<u8>> {
    match mnemonic_seed_of(phrase, passphrase) {
        Some(seed) => Some(ed25519_public_of(seed.take(32))),
        None => None,
    }
}

/// Recovery is deterministic: the same phrase and passphrase always
/// derive the same seed and the same public key, and a phrase that
/// fails to parse fails every time.
pub proof fn lemma_recovery_determinism(
    phrase1: Seq<char>,
    passphrase1: Seq<char>,
    phrase2: Seq<char>,
    passphrase2: Seq<char>,
)
    requires
        phrase1 == phrase2,
        passphrase1 == passphrase2,
    ensures
        mnemonic_seed_of(phrase1, passphrase1) == mnemonic_seed_of(phrase2, passphrase2),
        recovered_public_of(phrase1, passphrase1) == recovered_public_of(phrase2, passphrase2),
{
}

} // verus!
