//! The conversation locator: a deterministic storage path shared by both
//! participants, derived from the symmetric channel key.

use vstd::prelude::*;
use vstd::string::{StrSliceExecFns, StringExecFns};

use crate::ascii::{hex_bytes_of, hex_encode, hex_of, lemma_ascii_encode, lemma_hex_bytes_ascii};
use crate::errors::MessengerError;
use crate::keys::{generate_shared_secret, shared_point_of, PublicKey, SigningKeypair};
use crate::trusted;
use crate::trusted::{blake3_of, ed25519_public_of, x25519_point_of};
use vstd::utf8::encode_utf8;

verus! {

/// The conversation path derived from the raw Diffie-Hellman output: a
/// private-messages namespace segment, the hex BLAKE3 digest of the
/// hex-encoded shared secret, and a trailing separator.
pub open spec fn conversation_path_of(shared: Seq<u8>) -> Seq<char> {
    "/pub/private_messages/"@ + hex_of(blake3_of(hex_bytes_of(shared))) + "/"@
}

/// Derives the storage path for the conversation between `own` and
/// `peer`.
///
/// The path is syntactically identical no matter which of the two
/// parties computes it: when `peer` is the public key of some signing
/// keypair, the result equals what that keypair would derive from
/// `own`'s public key.
pub fn generate_conversation_path(own: &SigningKeypair, peer: &PublicKey) -> (r: Result<
    String,
    MessengerError,
>)
    ensures
        (r is Ok) == (x25519_point_of(peer@) is Some),
        r matches Ok(p) ==> p@ == conversation_path_of(shared_point_of(own@, peer@)),
        r matches Err(e) ==> e == MessengerError::InvalidPoint,
        forall|sb: Seq<u8>|
            peer@ == #[trigger] ed25519_public_of(sb) ==> (r matches Ok(p) && p@
                == conversation_path_of(shared_point_of(sb, ed25519_public_of(own@)))),
{
    let shared_hex = match generate_shared_secret(own, peer) {
        Ok(s) => s,
        Err(e) => {
            return Err(e);
        },
    };
    proof {
        lemma_hex_bytes_ascii(shared_point_of(own@, peer@));
        lemma_ascii_encode(hex_bytes_of(shared_point_of(own@, peer@)));
        assert forall|sb: Seq<u8>| peer@ == #[trigger] ed25519_public_of(sb) implies encode_utf8(
            shared_hex@,
        ) == hex_bytes_of(shared_point_of(sb, ed25519_public_of(own@))) by {
            lemma_hex_bytes_ascii(shared_point_of(sb, ed25519_public_of(own@)));
            lemma_ascii_encode(hex_bytes_of(shared_point_of(sb, ed25519_public_of(own@))));
        }
    }
    let digest = trusted::blake3_hash(shared_hex.as_str().as_bytes());
    let digest_hex = hex_encode(digest.as_slice());
    let mut path = String::from_str("/pub/private_messages/");
    path.append(digest_hex.as_str());
    path.append("/");
    Ok(path)
}

} // verus!
