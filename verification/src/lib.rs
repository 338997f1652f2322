//! Pairwise end-to-end-encrypted messaging over a public-key-addressed
//! object store.
//!
//! Two long-term Ed25519 signing keypairs are turned into a symmetric
//! channel key (via X25519 Diffie-Hellman), a storage path shared by both
//! parties, and self-authenticating message envelopes.  The cryptographic
//! primitives come from outside crates and are called through a small set
//! of trusted wrappers; everything layered on top of them is verified.

mod ascii;
mod codec;
mod envelope;
mod errors;
mod keys;
mod locator;
mod profiles;
mod sync;
mod trusted;

pub use ascii::{hex_bytes_of, hex_encode, hex_of, push_bytes, u64_be_bytes, u64_to_be_bytes};
pub use codec::{
    byte_array_json_of, byte_items_of, dec_digits_of, digit_run_end, digits_value,
    envelope_json_of, is_digit, lemma_codec_round_trip, parse_envelope, serialize_envelope,
    spec_parse_envelope,
};
pub use envelope::{
    lemma_round_trip, signing_digest, spec_decrypt_text, spec_verify_signature,
    text_result_matches, wf_envelope_from, DecryptedMessage, PrivateMessage,
};
pub use errors::MessengerError;
pub use keys::{
    clamp_scalar, ed25519_secret_to_x25519, generate_shared_secret, lemma_recovery_determinism,
    recovered_public_of, shared_key, shared_point_of, x25519_secret_of, Language, PublicKey,
    SigningKeypair,
};
pub use locator::{conversation_path_of, generate_conversation_path};
pub use sync::{
    batch_ranges, build_conversation_prefix, build_message_url, build_message_urls,
    classify_status, clear_batch_decision, conversation_prefix_of, delete_batch_result,
    first_failure, message_url_of,
    message_view, prepare_send, process_fetched, retry_outcome, should_pause_between,
    sorted_by_timestamp, spec_decode_message, spec_decoded_list, store_delete_result,
    store_write_result, BatchDecision, PreparedMessage, StoreStatus, DEFAULT_BATCH_PAUSE_MS,
    DEFAULT_DELETE_BATCH_SIZE, DEFAULT_RETRY_BACKOFF_MS,
};
pub use profiles::{
    after_last_slash, build_follow_record, build_follow_url, build_follows_url, build_profile_url,
    extract_pubky_id, follow_record_of, follow_url_of, follows_url_of, profile_url_of,
    spec_follow_lines, split_follow_urls, strip_cr, FollowedUser, PubkyProfile,
};
pub use trusted::{
    blake3_of, ed25519_public_of, ed25519_public_to_x25519, ed25519_signature_of,
    ed25519_verify_of, mnemonic_seed_of, parsed_public_key_of, recovery_file_secret_of, sha512_of,
    x25519_point_of, x25519_shared_of, xsalsa_decrypt_of, zbase32_of,
};
