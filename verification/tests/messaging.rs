use pubky_messenger::{
    ed25519_public_to_x25519, ed25519_secret_to_x25519, generate_conversation_path,
    generate_shared_secret, shared_key, MessengerError, PrivateMessage, PublicKey, SigningKeypair,
};
use sha2::Digest;

fn keypair_from(byte: u8) -> SigningKeypair {
    SigningKeypair::from_secret_key(&[byte; 32])
}

fn random_keypair() -> SigningKeypair {
    SigningKeypair::from_secret_key(&pkarr::Keypair::random().secret_key())
}

#[test]
fn test_message_encryption_decryption() {
    // Create two keypairs
    let alice_keypair = random_keypair();
    let bob_keypair = random_keypair();

    let alice_pubkey = alice_keypair.public_key();
    let bob_pubkey = bob_keypair.public_key();

    // Create a message from Alice to Bob
    let content = "Hello Bob!";
    let message = PrivateMessage::new(&alice_keypair, &bob_pubkey, content).unwrap();

    // Bob decrypts the message
    let decrypted_content = message
        .decrypt_content(&bob_keypair, &alice_pubkey)
        .unwrap();
    let decrypted_sender = message.decrypt_sender(&bob_keypair, &alice_pubkey).unwrap();

    // Verify the content and sender
    assert_eq!(decrypted_content, content);
    assert_eq!(decrypted_sender, alice_keypair.public_key_string());

    // Verify signature
    let verified = message
        .verify_signature(&decrypted_content, &decrypted_sender)
        .unwrap();
    assert!(verified);
}

#[test]
fn test_message_id_generation() {
    let id1 = PrivateMessage::generate_id();
    let id2 = PrivateMessage::generate_id();

    // IDs should be unique
    assert_ne!(id1, id2);

    // IDs should be valid UUIDs
    assert_eq!(id1.len(), 36); // UUID v4 string length
    assert_eq!(id2.len(), 36);
}

#[test]
fn shared_secret_is_symmetric() {
    let a = keypair_from(1);
    let b = keypair_from(2);

    let ab = generate_shared_secret(&a, &b.public_key()).unwrap();
    let ba = generate_shared_secret(&b, &a.public_key()).unwrap();
    assert_eq!(ab, ba);
    assert_eq!(ab.len(), 64);

    // A third party derives something else.
    let c = keypair_from(3);
    let ac = generate_shared_secret(&a, &c.public_key()).unwrap();
    assert_ne!(ab, ac);
}

#[test]
fn shared_secret_matches_reference_exchange() {
    // The derivation must agree with doing the conversion and exchange
    // by hand with sha2, curve25519-dalek and x25519-dalek.
    let a = keypair_from(4);
    let b = keypair_from(5);

    let x_secret = ed25519_secret_to_x25519(&a.secret_key());
    let digest = sha2::Sha512::digest(a.secret_key());
    let mut expected_scalar = [0u8; 32];
    expected_scalar.copy_from_slice(&digest[..32]);
    expected_scalar[0] &= 248;
    expected_scalar[31] &= 127;
    expected_scalar[31] |= 64;
    assert_eq!(x_secret, expected_scalar);

    let b_pub = b.public_key().to_bytes();
    let b_mont = ed25519_public_to_x25519(&b_pub).unwrap();
    let expected_mont = curve25519_dalek::edwards::CompressedEdwardsY(b_pub)
        .decompress()
        .unwrap()
        .to_montgomery()
        .to_bytes();
    assert_eq!(b_mont, expected_mont);

    let shared = shared_key(&a, &b.public_key()).unwrap();
    let reference = x25519_dalek::StaticSecret::from(expected_scalar)
        .diffie_hellman(&x25519_dalek::PublicKey::from(expected_mont));
    assert_eq!(&shared, reference.as_bytes());
    assert_eq!(generate_shared_secret(&a, &b.public_key()).unwrap(), hex::encode(shared));
}

#[test]
fn conversation_path_is_symmetric_and_well_formed() {
    let a = keypair_from(6);
    let b = keypair_from(7);

    let ab = generate_conversation_path(&a, &b.public_key()).unwrap();
    let ba = generate_conversation_path(&b, &a.public_key()).unwrap();
    assert_eq!(ab, ba);

    assert!(ab.starts_with("/pub/private_messages/"));
    assert!(ab.ends_with('/'));
    // namespace + 64 hex digits + separator
    assert_eq!(ab.len(), "/pub/private_messages/".len() + 64 + 1);

    // The digest must be blake3 of the hex shared secret.
    let secret_hex = generate_shared_secret(&a, &b.public_key()).unwrap();
    let digest_hex = blake3::hash(secret_hex.as_bytes()).to_hex();
    assert_eq!(ab, format!("/pub/private_messages/{}/", digest_hex));
}

#[test]
fn invalid_public_key_is_rejected() {
    let a = keypair_from(8);

    // Find byte patterns that do not decompress; the conversion must
    // agree with curve25519-dalek and the derivation must report them.
    let mut found_invalid = false;
    for i in 0..=255u8 {
        let candidate = [i; 32];
        let ours = ed25519_public_to_x25519(&candidate);
        let reference = curve25519_dalek::edwards::CompressedEdwardsY(candidate)
            .decompress()
            .map(|p| p.to_montgomery().to_bytes());
        assert_eq!(ours, reference);
        if ours.is_none() {
            found_invalid = true;
            let peer = PublicKey::from_bytes(candidate);
            assert_eq!(
                generate_shared_secret(&a, &peer).unwrap_err(),
                MessengerError::InvalidPoint
            );
            assert_eq!(
                generate_conversation_path(&a, &peer).unwrap_err(),
                MessengerError::InvalidPoint
            );
            assert_eq!(
                PrivateMessage::new(&a, &peer, "hi").unwrap_err(),
                MessengerError::InvalidPoint
            );
        }
    }
    assert!(found_invalid);
}

#[test]
fn sender_can_read_own_message() {
    // Decryption is role-symmetric: the sender decrypts with the
    // recipient's public key.
    let a = keypair_from(9);
    let b = keypair_from(10);

    let message = PrivateMessage::new(&a, &b.public_key(), "note to the channel").unwrap();
    let content = message.decrypt_content(&a, &b.public_key()).unwrap();
    assert_eq!(content, "note to the channel");
    let sender = message.decrypt_sender(&a, &b.public_key()).unwrap();
    assert_eq!(sender, a.public_key_string());
}

#[test]
fn empty_content_round_trips() {
    let a = keypair_from(11);
    let b = keypair_from(12);

    let message = PrivateMessage::new_with_timestamp(&a, &b.public_key(), "", 1234).unwrap();
    assert_eq!(message.timestamp, 1234);
    let content = message.decrypt_content(&b, &a.public_key()).unwrap();
    assert_eq!(content, "");
    let sender = message.decrypt_sender(&b, &a.public_key()).unwrap();
    let verified = message.verify_signature(&content, &sender).unwrap();
    assert!(verified);
}

#[test]
fn tampered_ciphertext_is_detected() {
    // Flipping any bit of encrypted_content or encrypted_sender causes
    // a decrypt failure or a failed verification, never a wrong
    // plaintext passed off as genuine.
    let a = keypair_from(13);
    let b = keypair_from(14);
    let message = PrivateMessage::new_with_timestamp(&a, &b.public_key(), "payload", 77).unwrap();

    for pos in 0..message.encrypted_content.len() {
        for bit in [0u8, 3, 7] {
            let mut tampered = message.clone();
            tampered.encrypted_content[pos] ^= 1 << bit;
            match tampered.decrypt_content(&b, &a.public_key()) {
                Err(e) => assert_eq!(e, MessengerError::DecryptFailure),
                Ok(content) => {
                    // A decrypt that somehow passes must not verify.
                    let sender = tampered.decrypt_sender(&b, &a.public_key()).unwrap();
                    assert!(!tampered.verify_signature(&content, &sender).unwrap());
                }
            }
        }
    }

    for pos in 0..message.encrypted_sender.len() {
        for bit in [0u8, 3, 7] {
            let mut tampered = message.clone();
            tampered.encrypted_sender[pos] ^= 1 << bit;
            match tampered.decrypt_sender(&b, &a.public_key()) {
                Err(e) => assert_eq!(e, MessengerError::DecryptFailure),
                Ok(sender) => {
                    let content = tampered.decrypt_content(&b, &a.public_key()).unwrap();
                    let verified = match tampered.verify_signature(&content, &sender) {
                        Ok(v) => v,
                        Err(_) => false,
                    };
                    assert!(!verified);
                }
            }
        }
    }
}

#[test]
fn tampered_signature_is_detected() {
    let a = keypair_from(15);
    let b = keypair_from(16);
    let message = PrivateMessage::new_with_timestamp(&a, &b.public_key(), "payload", 78).unwrap();
    let content = message.decrypt_content(&b, &a.public_key()).unwrap();
    let sender = message.decrypt_sender(&b, &a.public_key()).unwrap();

    for pos in 0..64 {
        for bit in [0u8, 5] {
            let mut tampered = message.clone();
            tampered.signature_bytes[pos] ^= 1 << bit;
            let verified = match tampered.verify_signature(&content, &sender) {
                Ok(v) => v,
                // Some tampered values are not even well-formed signatures.
                Err(_) => false,
            };
            assert!(!verified, "flipped bit {} of signature byte {}", bit, pos);
        }
    }
}

#[test]
fn wrong_key_cannot_decrypt() {
    let a = keypair_from(17);
    let b = keypair_from(18);
    let eve = keypair_from(19);
    let message = PrivateMessage::new(&a, &b.public_key(), "secret").unwrap();

    assert_eq!(
        message.decrypt_content(&eve, &a.public_key()).unwrap_err(),
        MessengerError::DecryptFailure
    );
    assert_eq!(
        message.decrypt_sender(&eve, &b.public_key()).unwrap_err(),
        MessengerError::DecryptFailure
    );
}

#[test]
fn verify_rejects_malformed_sender() {
    let a = keypair_from(20);
    let b = keypair_from(21);
    let message = PrivateMessage::new(&a, &b.public_key(), "hello").unwrap();

    assert_eq!(
        message.verify_signature("hello", "not a public key").unwrap_err(),
        MessengerError::InvalidKey
    );
}

#[test]
fn verify_rejects_short_signature() {
    let a = keypair_from(22);
    let b = keypair_from(23);
    let mut message = PrivateMessage::new(&a, &b.public_key(), "hello").unwrap();
    let content = message.decrypt_content(&b, &a.public_key()).unwrap();
    let sender = message.decrypt_sender(&b, &a.public_key()).unwrap();

    message.signature_bytes.truncate(63);
    assert_eq!(
        message.verify_signature(&content, &sender).unwrap_err(),
        MessengerError::InvalidSignatureLength
    );
}

#[test]
fn verify_is_false_for_wrong_content() {
    let a = keypair_from(24);
    let b = keypair_from(25);
    let message = PrivateMessage::new(&a, &b.public_key(), "original").unwrap();
    let sender = message.decrypt_sender(&b, &a.public_key()).unwrap();

    // Signature covers the plaintext: another text must not verify.
    assert!(!message.verify_signature("forged", &sender).unwrap());
    // Signature also binds the sender: another identity must not verify.
    let c = keypair_from(26);
    let content = message.decrypt_content(&b, &a.public_key()).unwrap();
    assert!(!message.verify_signature(&content, &c.public_key_string()).unwrap());
}

#[test]
fn non_utf8_plaintext_is_reported() {
    // An envelope whose ciphertext decrypts to bytes that are not text
    // is an InvalidUtf8 error, not a panic or a garbled string.
    let a = keypair_from(27);
    let b = keypair_from(28);
    let secret_hex = generate_shared_secret(&a, &b.public_key()).unwrap();
    let mut key = [0u8; 32];
    key.copy_from_slice(&hex::decode(&secret_hex).unwrap());

    let message = PrivateMessage {
        timestamp: 1,
        encrypted_sender: pubky_common::crypto::encrypt(b"sender", &key),
        encrypted_content: pubky_common::crypto::encrypt(&[0xff, 0xfe, 0x80], &key),
        signature_bytes: vec![0; 64],
    };
    assert_eq!(
        message.decrypt_content(&b, &a.public_key()).unwrap_err(),
        MessengerError::InvalidUtf8
    );
}

#[test]
fn public_key_string_round_trips() {
    let a = keypair_from(29);
    let text = a.public_key_string();
    assert_eq!(text.len(), 52);
    assert_eq!(text, pkarr::Keypair::from_secret_key(&[29; 32]).public_key().to_string());

    let parsed = PublicKey::try_from_string(&text).unwrap();
    assert_eq!(parsed.to_bytes(), a.public_key().to_bytes());

    assert_eq!(
        PublicKey::try_from_string("@@@ definitely not a key").unwrap_err(),
        MessengerError::InvalidKey
    );
}

#[test]
fn error_descriptions_are_distinct() {
    let errors = [
        MessengerError::InvalidPoint,
        MessengerError::DecryptFailure,
        MessengerError::InvalidUtf8,
        MessengerError::InvalidKey,
        MessengerError::InvalidSignatureLength,
        MessengerError::InvalidPhrase,
        MessengerError::InvalidRecoveryFile,
        MessengerError::StoreWriteFailure,
        MessengerError::StoreReadFailure,
        MessengerError::StoreDeleteFailure,
        MessengerError::RateLimited,
    ];
    for (i, a) in errors.iter().enumerate() {
        assert!(!a.describe().is_empty());
        for (j, b) in errors.iter().enumerate() {
            if i != j {
                assert_ne!(a.describe(), b.describe());
            }
        }
    }
}
