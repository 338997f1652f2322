use pubky_messenger::{
    batch_ranges, build_conversation_prefix, build_follow_record, build_follow_url,
    build_follows_url, build_message_url, build_message_urls, build_profile_url, classify_status,
    clear_batch_decision, extract_pubky_id, first_failure, generate_conversation_path,
    parse_envelope, process_fetched, retry_outcome, serialize_envelope, should_pause_between,
    delete_batch_result, split_follow_urls, store_delete_result, store_write_result,
    BatchDecision, FollowedUser,
    MessengerError, PrivateMessage, PubkyProfile, SigningKeypair, StoreStatus,
    DEFAULT_DELETE_BATCH_SIZE,
};

fn keypair_from(byte: u8) -> SigningKeypair {
    SigningKeypair::from_secret_key(&[byte; 32])
}

#[test]
fn serialize_matches_expected_json() {
    let message = PrivateMessage {
        timestamp: 1700000000,
        encrypted_sender: vec![0, 10, 255],
        encrypted_content: vec![128],
        signature_bytes: vec![1, 2],
    };
    let body = serialize_envelope(&message);
    assert_eq!(
        body,
        "{\"timestamp\":1700000000,\"encrypted_sender\":[0,10,255],\
         \"encrypted_content\":[128],\"signature_bytes\":[1,2]}"
    );
}

#[test]
fn serialized_envelope_is_valid_json() {
    // serde_json must read back exactly the serialized fields.
    let message = PrivateMessage {
        timestamp: 42,
        encrypted_sender: vec![7, 0, 13],
        encrypted_content: vec![],
        signature_bytes: (0u8..64).collect(),
    };
    let body = serialize_envelope(&message);
    let value: serde_json::Value = serde_json::from_str(&body).unwrap();
    assert_eq!(value["timestamp"], serde_json::Value::from(42u64));
    assert_eq!(
        value["encrypted_sender"],
        serde_json::Value::from(vec![7u64, 0, 13])
    );
    assert_eq!(value["encrypted_content"], serde_json::Value::from(Vec::<u64>::new()));
    assert_eq!(
        value["signature_bytes"],
        serde_json::Value::from((0u64..64).collect::<Vec<u64>>())
    );
}

#[test]
fn parse_round_trips_serialize() {
    let message = PrivateMessage {
        timestamp: u64::MAX,
        encrypted_sender: vec![255, 0, 1, 2, 3],
        encrypted_content: vec![9; 100],
        signature_bytes: (100u8..164).collect(),
    };
    let body = serialize_envelope(&message);
    let parsed = parse_envelope(&body).unwrap();
    assert_eq!(parsed.timestamp, message.timestamp);
    assert_eq!(parsed.encrypted_sender, message.encrypted_sender);
    assert_eq!(parsed.encrypted_content, message.encrypted_content);
    assert_eq!(parsed.signature_bytes, message.signature_bytes);
}

#[test]
fn parse_rejects_malformed_records() {
    let good = "{\"timestamp\":1,\"encrypted_sender\":[1],\"encrypted_content\":[2],\"signature_bytes\":[3]}";
    assert!(parse_envelope(good).is_some());

    let bad = [
        "",
        "{}",
        "not json at all",
        // missing a field
        "{\"timestamp\":1,\"encrypted_sender\":[1],\"encrypted_content\":[2]}",
        // trailing garbage
        "{\"timestamp\":1,\"encrypted_sender\":[1],\"encrypted_content\":[2],\"signature_bytes\":[3]} ",
        // a byte over 255
        "{\"timestamp\":1,\"encrypted_sender\":[256],\"encrypted_content\":[2],\"signature_bytes\":[3]}",
        // a timestamp over u64::MAX
        "{\"timestamp\":18446744073709551616,\"encrypted_sender\":[1],\"encrypted_content\":[2],\"signature_bytes\":[3]}",
        // whitespace is not part of the canonical form
        "{ \"timestamp\":1,\"encrypted_sender\":[1],\"encrypted_content\":[2],\"signature_bytes\":[3]}",
        // wrong field order
        "{\"encrypted_sender\":[1],\"timestamp\":1,\"encrypted_content\":[2],\"signature_bytes\":[3]}",
        // unterminated array
        "{\"timestamp\":1,\"encrypted_sender\":[1,\"encrypted_content\":[2],\"signature_bytes\":[3]}",
    ];
    for input in bad {
        assert!(parse_envelope(input).is_none(), "should reject: {}", input);
    }

    // Empty arrays and a zero timestamp are fine.
    let minimal = "{\"timestamp\":0,\"encrypted_sender\":[],\"encrypted_content\":[],\"signature_bytes\":[]}";
    let parsed = parse_envelope(minimal).unwrap();
    assert_eq!(parsed.timestamp, 0);
    assert!(parsed.encrypted_sender.is_empty());
}

#[test]
fn fetched_messages_are_sorted_by_timestamp() {
    // Messages inserted with timestamps t1 < t2 < t3 in arbitrary
    // storage order come back ascending.
    let a = keypair_from(31);
    let b = keypair_from(32);
    let b_pub = b.public_key();
    let a_pub = a.public_key();

    let m1 = PrivateMessage::new_with_timestamp(&a, &b_pub, "first", 100).unwrap();
    let m2 = PrivateMessage::new_with_timestamp(&b, &a_pub, "second", 200).unwrap();
    let m3 = PrivateMessage::new_with_timestamp(&a, &b_pub, "third", 300).unwrap();

    let bodies = vec![
        serialize_envelope(&m3),
        serialize_envelope(&m1),
        serialize_envelope(&m2),
    ];

    // Bob reads the conversation.
    let messages = process_fetched(&bodies, &b, &a_pub);
    assert_eq!(messages.len(), 3);
    assert_eq!(messages[0].timestamp, 100);
    assert_eq!(messages[1].timestamp, 200);
    assert_eq!(messages[2].timestamp, 300);
    assert_eq!(messages[0].content, "first");
    assert_eq!(messages[1].content, "second");
    assert_eq!(messages[2].content, "third");
    assert_eq!(messages[0].sender, a.public_key_string());
    assert_eq!(messages[1].sender, b.public_key_string());
    assert!(messages.iter().all(|m| m.verified));
}

#[test]
fn corrupt_object_does_not_block_the_rest() {
    // One unparsable or undecryptable object among N valid ones leaves
    // exactly N messages, not zero and not an error.
    let a = keypair_from(33);
    let b = keypair_from(34);
    let eve = keypair_from(35);
    let b_pub = b.public_key();

    let m1 = PrivateMessage::new_with_timestamp(&a, &b_pub, "one", 10).unwrap();
    let m2 = PrivateMessage::new_with_timestamp(&a, &b_pub, "two", 20).unwrap();
    let m3 = PrivateMessage::new_with_timestamp(&a, &b_pub, "three", 30).unwrap();

    // An envelope for a different channel cannot be decrypted.
    let foreign = PrivateMessage::new_with_timestamp(&eve, &eve.public_key(), "noise", 15).unwrap();

    let bodies = vec![
        serialize_envelope(&m2),
        "{\"timestamp\":broken".to_string(),
        serialize_envelope(&m1),
        serialize_envelope(&foreign),
        serialize_envelope(&m3),
    ];

    let messages = process_fetched(&bodies, &b, &a.public_key());
    assert_eq!(messages.len(), 3);
    assert_eq!(messages[0].content, "one");
    assert_eq!(messages[1].content, "two");
    assert_eq!(messages[2].content, "three");
}

#[test]
fn equal_timestamps_keep_fetch_order() {
    let a = keypair_from(36);
    let b = keypair_from(37);
    let b_pub = b.public_key();

    let m1 = PrivateMessage::new_with_timestamp(&a, &b_pub, "alpha", 50).unwrap();
    let m2 = PrivateMessage::new_with_timestamp(&a, &b_pub, "beta", 50).unwrap();
    let bodies = vec![serialize_envelope(&m1), serialize_envelope(&m2)];

    let messages = process_fetched(&bodies, &b, &a.public_key());
    assert_eq!(messages.len(), 2);
    assert_eq!(messages[0].content, "alpha");
    assert_eq!(messages[1].content, "beta");
}

#[test]
fn urls_follow_the_path_grammar() {
    let a = keypair_from(38);
    let b = keypair_from(39);
    let path = generate_conversation_path(&a, &b.public_key()).unwrap();
    let owner = a.public_key_string();

    let prefix = build_conversation_prefix(&owner, &path);
    assert_eq!(prefix, format!("pubky://{}{}", owner, path));

    let url = build_message_url(&owner, &path, "some-id");
    assert_eq!(url, format!("pubky://{}{}some-id.json", owner, path));

    let ids = vec!["x".to_string(), "y".to_string()];
    let urls = build_message_urls(&owner, &path, &ids);
    assert_eq!(urls.len(), 2);
    assert_eq!(urls[0], format!("pubky://{}{}x.json", owner, path));
    assert_eq!(urls[1], format!("pubky://{}{}y.json", owner, path));

    assert_eq!(
        build_profile_url("someone"),
        "pubky://someone/pub/pubky.app/profile.json"
    );
    assert_eq!(
        build_follows_url("someone"),
        "pubky://someone/pub/pubky.app/follows/"
    );
    assert_eq!(
        build_follow_url("me", "them"),
        "pubky://me/pub/pubky.app/follows/them"
    );
}

#[test]
fn follow_record_is_canonical_json() {
    assert_eq!(build_follow_record(0), "{\"created_at\":0}");
    assert_eq!(build_follow_record(1699999999), "{\"created_at\":1699999999}");
    let value: serde_json::Value = serde_json::from_str(&build_follow_record(7)).unwrap();
    assert_eq!(value["created_at"], serde_json::Value::from(7u64));
}

#[test]
fn follow_list_lines_are_split_and_filtered() {
    let body = "pubky://one/pub/pubky.app/follows/aaa\r\n\npubky://two/pub/pubky.app/follows/bbb\n";
    let urls = split_follow_urls(body);
    assert_eq!(urls.len(), 2);
    assert_eq!(urls[0], "pubky://one/pub/pubky.app/follows/aaa");
    assert_eq!(urls[1], "pubky://two/pub/pubky.app/follows/bbb");

    assert!(split_follow_urls("").is_empty());
    assert!(split_follow_urls("\n\r\n\n").is_empty());
}

#[test]
fn pubky_id_is_the_last_path_segment() {
    assert_eq!(
        extract_pubky_id("pubky://one/pub/pubky.app/follows/the-id"),
        "the-id"
    );
    assert_eq!(extract_pubky_id("no-slashes-at-all"), "no-slashes-at-all");
    assert_eq!(extract_pubky_id("trailing/slash/"), "");
}

#[test]
fn followed_user_takes_the_profile_name() {
    let profile = PubkyProfile {
        name: "Maude".to_string(),
        bio: None,
        image: None,
        status: Some("around".to_string()),
    };
    let user = FollowedUser::from_profile("abc".to_string(), Some(profile));
    assert_eq!(user.pubky, "abc");
    assert_eq!(user.name.as_deref(), Some("Maude"));

    let anonymous = FollowedUser::from_profile("xyz".to_string(), None);
    assert_eq!(anonymous.pubky, "xyz");
    assert!(anonymous.name.is_none());
}

#[test]
fn test_delete_messages_with_empty_list() {
    // Deleting with an empty list succeeds as a no-op.
    let outcomes: Vec<StoreStatus> = Vec::new();
    assert!(first_failure(&outcomes).is_none());
}

#[test]
fn first_failure_reports_the_first_bad_outcome() {
    let outcomes = vec![
        StoreStatus::Success,
        StoreStatus::Success,
        StoreStatus::Failure,
        StoreStatus::RateLimited,
    ];
    assert_eq!(first_failure(&outcomes), Some(2));

    let all_good = vec![StoreStatus::Success; 4];
    assert!(first_failure(&all_good).is_none());
}

#[test]
fn test_clear_empty_conversation() {
    // Clearing a conversation with zero stored objects plans zero
    // batches, so the whole operation is a no-op success.
    let ranges = batch_ranges(0, DEFAULT_DELETE_BATCH_SIZE);
    assert!(ranges.is_empty());
}

#[test]
fn batches_cover_all_objects_in_fives() {
    let ranges = batch_ranges(12, 5);
    assert_eq!(ranges, vec![(0, 5), (5, 10), (10, 12)]);

    let exact = batch_ranges(10, 5);
    assert_eq!(exact, vec![(0, 5), (5, 10)]);

    let single = batch_ranges(3, 5);
    assert_eq!(single, vec![(0, 3)]);
}

#[test]
fn batch_decisions_follow_the_retry_policy() {
    let all_good = vec![StoreStatus::Success; 5];
    assert_eq!(clear_batch_decision(&all_good, 0), BatchDecision::Proceed);

    let rate_limited = vec![
        StoreStatus::Success,
        StoreStatus::RateLimited,
        StoreStatus::Failure,
    ];
    assert_eq!(clear_batch_decision(&rate_limited, 0), BatchDecision::Retry(1));
    // After handling the rate-limited member, scanning goes on behind it.
    assert_eq!(clear_batch_decision(&rate_limited, 2), BatchDecision::Abort(2));

    let failed = vec![StoreStatus::Failure];
    assert_eq!(clear_batch_decision(&failed, 0), BatchDecision::Abort(0));

    assert!(retry_outcome(StoreStatus::Success).is_ok());
    assert_eq!(
        retry_outcome(StoreStatus::RateLimited).unwrap_err(),
        MessengerError::StoreDeleteFailure
    );
    assert_eq!(
        retry_outcome(StoreStatus::Failure).unwrap_err(),
        MessengerError::StoreDeleteFailure
    );

    assert!(should_pause_between(5, 5));
    assert!(!should_pause_between(3, 5));

    assert_eq!(classify_status(true, 200), StoreStatus::Success);
    assert_eq!(classify_status(false, 429), StoreStatus::RateLimited);
    assert_eq!(classify_status(false, 500), StoreStatus::Failure);
}

#[test]
fn prepared_message_round_trips_through_the_store_format() {
    let a = keypair_from(40);
    let b = keypair_from(41);
    let prepared = pubky_messenger::prepare_send(&a, &b.public_key(), "over the wire").unwrap();

    assert_eq!(prepared.id.len(), 36);
    let path = generate_conversation_path(&a, &b.public_key()).unwrap();
    assert_eq!(
        prepared.url,
        format!("pubky://{}{}{}.json", a.public_key_string(), path, prepared.id)
    );

    // What is stored is what a fetch would decode.
    let messages = process_fetched(&vec![prepared.body.clone()], &b, &a.public_key());
    assert_eq!(messages.len(), 1);
    assert_eq!(messages[0].content, "over the wire");
    assert_eq!(messages[0].sender, a.public_key_string());
    assert!(messages[0].verified);
}

#[test]
fn store_outcomes_map_to_their_errors() {
    assert!(store_write_result(StoreStatus::Success).is_ok());
    assert_eq!(
        store_write_result(StoreStatus::RateLimited).unwrap_err(),
        MessengerError::RateLimited
    );
    assert_eq!(
        store_write_result(StoreStatus::Failure).unwrap_err(),
        MessengerError::StoreWriteFailure
    );

    assert!(store_delete_result(StoreStatus::Success).is_ok());
    assert_eq!(
        store_delete_result(StoreStatus::RateLimited).unwrap_err(),
        MessengerError::RateLimited
    );
    assert_eq!(
        store_delete_result(StoreStatus::Failure).unwrap_err(),
        MessengerError::StoreDeleteFailure
    );
}

#[test]
fn batch_delete_reports_the_first_failing_id() {
    let ids: Vec<String> = ["a", "b", "c"].iter().map(|s| s.to_string()).collect();

    let all_good = vec![StoreStatus::Success; 3];
    assert!(delete_batch_result(&ids, &all_good).is_ok());

    let with_failure = vec![StoreStatus::Success, StoreStatus::Failure, StoreStatus::RateLimited];
    let (id, cause) = delete_batch_result(&ids, &with_failure).unwrap_err();
    assert_eq!(id, "b");
    assert_eq!(cause, MessengerError::StoreDeleteFailure);

    let with_rate_limit = vec![StoreStatus::RateLimited, StoreStatus::Success, StoreStatus::Success];
    let (id, cause) = delete_batch_result(&ids, &with_rate_limit).unwrap_err();
    assert_eq!(id, "a");
    assert_eq!(cause, MessengerError::RateLimited);

    // The empty batch is a no-op success.
    let none: Vec<String> = Vec::new();
    assert!(delete_batch_result(&none, &Vec::new()).is_ok());
}
