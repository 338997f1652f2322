//! Conversation synchronisation logic: the storage URLs, the
//! decode-and-sort pipeline behind fetching a conversation, and the
//! batching and retry decisions behind deleting messages.
//!
//! Everything here computes; the network calls around it (list, get,
//! put, delete) are the caller's, and hand these functions plain
//! values.

use vstd::prelude::*;
use vstd::seq_lib::group_to_multiset_ensures;
use vstd::string::{StrSliceExecFns, StringExecFns};
use vstd::utf8::encode_utf8;

use crate::codec::{parse_envelope, spec_parse_envelope};
use crate::envelope::{
    spec_decrypt_text, spec_verify_signature, DecryptedMessage, PrivateMessage,
};
use crate::errors::MessengerError;
use crate::keys::{shared_point_of, PublicKey, SigningKeypair};
use crate::trusted::{ed25519_public_of, x25519_point_of};

verus! {

broadcast use group_to_multiset_ensures;

/// How many deletes are issued concurrently in one batch.
pub const DEFAULT_DELETE_BATCH_SIZE: usize = 5;

/// Pause between full delete batches, in milliseconds.
pub const DEFAULT_BATCH_PAUSE_MS: u64 = 200;

/// Backoff before retrying a rate-limited delete, in milliseconds.
pub const DEFAULT_RETRY_BACKOFF_MS: u64 = 1000;

/// A store operation's outcome, as the backend reported it.
#[derive(Clone, Copy, Debug, PartialEq, Eq, Structural)]
pub enum StoreStatus {
    /// The backend reported success.
    Success,
    /// The backend asked for a backoff (status 429).
    RateLimited,
    /// Any other non-success status or transport failure.
    Failure,
}

/// What to do after a batch of concurrent deletes.
#[derive(Clone, Copy, Debug, PartialEq, Eq, Structural)]
pub enum BatchDecision {
    /// Every member succeeded: go on to the next batch.
    Proceed,
    /// The member at this index hit the rate limit: retry it once
    /// after a backoff.
    Retry(usize),
    /// The member at this index failed hard: abort the operation.
    Abort(usize),
}

/// Classifies a backend response into a [`StoreStatus`].
pub fn classify_status(success: bool, code: u16) -> (r: StoreStatus)
    ensures
        success ==> r == StoreStatus::Success,
        !success && code == 429 ==> r == StoreStatus::RateLimited,
        !success && code != 429 ==> r == StoreStatus::Failure,
{
    if success {
        StoreStatus::Success
    } else if code == 429 {
        StoreStatus::RateLimited
    } else {
        StoreStatus::Failure
    }
}

/// The URL prefix under which `owner` stores a conversation.
pub open spec fn conversation_prefix_of(owner: Seq<char>, path: Seq<char>) -> Seq<char> {
    "pubky://"@ + owner + path
}

/// The URL of one stored message object.
pub open spec fn message_url_of(owner: Seq<char>, path: Seq<char>, id: Seq<char>) -> Seq<char> {
    "pubky://"@ + owner + path + id + ".json"@
}

/// Builds the URL prefix under which `owner` stores a conversation.
pub fn build_conversation_prefix(owner: &str, path: &str) -> (r: String)
    ensures
        r@ == conversation_prefix_of(owner@, path@),
{
    let mut url = String::from_str("pubky://");
    url.append(owner);
    url.append(path);
    url
}

/// Builds the URL of one stored message object.
pub fn build_message_url(owner: &str, path: &str, id: &str) -> (r: String)
    ensures
        r@ == message_url_of(owner@, path@, id@),
{
    let mut url = String::from_str("pubky://");
    url.append(owner);
    url.append(path);
    url.append(id);
    url.append(".json");
    url
}

/// The view a message decodes to: sender, content, timestamp,
/// verification flag.
pub open spec fn message_view(m: DecryptedMessage) -> (Seq<char>, Seq<char>, u64, bool) {
    (m.sender@, m.content@, m.timestamp, m.verified)
}

/// The decode of one fetched object body: parse the envelope, decrypt
/// content and sender, and check the signature.  `None` when any step
/// but verification fails; a verification error only clears the flag.
pub open spec fn spec_decode_message(
    body: Seq<char>,
    receiver_secret: Seq<u8>,
    peer_public: Seq<u8>,
) -> Option<(Seq<char>, Seq<char>, u64, bool)> {
    if x25519_point_of(peer_public) is Some {
        match spec_parse_envelope(encode_utf8(body)) {
            Some((t, es, ec, sg)) => {
                let key = shared_point_of(receiver_secret, peer_public);
                match spec_decrypt_text(ec, key) {
                    Ok(content) => match spec_decrypt_text(es, key) {
                        Ok(sender) => Some(
                            (
                                sender,
                                content,
                                t,
                                spec_verify_signature(t, sg, content, sender) == Ok::<
                                    bool,
                                    MessengerError,
                                >(true),
                            ),
                        ),
                        Err(_) => None,
                    },
                    Err(_) => None,
                }
            },
            None => None,
        }
    } else {
        None
    }
}

/// The decodable messages among a list of fetched bodies, in fetch
/// order.
pub open spec fn spec_decoded_list(
    bodies: Seq<Seq<char>>,
    receiver_secret: Seq<u8>,
    peer_public: Seq<u8>,
) -> Seq<(Seq<char>, Seq<char>, u64, bool)>
    decreases bodies.len(),
{
    if bodies.len() == 0 {
        Seq::empty()
    } else {
        let rest = spec_decoded_list(bodies.drop_first(), receiver_secret, peer_public);
        match spec_decode_message(bodies[0], receiver_secret, peer_public) {
            Some(d) => seq![d] + rest,
            None => rest,
        }
    }
}

/// Ascending timestamp order.
pub open spec fn sorted_by_timestamp(s: Seq<(Seq<char>, Seq<char>, u64, bool)>) -> bool {
    forall|i: int, j: int| 0 <= i < j < s.len() ==> (#[trigger] s[i]).2 <= (#[trigger] s[j]).2
}

/// Decodes one fetched body.  When the peer is the public key of some
/// signing keypair, the decode agrees with the one that keypair would
/// make of the same body in the opposite role.
fn decode_one(body: &str, own: &SigningKeypair, peer: &PublicKey) -> (r: Option<DecryptedMessage>)
    ensures
        r matches Some(m) ==> spec_decode_message(body@, own@, peer@) == Some(message_view(m)),
        r is None ==> spec_decode_message(body@, own@, peer@) is None,
        forall|sb: Seq<u8>|
            peer@ == #[trigger] ed25519_public_of(sb) ==> ((r matches Some(m)
                ==> spec_decode_message(body@, sb, ed25519_public_of(own@)) == Some(
                message_view(m),
            )) && (r is None ==> spec_decode_message(body@, sb, ed25519_public_of(own@))
                is None)),
{
    let envelope = match parse_envelope(body) {
        Some(e) => e,
        None => {
            return None;
        },
    };
    let content = match envelope.decrypt_content(own, peer) {
        Ok(c) => c,
        Err(_) => {
            return None;
        },
    };
    let sender = match envelope.decrypt_sender(own, peer) {
        Ok(s) => s,
        Err(_) => {
            return None;
        },
    };
    let verified = match envelope.verify_signature(content.as_str(), sender.as_str()) {
        Ok(true) => true,
        _ => false,
    };
    Some(DecryptedMessage { sender, content, timestamp: envelope.timestamp, verified })
}

/// The zero-or-one messages one body contributes.
pub open spec fn decoded_one_of(o: Option<(Seq<char>, Seq<char>, u64, bool)>) -> Seq<
    (Seq<char>, Seq<char>, u64, bool),
> {
    match o {
        Some(d) => seq![d],
        None => Seq::empty(),
    }
}

/// Unfolds `spec_decoded_list` at its head.
proof fn lemma_decoded_unfold(bodies: Seq<Seq<char>>, receiver_secret: Seq<u8>, peer_public: Seq<u8>)
    requires
        bodies.len() > 0,
    ensures
        spec_decoded_list(bodies, receiver_secret, peer_public) == decoded_one_of(
            spec_decode_message(bodies[0], receiver_secret, peer_public),
        ) + spec_decoded_list(bodies.drop_first(), receiver_secret, peer_public),
{
    let rest = spec_decoded_list(bodies.drop_first(), receiver_secret, peer_public);
    match spec_decode_message(bodies[0], receiver_secret, peer_public) {
        Some(d) => {
        },
        None => {
            assert(Seq::<(Seq<char>, Seq<char>, u64, bool)>::empty() + rest =~= rest);
        },
    }
}

/// Unfolds one step of `spec_decoded_list` over a prefix.
proof fn lemma_decoded_step(
    bodies: Seq<Seq<char>>,
    i: int,
    receiver_secret: Seq<u8>,
    peer_public: Seq<u8>,
)
    requires
        0 <= i < bodies.len(),
    ensures
        spec_decoded_list(bodies.take(i + 1), receiver_secret, peer_public) == spec_decoded_list(
            bodies.take(i),
            receiver_secret,
            peer_public,
        ) + decoded_one_of(spec_decode_message(bodies[i], receiver_secret, peer_public)),
    decreases i,
{
    if i == 0 {
        assert(bodies.take(1).len() == 1);
        assert(bodies.take(1)[0] == bodies[0]);
        lemma_decoded_unfold(bodies.take(1), receiver_secret, peer_public);
        assert(bodies.take(1).drop_first() =~= Seq::<Seq<char>>::empty());
        let opt = decoded_one_of(spec_decode_message(bodies[0], receiver_secret, peer_public));
        assert(bodies.take(0) =~= Seq::<Seq<char>>::empty());
        assert(opt + spec_decoded_list(Seq::empty(), receiver_secret, peer_public) =~= Seq::<(
            Seq<char>,
            Seq<char>,
            u64,
            bool,
        )>::empty() + opt);
    } else {
        assert(bodies.take(i + 1).len() == i + 1);
        assert(bodies.take(i + 1)[0] == bodies[0]);
        assert(bodies.take(i)[0] == bodies[0]);
        lemma_decoded_unfold(bodies.take(i + 1), receiver_secret, peer_public);
        lemma_decoded_unfold(bodies.take(i), receiver_secret, peer_public);
        assert(bodies.take(i + 1).drop_first() =~= bodies.drop_first().take(i));
        assert(bodies.take(i).drop_first() =~= bodies.drop_first().take(i - 1));
        lemma_decoded_step(bodies.drop_first(), i - 1, receiver_secret, peer_public);
        assert(bodies.drop_first()[i - 1] == bodies[i]);
        let opt0 = decoded_one_of(spec_decode_message(bodies[0], receiver_secret, peer_public));
        let x = spec_decoded_list(bodies.drop_first().take(i - 1), receiver_secret, peer_public);
        let y = decoded_one_of(spec_decode_message(bodies[i], receiver_secret, peer_public));
        assert(opt0 + (x + y) =~= (opt0 + x) + y);
    }
}

/// Sorts messages by timestamp, ascending.  The result holds exactly
/// the given messages; among equal timestamps the earlier message
/// comes first.
fn sort_messages(input: Vec<DecryptedMessage>) -> (r: Vec<DecryptedMessage>)
    ensures
        r@.map_values(|m: DecryptedMessage| message_view(m)).to_multiset() == input@.map_values(
            |m: DecryptedMessage| message_view(m),
        ).to_multiset(),
        sorted_by_timestamp(r@.map_values(|m: DecryptedMessage| message_view(m))),
{
    let ghost orig = input@.map_values(|m: DecryptedMessage| message_view(m));
    let mut rest = input;
    let mut out: Vec<DecryptedMessage> = Vec::new();
    while rest.len() > 0
        invariant
            out@.map_values(|m: DecryptedMessage| message_view(m)).to_multiset().add(
                rest@.map_values(|m: DecryptedMessage| message_view(m)).to_multiset(),
            ) =~= orig.to_multiset(),
            sorted_by_timestamp(out@.map_values(|m: DecryptedMessage| message_view(m))),
            forall|a: int, b: int|
                0 <= a < out@.len() && 0 <= b < rest@.len() ==> (#[trigger] out@[a]).timestamp <= (
                #[trigger] rest@[b]).timestamp,
        decreases rest@.len(),
    {
        let mut min_i: usize = 0;
        let mut k: usize = 1;
        while k < rest.len()
            invariant
                min_i < k <= rest@.len(),
                rest@.len() > 0,
                forall|t: int|
                    0 <= t < k ==> rest@[min_i as int].timestamp <= (#[trigger] rest@[t]).timestamp,
            decreases rest@.len() - k,
        {
            if rest[k].timestamp < rest[min_i].timestamp {
                min_i = k;
            }
            k = k + 1;
        }
        let ghost old_out = out@.map_values(|m: DecryptedMessage| message_view(m));
        let ghost old_rest = rest@.map_values(|m: DecryptedMessage| message_view(m));
        let picked = rest.remove(min_i);
        out.push(picked);
        proof {
            assert(rest@.map_values(|m: DecryptedMessage| message_view(m)) =~= old_rest.remove(
                min_i as int,
            ));
            assert(out@.map_values(|m: DecryptedMessage| message_view(m)) =~= old_out.push(
                message_view(picked),
            ));
            assert(old_rest[min_i as int] == message_view(picked));
            assert(out@.map_values(|m: DecryptedMessage| message_view(m)).to_multiset().add(
                rest@.map_values(|m: DecryptedMessage| message_view(m)).to_multiset(),
            ) =~= orig.to_multiset());
        }
    }
    out
}

/// Decodes every fetched body and returns the readable messages in
/// ascending timestamp order.
///
/// Partial failures are per-item: an object that does not parse or
/// decrypt is left out, and never keeps the rest of the conversation
/// from being returned.  When the peer is the public key of some
/// signing keypair, the result is also exactly what that keypair's
/// view of the conversation decodes to, so both participants read the
/// same messages.
pub fn process_fetched(bodies: &Vec<String>, own: &SigningKeypair, peer: &PublicKey) -> (r: Vec<
    DecryptedMessage,
>)
    ensures
        r@.map_values(|m: DecryptedMessage| message_view(m)).to_multiset() == spec_decoded_list(
            bodies@.map_values(|s: String| s@),
            own@,
            peer@,
        ).to_multiset(),
        sorted_by_timestamp(r@.map_values(|m: DecryptedMessage| message_view(m))),
        r@.len() == spec_decoded_list(bodies@.map_values(|s: String| s@), own@, peer@).len(),
        forall|sb: Seq<u8>|
            peer@ == #[trigger] ed25519_public_of(sb) ==> r@.map_values(
                |m: DecryptedMessage| message_view(m),
            ).to_multiset() == spec_decoded_list(
                bodies@.map_values(|s: String| s@),
                sb,
                ed25519_public_of(own@),
            ).to_multiset(),
{
    let ghost bodies_view = bodies@.map_values(|s: String| s@);
    let mut decoded: Vec<DecryptedMessage> = Vec::new();
    let mut i: usize = 0;
    while i < bodies.len()
        invariant
            i <= bodies@.len(),
            bodies_view == bodies@.map_values(|s: String| s@),
            decoded@.map_values(|m: DecryptedMessage| message_view(m)) == spec_decoded_list(
                bodies_view.take(i as int),
                own@,
                peer@,
            ),
            forall|sb: Seq<u8>|
                peer@ == #[trigger] ed25519_public_of(sb) ==> decoded@.map_values(
                    |m: DecryptedMessage| message_view(m),
                ) == spec_decoded_list(bodies_view.take(i as int), sb, ed25519_public_of(own@)),
        decreases bodies@.len() - i,
    {
        let ghost old_decoded = decoded@.map_values(|m: DecryptedMessage| message_view(m));
        let body = &bodies[i];
        let item = decode_one(body.as_str(), own, peer);
        proof {
            assert(bodies_view[i as int] == bodies@[i as int]@);
            lemma_decoded_step(bodies_view, i as int, own@, peer@);
        }
        match item {
            Some(m) => {
                decoded.push(m);
                proof {
                    assert(decoded@.map_values(|m2: DecryptedMessage| message_view(m2))
                        =~= old_decoded.push(message_view(m)));
                    assert(old_decoded.push(message_view(m)) =~= spec_decoded_list(
                        bodies_view.take(i + 1),
                        own@,
                        peer@,
                    ));
                    assert forall|sb: Seq<u8>|
                        peer@ == #[trigger] ed25519_public_of(sb) implies old_decoded.push(
                        message_view(m),
                    ) =~= spec_decoded_list(
                        bodies_view.take(i + 1),
                        sb,
                        ed25519_public_of(own@),
                    ) by {
                        lemma_decoded_step(bodies_view, i as int, sb, ed25519_public_of(own@));
                    }
                }
            },
            None => {
                proof {
                    assert(old_decoded =~= spec_decoded_list(bodies_view.take(i + 1), own@, peer@));
                    assert forall|sb: Seq<u8>|
                        peer@ == #[trigger] ed25519_public_of(sb) implies old_decoded
                        =~= spec_decoded_list(
                        bodies_view.take(i + 1),
                        sb,
                        ed25519_public_of(own@),
                    ) by {
                        lemma_decoded_step(bodies_view, i as int, sb, ed25519_public_of(own@));
                    }
                }
            },
        }
        i = i + 1;
    }
    proof {
        assert(bodies_view.take(bodies_view.len() as int) =~= bodies_view);
    }
    let sorted = sort_messages(decoded);
    proof {
        let a = sorted@.map_values(|m: DecryptedMessage| message_view(m));
        let b = spec_decoded_list(bodies_view, own@, peer@);
        assert(a.to_multiset().len() == a.len());
        assert(b.to_multiset().len() == b.len());
    }
    sorted
}

/// The index of the first outcome that is not a success, if any.
/// Deleting an empty list of messages has nothing to report.
pub fn first_failure(outcomes: &Vec<StoreStatus>) -> (r: Option<usize>)
    ensures
        r matches Some(i) ==> i < outcomes@.len() && outcomes@[i as int] != StoreStatus::Success
            && forall|j: int| 0 <= j < i ==> outcomes@[j] == StoreStatus::Success,
        r is None ==> forall|j: int|
            0 <= j < outcomes@.len() ==> outcomes@[j] == StoreStatus::Success,
{
    let mut i: usize = 0;
    while i < outcomes.len()
        invariant
            i <= outcomes@.len(),
            forall|j: int| 0 <= j < i ==> outcomes@[j] == StoreStatus::Success,
        decreases outcomes@.len() - i,
    {
        match outcomes[i] {
            StoreStatus::Success => {
                i = i + 1;
            },
            _ => {
                return Some(i);
            },
        }
    }
    None
}


/// The outcome of a multi-item delete: success when every member
/// succeeded, otherwise the first failing id together with its cause.
/// An empty id list succeeds as a no-op.  Batches are not atomic:
/// members before the reported one were already deleted.
pub fn delete_batch_result(ids: &Vec<String>, outcomes: &Vec<StoreStatus>) -> (r: Result<
    (),
    (String, MessengerError),
>)
    requires
        ids@.len() == outcomes@.len(),
    ensures
        (r is Ok) == (forall|j: int|
            0 <= j < outcomes@.len() ==> outcomes@[j] == StoreStatus::Success),
        r matches Err(p) ==> exists|i: int|
            0 <= i < outcomes@.len() && #[trigger] outcomes@[i] != StoreStatus::Success && (
            forall|j: int| 0 <= j < i ==> outcomes@[j] == StoreStatus::Success) && p.0@ == ids@[i]@
                && p.1 == (if outcomes@[i] == StoreStatus::RateLimited {
                MessengerError::RateLimited
            } else {
                MessengerError::StoreDeleteFailure
            }),
{
    match first_failure(outcomes) {
        None => Ok(()),
        Some(i) => {
            let cause = match outcomes[i] {
                StoreStatus::RateLimited => MessengerError::RateLimited,
                _ => MessengerError::StoreDeleteFailure,
            };
            let id = ids[i].clone();
            proof {
                assert(id@ == ids@[i as int]@);
            }
            Err((id, cause))
        },
    }
}

/// The batches a list of `n` objects is deleted in: each batch covers
/// `batch_size` objects but the last, which takes the remainder.  Zero
/// objects make zero batches, so clearing an empty conversation is a
/// no-op.
pub fn batch_ranges(n: usize, batch_size: usize) -> (r: Vec<(usize, usize)>)
    requires
        batch_size >= 1,
    ensures
        n == 0 ==> r@.len() == 0,
        forall|k: int|
            0 <= k < r@.len() ==> (#[trigger] r@[k]).0 == k * batch_size && r@[k].1 == (if k
                * batch_size + batch_size <= n {
                k * batch_size + batch_size
            } else {
                n as int
            }),
        r@.len() > 0 ==> r@[r@.len() - 1].1 == n,
        forall|k: int| 0 <= k < r@.len() ==> (#[trigger] r@[k]).0 < r@[k].1 <= n,
        n > 0 ==> r@.len() >= 1,
{
    let mut out: Vec<(usize, usize)> = Vec::new();
    let mut start: usize = 0;
    proof {
        assert(out@.len() * batch_size == 0) by (nonlinear_arith)
            requires
                out@.len() == 0,
        ;
    }
    while start < n
        invariant
            batch_size >= 1,
            start <= n,
            start == out@.len() * batch_size || (start == n && out@.len() >= 1),
            forall|k: int|
                0 <= k < out@.len() ==> (#[trigger] out@[k]).0 == k * batch_size && out@[k].1 == (
                if k * batch_size + batch_size <= n {
                    k * batch_size + batch_size
                } else {
                    n as int
                }),
            out@.len() > 0 ==> out@[out@.len() - 1].1 == start,
            forall|k: int| 0 <= k < out@.len() ==> (#[trigger] out@[k]).0 < out@[k].1 <= n,
        decreases n - start,
    {
        proof {
            assert(start == out@.len() * batch_size);
        }
        let end = if n - start >= batch_size {
            start + batch_size
        } else {
            n
        };
        let ghost old_len = out@.len() as int;
        out.push((start, end));
        proof {
            assert((old_len + 1) * batch_size == old_len * batch_size
                + batch_size) by (nonlinear_arith);
            assert(out@[old_len] == (start, end));
        }
        start = end;
    }
    out
}

/// What to do after a batch of concurrent deletes, scanning the
/// outcomes from `start`: retry the first rate-limited member, abort
/// on the first hard failure, otherwise proceed to the next batch.
pub fn clear_batch_decision(outcomes: &Vec<StoreStatus>, start: usize) -> (r: BatchDecision)
    requires
        start <= outcomes@.len(),
    ensures
        r == BatchDecision::Proceed ==> forall|j: int|
            start <= j < outcomes@.len() ==> outcomes@[j] == StoreStatus::Success,
        r matches BatchDecision::Retry(i) ==> start <= i < outcomes@.len() && outcomes@[i as int]
            == StoreStatus::RateLimited && forall|j: int|
            start <= j < i ==> outcomes@[j] == StoreStatus::Success,
        r matches BatchDecision::Abort(i) ==> start <= i < outcomes@.len() && outcomes@[i as int]
            == StoreStatus::Failure && forall|j: int|
            start <= j < i ==> outcomes@[j] == StoreStatus::Success,
{
    let mut i: usize = start;
    while i < outcomes.len()
        invariant
            start <= i <= outcomes@.len(),
            forall|j: int| start <= j < i ==> outcomes@[j] == StoreStatus::Success,
        decreases outcomes@.len() - i,
    {
        match outcomes[i] {
            StoreStatus::Success => {
                i = i + 1;
            },
            StoreStatus::RateLimited => {
                return BatchDecision::Retry(i);
            },
            StoreStatus::Failure => {
                return BatchDecision::Abort(i);
            },
        }
    }
    BatchDecision::Proceed
}

/// The outcome of the single retry a rate-limited delete gets: only a
/// success lets the clear go on.
pub fn retry_outcome(outcome: StoreStatus) -> (r: Result<(), MessengerError>)
    ensures
        (r is Ok) == (outcome == StoreStatus::Success),
        r matches Err(e) ==> e == MessengerError::StoreDeleteFailure,
{
    match outcome {
        StoreStatus::Success => Ok(()),
        _ => Err(MessengerError::StoreDeleteFailure),
    }
}

/// Whether to pause before the next batch: only full batches are
/// followed by a pause.
pub fn should_pause_between(batch_len: usize, batch_size: usize) -> (r: bool)
    ensures
        r == (batch_len == batch_size),
{
    batch_len == batch_size
}

/// Everything the caller needs to store one outgoing message: the
/// object id, the object URL under the sender's own namespace, the
/// serialized envelope, and the envelope itself.
pub struct PreparedMessage {
    pub id: String,
    pub url: String,
    pub body: String,
    pub message: PrivateMessage,
}

/// Builds, signs, encrypts and serializes one outgoing message, and
/// derives the URL to store it under.
pub fn prepare_send(own: &SigningKeypair, recipient: &PublicKey, content: &str) -> (r: Result<
    PreparedMessage,
    MessengerError,
>)
    ensures
        (r is Ok) == (x25519_point_of(recipient@) is Some),
        r matches Err(e) ==> e == MessengerError::InvalidPoint,
        r matches Ok(p) ==> {
            &&& crate::envelope::wf_envelope_from(
                p.message,
                shared_point_of(own@, recipient@),
                content@,
                own@,
            )
            &&& p.body@ == crate::codec::envelope_json_of(
                p.message.timestamp,
                p.message.encrypted_sender@,
                p.message.encrypted_content@,
                p.message.signature_bytes@,
            ).map_values(|b: u8| b as char)
            &&& p.id@.len() == 36
            &&& p.url@ == message_url_of(
                crate::trusted::zbase32_of(crate::trusted::ed25519_public_of(own@)),
                crate::locator::conversation_path_of(shared_point_of(own@, recipient@)),
                p.id@,
            )
        },
        forall|sb: Seq<u8>|
            recipient@ == #[trigger] crate::trusted::ed25519_public_of(sb) ==> r is Ok,
{
    let message = match PrivateMessage::new(own, recipient, content) {
        Ok(m) => m,
        Err(e) => {
            return Err(e);
        },
    };
    let id = PrivateMessage::generate_id();
    let body = crate::codec::serialize_envelope(&message);
    let path = match crate::locator::generate_conversation_path(own, recipient) {
        Ok(p) => p,
        Err(e) => {
            return Err(e);
        },
    };
    let owner = own.public_key_string();
    let url = build_message_url(owner.as_str(), path.as_str(), id.as_str());
    Ok(PreparedMessage { id, url, body, message })
}



/// The caller-visible outcome of a store write: success is owed
/// exactly on a success status; a backoff request is distinguished so
/// the caller can retry.
pub fn store_write_result(outcome: StoreStatus) -> (r: Result<(), MessengerError>)
    ensures
        (r is Ok) == (outcome == StoreStatus::Success),
        outcome == StoreStatus::RateLimited ==> r == Err::<(), MessengerError>(
            MessengerError::RateLimited,
        ),
        outcome == StoreStatus::Failure ==> r == Err::<(), MessengerError>(
            MessengerError::StoreWriteFailure,
        ),
{
    match outcome {
        StoreStatus::Success => Ok(()),
        StoreStatus::RateLimited => Err(MessengerError::RateLimited),
        StoreStatus::Failure => Err(MessengerError::StoreWriteFailure),
    }
}

/// The caller-visible outcome of a single store delete.
pub fn store_delete_result(outcome: StoreStatus) -> (r: Result<(), MessengerError>)
    ensures
        (r is Ok) == (outcome == StoreStatus::Success),
        outcome == StoreStatus::RateLimited ==> r == Err::<(), MessengerError>(
            MessengerError::RateLimited,
        ),
        outcome == StoreStatus::Failure ==> r == Err::<(), MessengerError>(
            MessengerError::StoreDeleteFailure,
        ),
{
    match outcome {
        StoreStatus::Success => Ok(()),
        StoreStatus::RateLimited => Err(MessengerError::RateLimited),
        StoreStatus::Failure => Err(MessengerError::StoreDeleteFailure),
    }
}

/// The URLs of the given message ids under one conversation prefix.
pub fn build_message_urls(owner: &str, path: &str, ids: &Vec<String>) -> (r: Vec<String>)
    ensures
        r@.len() == ids@.len(),
        forall|k: int|
            0 <= k < ids@.len() ==> (#[trigger] r@[k])@ == message_url_of(
                owner@,
                path@,
                ids@[k]@,
            ),
{
    let mut out: Vec<String> = Vec::new();
    let mut i: usize = 0;
    while i < ids.len()
        invariant
            i <= ids@.len(),
            out@.len() == i,
            forall|k: int|
                0 <= k < i ==> (#[trigger] out@[k])@ == message_url_of(owner@, path@, ids@[k]@),
        decreases ids@.len() - i,
    {
        let url = build_message_url(owner, path, ids[i].as_str());
        out.push(url);
        i = i + 1;
    }
    out
}

} // verus!

