//! Profile and contact logic: the URLs profile data lives under, the
//! follow-list format, and the pure parts of looking up followed
//! users.

use vstd::prelude::*;
use vstd::string::{StrSliceExecFns, StringExecFns};

use crate::ascii::ascii_to_string;
use crate::codec::dec_digits_of;
use crate::codec::lemma_dec_digits_are_digits;

verus! {

/// Profile information as other applications publish it.
#[derive(Debug, Clone)]
pub struct PubkyProfile {
    pub name: String,
    pub bio: Option<String>,
    pub image: Option<String>,
    pub status: Option<String>,
}

/// A user on the caller's follow list.
#[derive(Debug, Clone)]
pub struct FollowedUser {
    pub name: Option<String>,
    pub pubky: String,
}

impl FollowedUser {
    /// The follow-list entry for a user: named after their profile
    /// when one could be read, bare otherwise.
    pub fn from_profile(pubky: String, profile: Option<PubkyProfile>) -> (r: FollowedUser)
        ensures
            r.pubky == pubky,
            profile matches Some(p) ==> r.name matches Some(n) && n == p.name,
            profile is None ==> r.name is None,
    {
        match profile {
            Some(p) => FollowedUser { name: Some(p.name), pubky },
            None => FollowedUser { name: None, pubky },
        }
    }
}

/// The URL of a user's own profile object.
pub open spec fn profile_url_of(pubky: Seq<char>) -> Seq<char> {
    "pubky://"@ + pubky + "/pub/pubky.app/profile.json"@
}

/// The URL prefix of a user's follow list.
pub open spec fn follows_url_of(pubky: Seq<char>) -> Seq<char> {
    "pubky://"@ + pubky + "/pub/pubky.app/follows/"@
}

/// The URL of one follow entry.
pub open spec fn follow_url_of(owner: Seq<char>, target: Seq<char>) -> Seq<char> {
    "pubky://"@ + owner + "/pub/pubky.app/follows/"@ + target
}

/// Builds the URL of a user's profile object.
pub fn build_profile_url(pubky: &str) -> (r: String)
    ensures
        r@ == profile_url_of(pubky@),
{
    let mut url = String::from_str("pubky://");
    url.append(pubky);
    url.append("/pub/pubky.app/profile.json");
    url
}

/// Builds the URL prefix of a user's follow list.
pub fn build_follows_url(pubky: &str) -> (r: String)
    ensures
        r@ == follows_url_of(pubky@),
{
    let mut url = String::from_str("pubky://");
    url.append(pubky);
    url.append("/pub/pubky.app/follows/");
    url
}

/// Builds the URL of one follow entry.
pub fn build_follow_url(owner: &str, target: &str) -> (r: String)
    ensures
        r@ == follow_url_of(owner@, target@),
{
    let mut url = String::from_str("pubky://");
    url.append(owner);
    url.append("/pub/pubky.app/follows/");
    url.append(target);
    url
}

/// The stored record of one follow: when it was created, in seconds.
pub open spec fn follow_record_of(timestamp: u64) -> Seq<char> {
    "{\"created_at\":"@ + dec_digits_of(timestamp as int).map_values(|b: u8| b as char) + "}"@
}

/// Builds the stored record of one follow.
pub fn build_follow_record(timestamp: u64) -> (r: String)
    ensures
        r@ == follow_record_of(timestamp),
{
    let mut digits: Vec<u8> = Vec::new();
    crate::codec::push_dec_digits(&mut digits, timestamp);
    proof {
        lemma_dec_digits_are_digits(timestamp as int);
    }
    let digit_chars = ascii_to_string(digits);
    let mut record = String::from_str("{\"created_at\":");
    record.append(digit_chars.as_str());
    record.append("}");
    record
}

/// The first position at or after `i` that holds a newline.
pub open spec fn newline_from(s: Seq<char>, i: int) -> int
    decreases s.len() - i,
{
    if 0 <= i < s.len() && s[i] != '\n' {
        newline_from(s, i + 1)
    } else {
        i
    }
}

/// A piece with one trailing carriage return removed.
pub open spec fn strip_cr(piece: Seq<char>) -> Seq<char> {
    if piece.len() > 0 && piece.last() == '\r' {
        piece.drop_last()
    } else {
        piece
    }
}

/// The non-empty lines of a follow-list response: pieces between
/// newlines, each with a trailing carriage return removed, empty
/// pieces dropped.
pub open spec fn spec_follow_lines(s: Seq<char>) -> Seq<Seq<char>>
    decreases s.len(),
{
    let k = newline_from(s, 0);
    let piece = strip_cr(s.take(k));
    let this = if piece.len() > 0 {
        seq![piece]
    } else {
        Seq::<Seq<char>>::empty()
    };
    if 0 <= k < s.len() {
        this + spec_follow_lines(s.subrange(k + 1, s.len() as int))
    } else {
        this
    }
}

/// A newline-free stretch laid down at the front is what
/// `newline_from` walks over.
proof fn lemma_newline_at(s: Seq<char>, j: int)
    requires
        0 <= j <= s.len(),
        forall|k: int| 0 <= k < j ==> s[k] != '\n',
        j == s.len() || s[j] == '\n',
    ensures
        newline_from(s, 0) == j,
{
    lemma_newline_walk(s, 0, j);
}

proof fn lemma_newline_walk(s: Seq<char>, i: int, j: int)
    requires
        0 <= i <= j <= s.len(),
        forall|k: int| i <= k < j ==> s[k] != '\n',
        j == s.len() || s[j] == '\n',
    ensures
        newline_from(s, i) == j,
    decreases j - i,
{
    if i < j {
        lemma_newline_walk(s, i + 1, j);
    }
}

/// Splits a follow-list response into its non-empty lines.
pub fn split_follow_urls(body: &str) -> (r: Vec<String>)
    ensures
        r@.map_values(|s: String| s@) == spec_follow_lines(body@),
{
    let n = body.unicode_len();
    let mut out: Vec<String> = Vec::new();
    let mut start: usize = 0;
    proof {
        assert(body@.subrange(0, n as int) =~= body@);
        assert(Seq::<Seq<char>>::empty() + spec_follow_lines(body@) =~= spec_follow_lines(body@));
    }
    while start <= n
        invariant
            n == body@.len(),
            start <= n + 1,
            spec_follow_lines(body@) == out@.map_values(|s: String| s@) + (if start <= n {
                spec_follow_lines(body@.subrange(start as int, n as int))
            } else {
                Seq::<Seq<char>>::empty()
            }),
        decreases n + 1 - start,
    {
        let ghost suffix = body@.subrange(start as int, n as int);
        let mut j: usize = start;
        while j < n && body.get_char(j) != '\n'
            invariant
                start <= j <= n,
                n == body@.len(),
                forall|k: int| start <= k < j ==> body@[k] != '\n',
            decreases n - j,
        {
            j = j + 1;
        }
        proof {
            assert forall|k: int| 0 <= k < j - start implies suffix[k] != '\n' by {
                assert(suffix[k] == body@[start + k]);
            }
            if j < n {
                assert(suffix[j - start] == body@[j as int]);
            }
            lemma_newline_at(suffix, j - start);
        }
        let piece_end = if j > start && body.get_char(j - 1) == '\r' {
            j - 1
        } else {
            j
        };
        proof {
            assert(suffix.take(j - start) =~= body@.subrange(start as int, j as int));
            if j > start && body@[j - 1] == '\r' {
                assert(strip_cr(suffix.take(j - start)) =~= body@.subrange(
                    start as int,
                    piece_end as int,
                ));
            } else {
                assert(strip_cr(suffix.take(j - start)) =~= body@.subrange(
                    start as int,
                    piece_end as int,
                ));
            }
        }
        let ghost old_out = out@.map_values(|s: String| s@);
        if piece_end > start {
            let piece = body.substring_char(start, piece_end);
            out.push(piece.to_owned());
            proof {
                assert(out@.map_values(|s: String| s@) =~= old_out.push(body@.subrange(
                    start as int,
                    piece_end as int,
                )));
            }
        }
        if j == n {
            proof {
                if piece_end > start {
                    assert(old_out.push(body@.subrange(start as int, piece_end as int)) =~= old_out
                        + seq![body@.subrange(start as int, piece_end as int)]);
                } else {
                    assert(old_out + Seq::<Seq<char>>::empty() =~= old_out);
                }
            }
            return out;
        }
        proof {
            {
                assert(suffix.subrange(j - start + 1, suffix.len() as int) =~= body@.subrange(
                    j + 1,
                    n as int,
                ));
                if piece_end > start {
                    assert(old_out.push(body@.subrange(start as int, piece_end as int)) + (
                    spec_follow_lines(body@.subrange(j + 1, n as int))) =~= old_out + (seq![
                        body@.subrange(start as int, piece_end as int),
                    ] + spec_follow_lines(body@.subrange(j + 1, n as int))));
                } else {
                    assert(old_out + spec_follow_lines(body@.subrange(j + 1, n as int)) =~= old_out
                        + (Seq::<Seq<char>>::empty() + spec_follow_lines(
                        body@.subrange(j + 1, n as int),
                    )));
                }
            }
        }
        start = j + 1;
    }
    out
}

/// What stands after the last slash of a URL: the id of the object it
/// points at, or the whole string when it holds no slash.
pub open spec fn after_last_slash(s: Seq<char>) -> Seq<char>
    decreases s.len(),
{
    if s.len() == 0 {
        s
    } else if s.last() == '/' {
        Seq::empty()
    } else {
        after_last_slash(s.drop_last()) + seq![s.last()]
    }
}

/// Extracts the identifier a follow URL points at: everything after
/// its last slash.
pub fn extract_pubky_id(url: &str) -> (r: String)
    ensures
        r@ == after_last_slash(url@),
{
    let n = url.unicode_len();
    let mut k: usize = n;
    proof {
        assert(url@.take(n as int) =~= url@);
        assert(after_last_slash(url@) + url@.subrange(n as int, n as int) =~= after_last_slash(
            url@,
        ));
    }
    while k > 0 && url.get_char(k - 1) != '/'
        invariant
            k <= n,
            n == url@.len(),
            after_last_slash(url@) == after_last_slash(url@.take(k as int)) + url@.subrange(
                k as int,
                n as int,
            ),
        decreases k,
    {
        proof {
            assert(url@.take(k as int).drop_last() =~= url@.take(k - 1));
            assert(after_last_slash(url@.take(k - 1)) + seq![url@[k - 1]] + url@.subrange(
                k as int,
                n as int,
            ) =~= after_last_slash(url@.take(k - 1)) + url@.subrange(k - 1, n as int));
        }
        k = k - 1;
    }
    proof {
        if k > 0 {
            assert(url@.take(k as int).last() == url@[k - 1]);
            assert(after_last_slash(url@.take(k as int)) =~= Seq::<char>::empty());
        } else {
            assert(url@.take(0) =~= Seq::<char>::empty());
        }
        assert(after_last_slash(url@) =~= url@.subrange(k as int, n as int));
    }
    let piece = url.substring_char(k, n);
    piece.to_owned()
}

} // verus!
