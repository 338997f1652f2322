//! The storage encoding of an envelope: a JSON record with the fields
//! `timestamp` (decimal integer), `encrypted_sender`,
//! `encrypted_content` and `signature_bytes` (each an array of byte
//! values), in that order and without whitespace.
//!
//! [`serialize_envelope`] emits exactly this canonical form;
//! [`parse_envelope`] reads it back.  The parser's behaviour is pinned
//! byte for byte by the specification-level parser
//! [`spec_parse_envelope`], and [`lemma_codec_round_trip`] shows that
//! parsing a serialized envelope recovers its fields.

use vstd::prelude::*;

use crate::ascii::ascii_to_string;
use crate::envelope::PrivateMessage;
use vstd::utf8::encode_utf8;

verus! {

/// ASCII digit test.
pub open spec fn is_digit(b: u8) -> bool {
    0x30 <= b <= 0x39
}

/// The decimal digits of a non-negative integer, most significant
/// first, as ASCII bytes.
pub open spec fn dec_digits_of(n: int) -> Seq<u8>
    recommends
        n >= 0,
    decreases n,
{
    if n < 10 {
        seq![(0x30 + if n >= 0 { n } else { 0 }) as u8]
    } else {
        dec_digits_of(n / 10).push((0x30 + n % 10) as u8)
    }
}

/// The integer value of a sequence of ASCII digits.
pub open spec fn digits_value(s: Seq<u8>) -> int
    decreases s.len(),
{
    if s.len() == 0 {
        0
    } else {
        digits_value(s.drop_last()) * 10 + (s.last() as int - 0x30)
    }
}

/// The first position at or after `i` that does not hold an ASCII
/// digit.
pub open spec fn digit_run_end(b: Seq<u8>, i: int) -> int
    decreases b.len() - i,
{
    if 0 <= i < b.len() && is_digit(b[i]) {
        digit_run_end(b, i + 1)
    } else {
        i
    }
}

/// The JSON items of a byte array: decimal values separated by commas.
pub open spec fn byte_items_of(bytes: Seq<u8>) -> Seq<u8>
    decreases bytes.len(),
{
    if bytes.len() == 0 {
        Seq::empty()
    } else if bytes.len() == 1 {
        dec_digits_of(bytes[0] as int)
    } else {
        dec_digits_of(bytes[0] as int) + seq![0x2cu8] + byte_items_of(bytes.drop_first())
    }
}

/// The JSON encoding of a byte array: the items in square brackets.
pub open spec fn byte_array_json_of(bytes: Seq<u8>) -> Seq<u8> {
    seq![0x5bu8] + byte_items_of(bytes) + seq![0x5du8]
}

/// The object key `{"timestamp":`.
pub open spec fn key_timestamp() -> Seq<u8> {
    seq![0x7bu8, 0x22, 0x74, 0x69, 0x6d, 0x65, 0x73, 0x74, 0x61, 0x6d, 0x70, 0x22, 0x3a]
}

/// The object key `,"encrypted_sender":`.
pub open spec fn key_sender() -> Seq<u8> {
    seq![
        0x2cu8,
        0x22,
        0x65,
        0x6e,
        0x63,
        0x72,
        0x79,
        0x70,
        0x74,
        0x65,
        0x64,
        0x5f,
        0x73,
        0x65,
        0x6e,
        0x64,
        0x65,
        0x72,
        0x22,
        0x3a,
    ]
}

/// The object key `,"encrypted_content":`.
pub open spec fn key_content() -> Seq<u8> {
    seq![
        0x2cu8,
        0x22,
        0x65,
        0x6e,
        0x63,
        0x72,
        0x79,
        0x70,
        0x74,
        0x65,
        0x64,
        0x5f,
        0x63,
        0x6f,
        0x6e,
        0x74,
        0x65,
        0x6e,
        0x74,
        0x22,
        0x3a,
    ]
}

/// The object key `,"signature_bytes":`.
pub open spec fn key_signature() -> Seq<u8> {
    seq![
        0x2cu8,
        0x22,
        0x73,
        0x69,
        0x67,
        0x6e,
        0x61,
        0x74,
        0x75,
        0x72,
        0x65,
        0x5f,
        0x62,
        0x79,
        0x74,
        0x65,
        0x73,
        0x22,
        0x3a,
    ]
}

/// The canonical JSON encoding of an envelope's four fields.
pub open spec fn envelope_json_of(
    timestamp: u64,
    encrypted_sender: Seq<u8>,
    encrypted_content: Seq<u8>,
    signature_bytes: Seq<u8>,
) -> Seq<u8> {
    key_timestamp() + dec_digits_of(timestamp as int) + key_sender() + byte_array_json_of(
        encrypted_sender,
    ) + key_content() + byte_array_json_of(encrypted_content) + key_signature()
        + byte_array_json_of(signature_bytes) + seq![0x7du8]
}

/// Every decimal digit byte is an ASCII digit.
pub proof fn lemma_dec_digits_are_digits(n: int)
    requires
        n >= 0,
    ensures
        dec_digits_of(n).len() >= 1,
        forall|i: int|
            0 <= i < dec_digits_of(n).len() ==> is_digit(#[trigger] dec_digits_of(n)[i]),
    decreases n,
{
    if n >= 10 {
        lemma_dec_digits_are_digits(n / 10);
    }
}

/// Reading the decimal digits of `n` back gives `n`.
pub proof fn lemma_digits_value_of_dec(n: int)
    requires
        n >= 0,
    ensures
        digits_value(dec_digits_of(n)) == n,
    decreases n,
{
    if n < 10 {
        assert(dec_digits_of(n) =~= seq![(0x30 + n) as u8]);
        assert(dec_digits_of(n).drop_last() =~= Seq::<u8>::empty());
        assert(dec_digits_of(n).last() == (0x30 + n) as u8);
        assert((0x30 + n) as u8 as int - 0x30 == n);
        assert(digits_value(dec_digits_of(n)) == digits_value(Seq::<u8>::empty()) * 10 + ((0x30
            + n) as u8 as int - 0x30));
        assert(digits_value(dec_digits_of(n)) == n);
    } else {
        lemma_digits_value_of_dec(n / 10);
        assert(dec_digits_of(n).drop_last() =~= dec_digits_of(n / 10));
        assert(dec_digits_of(n).last() == (0x30 + n % 10) as u8);
        assert(0 <= n % 10 < 10);
        assert((0x30 + n % 10) as u8 as int - 0x30 == n % 10);
        assert(digits_value(dec_digits_of(n)) == (n / 10) * 10 + n % 10);
        assert(n == (n / 10) * 10 + n % 10) by (nonlinear_arith);
    }
}

/// Appends the decimal digits of `n` to a byte vector.
pub(crate) fn push_dec_digits(out: &mut Vec<u8>, n: u64)
    ensures
        final(out)@ == old(out)@ + dec_digits_of(n as int),
{
    let ghost orig = out@;
    let mut tmp: Vec<u8> = Vec::new();
    let mut v: u64 = n;
    if v == 0 {
        out.push(0x30);
        proof {
            assert(out@ =~= orig + dec_digits_of(0));
        }
        return ;
    }
    while v > 0
        invariant
            v >= 0,
            v > 0 ==> dec_digits_of(n as int) == dec_digits_of(v as int) + tmp@.reverse(),
            v == 0 ==> dec_digits_of(n as int) == tmp@.reverse(),
        decreases v,
    {
        let d: u8 = 0x30 + (v % 10) as u8;
        tmp.push(d);
        proof {
            if v >= 10 {
                assert(dec_digits_of(v as int) == dec_digits_of(v as int / 10).push(d));
                assert(dec_digits_of(v as int / 10) + tmp@.reverse() =~= dec_digits_of(v as int)
                    + tmp@.subrange(0, tmp@.len() - 1).reverse());
            } else {
                assert(dec_digits_of(v as int) =~= seq![d]);
                assert(tmp@.reverse() =~= seq![d] + tmp@.subrange(0, tmp@.len() - 1).reverse());
            }
        }
        v = v / 10;
    }
    let ghost digits = dec_digits_of(n as int);
    let mut k: usize = tmp.len();
    while k > 0
        invariant
            k <= tmp@.len(),
            digits == tmp@.reverse(),
            out@ == orig + digits.take(tmp@.len() - k),
        decreases k,
    {
        k = k - 1;
        out.push(tmp[k]);
        proof {
            assert(digits[tmp@.len() - k - 1] == tmp@[k as int]);
            assert(orig + digits.take(tmp@.len() - k) =~= (orig + digits.take(
                tmp@.len() - k - 1,
            )).push(tmp@[k as int]));
        }
    }
    proof {
        assert(digits.take(tmp@.len() as int) =~= digits);
    }
}

/// Unfolds one step of `byte_items_of` over a prefix.
proof fn lemma_byte_items_step(bytes: Seq<u8>, i: int)
    requires
        0 <= i < bytes.len(),
    ensures
        byte_items_of(bytes.take(i + 1)) == byte_items_of(bytes.take(i)) + (if i == 0 {
            dec_digits_of(bytes[0] as int)
        } else {
            seq![0x2cu8] + dec_digits_of(bytes[i] as int)
        }),
    decreases i,
{
    if i == 0 {
        assert(bytes.take(1) =~= seq![bytes[0]]);
        assert(byte_items_of(bytes.take(0)) =~= Seq::<u8>::empty());
        assert(byte_items_of(bytes.take(1)) =~= Seq::<u8>::empty() + dec_digits_of(
            bytes[0] as int,
        ));
    } else {
        lemma_byte_items_step(bytes.drop_first(), i - 1);
        assert(bytes.take(i + 1).drop_first() =~= bytes.drop_first().take(i));
        assert(bytes.take(i).drop_first() =~= bytes.drop_first().take(i - 1));
        if i == 1 {
            assert(bytes.take(2).len() == 2);
            assert(byte_items_of(bytes.take(2)) == dec_digits_of(bytes[0] as int) + seq![0x2cu8]
                + byte_items_of(bytes.drop_first().take(1)));
            assert(bytes.drop_first().take(1) =~= seq![bytes[1]]);
            assert(byte_items_of(bytes.take(1)) =~= dec_digits_of(bytes[0] as int));
            assert(byte_items_of(bytes.take(2)) =~= byte_items_of(bytes.take(1)) + (seq![0x2cu8]
                + dec_digits_of(bytes[1] as int)));
        } else {
            assert(byte_items_of(bytes.take(i + 1)) == dec_digits_of(bytes[0] as int)
                + seq![0x2cu8] + byte_items_of(bytes.drop_first().take(i)));
            assert(byte_items_of(bytes.take(i)) == dec_digits_of(bytes[0] as int) + seq![0x2cu8]
                + byte_items_of(bytes.drop_first().take(i - 1)));
            assert(byte_items_of(bytes.take(i + 1)) =~= byte_items_of(bytes.take(i)) + (
            seq![0x2cu8] + dec_digits_of(bytes[i] as int)));
        }
    }
}

/// Appends the JSON encoding of a byte array to a byte vector.
fn push_byte_array(out: &mut Vec<u8>, bytes: &[u8])
    ensures
        final(out)@ == old(out)@ + byte_array_json_of(bytes@),
{
    let ghost orig = out@;
    out.push(0x5b);
    let mut i: usize = 0;
    while i < bytes.len()
        invariant
            i <= bytes@.len(),
            out@ == orig + seq![0x5bu8] + byte_items_of(bytes@.take(i as int)),
        decreases bytes@.len() - i,
    {
        if i > 0 {
            out.push(0x2c);
        }
        push_dec_digits(out, bytes[i] as u64);
        proof {
            lemma_byte_items_step(bytes@, i as int);
            if i == 0 {
                assert(out@ =~= orig + seq![0x5bu8] + byte_items_of(bytes@.take(i + 1)));
            } else {
                assert(out@ =~= orig + seq![0x5bu8] + byte_items_of(bytes@.take(i + 1)));
            }
        }
        i = i + 1;
    }
    out.push(0x5d);
    proof {
        assert(bytes@.take(bytes@.len() as int) =~= bytes@);
        assert(out@ =~= orig + byte_array_json_of(bytes@));
    }
}

/// Appends the fixed object keys.
fn push_literal(out: &mut Vec<u8>, which: u8)
    requires
        which < 4,
    ensures
        which == 0 ==> final(out)@ == old(out)@ + key_timestamp(),
        which == 1 ==> final(out)@ == old(out)@ + key_sender(),
        which == 2 ==> final(out)@ == old(out)@ + key_content(),
        which == 3 ==> final(out)@ == old(out)@ + key_signature(),
{
    let ghost orig = out@;
    if which == 0 {
        out.push(0x7b);
        out.push(0x22);
        out.push(0x74);
        out.push(0x69);
        out.push(0x6d);
        out.push(0x65);
        out.push(0x73);
        out.push(0x74);
        out.push(0x61);
        out.push(0x6d);
        out.push(0x70);
        out.push(0x22);
        out.push(0x3a);
        proof {
            assert(out@ =~= orig + key_timestamp());
        }
    } else if which == 1 {
        out.push(0x2c);
        out.push(0x22);
        out.push(0x65);
        out.push(0x6e);
        out.push(0x63);
        out.push(0x72);
        out.push(0x79);
        out.push(0x70);
        out.push(0x74);
        out.push(0x65);
        out.push(0x64);
        out.push(0x5f);
        out.push(0x73);
        out.push(0x65);
        out.push(0x6e);
        out.push(0x64);
        out.push(0x65);
        out.push(0x72);
        out.push(0x22);
        out.push(0x3a);
        proof {
            assert(out@ =~= orig + key_sender());
        }
    } else if which == 2 {
        out.push(0x2c);
        out.push(0x22);
        out.push(0x65);
        out.push(0x6e);
        out.push(0x63);
        out.push(0x72);
        out.push(0x79);
        out.push(0x70);
        out.push(0x74);
        out.push(0x65);
        out.push(0x64);
        out.push(0x5f);
        out.push(0x63);
        out.push(0x6f);
        out.push(0x6e);
        out.push(0x74);
        out.push(0x65);
        out.push(0x6e);
        out.push(0x74);
        out.push(0x22);
        out.push(0x3a);
        proof {
            assert(out@ =~= orig + key_content());
        }
    } else {
        out.push(0x2c);
        out.push(0x22);
        out.push(0x73);
        out.push(0x69);
        out.push(0x67);
        out.push(0x6e);
        out.push(0x61);
        out.push(0x74);
        out.push(0x75);
        out.push(0x72);
        out.push(0x65);
        out.push(0x5f);
        out.push(0x62);
        out.push(0x79);
        out.push(0x74);
        out.push(0x65);
        out.push(0x73);
        out.push(0x22);
        out.push(0x3a);
        proof {
            assert(out@ =~= orig + key_signature());
        }
    }
}

/// All bytes of the canonical encoding are ASCII.
pub proof fn lemma_envelope_json_ascii(
    timestamp: u64,
    encrypted_sender: Seq<u8>,
    encrypted_content: Seq<u8>,
    signature_bytes: Seq<u8>,
)
    ensures
        forall|i: int|
            0 <= i < envelope_json_of(
                timestamp,
                encrypted_sender,
                encrypted_content,
                signature_bytes,
            ).len() ==> #[trigger] envelope_json_of(
                timestamp,
                encrypted_sender,
                encrypted_content,
                signature_bytes,
            )[i] < 128,
{
    lemma_dec_run_ascii(timestamp as int);
    lemma_byte_array_ascii(encrypted_sender);
    lemma_byte_array_ascii(encrypted_content);
    lemma_byte_array_ascii(signature_bytes);
}

proof fn lemma_dec_run_ascii(n: int)
    requires
        n >= 0,
    ensures
        forall|i: int|
            0 <= i < dec_digits_of(n).len() ==> #[trigger] dec_digits_of(n)[i] < 128,
{
    lemma_dec_digits_are_digits(n);
}

proof fn lemma_byte_array_ascii(bytes: Seq<u8>)
    ensures
        forall|i: int|
            0 <= i < byte_array_json_of(bytes).len() ==> #[trigger] byte_array_json_of(bytes)[i]
                < 128,
{
    lemma_byte_items_ascii(bytes);
}

proof fn lemma_byte_items_ascii(bytes: Seq<u8>)
    ensures
        forall|i: int|
            0 <= i < byte_items_of(bytes).len() ==> #[trigger] byte_items_of(bytes)[i] < 128,
    decreases bytes.len(),
{
    if bytes.len() == 1 {
        lemma_dec_run_ascii(bytes[0] as int);
    } else if bytes.len() > 1 {
        lemma_dec_run_ascii(bytes[0] as int);
        lemma_byte_items_ascii(bytes.drop_first());
        let head = dec_digits_of(bytes[0] as int);
        let rest = byte_items_of(bytes.drop_first());
        assert forall|i: int|
            0 <= i < byte_items_of(bytes).len() implies #[trigger] byte_items_of(bytes)[i]
            < 128 by {
            if i < head.len() {
                assert(byte_items_of(bytes)[i] == head[i]);
            } else if i == head.len() {
                assert(byte_items_of(bytes)[i] == 0x2cu8);
            } else {
                assert(byte_items_of(bytes)[i] == rest[i - head.len() - 1]);
            }
        }
    }
}

/// Serializes an envelope into its canonical JSON string.
pub fn serialize_envelope(m: &PrivateMessage) -> (r: String)
    ensures
        r@ == envelope_json_of(
            m.timestamp,
            m.encrypted_sender@,
            m.encrypted_content@,
            m.signature_bytes@,
        ).map_values(|b: u8| b as char),
{
    let mut out: Vec<u8> = Vec::new();
    push_literal(&mut out, 0);
    push_dec_digits(&mut out, m.timestamp);
    push_literal(&mut out, 1);
    push_byte_array(&mut out, m.encrypted_sender.as_slice());
    push_literal(&mut out, 2);
    push_byte_array(&mut out, m.encrypted_content.as_slice());
    push_literal(&mut out, 3);
    push_byte_array(&mut out, m.signature_bytes.as_slice());
    out.push(0x7d);
    proof {
        assert(out@ =~= envelope_json_of(
            m.timestamp,
            m.encrypted_sender@,
            m.encrypted_content@,
            m.signature_bytes@,
        ));
        lemma_envelope_json_ascii(
            m.timestamp,
            m.encrypted_sender@,
            m.encrypted_content@,
            m.signature_bytes@,
        );
    }
    ascii_to_string(out)
}

/// The parse of a decimal number at `i`: its value and the position
/// after its digits, or `None` when no digit stands there.
pub open spec fn spec_parse_number(b: Seq<u8>, i: int) -> Option<(int, int)> {
    let j = digit_run_end(b, i);
    if j > i {
        Some((digits_value(b.subrange(i, j)), j))
    } else {
        None
    }
}

/// The parse of a fixed literal at `i`: the position after it, or
/// `None` when the input does not continue with it.
pub open spec fn spec_skip(b: Seq<u8>, i: int, lit: Seq<u8>) -> Option<int> {
    if 0 <= i && i + lit.len() <= b.len() && b.subrange(i, i + lit.len()) == lit {
        Some(i + lit.len())
    } else {
        None
    }
}

/// The parse of the items of a non-empty byte array, after the opening
/// bracket: decimal values up to 255 separated by commas, closed by a
/// bracket.  `acc` holds the values already read.
pub open spec fn spec_parse_items(b: Seq<u8>, i: int, acc: Seq<u8>) -> Option<(Seq<u8>, int)>
    decreases b.len() - i,
{
    let j = digit_run_end(b, i);
    if j > i && 0 <= digits_value(b.subrange(i, j)) <= 255 {
        let v = digits_value(b.subrange(i, j)) as u8;
        if j < b.len() && b[j] == 0x2c {
            spec_parse_items(b, j + 1, acc.push(v))
        } else if j < b.len() && b[j] == 0x5d {
            Some((acc.push(v), j + 1))
        } else {
            None
        }
    } else {
        None
    }
}

/// The parse of a byte array at `i`.
pub open spec fn spec_parse_byte_array(b: Seq<u8>, i: int) -> Option<(Seq<u8>, int)> {
    if 0 <= i && i < b.len() && b[i] == 0x5b {
        if i + 1 < b.len() && b[i + 1] == 0x5d {
            Some((Seq::empty(), i + 2))
        } else {
            spec_parse_items(b, i + 1, Seq::empty())
        }
    } else {
        None
    }
}

/// The parse of a whole envelope record: the four fields, provided the
/// input is consumed exactly.
pub open spec fn spec_parse_envelope(b: Seq<u8>) -> Option<(u64, Seq<u8>, Seq<u8>, Seq<u8>)> {
    match spec_skip(b, 0, key_timestamp()) {
        Some(i1) => match spec_parse_number(b, i1) {
            Some((t, i2)) => if 0 <= t <= u64::MAX {
                match spec_skip(b, i2, key_sender()) {
                    Some(i3) => match spec_parse_byte_array(b, i3) {
                        Some((es, i4)) => match spec_skip(b, i4, key_content()) {
                            Some(i5) => match spec_parse_byte_array(b, i5) {
                                Some((ec, i6)) => match spec_skip(b, i6, key_signature()) {
                                    Some(i7) => match spec_parse_byte_array(b, i7) {
                                        Some((sg, i8)) => if i8 + 1 == b.len() && b[i8] == 0x7d {
                                            Some((t as u64, es, ec, sg))
                                        } else {
                                            None
                                        },
                                        None => None,
                                    },
                                    None => None,
                                },
                                None => None,
                            },
                            None => None,
                        },
                        None => None,
                    },
                    None => None,
                }
            } else {
                None
            },
            None => None,
        },
        None => None,
    }
}

/// The value of a digit run never goes down as the run extends.
proof fn lemma_digits_prefix(r: Seq<u8>, m: int)
    requires
        0 <= m <= r.len(),
        forall|k: int| 0 <= k < r.len() ==> is_digit(#[trigger] r[k]),
    ensures
        0 <= digits_value(r.take(m)),
        digits_value(r.take(m)) <= digits_value(r),
    decreases r.len() - m,
{
    if m == r.len() {
        assert(r.take(m) =~= r);
        lemma_digits_nonneg(r);
    } else {
        assert(r.take(m + 1).drop_last() =~= r.take(m));
        assert(r.take(m + 1).last() == r[m]);
        lemma_digits_nonneg(r.take(m));
        lemma_digits_prefix(r, m + 1);
    }
}

/// The value of a digit run is non-negative.
proof fn lemma_digits_nonneg(r: Seq<u8>)
    requires
        forall|k: int| 0 <= k < r.len() ==> is_digit(#[trigger] r[k]),
    ensures
        digits_value(r) >= 0,
    decreases r.len(),
{
    if r.len() > 0 {
        lemma_digits_nonneg(r.drop_last());
    }
}

/// Reads a fixed literal at `i`.
fn skip_literal(b: &[u8], i: usize, lit: &[u8]) -> (r: Option<usize>)
    ensures
        r matches Some(j) ==> spec_skip(b@, i as int, lit@) == Some(j as int) && j <= b@.len(),
        r is None ==> spec_skip(b@, i as int, lit@) is None,
{
    if i > b.len() || lit.len() > b.len() - i {
        return None;
    }
    let mut k: usize = 0;
    while k < lit.len()
        invariant
            k <= lit@.len(),
            i + lit@.len() <= b@.len(),
            b@.len() <= usize::MAX,
            forall|t: int| 0 <= t < k ==> b@[i + t] == #[trigger] lit@[t],
        decreases lit@.len() - k,
    {
        if b[i + k] != lit[k] {
            proof {
                assert(b@.subrange(i as int, i + lit@.len())[k as int] != lit@[k as int]);
            }
            return None;
        }
        k = k + 1;
    }
    proof {
        assert(b@.subrange(i as int, i + lit@.len()) =~= lit@);
    }
    Some(i + lit.len())
}

/// Reads a decimal number at `i`.  `None` when no digit stands there or
/// the value exceeds `u64::MAX`.
fn parse_number(b: &[u8], i: usize) -> (r: Option<(u64, usize)>)
    requires
        i <= b@.len(),
    ensures
        r matches Some((v, j)) ==> spec_parse_number(b@, i as int) == Some((v as int, j as int))
            && i < j <= b@.len(),
        r is None ==> (spec_parse_number(b@, i as int) is None || spec_parse_number(
            b@,
            i as int,
        )->Some_0.0 > u64::MAX),
{
    let mut j: usize = i;
    let mut acc: u64 = 0;
    while j < b.len() && b[j] >= 0x30 && b[j] <= 0x39
        invariant
            i <= j <= b@.len(),
            digit_run_end(b@, i as int) == digit_run_end(b@, j as int),
            forall|k: int| i <= k < j ==> is_digit(#[trigger] b@[k]),
            acc as int == digits_value(b@.subrange(i as int, j as int)),
        decreases b@.len() - j,
    {
        let d: u8 = b[j] - 0x30;
        if acc > (u64::MAX - d as u64) / 10 {
            proof {
                let run_end = digit_run_end(b@, i as int);
                lemma_digit_run_end_props(b@, j as int);
                let run = b@.subrange(i as int, run_end);
                assert(b@.subrange(i as int, j + 1).drop_last() =~= b@.subrange(
                    i as int,
                    j as int,
                ));
                assert(digits_value(b@.subrange(i as int, j + 1)) == acc * 10 + d);
                assert(acc * 10 + d > u64::MAX) by (nonlinear_arith)
                    requires
                        acc > (u64::MAX - d as u64) / 10,
                        0 <= d < 10,
                ;
                assert(forall|k: int| 0 <= k < run.len() ==> is_digit(#[trigger] run[k]));
                assert(run.take(j + 1 - i) =~= b@.subrange(i as int, j + 1));
                lemma_digits_prefix(run, j + 1 - i);
                assert(spec_parse_number(b@, i as int)->Some_0.0 > u64::MAX);
            }
            return None;
        }
        proof {
            assert(b@.subrange(i as int, j + 1).drop_last() =~= b@.subrange(i as int, j as int));
            assert(acc * 10 + d <= u64::MAX) by (nonlinear_arith)
                requires
                    acc <= (u64::MAX - d as u64) / 10,
                    0 <= d < 10,
            ;
        }
        acc = acc * 10 + d as u64;
        j = j + 1;
    }
    if j == i {
        return None;
    }
    Some((acc, j))
}

/// `digit_run_end` stays within bounds and stops exactly at the first
/// non-digit.
proof fn lemma_digit_run_end_props(b: Seq<u8>, i: int)
    requires
        0 <= i <= b.len(),
    ensures
        i <= digit_run_end(b, i) <= b.len(),
        forall|k: int| i <= k < digit_run_end(b, i) ==> is_digit(#[trigger] b[k]),
        digit_run_end(b, i) < b.len() ==> !is_digit(b[digit_run_end(b, i)]),
    decreases b.len() - i,
{
    if i < b.len() && is_digit(b[i]) {
        lemma_digit_run_end_props(b, i + 1);
    }
}

/// Reads a byte array at `i`.
fn parse_byte_array(b: &[u8], i: usize) -> (r: Option<(Vec<u8>, usize)>)
    requires
        i <= b@.len(),
    ensures
        r matches Some((v, j)) ==> spec_parse_byte_array(b@, i as int) == Some((v@, j as int))
            && j <= b@.len(),
        r is None ==> spec_parse_byte_array(b@, i as int) is None,
{
    if i >= b.len() || b[i] != 0x5b {
        return None;
    }
    if i + 1 < b.len() && b[i + 1] == 0x5d {
        return Some((Vec::new(), i + 2));
    }
    let mut acc: Vec<u8> = Vec::new();
    let mut cur: usize = i + 1;
    loop
        invariant
            i + 1 <= cur <= b@.len(),
            spec_parse_byte_array(b@, i as int) == spec_parse_items(b@, cur as int, acc@),
        decreases b@.len() - cur,
    {
        match parse_number(b, cur) {
            None => {
                return None;
            },
            Some((v, j)) => {
                if v > 255 {
                    return None;
                }
                if j < b.len() && b[j] == 0x2c {
                    acc.push(v as u8);
                    cur = j + 1;
                } else if j < b.len() && b[j] == 0x5d {
                    acc.push(v as u8);
                    return Some((acc, j + 1));
                } else {
                    return None;
                }
            },
        }
    }
}

/// Parses the canonical JSON encoding of an envelope.  Exactly the
/// strings [`serialize_envelope`] produces are accepted, except that
/// leading zeros in a decimal value are tolerated.
pub fn parse_envelope(s: &str) -> (r: Option<PrivateMessage>)
    ensures
        r matches Some(m) ==> spec_parse_envelope(encode_utf8(s@)) == Some(
            (m.timestamp, m.encrypted_sender@, m.encrypted_content@, m.signature_bytes@),
        ),
        r is None ==> spec_parse_envelope(encode_utf8(s@)) is None,
{
    let b = s.as_bytes();
    let mut k1: Vec<u8> = Vec::new();
    push_literal(&mut k1, 0);
    let mut k2: Vec<u8> = Vec::new();
    push_literal(&mut k2, 1);
    let mut k3: Vec<u8> = Vec::new();
    push_literal(&mut k3, 2);
    let mut k4: Vec<u8> = Vec::new();
    push_literal(&mut k4, 3);
    let i1 = match skip_literal(b, 0, k1.as_slice()) {
        Some(i) => i,
        None => {
            return None;
        },
    };
    let (t, i2) = match parse_number(b, i1) {
        Some(p) => p,
        None => {
            return None;
        },
    };
    let i3 = match skip_literal(b, i2, k2.as_slice()) {
        Some(i) => i,
        None => {
            return None;
        },
    };
    let (es, i4) = match parse_byte_array(b, i3) {
        Some(p) => p,
        None => {
            return None;
        },
    };
    let i5 = match skip_literal(b, i4, k3.as_slice()) {
        Some(i) => i,
        None => {
            return None;
        },
    };
    let (ec, i6) = match parse_byte_array(b, i5) {
        Some(p) => p,
        None => {
            return None;
        },
    };
    let i7 = match skip_literal(b, i6, k4.as_slice()) {
        Some(i) => i,
        None => {
            return None;
        },
    };
    let (sg, i8) = match parse_byte_array(b, i7) {
        Some(p) => p,
        None => {
            return None;
        },
    };
    if i8 < b.len() && b[i8] == 0x7d && i8 + 1 == b.len() {
        Some(
            PrivateMessage {
                timestamp: t,
                encrypted_sender: es,
                encrypted_content: ec,
                signature_bytes: sg,
            },
        )
    } else {
        None
    }
}


/// A digit run laid down at `i`, followed by a non-digit or the end,
/// is exactly what `digit_run_end` walks over.
proof fn lemma_digit_run_at(b: Seq<u8>, i: int, digits: Seq<u8>)
    requires
        0 <= i,
        i + digits.len() <= b.len(),
        b.subrange(i, i + digits.len()) == digits,
        forall|k: int| 0 <= k < digits.len() ==> is_digit(#[trigger] digits[k]),
        i + digits.len() == b.len() || !is_digit(b[i + digits.len()]),
    ensures
        digit_run_end(b, i) == i + digits.len(),
    decreases digits.len(),
{
    if digits.len() == 0 {
    } else {
        assert(b[i] == digits[0]);
        assert(b.subrange(i + 1, i + digits.len()) =~= digits.drop_first());
        lemma_digit_run_at(b, i + 1, digits.drop_first());
    }
}

/// The decimal digits of `n` laid down at `i` parse back to `n`.
proof fn lemma_parse_number_at(b: Seq<u8>, i: int, n: int)
    requires
        n >= 0,
        0 <= i,
        i + dec_digits_of(n).len() <= b.len(),
        b.subrange(i, i + dec_digits_of(n).len()) == dec_digits_of(n),
        i + dec_digits_of(n).len() == b.len() || !is_digit(b[i + dec_digits_of(n).len()]),
    ensures
        spec_parse_number(b, i) == Some((n, i + dec_digits_of(n).len())),
{
    lemma_dec_digits_are_digits(n);
    lemma_digit_run_at(b, i, dec_digits_of(n));
    lemma_digits_value_of_dec(n);
}

/// The items of a non-empty byte array laid down at `i`, closed by a
/// bracket, parse back to the array.
proof fn lemma_parse_items_at(b: Seq<u8>, i: int, bs: Seq<u8>, acc: Seq<u8>)
    requires
        bs.len() >= 1,
        0 <= i,
        i + byte_items_of(bs).len() + 1 <= b.len(),
        b.subrange(i, i + byte_items_of(bs).len()) == byte_items_of(bs),
        b[i + byte_items_of(bs).len()] == 0x5d,
    ensures
        spec_parse_items(b, i, acc) == Some((acc + bs, i + byte_items_of(bs).len() + 1)),
    decreases bs.len(),
{
    let d0 = dec_digits_of(bs[0] as int);
    lemma_dec_digits_are_digits(bs[0] as int);
    if bs.len() == 1 {
        assert(byte_items_of(bs) == d0);
        assert(b.subrange(i, i + d0.len()) =~= d0);
        lemma_parse_number_at(b, i, bs[0] as int);
        assert(b[i + d0.len()] == 0x5d);
        assert(acc.push(bs[0]) =~= acc + bs);
    } else {
        let rest_items = byte_items_of(bs.drop_first());
        assert(byte_items_of(bs) == d0 + seq![0x2cu8] + rest_items);
        assert(b.subrange(i, i + d0.len()) =~= d0);
        assert(b[i + d0.len()] == byte_items_of(bs)[d0.len() as int]);
        assert(byte_items_of(bs)[d0.len() as int] == 0x2c);
        lemma_parse_number_at(b, i, bs[0] as int);
        let i_rest = i + d0.len() + 1;
        assert forall|k: int| 0 <= k < byte_items_of(bs).len() implies b[i + k] == byte_items_of(
            bs,
        )[k] by {
            assert(b.subrange(i, i + byte_items_of(bs).len())[k] == byte_items_of(bs)[k]);
        }
        assert forall|k: int|
            0 <= k < rest_items.len() implies b.subrange(i_rest, i_rest + rest_items.len())[k]
            == rest_items[k] by {
            assert(b[i + (d0.len() + 1 + k)] == byte_items_of(bs)[d0.len() + 1 + k]);
            assert((d0 + seq![0x2cu8] + rest_items)[d0.len() + 1 + k] == rest_items[k]);
        }
        assert(b.subrange(i_rest, i_rest + rest_items.len()) =~= rest_items);
        assert(b[i_rest + rest_items.len()] == 0x5d);
        lemma_parse_items_at(b, i_rest, bs.drop_first(), acc.push(bs[0]));
        assert(acc.push(bs[0]) + bs.drop_first() =~= acc + bs);
    }
}

/// A byte array laid down at `i` parses back to its values.
proof fn lemma_parse_byte_array_at(b: Seq<u8>, i: int, bs: Seq<u8>)
    requires
        0 <= i,
        i + byte_array_json_of(bs).len() <= b.len(),
        b.subrange(i, i + byte_array_json_of(bs).len()) == byte_array_json_of(bs),
    ensures
        spec_parse_byte_array(b, i) == Some((bs, i + byte_array_json_of(bs).len())),
{
    let arr = byte_array_json_of(bs);
    assert(b[i] == arr[0]);
    assert(arr[0] == 0x5b);
    if bs.len() == 0 {
        assert(arr =~= seq![0x5bu8, 0x5du8]);
        assert(b[i + 1] == 0x5d);
        assert(spec_parse_byte_array(b, i) == Some((Seq::<u8>::empty(), i + 2)));
        assert(Seq::<u8>::empty() =~= bs);
    } else {
        lemma_dec_digits_are_digits(bs[0] as int);
        let items = byte_items_of(bs);
        assert(b[i + 1] == arr[1]);
        assert(arr[1] == items[0]);
        assert(items[0] == dec_digits_of(bs[0] as int)[0]);
        assert(is_digit(b[i + 1]));
        assert(b[i + 1] != 0x5d);
        assert forall|k: int| 0 <= k < arr.len() implies b[i + k] == arr[k] by {
            assert(b.subrange(i, i + arr.len())[k] == arr[k]);
        }
        assert forall|k: int|
            0 <= k < items.len() implies b.subrange(i + 1, i + 1 + items.len())[k] == items[k] by {
            assert(b[i + (1 + k)] == arr[1 + k]);
            assert((seq![0x5bu8] + items + seq![0x5du8])[1 + k] == items[k]);
        }
        assert(b.subrange(i + 1, i + 1 + items.len()) =~= items);
        assert(b[i + 1 + items.len()] == arr[1 + items.len() as int]);
        assert(arr[1 + items.len() as int] == 0x5d);
        lemma_parse_items_at(b, i + 1, bs, Seq::empty());
        assert(Seq::<u8>::empty() + bs =~= bs);
    }
}

/// Parsing a serialized envelope recovers its four fields.
#[verifier::rlimit(100)]
pub proof fn lemma_codec_round_trip(
    timestamp: u64,
    encrypted_sender: Seq<u8>,
    encrypted_content: Seq<u8>,
    signature_bytes: Seq<u8>,
)
    ensures
        spec_parse_envelope(
            envelope_json_of(timestamp, encrypted_sender, encrypted_content, signature_bytes),
        ) == Some((timestamp, encrypted_sender, encrypted_content, signature_bytes)),
{
    let b = envelope_json_of(timestamp, encrypted_sender, encrypted_content, signature_bytes);
    let d = dec_digits_of(timestamp as int);
    let a1 = byte_array_json_of(encrypted_sender);
    let a2 = byte_array_json_of(encrypted_content);
    let a3 = byte_array_json_of(signature_bytes);
    let i1 = key_timestamp().len() as int;
    let i2 = i1 + d.len();
    let i3 = i2 + key_sender().len();
    let i4 = i3 + a1.len();
    let i5 = i4 + key_content().len();
    let i6 = i5 + a2.len();
    let i7 = i6 + key_signature().len();
    let i8 = i7 + a3.len();
    assert(b.len() == i8 + 1);
    assert(b.subrange(0, i1) =~= key_timestamp());
    assert(spec_skip(b, 0, key_timestamp()) == Some(i1));
    assert(b.subrange(i1, i2) =~= d);
    assert(b[i2] == key_sender()[0]);
    assert(key_sender()[0] == 0x2c);
    lemma_parse_number_at(b, i1, timestamp as int);
    assert(b.subrange(i2, i3) =~= key_sender());
    assert(spec_skip(b, i2, key_sender()) == Some(i3));
    assert(b.subrange(i3, i4) =~= a1);
    lemma_parse_byte_array_at(b, i3, encrypted_sender);
    assert(b.subrange(i4, i5) =~= key_content());
    assert(spec_skip(b, i4, key_content()) == Some(i5));
    assert(b.subrange(i5, i6) =~= a2);
    lemma_parse_byte_array_at(b, i5, encrypted_content);
    assert(b.subrange(i6, i7) =~= key_signature());
    assert(spec_skip(b, i6, key_signature()) == Some(i7));
    assert(b.subrange(i7, i8) =~= a3);
    lemma_parse_byte_array_at(b, i7, signature_bytes);
    assert(b[i8] == 0x7d);
}

} // verus!
