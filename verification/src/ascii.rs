//! Verified byte-level helpers: lowercase hex encoding and decoding,
//! big-endian integer bytes, and building strings out of ASCII bytes.

use vstd::prelude::*;
use vstd::utf8::{
    decode_utf8, encode_utf8, encode_utf8_decode_utf8, encode_utf8_valid_utf8, is_ascii_chars,
    is_ascii_chars_encode_utf8, valid_utf8,
};

use crate::trusted::string_from_utf8;

verus! {

/// The ASCII code of the lowercase hex digit for a nibble.
pub open spec fn hex_digit_byte(n: u8) -> u8
    recommends
        n < 16,
{
    if n < 10 {
        (0x30 + n) as u8
    } else {
        (0x57 + n) as u8
    }
}

/// The ASCII bytes of the lowercase hex encoding of a byte sequence:
/// two digits per byte, high nibble first.
pub open spec fn hex_bytes_of(bytes: Seq<u8>) -> Seq<u8>
    decreases bytes.len(),
{
    if bytes.len() == 0 {
        Seq::empty()
    } else {
        seq![hex_digit_byte(bytes[0] / 16), hex_digit_byte(bytes[0] % 16)] + hex_bytes_of(
            bytes.drop_first(),
        )
    }
}

/// The lowercase hex encoding of a byte sequence, as characters.
pub open spec fn hex_of(bytes: Seq<u8>) -> Seq<char> {
    hex_bytes_of(bytes).map_values(|b: u8| b as char)
}

/// The big-endian 8-byte encoding of a 64-bit integer.
pub open spec fn u64_be_bytes(n: u64) -> Seq<u8> {
    seq![
        ((n >> 56) & 0xff) as u8,
        ((n >> 48) & 0xff) as u8,
        ((n >> 40) & 0xff) as u8,
        ((n >> 32) & 0xff) as u8,
        ((n >> 24) & 0xff) as u8,
        ((n >> 16) & 0xff) as u8,
        ((n >> 8) & 0xff) as u8,
        (n & 0xff) as u8,
    ]
}

/// Computes the big-endian 8-byte encoding of a 64-bit integer.
pub fn u64_to_be_bytes(n: u64) -> (r: Vec<u8>)
    ensures
        r@ == u64_be_bytes(n),
{
    let mut out: Vec<u8> = Vec::new();
    out.push(((n >> 56) & 0xff) as u8);
    out.push(((n >> 48) & 0xff) as u8);
    out.push(((n >> 40) & 0xff) as u8);
    out.push(((n >> 32) & 0xff) as u8);
    out.push(((n >> 24) & 0xff) as u8);
    out.push(((n >> 16) & 0xff) as u8);
    out.push(((n >> 8) & 0xff) as u8);
    out.push((n & 0xff) as u8);
    proof {
        assert(out@ =~= u64_be_bytes(n));
    }
    out
}

/// Every hex-encoding byte is a printable ASCII character.
pub proof fn lemma_hex_bytes_ascii(bytes: Seq<u8>)
    ensures
        hex_bytes_of(bytes).len() == 2 * bytes.len(),
        forall|i: int|
            0 <= i < hex_bytes_of(bytes).len() ==> #[trigger] hex_bytes_of(bytes)[i] < 128,
    decreases bytes.len(),
{
    if bytes.len() > 0 {
        lemma_hex_bytes_ascii(bytes.drop_first());
    }
}

/// Appends the hex encoding of `bytes` to a byte vector.
fn push_hex_bytes(out: &mut Vec<u8>, bytes: &[u8])
    ensures
        final(out)@ == old(out)@ + hex_bytes_of(bytes@),
{
    let ghost orig = out@;
    let mut i: usize = 0;
    while i < bytes.len()
        invariant
            i <= bytes@.len(),
            out@ == orig + hex_bytes_of(bytes@.take(i as int)),
        decreases bytes@.len() - i,
    {
        let b = bytes[i];
        out.push(if b / 16 < 10 {
            0x30 + b / 16
        } else {
            0x57 + b / 16
        });
        out.push(if b % 16 < 10 {
            0x30 + b % 16
        } else {
            0x57 + b % 16
        });
        proof {
            lemma_hex_bytes_step(bytes@, i as int);
        }
        i = i + 1;
    }
    proof {
        assert(bytes@.take(bytes@.len() as int) =~= bytes@);
    }
}

/// Unfolds one step of `hex_bytes_of` over a prefix.
proof fn lemma_hex_bytes_step(bytes: Seq<u8>, i: int)
    requires
        0 <= i < bytes.len(),
    ensures
        hex_bytes_of(bytes.take(i + 1)) == hex_bytes_of(bytes.take(i)) + seq![
            hex_digit_byte(bytes[i] / 16),
            hex_digit_byte(bytes[i] % 16),
        ],
    decreases i,
{
    if i == 0 {
        assert(bytes.take(1).drop_first() =~= Seq::<u8>::empty());
        assert(hex_bytes_of(bytes.take(1)) =~= hex_bytes_of(bytes.take(0)) + seq![
            hex_digit_byte(bytes[0] / 16),
            hex_digit_byte(bytes[0] % 16),
        ]);
    } else {
        lemma_hex_bytes_step(bytes.drop_first(), i - 1);
        assert(bytes.take(i + 1).drop_first() =~= bytes.drop_first().take(i));
        assert(bytes.take(i).drop_first() =~= bytes.drop_first().take(i - 1));
        assert(hex_bytes_of(bytes.take(i + 1)) == seq![
            hex_digit_byte(bytes[0] / 16),
            hex_digit_byte(bytes[0] % 16),
        ] + hex_bytes_of(bytes.drop_first().take(i)));
        assert(hex_bytes_of(bytes.take(i)) == seq![
            hex_digit_byte(bytes[0] / 16),
            hex_digit_byte(bytes[0] % 16),
        ] + hex_bytes_of(bytes.drop_first().take(i - 1)));
        assert(hex_bytes_of(bytes.take(i + 1)) =~= hex_bytes_of(bytes.take(i)) + seq![
            hex_digit_byte(bytes[i] / 16),
            hex_digit_byte(bytes[i] % 16),
        ]);
    }
}

/// A byte sequence of ASCII codes is what UTF-8 encoding the
/// corresponding characters yields.
pub proof fn lemma_ascii_encode(bytes: Seq<u8>)
    requires
        forall|i: int| 0 <= i < bytes.len() ==> #[trigger] bytes[i] < 128,
    ensures
        encode_utf8(bytes.map_values(|b: u8| b as char)) == bytes,
{
    let chars = bytes.map_values(|b: u8| b as char);
    assert(is_ascii_chars(chars)) by {
        assert forall|i| 0 <= i < chars.len() implies '\0' <= #[trigger] chars[i] <= '\u{7f}' by {
            assert(bytes[i] < 128);
        }
    }
    is_ascii_chars_encode_utf8(chars);
    assert(encode_utf8(chars) =~= bytes);
}

/// A byte sequence of ASCII codes decodes, as UTF-8, to the sequence of
/// the corresponding characters.
pub proof fn lemma_ascii_decode(bytes: Seq<u8>)
    requires
        forall|i: int| 0 <= i < bytes.len() ==> #[trigger] bytes[i] < 128,
    ensures
        valid_utf8(bytes),
        decode_utf8(bytes) == bytes.map_values(|b: u8| b as char),
{
    let chars = bytes.map_values(|b: u8| b as char);
    lemma_ascii_encode(bytes);
    encode_utf8_valid_utf8(chars);
    encode_utf8_decode_utf8(chars);
}

/// Appends a byte slice to a byte vector.
pub fn push_bytes(out: &mut Vec<u8>, bytes: &[u8])
    ensures
        final(out)@ == old(out)@ + bytes@,
{
    let ghost orig = out@;
    let mut i: usize = 0;
    while i < bytes.len()
        invariant
            i <= bytes@.len(),
            out@ == orig + bytes@.take(i as int),
        decreases bytes@.len() - i,
    {
        out.push(bytes[i]);
        proof {
            assert(orig + bytes@.take(i + 1) =~= (orig + bytes@.take(i as int)).push(
                bytes@[i as int],
            ));
        }
        i = i + 1;
    }
    proof {
        assert(bytes@.take(bytes@.len() as int) =~= bytes@);
    }
}

/// Builds a `String` out of ASCII bytes.
pub(crate) fn ascii_to_string(bytes: Vec<u8>) -> (r: String)
    requires
        forall|i: int| 0 <= i < bytes@.len() ==> #[trigger] bytes@[i] < 128,
    ensures
        r@ == bytes@.map_values(|b: u8| b as char),
{
    proof {
        lemma_ascii_decode(bytes@);
    }
    let ghost view = bytes@;
    match string_from_utf8(bytes) {
        Some(s) => s,
        None => {
            proof {
                assert(false);
            }
            String::new()
        },
    }
}

/// Computes the lowercase hex encoding of a byte slice.
pub fn hex_encode(bytes: &[u8]) -> (r: String)
    ensures
        r@ == hex_of(bytes@),
        r@.len() == 2 * bytes@.len(),
{
    let mut out: Vec<u8> = Vec::new();
    push_hex_bytes(&mut out, bytes);
    proof {
        lemma_hex_bytes_ascii(bytes@);
        assert(out@ =~= hex_bytes_of(bytes@));
    }
    ascii_to_string(out)
}

} // verus!

