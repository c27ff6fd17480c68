//! Codecs for the fixed-layout record fields and for the wire protocol:
//! fixed-width zero-padded string fields, and little-endian hex strings.

use vstd::prelude::*;

verus! {

use vstd::utf8::{decode_utf8, encode_utf8, valid_utf8};

broadcast use vstd::array::axiom_spec_array_fill_for_copy_type;

/// The bytes of a fixed-width field: the input truncated or right-padded
/// with zero bytes to exactly `width` bytes.
pub open spec fn pad_bytes(bytes: Seq<u8>, width: nat) -> Seq<u8> {
    Seq::new(width, |i: int| if i < bytes.len() { bytes[i] } else { 0u8 })
}

/// The input with every trailing zero byte removed.
pub open spec fn strip_trailing_zeros(bytes: Seq<u8>) -> Seq<u8>
    decreases bytes.len(),
{
    if bytes.len() > 0 && bytes.last() == 0u8 {
        strip_trailing_zeros(bytes.drop_last())
    } else {
        bytes
    }
}

/// Encode a string as a fixed-width field: its UTF-8 bytes, truncated or
/// right-padded with zero bytes to exactly `L` bytes.
pub fn str_to_bytes_sized<const L: usize>(s: &str) -> (r: [u8; L])
    ensures
        r@ == pad_bytes(encode_utf8(s@), L as nat),
{
    let bytes = s.as_bytes();
    let mut r = [0u8; L];
    let n = if bytes.len() < L {
        bytes.len()
    } else {
        L
    };
    for i in 0..n
        invariant
            n <= L,
            n <= bytes@.len(),
            bytes@ == encode_utf8(s@),
            r@.len() == L,
            forall|j: int| 0 <= j < i ==> r@[j] == bytes@[j],
            forall|j: int| i <= j < L ==> r@[j] == 0u8,
    {
        r[i] = bytes[i];
    }
    assert(r@ =~= pad_bytes(encode_utf8(s@), L as nat));
    r
}

/// Relies on `String::from_utf8` of std: it returns `Ok` exactly when the
/// bytes are valid UTF-8, and then the string decoding those bytes.
#[verifier::external_body]
fn string_from_utf8(bytes: Vec<u8>) -> (r: Option<String>)
    ensures
        r is Some <==> valid_utf8(bytes@),
        r is Some ==> r->0@ == decode_utf8(bytes@),
{
    String::from_utf8(bytes).ok()
}

/// Decode a fixed-width field, stripping the zero-byte padding; `None` when
/// what remains is not valid UTF-8.
pub fn str_from_bytes_checked(bytes: &[u8]) -> (r: Option<String>)
    ensures
        r is Some <==> valid_utf8(strip_trailing_zeros(bytes@)),
        r is Some ==> r->0@ == decode_utf8(strip_trailing_zeros(bytes@)),
{
    let mut v: Vec<u8> = vstd::slice::slice_to_vec(bytes);
    while v.len() > 0 && v[v.len() - 1] == 0u8
        invariant
            strip_trailing_zeros(v@) == strip_trailing_zeros(bytes@),
        decreases v.len(),
    {
        v.pop();
    }
    proof {
        assert(strip_trailing_zeros(v@) == v@);
    }
    string_from_utf8(v)
}

/// Decode a fixed-width field, stripping the zero-byte padding.
pub fn str_from_bytes(bytes: &[u8]) -> (r: String)
    requires
        valid_utf8(strip_trailing_zeros(bytes@)),
    ensures
        r@ == decode_utf8(strip_trailing_zeros(bytes@)),
{
    str_from_bytes_checked(bytes).unwrap()
}

/// Whether the byte is the ASCII code of a hex digit (either case).
pub open spec fn is_hex_digit_byte(b: u8) -> bool {
    ||| '0' as u8 <= b <= '9' as u8
    ||| 'a' as u8 <= b <= 'f' as u8
    ||| 'A' as u8 <= b <= 'F' as u8
}

/// Whether the character is a hex digit (either case).
pub open spec fn is_hex_char(c: char) -> bool {
    c <= '\u{7f}' && is_hex_digit_byte(c as u8)
}

/// The numeric value of a hex digit given by its ASCII code.
pub open spec fn hex_digit_value(b: u8) -> u8 {
    if '0' as u8 <= b <= '9' as u8 {
        (b - '0' as u8) as u8
    } else if 'a' as u8 <= b <= 'f' as u8 {
        (b - 'a' as u8 + 10) as u8
    } else {
        (b - 'A' as u8 + 10) as u8
    }
}

/// The upper-case hex digit for a value below 16.
pub open spec fn hex_digit_char(v: u8) -> char {
    if v < 10 {
        (('0' as u8 + v) as u8) as char
    } else {
        (('A' as u8 + v - 10) as u8) as char
    }
}

/// A hex digit is an ASCII character.
pub proof fn lemma_hex_char_ascii(c: char)
    requires
        is_hex_char(c),
    ensures
        '\0' <= c <= '\u{7f}',
{
}

/// The code point of an upper-case hex digit, and its bound.
proof fn lemma_hex_digit_char_code(v: u8)
    requires
        v < 16,
    ensures
        (hex_digit_char(v) as u32) < 128,
        hex_digit_char(v) as u8 == if v < 10 {
            ('0' as u8 + v) as u8
        } else {
            ('A' as u8 + v - 10) as u8
        },
{
}

/// A well-formed hex string: even length, hex digits throughout.
pub open spec fn hex_str_valid(s: Seq<char>) -> bool {
    s.len() % 2 == 0 && (forall|i: int| 0 <= i < s.len() ==> is_hex_char(#[trigger] s[i]))
}

/// The bytes of a hex string read least-significant pair first: byte `j` of
/// the result comes from the pair that starts `2 * j` digits from the end.
pub open spec fn hex_decode_le(s: Seq<char>) -> Seq<u8> {
    Seq::new(
        (s.len() / 2) as nat,
        |j: int|
            (hex_digit_value(s[s.len() - 2 - 2 * j] as u8) * 16 + hex_digit_value(
                s[s.len() - 1 - 2 * j] as u8,
            )) as u8,
    )
}

/// The upper-case hex string of the bytes, last byte written first, so that
/// `hex_decode_le` reads it back.
pub open spec fn hex_encode_le(bytes: Seq<u8>) -> Seq<char> {
    Seq::new(
        2 * bytes.len(),
        |i: int|
            if i % 2 == 0 {
                hex_digit_char(bytes[bytes.len() - 1 - i / 2] / 16)
            } else {
                hex_digit_char(bytes[bytes.len() - 1 - i / 2] % 16)
            },
    )
}

/// An upper-case hex digit reads back as the value it encodes.
proof fn lemma_hex_digit_round_trip(v: u8)
    requires
        v < 16,
    ensures
        is_hex_char(hex_digit_char(v)),
        hex_digit_value(hex_digit_char(v) as u8) == v,
{
    lemma_hex_digit_char_code(v);
}

/// Hex round trip: encoding bytes and decoding the digits gives the bytes
/// back, and the encoding is always a well-formed hex string. Encoder and
/// decoder agree on one byte order, end to end.
pub proof fn lemma_hex_round_trip(bytes: Seq<u8>)
    ensures
        hex_str_valid(hex_encode_le(bytes)),
        hex_decode_le(hex_encode_le(bytes)) == bytes,
{
    let s = hex_encode_le(bytes);
    assert forall|i: int| 0 <= i < s.len() implies is_hex_char(#[trigger] s[i]) by {
        let b = bytes[bytes.len() - 1 - i / 2];
        lemma_hex_digit_round_trip(b / 16);
        lemma_hex_digit_round_trip(b % 16);
    }
    assert forall|j: int| 0 <= j < bytes.len() implies hex_decode_le(s)[j] == bytes[j] by {
        let b = bytes[j];
        let hi = s[s.len() - 2 - 2 * j];
        let lo = s[s.len() - 1 - 2 * j];
        assert(hi == hex_digit_char(b / 16));
        assert(lo == hex_digit_char(b % 16));
        lemma_hex_digit_round_trip(b / 16);
        lemma_hex_digit_round_trip(b % 16);
        assert(hex_digit_value(hi as u8) * 16 + hex_digit_value(lo as u8) == b);
    }
    assert(hex_decode_le(s) =~= bytes);
}

/// Padding dissolves under stripping as long as the field bytes themselves
/// do not end in a zero byte.
proof fn lemma_strip_pad(bytes: Seq<u8>, width: nat)
    requires
        bytes.len() <= width,
        bytes.len() > 0 ==> bytes.last() != 0u8,
    ensures
        strip_trailing_zeros(pad_bytes(bytes, width)) == bytes,
    decreases width,
{
    if width == bytes.len() {
        assert(pad_bytes(bytes, width) =~= bytes);
    } else {
        assert(pad_bytes(bytes, width).last() == 0u8);
        assert(pad_bytes(bytes, width).drop_last() =~= pad_bytes(bytes, (width - 1) as nat));
        lemma_strip_pad(bytes, (width - 1) as nat);
    }
}

/// String-field round trip: a name whose UTF-8 bytes fit the width and do
/// not end in a zero byte survives encoding into the fixed-width field and
/// decoding back, character for character.
pub proof fn lemma_str_field_round_trip(s: Seq<char>, width: nat)
    requires
        encode_utf8(s).len() <= width,
        encode_utf8(s).len() > 0 ==> encode_utf8(s).last() != 0u8,
    ensures
        strip_trailing_zeros(pad_bytes(encode_utf8(s), width)) == encode_utf8(s),
        valid_utf8(strip_trailing_zeros(pad_bytes(encode_utf8(s), width))),
        decode_utf8(strip_trailing_zeros(pad_bytes(encode_utf8(s), width))) == s,
{
    lemma_strip_pad(encode_utf8(s), width);
    vstd::utf8::encode_utf8_valid_utf8(s);
    vstd::utf8::encode_utf8_decode_utf8(s);
}

/// Test a wire parameter before decoding it: true exactly when the string is
/// even-length hex.
pub fn is_hex_string(s: &str) -> (r: bool)
    ensures
        r == hex_str_valid(s@),
{
    if !s.is_ascii() {
        proof {
            assert(!hex_str_valid(s@)) by {
                if hex_str_valid(s@) {
                    assert forall|i: int| 0 <= i < s@.len() implies '\0' <= #[trigger] s@[i]
                        <= '\u{7f}' by {
                        lemma_hex_char_ascii(s@[i]);
                    }
                }
            }
        }
        return false;
    }
    let n = s.unicode_len();
    if n % 2 != 0 {
        return false;
    }
    for i in 0..n
        invariant
            n == s@.len(),
            n % 2 == 0,
            s.is_ascii(),
            forall|j: int| 0 <= j < i ==> is_hex_char(#[trigger] s@[j]),
    {
        let b = s.get_ascii(i);
        if !(('0' as u8 <= b && b <= '9' as u8) || ('a' as u8 <= b && b <= 'f' as u8) || ('A'
            as u8 <= b && b <= 'F' as u8)) {
            return false;
        }
    }
    true
}

/// The numeric value of a hex digit, from its ASCII code.
fn hex_digit_value_exec(b: u8) -> (v: u8)
    requires
        is_hex_digit_byte(b),
    ensures
        v == hex_digit_value(b),
        v < 16,
{
    if b >= 'a' as u8 {
        b - 'a' as u8 + 10
    } else if b >= 'A' as u8 {
        b - 'A' as u8 + 10
    } else {
        b - '0' as u8
    }
}

/// Decode a hex string into bytes, least-significant pair first.
pub fn hex_to_bytes_vec(hex: &str) -> (r: Vec<u8>)
    requires
        hex_str_valid(hex@),
    ensures
        r@ == hex_decode_le(hex@),
{
    proof {
        assert forall|i: int| 0 <= i < hex@.len() implies '\0' <= #[trigger] hex@[i]
            <= '\u{7f}' by {
            lemma_hex_char_ascii(hex@[i]);
        }
    }
    let n = hex.unicode_len();
    let half = n / 2;
    let mut r: Vec<u8> = Vec::new();
    for j in 0..half
        invariant
            n == hex@.len(),
            n % 2 == 0,
            half == n / 2,
            hex.is_ascii(),
            hex_str_valid(hex@),
            r@ =~= hex_decode_le(hex@).take(j as int),
    {
        let hi = hex.get_ascii(n - 2 - 2 * j);
        let lo = hex.get_ascii(n - 1 - 2 * j);
        proof {
            assert(is_hex_char(hex@[n - 2 - 2 * j]));
            assert(is_hex_char(hex@[n - 1 - 2 * j]));
        }
        let b = hex_digit_value_exec(hi) * 16 + hex_digit_value_exec(lo);
        r.push(b);
        proof {
            assert(r@ =~= hex_decode_le(hex@).take(j + 1));
        }
    }
    proof {
        assert(hex_decode_le(hex@).take(half as int) =~= hex_decode_le(hex@));
    }
    r
}

/// Decode a hex string of exactly `2 * L` digits into a fixed-width field,
/// least-significant pair first.
pub fn hex_to_bytes<const L: usize>(hex: &str) -> (r: [u8; L])
    requires
        hex_str_valid(hex@),
        hex@.len() == 2 * L,
    ensures
        r@ == hex_decode_le(hex@),
{
    let v = hex_to_bytes_vec(hex);
    let mut r = [0u8; L];
    for i in 0..L
        invariant
            v@ == hex_decode_le(hex@),
            v@.len() == L,
            r@.len() == L,
            forall|j: int| 0 <= j < i ==> r@[j] == v@[j],
    {
        r[i] = v[i];
    }
    assert(r@ =~= hex_decode_le(hex@));
    r
}

/// Encode bytes as an upper-case hex string, last byte first, the inverse
/// direction of `hex_to_bytes_vec`.
pub fn hex_from_bytes(bytes: &[u8]) -> (r: String)
    ensures
        r@ == hex_encode_le(bytes@),
{
    let n = bytes.len();
    let mut v: Vec<u8> = Vec::new();
    for k in 0..n
        invariant
            n == bytes@.len(),
            v@.len() == 2 * k,
            forall|i: int|
                0 <= i < v@.len() ==> #[trigger] v@[i] == hex_encode_le(bytes@)[i] as u8 && (
                hex_encode_le(bytes@)[i] as u32) < 128,
    {
        let b = bytes[n - 1 - k];
        let hi = b / 16;
        let lo = b % 16;
        let hi_code = if hi < 10 {
            '0' as u8 + hi
        } else {
            'A' as u8 + hi - 10
        };
        let lo_code = if lo < 10 {
            '0' as u8 + lo
        } else {
            'A' as u8 + lo - 10
        };
        v.push(hi_code);
        v.push(lo_code);
        proof {
            lemma_hex_digit_char_code(b / 16);
            lemma_hex_digit_char_code(b % 16);
            assert(hex_encode_le(bytes@)[2 * k] == hex_digit_char(b / 16));
            assert(hex_encode_le(bytes@)[2 * k + 1] == hex_digit_char(b % 16));
        }
    }
    proof {
        lemma_ascii_codes_decode(v@, hex_encode_le(bytes@));
    }
    string_from_utf8(v).unwrap()
}

/// An ASCII character below code point 128 is within the ASCII char range.
proof fn lemma_ascii_char_bound(c: char)
    requires
        (c as u32) < 128,
    ensures
        '\0' <= c <= '\u{7f}',
        c as u8 == c as u32,
{
}

/// Bytes that spell an ASCII character sequence decode back to it.
proof fn lemma_ascii_codes_decode(bytes: Seq<u8>, chars: Seq<char>)
    requires
        bytes.len() == chars.len(),
        forall|i: int|
            0 <= i < bytes.len() ==> #[trigger] bytes[i] == chars[i] as u8 && (chars[i] as u32)
                < 128,
    ensures
        valid_utf8(bytes),
        decode_utf8(bytes) == chars,
{
    assert forall|i: int| 0 <= i < chars.len() implies '\0' <= #[trigger] chars[i]
        <= '\u{7f}' by {
        assert(bytes[i] == chars[i] as u8);
        lemma_ascii_char_bound(chars[i]);
    }
    assert(vstd::utf8::is_ascii_chars(chars));
    vstd::utf8::is_ascii_chars_encode_utf8(chars);
    assert(encode_utf8(chars) =~= bytes);
    vstd::utf8::encode_utf8_valid_utf8(chars);
    vstd::utf8::encode_utf8_decode_utf8(chars);
}

} // verus!
