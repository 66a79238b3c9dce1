//! Bytes and texts: hexadecimal digits, percent encoding, UTF-8, and the encoded values of
//! transfer headers.
use crate::error;
use crate::error::{ErrorKind, TransferError};
use crate::text;
use base64::engine::general_purpose::URL_SAFE_NO_PAD;
use base64::Engine;
use vstd::prelude::*;
use vstd::utf8::*;

verus! {

broadcast use {encode_utf8_decode_utf8, encode_utf8_valid_utf8};

// ---------------------------------------------------------------------------------------------
// Hexadecimal digits

/// The lower-case hexadecimal digit of a number below sixteen.
pub open spec fn hex_char(d: int) -> char {
    if d < 10 {
        ((48 + d) as u8) as char
    } else {
        ((87 + d) as u8) as char
    }
}

/// Two lower-case hexadecimal digits for each byte.
pub open spec fn hex_text(bytes: Seq<u8>) -> Seq<char> {
    Seq::new(
        bytes.len() * 2,
        |i: int|
            if i % 2 == 0 {
                hex_char(bytes[i / 2] as int / 16)
            } else {
                hex_char(bytes[i / 2] as int % 16)
            },
    )
}

fn hex_char_of(d: u8) -> (r: char)
    requires
        d < 16,
    ensures
        r == hex_char(d as int),
{
    if d < 10 {
        (48u8 + d) as char
    } else {
        (87u8 + d) as char
    }
}

/// Writes bytes as lower-case hexadecimal digits.
pub fn bytes_to_hex(bytes: &[u8]) -> (r: String)
    ensures
        r@ == hex_text(bytes@),
{
    let mut output = String::new();
    let mut i: usize = 0;
    while i < bytes.len()
        invariant
            i <= bytes@.len(),
            output@ == hex_text(bytes@.take(i as int)),
        decreases bytes@.len() - i,
    {
        let byte: u8 = bytes[i];
        output.push(hex_char_of(byte / 16));
        output.push(hex_char_of(byte % 16));
        assert(output@ =~= hex_text(bytes@.take(i + 1)));
        i += 1;
    }
    assert(bytes@.take(i as int) =~= bytes@);
    output
}

/// The value of a hexadecimal digit of either case.
pub open spec fn hex_digit_value(byte: u8) -> Option<u8> {
    if 48 <= byte <= 57 {
        Some((byte - 48) as u8)
    } else if 97 <= byte <= 102 {
        Some((byte - 87) as u8)
    } else if 65 <= byte <= 70 {
        Some((byte - 55) as u8)
    } else {
        None
    }
}

pub fn hex_value(byte: u8) -> (r: Option<u8>)
    ensures
        r == hex_digit_value(byte),
{
    if 48 <= byte && byte <= 57 {
        Some(byte - 48)
    } else if 97 <= byte && byte <= 102 {
        Some(byte - 87)
    } else if 65 <= byte && byte <= 70 {
        Some(byte - 55)
    } else {
        None
    }
}

/// Every character of a hexadecimal text is a digit or one of the letters a to f.
pub proof fn lemma_hex_text_chars(bytes: Seq<u8>)
    ensures
        hex_text(bytes).len() == bytes.len() * 2,
        forall|i: int|
            0 <= i < hex_text(bytes).len() ==> (text::is_digit(#[trigger] hex_text(bytes)[i]) || 'a'
                <= hex_text(bytes)[i] && hex_text(bytes)[i] <= 'f'),
{
    assert forall|i: int| 0 <= i < hex_text(bytes).len() implies (text::is_digit(
        #[trigger] hex_text(bytes)[i],
    ) || 'a' <= hex_text(bytes)[i] && hex_text(bytes)[i] <= 'f') by {
        let byte = bytes[i / 2];
        assert(0 <= byte as int / 16 < 16);
        assert(0 <= byte as int % 16 < 16);
    }
}

/// The digits of a byte give the byte back.
pub proof fn law_hex_digits_are_read_back(byte: u8)
    ensures
        hex_digit_value(hex_char(byte as int / 16) as u8) == Some((byte / 16) as u8),
        hex_digit_value(hex_char(byte as int % 16) as u8) == Some((byte % 16) as u8),
{
}

/// Different bytes have different hexadecimal texts.
pub proof fn law_hex_text_is_injective(a: Seq<u8>, b: Seq<u8>)
    requires
        hex_text(a) == hex_text(b),
    ensures
        a == b,
{
    assert(a.len() * 2 == hex_text(a).len());
    assert(b.len() * 2 == hex_text(b).len());
    assert forall|i: int| 0 <= i < a.len() implies #[trigger] a[i] == b[i] by {
        let high = 2 * i;
        let low = 2 * i + 1;
        assert(hex_text(a)[high] == hex_text(b)[high]);
        assert(hex_text(a)[low] == hex_text(b)[low]);
        assert(high / 2 == i && high % 2 == 0 && low / 2 == i && low % 2 == 1);
        law_hex_digits_are_read_back(a[i]);
        law_hex_digits_are_read_back(b[i]);
        assert(hex_text(a)[high] == hex_char(a[i] as int / 16));
        assert(hex_text(b)[high] == hex_char(b[i] as int / 16));
        assert(hex_text(a)[low] == hex_char(a[i] as int % 16));
        assert(hex_text(b)[low] == hex_char(b[i] as int % 16));
        assert(a[i] == (a[i] / 16) * 16 + a[i] % 16);
        assert(b[i] == (b[i] / 16) * 16 + b[i] % 16);
    }
    assert(a =~= b);
}

/// Compares byte strings in a time that depends on their lengths alone.
pub fn constant_time_eq(left: &[u8], right: &[u8]) -> (r: bool)
    ensures
        r == (left@ == right@),
{
    if left.len() != right.len() {
        return false;
    }
    let mut difference: u8 = 0;
    let mut i: usize = 0;
    assert(left@.take(0) =~= right@.take(0));
    while i < left.len()
        invariant
            i <= left@.len(),
            left@.len() == right@.len(),
            (difference == 0) == (left@.take(i as int) == right@.take(i as int)),
        decreases left@.len() - i,
    {
        let a: u8 = left[i];
        let b: u8 = right[i];
        let before: u8 = difference;
        difference = before | (a ^ b);
        proof {
            assert((before | (a ^ b) == 0) == (before == 0 && a == b)) by (bit_vector);
            assert(left@.take(i + 1) =~= left@.take(i as int).push(a));
            assert(right@.take(i + 1) =~= right@.take(i as int).push(b));
            if left@.take(i + 1) == right@.take(i + 1) {
                assert(left@.take(i + 1)[i as int] == right@.take(i + 1)[i as int]);
                assert(left@.take(i as int) =~= left@.take(i + 1).take(i as int));
                assert(right@.take(i as int) =~= right@.take(i + 1).take(i as int));
            }
        }
        i += 1;
    }
    proof {
        assert(left@.take(i as int) =~= left@);
        assert(right@.take(i as int) =~= right@);
    }
    difference == 0
}

// ---------------------------------------------------------------------------------------------
// UTF-8

/// Why bytes are the UTF-8 form of no text, in the words of the standard library.
pub uninterp spec fn utf8_problem(bytes: Seq<u8>) -> Seq<char>;

/// `String::from_utf8` gives the text whose UTF-8 form the bytes are, and fails exactly on bytes
/// that are the UTF-8 form of no text. The words of its error are named `utf8_problem`.
#[verifier::external_body]
pub(crate) fn utf8_text(bytes: Vec<u8>) -> (r: Result<String, String>)
    ensures
        match r {
            Ok(text) => valid_utf8(bytes@) && text@ == decode_utf8(bytes@),
            Err(words) => !valid_utf8(bytes@) && words@ == utf8_problem(bytes@),
        },
{
    String::from_utf8(bytes).map_err(|error| error.to_string())
}

/// Appends bytes.
pub fn push_bytes(out: &mut Vec<u8>, more: &[u8])
    ensures
        final(out)@ == old(out)@ + more@,
{
    let mut i: usize = 0;
    let ghost before = out@;
    while i < more.len()
        invariant
            i <= more@.len(),
            out@ == before + more@.take(i as int),
        decreases more@.len() - i,
    {
        out.push(more[i]);
        assert(before + more@.take(i + 1) =~= (before + more@.take(i as int)).push(
            more@[i as int],
        ));
        i += 1;
    }
    assert(more@.take(i as int) =~= more@);
}

/// The number of bytes of a text.
pub fn byte_length(text: &str) -> (r: usize)
    ensures
        r == encode_utf8(text@).len(),
{
    text.as_bytes().len()
}

/// The text of bytes that must be UTF-8; where they are not, an error of the given kind.
pub fn text_from_bytes(bytes: Vec<u8>, kind: ErrorKind) -> (r: Result<String, TransferError>)
    ensures
        match r {
            Ok(text) => valid_utf8(bytes@) && text@ == decode_utf8(bytes@),
            Err(error) => !valid_utf8(bytes@) && error@ == error::fault_about(
                kind,
                utf8_problem(bytes@),
            ),
        },
{
    match utf8_text(bytes) {
        Ok(text) => Ok(text),
        Err(words) => Err(TransferError::about(kind, words)),
    }
}

// ---------------------------------------------------------------------------------------------
// Percent encoding

/// Puts bytes in front of a decoded rest, if there is one.
pub open spec fn prepend(front: Seq<u8>, rest: Option<Seq<u8>>) -> Option<Seq<u8>> {
    match rest {
        Some(bytes) => Some(front + bytes),
        None => None,
    }
}

/// The bytes that a percent-encoded text stands for: `%` and two hexadecimal digits stand for one
/// byte, any other byte for itself; `None` where a `%` is not followed by two digits.
pub open spec fn percent_bytes(s: Seq<u8>) -> Option<Seq<u8>>
    decreases s.len(),
{
    if s.len() == 0 {
        Some(seq![])
    } else if s[0] != 37 {
        prepend(seq![s[0]], percent_bytes(s.skip(1)))
    } else if s.len() < 3 || hex_digit_value(s[1]) is None || hex_digit_value(s[2]) is None {
        None
    } else {
        let byte = (hex_digit_value(s[1])->0 * 16 + hex_digit_value(s[2])->0) as u8;
        prepend(seq![byte], percent_bytes(s.skip(3)))
    }
}

/// The text that a percent-encoded text stands for.
pub open spec fn percent_text(value: Seq<char>) -> Result<Seq<char>, error::Fault> {
    match percent_bytes(encode_utf8(value)) {
        Some(bytes) => if valid_utf8(bytes) {
            Ok(decode_utf8(bytes))
        } else {
            Err(error::fault_about(ErrorKind::UrlNotUtf8, utf8_problem(bytes)))
        },
        None => Err(error::fault(ErrorKind::InvalidPercentEncoding)),
    }
}

/// Decodes a percent-encoded text.
pub fn percent_decode(value: &str) -> (r: Result<String, TransferError>)
    ensures
        error::text_result(r) == percent_text(value@),
{
    let bytes: &[u8] = value.as_bytes();
    let mut decoded: Vec<u8> = Vec::new();
    let mut index: usize = 0;
    proof {
        assert(bytes@.skip(0) =~= bytes@);
        assert(prepend(seq![], percent_bytes(bytes@)) =~= percent_bytes(bytes@)) by {
            match percent_bytes(bytes@) {
                Some(rest) => {
                    assert(seq![] + rest =~= rest);
                },
                None => {},
            }
        }
    }
    while index < bytes.len()
        invariant
            index <= bytes@.len(),
            bytes@ == encode_utf8(value@),
            percent_bytes(bytes@) == prepend(decoded@, percent_bytes(bytes@.skip(index as int))),
        decreases bytes@.len() - index,
    {
        let ghost rest = bytes@.skip(index as int);
        let ghost before = decoded@;
        let left: usize = bytes.len() - index;
        if bytes[index] == 37 {
            if left < 3 {
                return Err(TransferError::new(ErrorKind::InvalidPercentEncoding));
            }
            let high: u8 = match hex_value(bytes[index + 1]) {
                Some(value) => value,
                None => return Err(TransferError::new(ErrorKind::InvalidPercentEncoding)),
            };
            let low: u8 = match hex_value(bytes[index + 2]) {
                Some(value) => value,
                None => return Err(TransferError::new(ErrorKind::InvalidPercentEncoding)),
            };
            let byte: u8 = high * 16 + low;
            decoded.push(byte);
            proof {
                assert(rest.skip(3) =~= bytes@.skip(index + 3));
                lemma_prepend_step(before, byte, percent_bytes(rest.skip(3)));
            }
            index += 3;
        } else {
            let byte: u8 = bytes[index];
            decoded.push(byte);
            proof {
                assert(rest.skip(1) =~= bytes@.skip(index + 1));
                lemma_prepend_step(before, byte, percent_bytes(rest.skip(1)));
            }
            index += 1;
        }
    }
    proof {
        assert(decoded@ + Seq::<u8>::empty() =~= decoded@);
        assert(bytes@.skip(index as int) =~= Seq::<u8>::empty());
    }
    text_from_bytes(decoded, ErrorKind::UrlNotUtf8)
}

proof fn lemma_prepend_step(front: Seq<u8>, byte: u8, rest: Option<Seq<u8>>)
    ensures
        prepend(front, prepend(seq![byte], rest)) == prepend(front.push(byte), rest),
{
    match rest {
        Some(bytes) => {
            assert(front + (seq![byte] + bytes) =~= front.push(byte) + bytes);
        },
        None => {},
    }
}

proof fn lemma_percent_plain(s: Seq<u8>)
    requires
        !s.contains(37),
    ensures
        percent_bytes(s) == Some(s),
    decreases s.len(),
{
    if s.len() > 0 {
        assert(s.contains(s[0]));
        assert forall|i: int| 0 <= i < s.skip(1).len() implies s.skip(1)[i] != 37 by {
            assert(s.contains(s[i + 1]));
        }
        lemma_percent_plain(s.skip(1));
        assert(seq![s[0]] + s.skip(1) =~= s);
    } else {
        assert(s =~= seq![]);
    }
}

/// Only the character `%` has the byte of `%` in its encoding.
proof fn lemma_percent_byte(c: char)
    requires
        c != '%',
    ensures
        !encode_scalar(c as u32).contains(37),
{
    let v = c as u32;
    if has_width_1_encoding(v) {
        assert((v & 0x7F) as u8 != 37u8) by (bit_vector)
            requires
                v <= 0x7F,
                v != 37,
        ;
    }
    assert(0xC0u8 | ((v >> 6) & 0x1F) as u8 >= 0x80u8) by (bit_vector);
    assert(0xE0u8 | ((v >> 12) & 0x0F) as u8 >= 0x80u8) by (bit_vector);
    assert(0xF0u8 | ((v >> 18) & 0x7) as u8 >= 0x80u8) by (bit_vector);
    assert(0x80u8 | (v & 0x3F) as u8 >= 0x80u8) by (bit_vector);
    assert(0x80u8 | ((v >> 6) & 0x3F) as u8 >= 0x80u8) by (bit_vector);
    assert(0x80u8 | ((v >> 12) & 0x3F) as u8 >= 0x80u8) by (bit_vector);
}

proof fn lemma_plain_bytes(value: Seq<char>)
    requires
        !value.contains('%'),
    ensures
        !encode_utf8(value).contains(37),
    decreases value.len(),
{
    if value.len() > 0 {
        assert(value.contains(value[0]));
        lemma_percent_byte(value[0]);
        let rest = value.drop_first();
        assert forall|c: char| rest.contains(c) implies value.contains(c) by {
            let i = choose|i: int| 0 <= i < rest.len() && rest[i] == c;
            assert(value[i + 1] == c);
        }
        lemma_plain_bytes(rest);
        let first = encode_scalar(value[0] as u32);
        let more = encode_utf8(rest);
        assert forall|i: int| 0 <= i < (first + more).len() implies #[trigger] (first + more)[i]
            != 37 by {
            if i < first.len() {
                assert(first.contains(first[i]));
            } else {
                assert(more.contains(more[i - first.len()]));
            }
        }
    }
}

/// A text without `%` stands for itself.
pub proof fn law_plain_text_needs_no_decoding(value: Seq<char>)
    requires
        !value.contains('%'),
    ensures
        percent_text(value) == Ok::<Seq<char>, error::Fault>(value),
{
    lemma_plain_bytes(value);
    lemma_percent_plain(encode_utf8(value));
}

// ---------------------------------------------------------------------------------------------
// Header values

/// The length of the unpadded base64 text of that many bytes.
pub open spec fn base64_length(n: nat) -> nat {
    n / 3 * 4 + if n % 3 == 0 {
        0nat
    } else {
        n % 3 + 1
    }
}

/// A character of the URL-safe base64 alphabet.
pub open spec fn is_base64url_char(c: char) -> bool {
    text::is_ascii_alphanumeric(c) || c == '-' || c == '_'
}

/// The character for six bits: capital letters, small letters, digits, `-` and `_`.
pub open spec fn base64url_char(bits: int) -> char {
    if bits < 26 {
        ((65 + bits) as u8) as char
    } else if bits < 52 {
        ((71 + bits) as u8) as char
    } else if bits < 62 {
        ((bits - 4) as u8) as char
    } else if bits == 62 {
        '-'
    } else {
        '_'
    }
}

/// The bits of some bytes from the bit `6 * k` on, six of them: they lie in two bytes, of which the
/// second may be missing.
pub open spec fn six_bits(bytes: Seq<u8>, k: int) -> int {
    let first = k * 3 / 4;
    let second: int = if first + 1 < bytes.len() {
        bytes[first + 1] as int
    } else {
        0
    };
    let both = bytes[first] as int * 256 + second;
    if k % 4 == 0 {
        both / 1024
    } else if k % 4 == 1 {
        both / 16 % 64
    } else if k % 4 == 2 {
        both / 64 % 64
    } else {
        both / 256 % 64
    }
}

/// The unpadded URL-safe base64 text of some bytes: a character for every six bits.
pub open spec fn base64url(bytes: Seq<u8>) -> Seq<char> {
    Seq::new(base64_length(bytes.len()), |k: int| base64url_char(six_bits(bytes, k)))
}

/// The bytes that an unpadded URL-safe base64 text stands for, if it stands for any.
pub open spec fn base64url_bytes(text: Seq<char>) -> Option<Seq<u8>> {
    if exists|bytes: Seq<u8>| #[trigger] base64url(bytes) == text {
        Some(choose|bytes: Seq<u8>| #[trigger] base64url(bytes) == text)
    } else {
        None
    }
}

/// Why a text is not the unpadded URL-safe base64 text of any bytes, in the words of `base64`.
pub uninterp spec fn base64url_problem(text: Seq<char>) -> Seq<char>;

/// `Engine::encode` of the engine `URL_SAFE_NO_PAD` writes a character for every six bits. It panics
/// where the text would be longer than memory allows.
#[verifier::external_body]
fn base64_encode(bytes: &[u8]) -> (text: String)
    requires
        base64_length(bytes@.len()) <= isize::MAX,
    ensures
        text@ == base64url(bytes@),
{
    URL_SAFE_NO_PAD.encode(bytes)
}

/// `Engine::decode` of the engine `URL_SAFE_NO_PAD` reads exactly what the engine writes: it refuses
/// other characters, padding, a single character behind the last four, and bits that are left over
/// and not zero. The words of its error are named `base64url_problem`.
#[verifier::external_body]
fn base64_decode(text: &str) -> (r: Result<Vec<u8>, String>)
    ensures
        match r {
            Ok(bytes) => base64url(bytes@) == text@,
            Err(words) => words@ == base64url_problem(text@) && forall|bytes: Seq<u8>| #[trigger]
                base64url(bytes) != text@,
        },
{
    URL_SAFE_NO_PAD.decode(text).map_err(|error| error.to_string())
}

/// Base64 uses its alphabet.
proof fn lemma_base64url_chars(bytes: Seq<u8>)
    ensures
        forall|k: int|
            0 <= k < base64url(bytes).len() ==> is_base64url_char(#[trigger] base64url(bytes)[k]),
{
    assert forall|k: int| 0 <= k < base64url(bytes).len() implies is_base64url_char(
        #[trigger] base64url(bytes)[k],
    ) by {
        lemma_six_bits(bytes, k);
    }
}

proof fn lemma_six_bits(bytes: Seq<u8>, k: int)
    requires
        0 <= k < base64_length(bytes.len()),
    ensures
        0 <= six_bits(bytes, k) < 64,
{
}

/// Different bits have different characters.
proof fn lemma_base64url_char_is_injective(a: int, b: int)
    requires
        0 <= a < 64,
        0 <= b < 64,
        base64url_char(a) == base64url_char(b),
    ensures
        a == b,
{
}

/// How the bits of two bytes lie in their sum.
proof fn lemma_two_bytes(first: int, second: int)
    requires
        0 <= first < 256,
        0 <= second < 256,
    ensures
        (first * 256 + second) / 1024 == first / 4,
        (first * 256 + second) / 16 % 64 == first % 4 * 16 + second / 16,
        (first * 256 + second) / 64 % 64 == first % 16 * 4 + second / 64,
        (first * 256 + second) / 256 % 64 == first % 64,
{
    let both = first * 256 + second;
    assert(first == first / 4 * 4 + first % 4);
    assert(first == first / 16 * 16 + first % 16);
    assert(second == second / 16 * 16 + second % 16);
    assert(second == second / 64 * 64 + second % 64);
    vstd::arithmetic::div_mod::lemma_fundamental_div_mod_converse(both, 1024, first / 4, first % 4 * 256 + second);
    vstd::arithmetic::div_mod::lemma_fundamental_div_mod_converse(both, 16, first * 16 + second / 16, second % 16);
    vstd::arithmetic::div_mod::lemma_fundamental_div_mod_converse(
        first * 16 + second / 16,
        64,
        first / 4,
        first % 4 * 16 + second / 16,
    );
    vstd::arithmetic::div_mod::lemma_fundamental_div_mod_converse(both, 64, first * 4 + second / 64, second % 64);
    vstd::arithmetic::div_mod::lemma_fundamental_div_mod_converse(
        first * 4 + second / 64,
        64,
        first / 16,
        first % 16 * 4 + second / 64,
    );
    vstd::arithmetic::div_mod::lemma_fundamental_div_mod_converse(both, 256, first, second);
}

/// The bits of the four characters for a group of up to three bytes.
proof fn lemma_six_bits_of_group(bytes: Seq<u8>, q: int)
    requires
        0 <= q,
        q * 3 < bytes.len(),
    ensures
        ({
            let first = bytes[q * 3] as int;
            let second: int = if q * 3 + 1 < bytes.len() {
                bytes[q * 3 + 1] as int
            } else {
                0
            };
            let third: int = if q * 3 + 2 < bytes.len() {
                bytes[q * 3 + 2] as int
            } else {
                0
            };
            &&& six_bits(bytes, q * 4) == first / 4
            &&& six_bits(bytes, q * 4 + 1) == first % 4 * 16 + second / 16
            &&& q * 3 + 1 < bytes.len() ==> six_bits(bytes, q * 4 + 2) == second % 16 * 4 + third
                / 64
            &&& q * 3 + 2 < bytes.len() ==> six_bits(bytes, q * 4 + 3) == third % 64
        }),
{
    let first = bytes[q * 3] as int;
    let second: int = if q * 3 + 1 < bytes.len() {
        bytes[q * 3 + 1] as int
    } else {
        0
    };
    let third: int = if q * 3 + 2 < bytes.len() {
        bytes[q * 3 + 2] as int
    } else {
        0
    };
    let fourth: int = if q * 3 + 3 < bytes.len() {
        bytes[q * 3 + 3] as int
    } else {
        0
    };
    lemma_two_bytes(first, second);
    lemma_two_bytes(second, third);
    lemma_two_bytes(third, fourth);
    assert((q * 4) * 3 / 4 == q * 3 && (q * 4) % 4 == 0);
    assert((q * 4 + 1) * 3 / 4 == q * 3 && (q * 4 + 1) % 4 == 1);
    assert((q * 4 + 2) * 3 / 4 == q * 3 + 1 && (q * 4 + 2) % 4 == 2);
    assert((q * 4 + 3) * 3 / 4 == q * 3 + 2 && (q * 4 + 3) % 4 == 3);
}

/// Different bytes have different base64 texts.
pub proof fn law_base64_is_injective(a: Seq<u8>, b: Seq<u8>)
    requires
        base64url(a) == base64url(b),
    ensures
        a == b,
{
    assert(base64url(a).len() == base64_length(a.len()));
    assert(base64url(b).len() == base64_length(b.len()));
    assert(a.len() == b.len());
    assert forall|k: int| 0 <= k < base64_length(a.len()) implies six_bits(a, k) == #[trigger]
        six_bits(b, k) by {
        assert(base64url(a)[k] == base64url_char(six_bits(a, k)));
        assert(base64url(b)[k] == base64url_char(six_bits(b, k)));
        lemma_six_bits(a, k);
        lemma_six_bits(b, k);
        lemma_base64url_char_is_injective(six_bits(a, k), six_bits(b, k));
    }
    assert forall|j: int| 0 <= j < a.len() implies a[j] == b[j] by {
        let q = j / 3;
        lemma_six_bits_of_group(a, q);
        lemma_six_bits_of_group(b, q);
        assert(six_bits(a, q * 4) == six_bits(b, q * 4));
        assert(six_bits(a, q * 4 + 1) == six_bits(b, q * 4 + 1));
        if q * 3 + 1 < a.len() {
            assert(six_bits(a, q * 4 + 2) == six_bits(b, q * 4 + 2));
        }
        if q * 3 + 2 < a.len() {
            assert(six_bits(a, q * 4 + 3) == six_bits(b, q * 4 + 3));
        }
    }
    assert(a =~= b);
}

/// What base64 wrote is read back.
pub proof fn law_base64_is_read_back(bytes: Seq<u8>)
    ensures
        base64url_bytes(base64url(bytes)) == Some(bytes),
{
    let text = base64url(bytes);
    let read = choose|read: Seq<u8>| #[trigger] base64url(read) == text;
    law_base64_is_injective(read, bytes);
}

/// The longest encoded value that is read, in bytes.
pub const MAX_ENCODED_BYTES: usize = 1024;

/// The text that an encoded header value stands for: it must be one to 1024 bytes of unpadded
/// URL-safe base64 that stand for UTF-8.
pub open spec fn header_text(value: Seq<char>) -> Result<Seq<char>, error::Fault> {
    if value.len() == 0 || encode_utf8(value).len() > MAX_ENCODED_BYTES {
        Err(error::fault(ErrorKind::InvalidEncodedFilename))
    } else {
        match base64url_bytes(value) {
            Some(bytes) => if valid_utf8(bytes) {
                Ok(decode_utf8(bytes))
            } else {
                Err(error::fault_about(ErrorKind::UndecodableFilename, utf8_problem(bytes)))
            },
            None => Err(
                error::fault_about(ErrorKind::UndecodableFilename, base64url_problem(value)),
            ),
        }
    }
}

/// A text that is not empty, and whose encoding is short enough, is read back from it.
pub proof fn law_header_value_is_read_back(value: Seq<char>)
    requires
        value.len() > 0,
        base64_length(encode_utf8(value).len()) <= MAX_ENCODED_BYTES,
    ensures
        ({
            let encoded = base64url(encode_utf8(value));
            &&& 0 < encoded.len() <= MAX_ENCODED_BYTES
            &&& forall|i: int|
                0 <= i < encoded.len() ==> is_base64url_char(#[trigger] encoded[i])
            &&& header_text(encoded) == Ok::<Seq<char>, error::Fault>(value)
        }),
{
    let encoded = base64url(encode_utf8(value));
    lemma_base64url_chars(encode_utf8(value));
    law_base64_is_read_back(encode_utf8(value));
    assert(is_ascii_chars(encoded)) by {
        assert forall|i: int| 0 <= i < encoded.len() implies '\0' <= #[trigger] encoded[i]
            <= '\u{7f}' by {
            assert(is_base64url_char(encoded[i]));
        }
    }
    is_ascii_chars_encode_utf8(encoded);
    assert(encode_utf8(value).len() > 0) by {
        assert(decode_utf8(encode_utf8(value)) == value);
    }
}

/// Encodes a text for a header. A value that is short enough to be read stands for the text.
pub fn encode_header_value(value: &str) -> (r: String)
    requires
        base64_length(encode_utf8(value@).len()) <= isize::MAX,
    ensures
        r@ == base64url(encode_utf8(value@)),
        r@.len() == base64_length(encode_utf8(value@).len()),
        forall|i: int| 0 <= i < r@.len() ==> is_base64url_char(#[trigger] r@[i]),
        value@.len() > 0 && r@.len() <= MAX_ENCODED_BYTES ==> header_text(r@) == Ok::<
            Seq<char>,
            error::Fault,
        >(value@),
{
    let r = base64_encode(value.as_bytes());
    proof {
        lemma_base64url_chars(encode_utf8(value@));
        if value@.len() > 0 && r@.len() <= MAX_ENCODED_BYTES {
            law_header_value_is_read_back(value@);
        }
    }
    r
}

/// Decodes a header value.
pub fn decode_header_value(value: &str) -> (r: Result<String, TransferError>)
    ensures
        error::text_result(r) == header_text(value@),
{
    if value.is_empty() || byte_length(value) > MAX_ENCODED_BYTES {
        return Err(TransferError::new(ErrorKind::InvalidEncodedFilename));
    }
    match base64_decode(value) {
        Ok(bytes) => {
            proof {
                law_base64_is_read_back(bytes@);
            }
            text_from_bytes(bytes, ErrorKind::UndecodableFilename)
        },
        Err(words) => Err(TransferError::about(ErrorKind::UndecodableFilename, words)),
    }
}

// ---------------------------------------------------------------------------------------------
// Laws

/// Hexadecimal digits of either case have their value, and nothing else has one; a byte is written
/// with its high digit first.
pub proof fn law_hexadecimal_digits_have_their_value(v: u8, bytes: Seq<u8>, i: int)
    ensures
        v < 10 ==> hex_digit_value((48 + v) as u8) == Some(v),
        10 <= v < 16 ==> hex_digit_value((87 + v) as u8) == Some(v) && hex_digit_value(
            (55 + v) as u8,
        ) == Some(v),
        !(48 <= v <= 57 || 65 <= v <= 70 || 97 <= v <= 102) ==> hex_digit_value(v) is None,
        hex_text(bytes).len() == bytes.len() * 2,
        0 <= i < bytes.len() ==> hex_digit_value(hex_text(bytes)[i * 2] as u8) == Some(
            (bytes[i] / 16) as u8,
        ) && hex_digit_value(hex_text(bytes)[i * 2 + 1] as u8) == Some((bytes[i] % 16) as u8),
        0 <= i < bytes.len() * 2 ==> !('A' <= hex_text(bytes)[i] <= 'Z'),
{
    if 0 <= i < bytes.len() {
        law_hex_digits_are_read_back(bytes[i]);
        assert((i * 2) / 2 == i && (i * 2) % 2 == 0);
        assert((i * 2 + 1) / 2 == i && (i * 2 + 1) % 2 == 1);
    }
    lemma_hex_text_chars(bytes);
    if 0 <= i < bytes.len() * 2 {
        let c = hex_text(bytes)[i];
        assert(text::is_digit(c) || 'a' <= c && c <= 'f');
    }
}

/// Percent encoding is read from front to back: what a text stands for does not depend on what
/// follows it.
pub proof fn law_percent_encoding_is_read_in_order(a: Seq<u8>, b: Seq<u8>)
    requires
        percent_bytes(a) is Some,
    ensures
        percent_bytes(a + b) == match percent_bytes(b) {
            Some(bytes) => Some(percent_bytes(a)->0 + bytes),
            None => None,
        },
    decreases a.len(),
{
    if a.len() == 0 {
        assert(a + b =~= b);
        match percent_bytes(b) {
            Some(bytes) => {
                assert(percent_bytes(a)->0 + bytes =~= bytes);
            },
            None => {},
        }
    } else {
        let n: int = if a[0] != 37 {
            1
        } else {
            3
        };
        law_percent_encoding_is_read_in_order(a.skip(n), b);
        assert((a + b).skip(n) =~= a.skip(n) + b);
        match percent_bytes(b) {
            Some(bytes) => {
                assert(percent_bytes(a + b)->0 =~= percent_bytes(a)->0 + bytes);
            },
            None => {},
        }
    }
}

/// A byte that is no percent sign stands for itself; a percent sign stands, with the two hexadecimal
/// digits behind it, for the byte they spell, and without them for nothing.
pub proof fn law_percent_sign_and_two_digits_are_a_byte(byte: u8, high: u8, low: u8)
    ensures
        percent_bytes(seq![]) == Some(Seq::<u8>::empty()),
        byte != 37 ==> percent_bytes(seq![byte]) == Some(seq![byte]),
        hex_digit_value(high) == Some((byte / 16) as u8) && hex_digit_value(low) == Some(
            (byte % 16) as u8,
        ) ==> percent_bytes(seq![37u8, high, low]) == Some(seq![byte]),
        percent_bytes(seq![37u8]) is None,
        percent_bytes(seq![37u8, high]) is None,
        hex_digit_value(high) is None || hex_digit_value(low) is None ==> percent_bytes(
            seq![37u8, high, low],
        ) is None,
{
    reveal_with_fuel(percent_bytes, 3);
    let none: Seq<u8> = seq![];
    assert(seq![byte].skip(1) =~= none);
    assert(seq![37u8, high, low].skip(3) =~= none);
    assert(seq![byte] + none =~= seq![byte]);
    assert((byte / 16) * 16 + byte % 16 == byte);
}

/// A broken escape spoils the whole, wherever it stands.
pub proof fn law_broken_escapes_are_refused(a: Seq<u8>, rest: Seq<u8>)
    requires
        percent_bytes(a) is Some,
        rest.len() < 2 || hex_digit_value(rest[0]) is None || hex_digit_value(rest[1]) is None,
    ensures
        percent_bytes(a + (seq![37u8] + rest)) is None,
{
    let tail = seq![37u8] + rest;
    law_percent_encoding_is_read_in_order(a, tail);
    if rest.len() >= 2 {
        assert(tail[1] == rest[0] && tail[2] == rest[1]);
    }
}

/// A percent-encoded text stands for the text whose bytes it spells; one with a broken escape is
/// refused, and so is one that spells no UTF-8.
pub proof fn law_percent_text_is_spelled_in_bytes(value: Seq<char>, spelled: Seq<char>, bytes: Seq<u8>)
    ensures
        percent_bytes(encode_utf8(value)) == Some(encode_utf8(spelled)) ==> percent_text(value)
            == Ok::<Seq<char>, error::Fault>(spelled),
        percent_bytes(encode_utf8(value)) is None ==> percent_text(value) == Err::<
            Seq<char>,
            error::Fault,
        >(error::fault(ErrorKind::InvalidPercentEncoding)),
        percent_bytes(encode_utf8(value)) == Some(bytes) && !valid_utf8(bytes) ==> percent_text(
            value,
        ) == Err::<Seq<char>, error::Fault>(
            error::fault_about(ErrorKind::UrlNotUtf8, utf8_problem(bytes)),
        ),
{
    encode_utf8_valid_utf8(spelled);
    encode_utf8_decode_utf8(spelled);
}

/// An encoded value is refused where it is empty or longer than a thousand and twenty-four bytes;
/// otherwise it stands for the text whose bytes it encodes.
pub proof fn law_encoded_values_are_short(value: Seq<char>, spelled: Seq<char>, bytes: Seq<u8>)
    ensures
        value.len() == 0 || encode_utf8(value).len() > 1024 ==> header_text(value) == Err::<
            Seq<char>,
            error::Fault,
        >(error::fault(ErrorKind::InvalidEncodedFilename)),
        value.len() > 0 && encode_utf8(value).len() <= 1024 && value == base64url(
            encode_utf8(spelled),
        ) ==> header_text(value) == Ok::<Seq<char>, error::Fault>(spelled),
        value.len() > 0 && encode_utf8(value).len() <= 1024 && value == base64url(bytes)
            && !valid_utf8(bytes) ==> header_text(value) == Err::<Seq<char>, error::Fault>(
            error::fault_about(ErrorKind::UndecodableFilename, utf8_problem(bytes)),
        ),
        value.len() > 0 && encode_utf8(value).len() <= 1024 && (forall|b: Seq<u8>|
            #[trigger] base64url(b) != value) ==> header_text(value) == Err::<
            Seq<char>,
            error::Fault,
        >(error::fault_about(ErrorKind::UndecodableFilename, base64url_problem(value))),
{
    law_base64_is_read_back(encode_utf8(spelled));
    law_base64_is_read_back(bytes);
    encode_utf8_valid_utf8(spelled);
    encode_utf8_decode_utf8(spelled);
}

/// Base64 takes four characters for three bytes, and two or three for what is left.
pub proof fn law_base64_takes_four_characters_for_three_bytes(n: nat, bytes: Seq<u8>)
    ensures
        base64_length(n * 3) == n * 4,
        base64_length(n * 3 + 1) == n * 4 + 2,
        base64_length(n * 3 + 2) == n * 4 + 3,
        base64url(bytes).len() == base64_length(bytes.len()),
{
    assert((n * 3) / 3 == n && (n * 3) % 3 == 0);
    assert((n * 3 + 1) / 3 == n && (n * 3 + 1) % 3 == 1);
    assert((n * 3 + 2) / 3 == n && (n * 3 + 2) % 3 == 2);
}

} // verus!
