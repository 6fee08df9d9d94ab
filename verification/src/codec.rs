//! The encodings of a text: base64 in its standard and its URL-safe
//! alphabet, and percent-encoding.

use crate::text::byte_len;
use crate::text::chars_of;
use crate::text::text_len;
use base64::prelude::Engine;
use base64::prelude::BASE64_STANDARD;
use base64::prelude::BASE64_URL_SAFE;
use vstd::prelude::*;
use vstd::string::StringExecFns;
use vstd::utf8::decode_utf8;
use vstd::utf8::encode_utf8;
use vstd::utf8::encode_utf8_decode_utf8;
use vstd::utf8::encode_utf8_valid_utf8;
use vstd::utf8::is_ascii_chars;
use vstd::utf8::is_ascii_chars_encode_utf8;
use vstd::utf8::valid_utf8;

verus! {

/// How a text is encoded or decoded.
#[derive(Clone, Copy, Debug, PartialEq, Eq, Structural)]
pub enum Encoding {
    Base64,
    Base64UrlSafe,
    URL,
}

/// The base64 form of the bytes of `text`, in the URL-safe alphabet or in
/// the standard one, with padding.
pub uninterp spec fn base64_encoding(url_safe: bool, text: Seq<char>) -> Seq<char>;

/// What decoding `text` as padded base64 gives: the bytes, or the message
/// of the fault found in it.
pub uninterp spec fn base64_decoding(url_safe: bool, text: Seq<char>) -> Result<
    Seq<u8>,
    Seq<char>,
>;

/// The text that stands for `bytes` which are no valid UTF-8: each faulty
/// stretch is replaced by U+FFFD.
pub uninterp spec fn repaired(bytes: Seq<u8>) -> Seq<char>;

/// The message that tells where the bytes that `text` decodes to by
/// percent-decoding stop being valid UTF-8.
pub uninterp spec fn url_decode_error(text: Seq<char>) -> Seq<char>;

/// Whether the base64 form of `len` bytes, four characters for every three
/// bytes begun, has a length that fits in `usize`.
pub open spec fn base64_fits(len: nat) -> bool {
    4 * ((len + 2) / 3) <= usize::MAX
}

/// The text that `bytes` stand for, with every stretch that is no valid
/// UTF-8 replaced.
pub open spec fn lossy(bytes: Seq<u8>) -> Seq<char> {
    if valid_utf8(bytes) {
        decode_utf8(bytes)
    } else {
        repaired(bytes)
    }
}

/// Whether percent-encoding leaves the byte as it is: an ASCII letter, a
/// digit, or one of `-`, `.`, `_` and `~`.
pub open spec fn is_unreserved(byte: u8) -> bool {
    ||| 0x30 <= byte <= 0x39
    ||| 0x41 <= byte <= 0x5a
    ||| 0x61 <= byte <= 0x7a
    ||| byte == 0x2d
    ||| byte == 0x2e
    ||| byte == 0x5f
    ||| byte == 0x7e
}

/// The digit for a number below 16, in upper case.
pub open spec fn hex_char(digit: u8) -> char {
    if digit < 10 {
        ((0x30 + digit) as u8) as char
    } else {
        ((0x41 + digit - 10) as u8) as char
    }
}

/// The number that a hexadecimal digit of either case stands for.
pub open spec fn hex_value(digit: char) -> Option<u8> {
    if '0' <= digit <= '9' {
        Some((digit as u8 - 0x30) as u8)
    } else if 'A' <= digit <= 'F' {
        Some((digit as u8 - 0x41 + 10) as u8)
    } else if 'a' <= digit <= 'f' {
        Some((digit as u8 - 0x61 + 10) as u8)
    } else {
        None
    }
}

/// The percent-encoded form of `bytes`: an unreserved byte stands for
/// itself, any other becomes `%` and its two hexadecimal digits.
pub open spec fn percent_encode(bytes: Seq<u8>) -> Seq<char>
    decreases bytes.len(),
{
    if bytes.len() == 0 {
        Seq::empty()
    } else if is_unreserved(bytes[0]) {
        seq![bytes[0] as char] + percent_encode(bytes.drop_first())
    } else {
        seq!['%', hex_char(bytes[0] >> 4), hex_char(bytes[0] & 15)] + percent_encode(
            bytes.drop_first(),
        )
    }
}

/// The bytes that `text` stands for when percent-encoded: `%` and two
/// hexadecimal digits give one byte, any other character gives its own
/// bytes, also a `%` that no two such digits follow.
pub open spec fn percent_decode(text: Seq<char>) -> Seq<u8>
    decreases text.len(),
{
    if text.len() == 0 {
        Seq::empty()
    } else if text[0] == '%' && text.len() >= 3 && hex_value(text[1]) is Some && hex_value(
        text[2],
    ) is Some {
        seq![((hex_value(text[1])->0 << 4) | hex_value(text[2])->0) as u8] + percent_decode(
            text.skip(3),
        )
    } else {
        encode_utf8(seq![text[0]]) + percent_decode(text.drop_first())
    }
}

/// The encoded form of `text`.
pub open spec fn encoded(encoding: Encoding, text: Seq<char>) -> Seq<char> {
    match encoding {
        Encoding::Base64 => base64_encoding(false, text),
        Encoding::Base64UrlSafe => base64_encoding(true, text),
        Encoding::URL => percent_encode(encode_utf8(text)),
    }
}

/// The text that base64 gives back, or the message of the fault.
pub open spec fn base64_decoded(url_safe: bool, text: Seq<char>) -> Result<Seq<char>, Seq<char>> {
    match base64_decoding(url_safe, text) {
        Ok(bytes) => Ok(lossy(bytes)),
        Err(message) => Err(message),
    }
}

/// Whether every `%` in `text` has two hexadecimal digits behind it.
pub open spec fn well_escaped(text: Seq<char>) -> bool {
    forall|i: int|
        0 <= i < text.len() && #[trigger] text[i] == '%' ==> i + 2 < text.len() && hex_value(
            text[i + 1],
        ) is Some && hex_value(text[i + 2]) is Some
}

/// The message of the error that a `%` gives which no two hexadecimal
/// digits follow.
pub open spec fn malformed_escape() -> Seq<char> {
    "Invalid percent-escape"@
}

/// The text that percent-decoding gives back. A `%` that no two hexadecimal
/// digits follow is a fault of its own message; bytes that are no UTF-8 are
/// a fault with the message that says where they stop being so.
pub open spec fn url_decoded(text: Seq<char>) -> Result<Seq<char>, Seq<char>> {
    if !well_escaped(text) {
        Err(malformed_escape())
    } else if valid_utf8(percent_decode(text)) {
        Ok(decode_utf8(percent_decode(text)))
    } else {
        Err(url_decode_error(text))
    }
}

/// What decoding `text` gives: the text, or the message of the fault.
pub open spec fn decoded(encoding: Encoding, text: Seq<char>) -> Result<Seq<char>, Seq<char>> {
    match encoding {
        Encoding::Base64 => base64_decoded(false, text),
        Encoding::Base64UrlSafe => base64_decoded(true, text),
        Encoding::URL => url_decoded(text),
    }
}

/// Whether `text` can be encoded: its base64 form must have a length.
pub open spec fn encodable(encoding: Encoding, text: Seq<char>) -> bool {
    encoding != Encoding::URL ==> base64_fits(byte_len(text))
}

/// The outcome of a decoding that found no fault and gave `bytes`.
pub open spec fn decoded_bytes(bytes: Seq<u8>) -> Result<Seq<u8>, Seq<char>> {
    Ok(bytes)
}

/// The outcome of a decoding as values of the model.
pub open spec fn outcome_view(outcome: Result<String, String>) -> Result<Seq<char>, Seq<char>> {
    match outcome {
        Ok(text) => Ok(text@),
        Err(message) => Err(message@),
    }
}

/// The outcome of a decoding to bytes as values of the model.
pub open spec fn bytes_view(outcome: Result<Vec<u8>, String>) -> Result<Seq<u8>, Seq<char>> {
    match outcome {
        Ok(bytes) => Ok(bytes@),
        Err(message) => Err(message@),
    }
}

/// `Engine::encode` on `BASE64_STANDARD` of the crate base64: the padded
/// base64 form of the text's bytes in the standard alphabet. The engine
/// decodes what it has encoded to the bytes that went in. It panics where
/// the form's length overflows, which `requires` leaves out.
#[verifier::external_body]
fn base64_standard_encode(text: &str) -> (out: String)
    requires
        base64_fits(byte_len(text@)),
    ensures
        out@ == base64_encoding(false, text@),
        base64_decoding(false, out@) == decoded_bytes(encode_utf8(text@)),
{
    BASE64_STANDARD.encode(text)
}

/// `Engine::encode` on `BASE64_URL_SAFE` of the crate base64: as
/// `base64_standard_encode`, in the URL-safe alphabet.
#[verifier::external_body]
fn base64_url_safe_encode(text: &str) -> (out: String)
    requires
        base64_fits(byte_len(text@)),
    ensures
        out@ == base64_encoding(true, text@),
        base64_decoding(true, out@) == decoded_bytes(encode_utf8(text@)),
{
    BASE64_URL_SAFE.encode(text)
}

/// `Engine::decode` on `BASE64_STANDARD` of the crate base64: the bytes
/// that the text stands for, or the fault as its `Display` shows it.
#[verifier::external_body]
fn base64_standard_decode(text: &str) -> (out: Result<Vec<u8>, String>)
    ensures
        bytes_view(out) == base64_decoding(false, text@),
{
    match BASE64_STANDARD.decode(text) {
        Ok(bytes) => Ok(bytes),
        Err(fault) => Err(fault.to_string()),
    }
}

/// `Engine::decode` on `BASE64_URL_SAFE` of the crate base64: as
/// `base64_standard_decode`, in the URL-safe alphabet.
#[verifier::external_body]
fn base64_url_safe_decode(text: &str) -> (out: Result<Vec<u8>, String>)
    ensures
        bytes_view(out) == base64_decoding(true, text@),
{
    match BASE64_URL_SAFE.decode(text) {
        Ok(bytes) => Ok(bytes),
        Err(fault) => Err(fault.to_string()),
    }
}

/// `String::from_utf8_lossy` of std: valid UTF-8 comes back as the text it
/// encodes, anything else with its faulty stretches replaced.
#[verifier::external_body]
fn utf8_lossy(bytes: &Vec<u8>) -> (out: String)
    ensures
        valid_utf8(bytes@) ==> out@ == decode_utf8(bytes@),
        !valid_utf8(bytes@) ==> out@ == repaired(bytes@),
{
    String::from_utf8_lossy(bytes).into_owned()
}

/// `urlencoding::encode`: every byte of the text but the unreserved ones is
/// written as `%` and two upper-case hexadecimal digits.
#[verifier::external_body]
fn url_encode(text: &str) -> (out: String)
    ensures
        out@ == percent_encode(encode_utf8(text@)),
{
    urlencoding::encode(text).into_owned()
}

/// `urlencoding::decode`: each `%` with two hexadecimal digits behind it
/// becomes the byte they name and all else stays; the bytes are then read
/// as UTF-8, and where they are none the fault comes back as its `Display`
/// shows it.
#[verifier::external_body]
fn url_decode(text: &str) -> (out: Result<String, String>)
    ensures
        out matches Ok(plain) ==> encode_utf8(plain@) == percent_decode(text@),
        out matches Err(message) ==> !valid_utf8(percent_decode(text@)) && message@
            == url_decode_error(text@),
{
    match urlencoding::decode(text) {
        Ok(plain) => Ok(plain.into_owned()),
        Err(fault) => Err(fault.to_string()),
    }
}

/// A character below 128 is the one byte of its own UTF-8 form.
pub proof fn lemma_ascii_byte(byte: u8)
    requires
        byte < 0x80,
    ensures
        encode_utf8(seq![byte as char]) == seq![byte],
{
    let one = seq![byte as char];
    assert(is_ascii_chars(one));
    is_ascii_chars_encode_utf8(one);
    assert(one[0] as u8 == byte);
    assert(encode_utf8(one) =~= seq![byte]);
}

/// The two digits that percent-encoding writes for a byte name that byte.
pub proof fn lemma_hex_digits(byte: u8)
    ensures
        hex_value(hex_char(byte >> 4)) == Some((byte >> 4) as u8),
        hex_value(hex_char(byte & 15)) == Some((byte & 15) as u8),
        (((byte >> 4) << 4) | (byte & 15)) as u8 == byte,
{
    let high: u8 = byte >> 4;
    let low: u8 = byte & 15;
    assert(high < 16 && low < 16 && ((high << 4) | low) == byte) by (bit_vector)
        requires
            high == byte >> 4,
            low == byte & 15,
    ;
}

/// Percent-decoding gives back the bytes that were percent-encoded.
pub proof fn lemma_percent_round_trip(bytes: Seq<u8>)
    ensures
        percent_decode(percent_encode(bytes)) == bytes,
    decreases bytes.len(),
{
    if bytes.len() > 0 {
        let rest = bytes.drop_first();
        let form = percent_encode(bytes);
        lemma_percent_round_trip(rest);
        if is_unreserved(bytes[0]) {
            lemma_ascii_byte(bytes[0]);
            assert(form[0] == bytes[0] as char);
            assert(form[0] != '%');
            assert(form.drop_first() =~= percent_encode(rest));
            assert(percent_decode(form) =~= seq![bytes[0]] + rest);
        } else {
            lemma_hex_digits(bytes[0]);
            assert(form[0] == '%');
            assert(form[1] == hex_char(bytes[0] >> 4));
            assert(form[2] == hex_char(bytes[0] & 15));
            assert(form.skip(3) =~= percent_encode(rest));
            assert(percent_decode(form) =~= seq![bytes[0]] + rest);
        }
        assert(seq![bytes[0]] + rest =~= bytes);
    }
}

/// Percent-encoding writes no `%` but with its two digits behind it.
pub proof fn lemma_encoded_is_well_escaped(bytes: Seq<u8>)
    ensures
        well_escaped(percent_encode(bytes)),
    decreases bytes.len(),
{
    if bytes.len() > 0 {
        let rest = percent_encode(bytes.drop_first());
        let form = percent_encode(bytes);
        lemma_encoded_is_well_escaped(bytes.drop_first());
        lemma_hex_digits(bytes[0]);
        let width: int = if is_unreserved(bytes[0]) {
            1
        } else {
            3
        };
        assert(form.len() == width + rest.len());
        assert forall|i: int| 0 <= i < form.len() && #[trigger] form[i] == '%' implies i + 2
            < form.len() && hex_value(form[i + 1]) is Some && hex_value(form[i + 2]) is Some by {
            if i >= width {
                assert(form[i] == rest[i - width]);
                assert(form[i + 1] == rest[i - width + 1]);
                assert(form[i + 2] == rest[i - width + 2]);
            } else if is_unreserved(bytes[0]) {
                assert(form[0] == bytes[0] as char);
            } else {
                assert(form[0] == '%');
                assert(form[1] == hex_char(bytes[0] >> 4));
                assert(form[2] == hex_char(bytes[0] & 15));
            }
        }
    }
}

/// Percent-decoding gives back the text that was percent-encoded.
pub proof fn lemma_url_round_trip(text: Seq<char>)
    ensures
        decoded(Encoding::URL, encoded(Encoding::URL, text)) matches Ok(plain) && plain == text,
{
    lemma_encoded_is_well_escaped(encode_utf8(text));
    lemma_percent_round_trip(encode_utf8(text));
    encode_utf8_valid_utf8(text);
    encode_utf8_decode_utf8(text);
}

/// Whether `text` can be encoded.
pub fn can_encode(encoding: Encoding, text: &str) -> (ok: bool)
    ensures
        ok == encodable(encoding, text@),
{
    match encoding {
        Encoding::URL => true,
        _ => {
            let len = text_len(text);
            let begun: usize = if len % 3 > 0 {
                1
            } else {
                0
            };
            let groups: usize = len / 3 + begun;
            assert(groups == (len + 2) / 3);
            groups <= usize::MAX / 4
        },
    }
}

/// Encodes `text`. Decoding the result in the same encoding gives `text`
/// back.
pub fn encode(encoding: Encoding, text: &str) -> (out: String)
    requires
        encodable(encoding, text@),
    ensures
        out@ == encoded(encoding, text@),
        decoded(encoding, out@) matches Ok(plain) && plain == text@,
{
    proof {
        encode_utf8_valid_utf8(text@);
        encode_utf8_decode_utf8(text@);
        lemma_url_round_trip(text@);
    }
    match encoding {
        Encoding::Base64 => base64_standard_encode(text),
        Encoding::Base64UrlSafe => base64_url_safe_encode(text),
        Encoding::URL => url_encode(text),
    }
}

/// Whether `digit` is a hexadecimal digit of either case.
pub fn is_hex_digit(digit: char) -> (ok: bool)
    ensures
        ok == hex_value(digit) is Some,
{
    ('0' <= digit && digit <= '9') || ('A' <= digit && digit <= 'F') || ('a' <= digit && digit
        <= 'f')
}

/// Whether every `%` in `text` has two hexadecimal digits behind it.
pub fn is_well_escaped(text: &str) -> (ok: bool)
    ensures
        ok == well_escaped(text@),
{
    let chars = chars_of(text);
    let mut i: usize = 0;
    while i < chars.len()
        invariant
            i <= chars.len(),
            chars@ == text@,
            forall|j: int|
                0 <= j < i && #[trigger] chars@[j] == '%' ==> j + 2 < chars.len() && hex_value(
                    chars@[j + 1],
                ) is Some && hex_value(chars@[j + 2]) is Some,
        decreases chars.len() - i,
    {
        if chars[i] == '%' {
            if chars.len() - i < 3 || !is_hex_digit(chars[i + 1]) || !is_hex_digit(chars[i + 2]) {
                return false;
            }
        }
        i += 1;
    }
    true
}

/// The text that decoded bytes stand for, or the fault passed on.
pub fn text_of_bytes(outcome: Result<Vec<u8>, String>) -> (out: Result<String, String>)
    ensures
        outcome_view(out) == match bytes_view(outcome) {
            Ok(bytes) => Ok::<Seq<char>, Seq<char>>(lossy(bytes)),
            Err(message) => Err(message),
        },
{
    match outcome {
        Ok(bytes) => Ok(utf8_lossy(&bytes)),
        Err(message) => Err(message),
    }
}

/// Decodes `text`: the text that it stands for, or the message of the fault
/// that was found in it. A percent-encoded text is first held to have two
/// hexadecimal digits behind every `%`.
pub fn decode(encoding: Encoding, text: &str) -> (out: Result<String, String>)
    ensures
        outcome_view(out) == decoded(encoding, text@),
{
    match encoding {
        Encoding::Base64 => text_of_bytes(base64_standard_decode(text)),
        Encoding::Base64UrlSafe => text_of_bytes(base64_url_safe_decode(text)),
        Encoding::URL => {
            if !is_well_escaped(text) {
                return Err(String::from_str("Invalid percent-escape"));
            }
            let out = url_decode(text);
            proof {
                if let Ok(plain) = &out {
                    encode_utf8_valid_utf8(plain@);
                    encode_utf8_decode_utf8(plain@);
                }
            }
            out
        },
    }
}

} // verus!
