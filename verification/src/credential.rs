//! The bearer credential: 32 secret bytes, written as 64 hexadecimal digits.

use crate::error::AppError;
use crate::text::{is_bare, is_white_space, trim, trimmed};
use vstd::prelude::*;
use vstd::string::*;

verus! {

/// The length of a credential in bytes.
pub const API_KEY_LENGTH: usize = 32;

/// The hexadecimal digits, the letters in either case.
pub open spec fn is_hex_digit(c: char) -> bool {
    ('0' <= c && c <= '9') || ('a' <= c && c <= 'f') || ('A' <= c && c <= 'F')
}

/// The number that a hexadecimal digit of either case stands for.
pub open spec fn hex_value(c: char) -> int {
    if '0' <= c && c <= '9' {
        c as int - '0' as int
    } else if 'a' <= c && c <= 'f' {
        c as int - 'a' as int + 10
    } else {
        c as int - 'A' as int + 10
    }
}

/// The lower-case digit for a number below 16.
pub open spec fn hex_digit(n: int) -> char {
    if n < 10 {
        ('0' as int + n) as char
    } else {
        ('a' as int + n - 10) as char
    }
}

/// A text of hexadecimal digits and nothing else.
pub open spec fn is_hex_text(text: Seq<char>) -> bool {
    forall|i: int| 0 <= i < text.len() ==> is_hex_digit(#[trigger] text[i])
}

/// The bytes that a text of hexadecimal digits stands for, two digits to a
/// byte, the high half first.
pub open spec fn decode_pairs(text: Seq<char>) -> Seq<u8> {
    Seq::new(
        text.len() / 2,
        |i: int| (16 * hex_value(text[2 * i]) + hex_value(text[2 * i + 1])) as u8,
    )
}

/// The lower-case hexadecimal text of `bytes`.
pub open spec fn encode_pairs(bytes: Seq<u8>) -> Seq<char> {
    Seq::new(
        2 * bytes.len(),
        |i: int|
            if i % 2 == 0 {
                hex_digit(bytes[i / 2] as int / 16)
            } else {
                hex_digit(bytes[i / 2] as int % 16)
            },
    )
}

/// The credential that a text stands for: the text is trimmed, and what is
/// left must be exactly 64 hexadecimal digits.
pub open spec fn key_of_text(text: Seq<char>) -> Option<Seq<u8>> {
    let inner = trimmed(text);
    if inner.len() == 2 * API_KEY_LENGTH && is_hex_text(inner) {
        Some(decode_pairs(inner))
    } else {
        None
    }
}

/// Calls `hex::decode_to_slice` on a text and a buffer of 32 bytes. The
/// contract says that the call succeeds exactly on 64 hexadecimal digits of
/// either case (a digit is one byte of the text, so characters and bytes
/// count alike), and that the buffer then holds the byte of each pair, the
/// first digit as the high half. Of a failed call's buffer it says nothing.
#[verifier::external_body]
fn decode_hex_to_slice(text: &str, out: &mut [u8; API_KEY_LENGTH]) -> (decoded: bool)
    ensures
        decoded == (text@.len() == 2 * API_KEY_LENGTH && is_hex_text(text@)),
        decoded ==> final(out)@ == decode_pairs(text@),
{
    hex::decode_to_slice(text, out).is_ok()
}

/// Calls `hex::encode`. The contract says that the text holds two lower-case
/// digits for each byte, the high half first.
#[verifier::external_body]
fn encode_hex(bytes: &[u8; API_KEY_LENGTH]) -> (text: String)
    ensures
        text@ == encode_pairs(bytes@),
{
    hex::encode(bytes)
}

/// An opaque secret that both names its holder and authorises them.
#[derive(Clone, Debug, Eq, PartialEq)]
pub struct ApiKey {
    pub bytes: [u8; API_KEY_LENGTH],
}

impl View for ApiKey {
    type V = Seq<u8>;

    open spec fn view(&self) -> Seq<u8> {
        self.bytes@
    }
}

impl ApiKey {
    /// Reads a credential from its hexadecimal form. Whatever is wrong with
    /// the text, the error is the same as for an unknown credential.
    pub fn from_hex(value: &str) -> (result: Result<ApiKey, AppError>)
        ensures
            match key_of_text(value@) {
                Some(bytes) => result is Ok && result->Ok_0@ == bytes,
                None => result == Err::<ApiKey, AppError>(AppError::Unauthorized),
            },
    {
        let value = trim(value);
        if value.unicode_len() != API_KEY_LENGTH * 2 {
            return Err(AppError::Unauthorized);
        }
        let mut bytes = [0u8; API_KEY_LENGTH];
        if !decode_hex_to_slice(value, &mut bytes) {
            return Err(AppError::Unauthorized);
        }
        Ok(ApiKey { bytes })
    }

    /// The credential as 64 lower-case hexadecimal digits.
    pub fn to_hex(&self) -> (text: String)
        ensures
            text@ == encode_pairs(self@),
            text@.len() == 2 * API_KEY_LENGTH,
    {
        encode_hex(&self.bytes)
    }

    /// Whether two credentials hold the same bytes.
    pub fn same(&self, other: &ApiKey) -> (equal: bool)
        ensures
            equal <==> self@ == other@,
    {
        let mut i: usize = 0;
        while i < API_KEY_LENGTH
            invariant
                i <= API_KEY_LENGTH,
                forall|j: int| 0 <= j < i ==> self.bytes[j] == other.bytes[j],
            decreases API_KEY_LENGTH - i,
        {
            if self.bytes[i] != other.bytes[i] {
                return false;
            }
            i += 1;
        }
        assert(self@ =~= other@);
        true
    }
}

/// The digit for a number below 16 is a hexadecimal digit and no whitespace,
/// and stands for that number.
pub proof fn lemma_hex_digit(n: int)
    requires
        0 <= n < 16,
    ensures
        is_hex_digit(hex_digit(n)),
        !is_white_space(hex_digit(n)),
        hex_value(hex_digit(n)) == n,
{
}

/// The hexadecimal text of any bytes is made of hexadecimal digits, has no
/// whitespace at its ends, and stands for those bytes.
pub proof fn lemma_encode_then_decode(bytes: Seq<u8>)
    ensures
        is_hex_text(encode_pairs(bytes)),
        is_bare(encode_pairs(bytes)),
        decode_pairs(encode_pairs(bytes)) == bytes,
{
    let text = encode_pairs(bytes);
    assert forall|i: int| 0 <= i < text.len() implies is_hex_digit(#[trigger] text[i]) by {
        lemma_hex_digit(bytes[i / 2] as int / 16);
        lemma_hex_digit(bytes[i / 2] as int % 16);
    }
    if text.len() > 0 {
        lemma_hex_digit(bytes[0] as int / 16);
        lemma_hex_digit(bytes[(text.len() - 1) / 2] as int % 16);
    }
    assert forall|i: int| 0 <= i < bytes.len() implies decode_pairs(text)[i] == bytes[i] by {
        lemma_hex_digit(bytes[i] as int / 16);
        lemma_hex_digit(bytes[i] as int % 16);
        assert(text[2 * i] == hex_digit(bytes[i] as int / 16));
        assert(text[2 * i + 1] == hex_digit(bytes[i] as int % 16));
    }
    assert(decode_pairs(text) =~= bytes);
}

/// Reading back the hexadecimal form of a credential gives the credential.
pub proof fn lemma_hex_round_trip(key: ApiKey)
    ensures
        key_of_text(encode_pairs(key@)) == Some(key@),
{
    lemma_encode_then_decode(key@);
    crate::text::lemma_trimmed_of_bare(encode_pairs(key@));
}

/// A text with no whitespace at its ends is no credential unless it is
/// exactly 64 hexadecimal digits long.
pub proof fn lemma_malformed_hex_rejected(text: Seq<char>)
    requires
        is_bare(text),
        text.len() != 2 * API_KEY_LENGTH || exists|i: int|
            0 <= i < text.len() && !is_hex_digit(text[i]),
    ensures
        key_of_text(text) is None,
{
    crate::text::lemma_trimmed_of_bare(text);
}

} // verus!
