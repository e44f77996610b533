//! The two fields that a client supplies with an observation: a version-7
//! identifier and a payload of ten symbols.

use crate::credential::{hex_digit, hex_value, is_hex_digit, is_hex_text, lemma_hex_digit};
use crate::error::AppError;
use uuid::Uuid;
use vstd::prelude::*;
use vstd::string::*;

verus! {

/// The length of a payload, in bytes and in characters.
pub const OBSERVATION_LENGTH: usize = 10;

/// The four symbols that a payload is made of.
pub open spec fn is_observation_symbol(c: char) -> bool {
    c == '1' || c == '2' || c == '3' || c == '4'
}

/// A payload text is ten symbols, with nothing before, between or after.
pub open spec fn is_observation_text(text: Seq<char>) -> bool {
    &&& text.len() == OBSERVATION_LENGTH
    &&& forall|i: int| 0 <= i < text.len() ==> is_observation_symbol(#[trigger] text[i])
}

/// The ASCII codes of a payload text.
pub open spec fn observation_bytes(text: Seq<char>) -> Seq<u8> {
    Seq::new(text.len(), |i: int| text[i] as u8)
}

/// A stored payload is ten bytes, each the ASCII code of a symbol.
pub open spec fn is_payload(bytes: Seq<u8>) -> bool {
    &&& bytes.len() == OBSERVATION_LENGTH
    &&& forall|i: int| 0 <= i < bytes.len() ==> 0x31 <= #[trigger] bytes[i] <= 0x34
}

/// The text of a stored payload: the character of each byte.
pub open spec fn payload_text(bytes: Seq<u8>) -> Seq<char> {
    Seq::new(bytes.len(), |i: int| bytes[i] as char)
}

/// The bytes of a payload text are a payload, and its text is that text.
pub proof fn lemma_accepted_text_is_payload(text: Seq<char>)
    requires
        is_observation_text(text),
    ensures
        is_payload(observation_bytes(text)),
        payload_text(observation_bytes(text)) == text,
{
    let bytes = observation_bytes(text);
    assert forall|i: int| 0 <= i < bytes.len() implies 0x31 <= #[trigger] bytes[i] <= 0x34 by {
        assert(is_observation_symbol(text[i]));
    }
    assert forall|i: int| 0 <= i < text.len() implies payload_text(bytes)[i] == text[i] by {
        assert(is_observation_symbol(text[i]));
    }
    assert(payload_text(bytes) =~= text);
}

/// Whether ten bytes are a payload.
pub fn is_valid_payload(bytes: &[u8; OBSERVATION_LENGTH]) -> (valid: bool)
    ensures
        valid == is_payload(bytes@),
{
    let mut idx: usize = 0;
    while idx < OBSERVATION_LENGTH
        invariant
            idx <= OBSERVATION_LENGTH,
            forall|j: int| 0 <= j < idx ==> 0x31 <= #[trigger] bytes@[j] <= 0x34,
        decreases OBSERVATION_LENGTH - idx,
    {
        if bytes[idx] < 0x31 || bytes[idx] > 0x34 {
            return false;
        }
        idx += 1;
    }
    true
}

/// Validates a payload and returns its bytes as they were sent.
pub fn parse_observation(input: &str) -> (result: Result<[u8; OBSERVATION_LENGTH], AppError>)
    ensures
        match result {
            Ok(buffer) => is_observation_text(input@) && buffer@ == observation_bytes(input@)
                && is_payload(buffer@),
            Err(error) => error == AppError::InvalidObservation && !is_observation_text(input@),
        },
{
    if input.unicode_len() != OBSERVATION_LENGTH {
        return Err(AppError::InvalidObservation);
    }
    let mut buffer = [0u8; OBSERVATION_LENGTH];
    let mut idx: usize = 0;
    while idx < OBSERVATION_LENGTH
        invariant
            idx <= OBSERVATION_LENGTH,
            input@.len() == OBSERVATION_LENGTH,
            forall|j: int| 0 <= j < idx ==> is_observation_symbol(#[trigger] input@[j]),
            forall|j: int| 0 <= j < idx ==> buffer@[j] == input@[j] as u8,
        decreases OBSERVATION_LENGTH - idx,
    {
        let ch = input.get_char(idx);
        if ch == '1' || ch == '2' || ch == '3' || ch == '4' {
            buffer[idx] = ch as u8;
        } else {
            return Err(AppError::InvalidObservation);
        }
        idx += 1;
    }
    assert(buffer@ =~= observation_bytes(input@));
    proof {
        lemma_accepted_text_is_payload(input@);
    }
    Ok(buffer)
}

/// The number that a text of hexadecimal digits stands for, the first digit
/// highest.
pub open spec fn hex_number(digits: Seq<char>) -> nat
    decreases digits.len(),
{
    if digits.len() == 0 {
        0
    } else {
        (hex_number(digits.drop_last()) * 16 + hex_value(digits.last())) as nat
    }
}

/// The identifier written as 32 hexadecimal digits of either case.
pub open spec fn simple_uuid(digits: Seq<char>) -> Option<u128> {
    if digits.len() == 32 && is_hex_text(digits) {
        Some(hex_number(digits) as u128)
    } else {
        None
    }
}

/// The identifier written as 36 characters: hexadecimal digits in groups of
/// 8, 4, 4, 4 and 12, with a hyphen between two groups.
pub open spec fn hyphenated_uuid(text: Seq<char>) -> Option<u128> {
    if text.len() == 36 && text[8] == '-' && text[13] == '-' && text[18] == '-' && text[23]
        == '-' {
        simple_uuid(
            text.subrange(0, 8) + text.subrange(9, 13) + text.subrange(14, 18) + text.subrange(
                19,
                23,
            ) + text.subrange(24, 36),
        )
    } else {
        None
    }
}

/// Whether a character is the given lower-case letter or sign, a letter in
/// either case.
pub open spec fn is_letter(c: char, lower: char) -> bool {
    c == lower || ('a' <= lower && lower <= 'z' && c as int == lower as int - 32)
}

/// The prefix `urn:uuid:`, its letters in either case.
pub open spec fn is_urn_prefix(prefix: Seq<char>) -> bool {
    &&& prefix.len() == 9
    &&& is_letter(prefix[0], 'u')
    &&& is_letter(prefix[1], 'r')
    &&& is_letter(prefix[2], 'n')
    &&& prefix[3] == ':'
    &&& is_letter(prefix[4], 'u')
    &&& is_letter(prefix[5], 'u')
    &&& is_letter(prefix[6], 'i')
    &&& is_letter(prefix[7], 'd')
    &&& prefix[8] == ':'
}

/// The identifier that a text stands for, as the 128-bit number of its
/// digits. A text of 32 characters is read as digits alone, one of 36 in
/// hyphenated form, one of 38 as the hyphenated form in braces, and one of 45
/// as the hyphenated form behind `urn:uuid:`. Any other text stands for none.
pub open spec fn uuid_of_text(text: Seq<char>) -> Option<u128> {
    if text.len() == 32 {
        simple_uuid(text)
    } else if text.len() == 36 {
        hyphenated_uuid(text)
    } else if text.len() == 38 && text[0] == '{' && text[37] == '}' {
        hyphenated_uuid(text.subrange(1, 37))
    } else if text.len() == 45 && is_urn_prefix(text.take(9)) {
        hyphenated_uuid(text.skip(9))
    } else {
        None
    }
}

/// The version of an identifier: the high half of its seventh byte.
pub open spec fn version_of(id: u128) -> int {
    ((id >> 76) & 0xf) as int
}

/// The hexadecimal digit of an identifier at a place, the highest at place 0.
pub open spec fn id_digit(id: u128, place: int) -> char {
    hex_digit(((id >> ((4 * (31 - place)) as u128)) & 0xf) as int)
}

/// The canonical text of an identifier: 32 lower-case hexadecimal digits in
/// groups of 8, 4, 4, 4 and 12, with a hyphen between two groups.
pub open spec fn hyphenated(id: u128) -> Seq<char> {
    Seq::new(
        36,
        |at: int|
            if at == 8 || at == 13 || at == 18 || at == 23 {
                '-'
            } else if at < 8 {
                id_digit(id, at)
            } else if at < 13 {
                id_digit(id, at - 1)
            } else if at < 18 {
                id_digit(id, at - 2)
            } else if at < 23 {
                id_digit(id, at - 3)
            } else {
                id_digit(id, at - 4)
            },
    )
}

/// Calls `Uuid::parse_str`, and `Uuid::as_u128` on what it read. The contract
/// says which texts are read and as what: the parser goes by the length of
/// the text in bytes and takes hexadecimal digits, hyphens, braces and the
/// prefix only, all of them one byte long, so bytes and characters count
/// alike on every text that it reads.
#[verifier::external_body]
fn parse_uuid_text(value: &str) -> (parsed: Option<u128>)
    ensures
        parsed == uuid_of_text(value@),
{
    match Uuid::parse_str(value) {
        Ok(uuid) => Some(uuid.as_u128()),
        Err(_) => None,
    }
}

/// Calls `Uuid::get_version_num` on the identifier with the given bytes. The
/// contract says that the version is the high half of the seventh byte.
#[verifier::external_body]
fn uuid_version(id: u128) -> (version: usize)
    ensures
        version == version_of(id),
{
    Uuid::from_u128(id).get_version_num()
}

/// Calls `to_string` on the identifier with the given bytes. The contract
/// says that the text is the hyphenated lower-case form.
#[verifier::external_body]
pub(crate) fn uuid_text(id: u128) -> (text: String)
    ensures
        text@ == hyphenated(id),
{
    Uuid::from_u128(id).to_string()
}

/// The 32 digits of an identifier, the highest first.
pub open spec fn digits_of(id: u128) -> Seq<char> {
    Seq::new(32, |place: int| id_digit(id, place))
}

proof fn lemma_digit_below(id: u128, shift: u128)
    requires
        shift <= 124,
    ensures
        (id >> shift) & 0xf < 16,
        shift <= 120 ==> (id >> shift) / 16 == id >> ((shift + 4) as u128),
        (id >> shift) % 16 == (id >> shift) & 0xf,
        shift == 124 ==> (id >> shift) & 0xf == id >> shift,
        shift == 0 ==> id >> shift == id,
{
    assert((id >> shift) & 0xf < 16) by (bit_vector);
    assert((id >> shift) % 16 == (id >> shift) & 0xf) by (bit_vector);
    if shift <= 120 {
        assert((id >> shift) / 16 == id >> ((shift + 4) as u128)) by (bit_vector)
            requires
                shift <= 120,
        ;
    }
    if shift == 124 {
        assert((id >> 124) & 0xf == id >> 124) by (bit_vector);
    }
    if shift == 0 {
        assert(id >> 0 == id) by (bit_vector);
    }
}

proof fn lemma_number_of_digits(id: u128, count: int)
    requires
        1 <= count <= 32,
    ensures
        hex_number(digits_of(id).take(count)) == id >> ((4 * (32 - count)) as u128),
    decreases count,
{
    let digits = digits_of(id).take(count);
    let shift = (4 * (32 - count)) as u128;
    lemma_digit_below(id, shift);
    lemma_hex_digit(((id >> shift) & 0xf) as int);
    assert(digits.last() == id_digit(id, count - 1));
    assert(digits.drop_last() =~= digits_of(id).take(count - 1));
    if count > 1 {
        lemma_number_of_digits(id, count - 1);
    } else {
        assert(hex_number(digits.drop_last()) == 0);
    }
}

/// The canonical text of an identifier stands for that identifier.
pub proof fn lemma_hyphenated_round_trip(id: u128)
    ensures
        uuid_of_text(hyphenated(id)) == Some(id),
{
    let text = hyphenated(id);
    let digits = text.subrange(0, 8) + text.subrange(9, 13) + text.subrange(14, 18)
        + text.subrange(19, 23) + text.subrange(24, 36);
    assert(digits =~= digits_of(id));
    assert forall|place: int| 0 <= place < 32 implies is_hex_digit(
        #[trigger] digits_of(id)[place],
    ) by {
        let shift = (4 * (31 - place)) as u128;
        lemma_digit_below(id, shift);
        lemma_hex_digit(((id >> shift) & 0xf) as int);
    }
    lemma_number_of_digits(id, 32);
    lemma_digit_below(id, 0);
    assert(digits_of(id).take(32) =~= digits_of(id));
}

/// What becomes of a parsed identifier: one of version 7 is accepted, and
/// every other one is refused like a text that is no identifier at all.
pub open spec fn accept_v7(parsed: Option<u128>) -> Result<u128, AppError> {
    match parsed {
        Some(id) => if version_of(id) == 7 {
            Ok(id)
        } else {
            Err(AppError::InvalidUuid)
        },
        None => Err(AppError::InvalidUuid),
    }
}

/// An identifier is accepted exactly when one was read and its version is 7,
/// and it is then returned as it was read.
pub proof fn lemma_accepted_is_version_7(parsed: Option<u128>)
    ensures
        accept_v7(parsed) is Ok <==> parsed is Some && version_of(parsed->Some_0) == 7,
        accept_v7(parsed) is Ok ==> accept_v7(parsed)->Ok_0 == parsed->Some_0,
        accept_v7(parsed) is Err ==> accept_v7(parsed)->Err_0 == AppError::InvalidUuid,
{
}

/// Accepts a parsed identifier only if its version is 7.
pub fn require_v7(parsed: Option<u128>) -> (result: Result<u128, AppError>)
    ensures
        result == accept_v7(parsed),
{
    match parsed {
        Some(id) => {
            if uuid_version(id) != 7 {
                return Err(AppError::InvalidUuid);
            }
            Ok(id)
        },
        None => Err(AppError::InvalidUuid),
    }
}

/// Reads an identifier from its text and accepts it only if its version is 7.
/// The identifier is returned as the 128-bit number by which records are
/// ordered.
pub fn parse_uuid_v7(value: &str) -> (result: Result<u128, AppError>)
    ensures
        result == accept_v7(uuid_of_text(value@)),
{
    require_v7(parse_uuid_text(value))
}

} // verus!
