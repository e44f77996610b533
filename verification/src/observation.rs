//! An observation as a client sees it, and how a stored row becomes one.

use crate::codec::{
    hyphenated, is_observation_text, is_payload, lemma_accepted_text_is_payload,
    observation_bytes, payload_text, uuid_text,
};
use crate::error::AppError;
use vstd::prelude::*;
use vstd::utf8::*;

verus! {

/// The answer to the issue of a credential.
#[derive(Debug)]
pub struct ApiKeyResponse {
    pub api_key: String,
}

/// One observation: its identifier in canonical text, and its payload.
#[derive(Debug, Clone)]
pub struct Observation {
    pub uuidv7: String,
    pub observation: String,
}

/// An observation with its two texts as sequences of characters.
pub struct ObservationView {
    pub uuidv7: Seq<char>,
    pub observation: Seq<char>,
}

impl View for Observation {
    type V = ObservationView;

    open spec fn view(&self) -> ObservationView {
        ObservationView { uuidv7: self.uuidv7@, observation: self.observation@ }
    }
}

/// Calls `String::from_utf8`. The contract says that the call succeeds
/// exactly on well-formed UTF-8, and that the string then holds the
/// characters that the bytes encode.
#[verifier::external_body]
fn text_of_utf8(bytes: Vec<u8>) -> (text: Option<String>)
    ensures
        text is Some == valid_utf8(bytes@),
        text is Some ==> text->Some_0@ == decode_utf8(bytes@),
{
    String::from_utf8(bytes).ok()
}

/// How a stored row is shown: the identifier in hyphenated form and the
/// payload as text, or an error where the payload is no UTF-8.
pub open spec fn shown(id: u128, payload: Seq<u8>) -> Result<ObservationView, AppError> {
    if valid_utf8(payload) {
        Ok(ObservationView { uuidv7: hyphenated(id), observation: decode_utf8(payload) })
    } else {
        Err(AppError::InvalidObservation)
    }
}

/// Turns one stored row into an observation.
pub fn observation_from_row(id: u128, payload: Vec<u8>) -> (result: Result<Observation, AppError>)
    ensures
        match shown(id, payload@) {
            Ok(view) => result is Ok && result->Ok_0@ == view,
            Err(error) => result == Err::<Observation, AppError>(error),
        },
{
    match text_of_utf8(payload) {
        Some(observation) => Ok(Observation { uuidv7: uuid_text(id), observation }),
        None => Err(AppError::InvalidObservation),
    }
}

/// The views of a list of stored rows, each an identifier with its payload.
pub open spec fn row_views(rows: Seq<(u128, Vec<u8>)>) -> Seq<(u128, Seq<u8>)> {
    rows.map_values(|row: (u128, Vec<u8>)| (row.0, row.1@))
}

/// The views of a list of observations.
pub open spec fn views_of(observations: Seq<Observation>) -> Seq<ObservationView> {
    observations.map_values(|observation: Observation| observation@)
}

/// How a list of stored rows is shown: each row in its place, or an error
/// where the payload of any row is no UTF-8.
pub open spec fn shown_all(rows: Seq<(u128, Seq<u8>)>) -> Result<Seq<ObservationView>, AppError> {
    if forall|i: int| 0 <= i < rows.len() ==> valid_utf8(#[trigger] rows[i].1) {
        Ok(
            Seq::new(
                rows.len(),
                |i: int|
                    ObservationView {
                        uuidv7: hyphenated(rows[i].0),
                        observation: decode_utf8(rows[i].1),
                    },
            ),
        )
    } else {
        Err(AppError::InvalidObservation)
    }
}

/// Turns the rows that a query returned into observations, in their order.
pub fn observations_from_rows(rows: &Vec<(u128, Vec<u8>)>) -> (result: Result<
    Vec<Observation>,
    AppError,
>)
    ensures
        match shown_all(row_views(rows@)) {
            Ok(views) => result is Ok && views_of(result->Ok_0@) == views,
            Err(error) => result == Err::<Vec<Observation>, AppError>(error),
        },
{
    let mut observations: Vec<Observation> = Vec::with_capacity(rows.len());
    let mut at: usize = 0;
    while at < rows.len()
        invariant
            at <= rows.len(),
            observations@.len() == at,
            forall|j: int| 0 <= j < at ==> valid_utf8(#[trigger] row_views(rows@)[j].1),
            forall|j: int|
                0 <= j < at ==> shown(rows@[j].0, rows@[j].1@) == Ok::<ObservationView, AppError>(
                    #[trigger] observations@[j]@,
                ),
        decreases rows.len() - at,
    {
        let payload = rows[at].1.clone();
        assert(payload@ =~= rows@[at as int].1@);
        match observation_from_row(rows[at].0, payload) {
            Ok(observation) => observations.push(observation),
            Err(error) => {
                assert(!valid_utf8(row_views(rows@)[at as int].1));
                return Err(error);
            },
        }
        at += 1;
    }
    proof {
        let views = shown_all(row_views(rows@))->Ok_0;
        assert(views_of(observations@) =~= views);
    }
    Ok(observations)
}

/// A stored payload is shown as its text, and never as an error.
pub proof fn lemma_payload_is_shown(id: u128, payload: Seq<u8>)
    requires
        is_payload(payload),
    ensures
        valid_utf8(payload),
        shown(id, payload) == Ok::<ObservationView, AppError>(
            ObservationView { uuidv7: hyphenated(id), observation: payload_text(payload) },
        ),
{
    let text = payload_text(payload);
    assert(is_ascii_chars(text));
    is_ascii_chars_encode_utf8(text);
    assert(encode_utf8(text) =~= payload);
    encode_utf8_valid_utf8(text);
    encode_utf8_decode_utf8(text);
}

/// The bytes of an accepted payload are shown as the text that was sent.
pub proof fn lemma_accepted_payload_is_shown(id: u128, text: Seq<char>)
    requires
        is_observation_text(text),
    ensures
        shown(id, observation_bytes(text)) == Ok::<ObservationView, AppError>(
            ObservationView { uuidv7: hyphenated(id), observation: text },
        ),
{
    lemma_accepted_text_is_payload(text);
    lemma_payload_is_shown(id, observation_bytes(text));
}

} // verus!
