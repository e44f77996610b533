//! The request flows of the service: issue a credential, submit an
//! observation, read the newest observations, and forget a credential.
//!
//! Each flow takes the state, the credential that the request was made with
//! and the plain values of the request, and says what the client is
//! answered and what becomes of the store.

use crate::admission::{admits, check_admission};
use crate::auth::{key_of_header, VerifiedApiKey};
use crate::codec::{
    accept_v7, hyphenated, is_observation_text, lemma_accepted_text_is_payload,
    observation_bytes, parse_observation, parse_uuid_v7, uuid_of_text, OBSERVATION_LENGTH,
};
use crate::credential::{encode_pairs, ApiKey};
use crate::error::{AppError, ErrorView};
use crate::limit::{apply_limit, limit_for};
use crate::observation::{views_of, ApiKeyResponse, Observation, ObservationView};
use crate::state::AppState;
use crate::store::{
    count_recent_observations, delete_api_key, displayed, duplicate_id_detail,
    ensure_api_key_exists, fetch_observations, has_id, held_by_others, insert_observation,
    newest, recent_count, store_api_key, unknown_owner_detail, with_record, RecordView,
};
use vstd::prelude::*;

verus! {

impl VerifiedApiKey {
    /// Reads the credential of a request from its `Authorization` header and
    /// looks it up in the directory. A missing header, a header that is no
    /// bearer credential and a credential that the directory does not hold
    /// all give the same error.
    pub fn from_request_parts(header: Option<&str>, state: &AppState) -> (result: Result<
        VerifiedApiKey,
        AppError,
    >)
        ensures
            match key_of_header(
                match header {
                    Some(value) => Some(value@),
                    None => None,
                },
            ) {
                Some(bytes) => if state.store.credentials().contains(bytes) {
                    result is Ok && result->Ok_0.key@ == bytes
                } else {
                    result == Err::<VerifiedApiKey, AppError>(AppError::Unauthorized)
                },
                None => result == Err::<VerifiedApiKey, AppError>(AppError::Unauthorized),
            },
    {
        let key = match crate::auth::key_from_header(header) {
            Ok(key) => key,
            Err(error) => { return Err(error); },
        };
        match ensure_api_key_exists(&state.store, &key) {
            Ok(()) => Ok(VerifiedApiKey { key }),
            Err(error) => Err(error),
        }
    }
}

/// What the two fields of a submission stand for: the identifier is judged
/// first, the payload after it.
pub open spec fn submission_of(uuidv7: Seq<char>, observation: Seq<char>) -> Result<
    (u128, Seq<u8>),
    AppError,
> {
    match accept_v7(uuid_of_text(uuidv7)) {
        Err(error) => Err(error),
        Ok(id) => if is_observation_text(observation) {
            Ok((id, observation_bytes(observation)))
        } else {
            Err(AppError::InvalidObservation)
        },
    }
}

/// Validates the two fields of a submission, before anything is stored.
pub fn validate_submission(payload: &Observation) -> (result: Result<
    (u128, [u8; OBSERVATION_LENGTH]),
    AppError,
>)
    ensures
        match submission_of(payload.uuidv7@, payload.observation@) {
            Ok((id, bytes)) => result is Ok && result->Ok_0.0 == id && result->Ok_0.1@ == bytes,
            Err(error) => result == Err::<(u128, [u8; OBSERVATION_LENGTH]), AppError>(error),
        },
{
    let uuid = match parse_uuid_v7(payload.uuidv7.as_str()) {
        Ok(uuid) => uuid,
        Err(error) => { return Err(error); },
    };
    let observation_bytes = match parse_observation(payload.observation.as_str()) {
        Ok(bytes) => bytes,
        Err(error) => { return Err(error); },
    };
    Ok((uuid, observation_bytes))
}

/// Issues a credential that the caller has drawn: enters it in the directory
/// and answers with its hexadecimal form.
pub fn post_keys(state: &mut AppState, key: ApiKey) -> (result: Result<ApiKeyResponse, AppError>)
    requires
        old(state).wf(),
    ensures
        final(state).wf(),
        final(state).limits() == old(state).limits(),
        final(state).store.credentials() == old(state).store.credentials().insert(key@),
        final(state).store.records() == old(state).store.records(),
        result is Ok,
        result->Ok_0.api_key@ == encode_pairs(key@),
{
    match store_api_key(&mut state.store, &key) {
        Ok(()) => {},
        Err(error) => { return Err(error); },
    }
    Ok(ApiKeyResponse { api_key: key.to_hex() })
}

/// Takes a submission at the time `now`, in seconds.
///
/// The fields are validated first, then the admission window is checked,
/// and only then is the record stored. Whatever is refused leaves the store
/// as it was.
pub fn post_observations(
    state: &mut AppState,
    verified: &VerifiedApiKey,
    payload: &Observation,
    now: u64,
) -> (result: Result<Observation, AppError>)
    requires
        old(state).wf(),
    ensures
        final(state).wf(),
        final(state).limits() == old(state).limits(),
        final(state).store.credentials() == old(state).store.credentials(),
        ({
            let records = old(state).store.records();
            let key = verified.key@;
            let unchanged = final(state).store.records() == records;
            match submission_of(payload.uuidv7@, payload.observation@) {
                Err(error) => unchanged && result == Err::<Observation, AppError>(error),
                Ok((id, bytes)) => if !admits(
                    recent_count(records, key, now, old(state).observation_window),
                    old(state).observation_window_cap,
                ) {
                    unchanged && result == Err::<Observation, AppError>(
                        AppError::TooManyObservations,
                    )
                } else if !old(state).store.credentials().contains(key) {
                    unchanged && result is Err && result->Err_0@ == ErrorView::Database(
                        unknown_owner_detail(),
                    )
                } else if has_id(records, id) {
                    unchanged && result is Err && result->Err_0@ == ErrorView::Database(
                        duplicate_id_detail(),
                    )
                } else {
                    &&& final(state).store.records() == with_record(
                        records,
                        RecordView { id, key, payload: bytes, created_at: now },
                    )
                    &&& result is Ok
                    &&& result->Ok_0@ == ObservationView {
                        uuidv7: hyphenated(id),
                        observation: payload.observation@,
                    }
                },
            }
        }),
{
    let (uuid, observation_bytes) = match validate_submission(payload) {
        Ok(fields) => fields,
        Err(error) => { return Err(error); },
    };
    let recent = match count_recent_observations(
        &state.store,
        &verified.key,
        state.observation_window,
        now,
    ) {
        Ok(recent) => recent,
        Err(error) => { return Err(error); },
    };
    match check_admission(recent, state.observation_window_cap) {
        Ok(()) => {},
        Err(error) => { return Err(error); },
    }
    proof {
        lemma_accepted_text_is_payload(payload.observation@);
    }
    insert_observation(&mut state.store, &verified.key, uuid, observation_bytes, now)
}

/// Answers a query for the newest observations of a credential. The count
/// asked for is bounded first; a count beyond what the credential owns
/// gives a shorter list and no error.
pub fn get_observations(state: &AppState, verified: &VerifiedApiKey, limit: Option<i64>) -> (result:
    Result<Vec<Observation>, AppError>)
    requires
        state.wf(),
    ensures
        match limit_for(limit, state.default_observation_limit, state.max_observation_limit) {
            None => result == Err::<Vec<Observation>, AppError>(AppError::InvalidLimit),
            Some(count) => result is Ok && views_of(result->Ok_0@) == displayed(
                newest(state.store.records(), verified.key@, count as int),
            ),
        },
{
    let limit = match apply_limit(
        limit,
        state.default_observation_limit,
        state.max_observation_limit,
    ) {
        Ok(limit) => limit,
        Err(error) => { return Err(error); },
    };
    fetch_observations(&state.store, &verified.key, limit)
}

/// Forgets a credential: removes it from the directory, and with it every
/// record that it owns.
pub fn post_forget_me_now(state: &mut AppState, verified: &VerifiedApiKey) -> (result: Result<
    (),
    AppError,
>)
    requires
        old(state).wf(),
    ensures
        final(state).wf(),
        final(state).limits() == old(state).limits(),
        final(state).store.credentials() == old(state).store.credentials().remove(verified.key@),
        final(state).store.records() == held_by_others(old(state).store.records(), verified.key@),
        result == Ok::<(), AppError>(()),
{
    delete_api_key(&mut state.store, &verified.key)
}

} // verus!
