//! Reading the credential from the `Authorization` header of a request.

use crate::credential::{key_of_text, ApiKey};
use crate::error::AppError;
use crate::text::{lemma_trimmed_is_bare, trim, trimmed};
use vstd::prelude::*;
use vstd::string::*;

verus! {

/// A credential that was read from a request and found in the directory.
pub struct VerifiedApiKey {
    pub key: ApiKey,
}

/// The scheme that a header value must begin with, its space included.
pub open spec fn bearer_prefix() -> Seq<char> {
    seq!['B', 'e', 'a', 'r', 'e', 'r', ' ']
}

/// What follows the scheme in a header value, if the value begins with it.
pub open spec fn bearer_token(header: Seq<char>) -> Option<Seq<char>> {
    if header.len() >= 7 && header.take(7) == bearer_prefix() {
        Some(header.skip(7))
    } else {
        None
    }
}

/// The credential that a header stands for: the header is there, begins with
/// the scheme, and what follows is a credential's text.
pub open spec fn key_of_header(header: Option<Seq<char>>) -> Option<Seq<u8>> {
    match header {
        Some(value) => match bearer_token(value) {
            Some(token) => key_of_text(token),
            None => None,
        },
        None => None,
    }
}

/// Reads the credential from a header value, where there is one. A missing
/// header, another scheme and a malformed credential all give the same error.
pub fn key_from_header(header: Option<&str>) -> (result: Result<ApiKey, AppError>)
    ensures
        match key_of_header(
            match header {
                Some(value) => Some(value@),
                None => None,
            },
        ) {
            Some(bytes) => result is Ok && result->Ok_0@ == bytes,
            None => result == Err::<ApiKey, AppError>(AppError::Unauthorized),
        },
{
    let value = match header {
        Some(value) => value,
        None => { return Err(AppError::Unauthorized); },
    };
    let prefix = "Bearer ";
    proof {
        reveal_strlit("Bearer ");
    }
    let length = value.unicode_len();
    if length < 7 {
        return Err(AppError::Unauthorized);
    }
    let mut at: usize = 0;
    while at < 7
        invariant
            at <= 7,
            header == Some(value),
            value@.len() >= 7,
            prefix@ == bearer_prefix(),
            forall|j: int| 0 <= j < at ==> value@[j] == bearer_prefix()[j],
        decreases 7 - at,
    {
        if value.get_char(at) != prefix.get_char(at) {
            assert(value@.take(7)[at as int] != bearer_prefix()[at as int]);
            return Err(AppError::Unauthorized);
        }
        at += 1;
    }
    assert(value@.take(7) =~= bearer_prefix());
    let token = trim(value.substring_char(7, length));
    proof {
        assert(value@.subrange(7, length as int) =~= value@.skip(7));
        lemma_trimmed_is_bare(value@.skip(7));
    }
    ApiKey::from_hex(token)
}

} // verus!
