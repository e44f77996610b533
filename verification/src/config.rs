//! The settings of the service, read once at start-up from what the
//! environment holds. A setting that is missing where it is required, or
//! that cannot be read, stops the start-up. Every setting of the service is
//! required; the reading with a default is for a caller with settings of
//! its own.

use crate::error::{AppError, ErrorView};
use vstd::prelude::*;

verus! {

/// What the environment holds for one variable.
#[derive(Debug, Clone)]
pub enum EnvValue {
    /// The variable is not set.
    Missing,
    /// The variable is set to what is no Unicode text.
    NotUnicode,
    Text(String),
}

/// The ten ASCII digits.
pub open spec fn is_digit(c: char) -> bool {
    '0' <= c && c <= '9'
}

/// A decimal numeral is one digit or more, and nothing else.
pub open spec fn is_decimal(digits: Seq<char>) -> bool {
    &&& digits.len() > 0
    &&& forall|i: int| 0 <= i < digits.len() ==> is_digit(#[trigger] digits[i])
}

/// The number that a decimal numeral stands for.
pub open spec fn decimal_value(digits: Seq<char>) -> nat
    decreases digits.len(),
{
    if digits.len() == 0 {
        0
    } else {
        (decimal_value(digits.drop_last()) * 10 + (digits.last() as int - '0' as int)) as nat
    }
}

/// The number that a text stands for as an unsigned type reads it: a decimal
/// numeral, with `+` before it or with no sign.
pub open spec fn unsigned_decimal(text: Seq<char>) -> Option<int> {
    let digits = if text.len() > 0 && text[0] == '+' {
        text.skip(1)
    } else {
        text
    };
    if is_decimal(digits) {
        Some(decimal_value(digits) as int)
    } else {
        None
    }
}

/// The number that a text stands for as a signed type reads it: a decimal
/// numeral, with `+` or `-` before it or with no sign.
pub open spec fn signed_decimal(text: Seq<char>) -> Option<int> {
    if text.len() > 0 && text[0] == '-' {
        if is_decimal(text.skip(1)) {
            Some(-(decimal_value(text.skip(1)) as int))
        } else {
            None
        }
    } else {
        unsigned_decimal(text)
    }
}

/// The signed 64-bit number that a text stands for.
pub open spec fn parsed_i64(text: Seq<char>) -> Option<i64> {
    match signed_decimal(text) {
        Some(value) => if i64::MIN <= value <= i64::MAX {
            Some(value as i64)
        } else {
            None
        },
        None => None,
    }
}

/// The unsigned 64-bit number that a text stands for.
pub open spec fn parsed_u64(text: Seq<char>) -> Option<u64> {
    match unsigned_decimal(text) {
        Some(value) => if value <= u64::MAX {
            Some(value as u64)
        } else {
            None
        },
        None => None,
    }
}

/// The unsigned 32-bit number that a text stands for.
pub open spec fn parsed_u32(text: Seq<char>) -> Option<u32> {
    match unsigned_decimal(text) {
        Some(value) => if value <= u32::MAX {
            Some(value as u32)
        } else {
            None
        },
        None => None,
    }
}

/// Calls `str::parse` for `i64`. The contract says that the call succeeds
/// exactly on a decimal numeral with an optional sign whose number the type
/// holds, and returns that number.
#[verifier::external_body]
fn parse_i64(text: &str) -> (value: Option<i64>)
    ensures
        value == parsed_i64(text@),
{
    text.parse::<i64>().ok()
}

/// Calls `str::parse` for `u64`. The contract says that the call succeeds
/// exactly on a decimal numeral, with `+` before it or with no sign, whose
/// number the type holds, and returns that number.
#[verifier::external_body]
fn parse_u64(text: &str) -> (value: Option<u64>)
    ensures
        value == parsed_u64(text@),
{
    text.parse::<u64>().ok()
}

/// Calls `str::parse` for `u32`. The contract says that the call succeeds
/// exactly on a decimal numeral, with `+` before it or with no sign, whose
/// number the type holds, and returns that number.
#[verifier::external_body]
fn parse_u32(text: &str) -> (value: Option<u32>)
    ensures
        value == parsed_u32(text@),
{
    text.parse::<u32>().ok()
}

/// A type that a setting can have.
pub trait Setting: Sized {
    /// The value that a text stands for, if it stands for one.
    spec fn parsed(text: Seq<char>) -> Option<Self>;

    fn read(text: &str) -> (value: Option<Self>)
        ensures
            value == Self::parsed(text@),
    ;
}

impl Setting for i64 {
    open spec fn parsed(text: Seq<char>) -> Option<i64> {
        parsed_i64(text)
    }

    fn read(text: &str) -> (value: Option<i64>) {
        parse_i64(text)
    }
}

impl Setting for u64 {
    open spec fn parsed(text: Seq<char>) -> Option<u64> {
        parsed_u64(text)
    }

    fn read(text: &str) -> (value: Option<u64>) {
        parse_u64(text)
    }
}

impl Setting for u32 {
    open spec fn parsed(text: Seq<char>) -> Option<u32> {
        parsed_u32(text)
    }

    fn read(text: &str) -> (value: Option<u32>) {
        parse_u32(text)
    }
}

/// The value of a required setting: the text that was found, and an error
/// that names the variable where none was.
pub open spec fn required_value(key: Seq<char>, found: EnvValue) -> Result<Seq<char>, ErrorView> {
    match found {
        EnvValue::Text(value) => Ok(value@),
        EnvValue::Missing => Err(ErrorView::MissingConfig(key)),
        EnvValue::NotUnicode => Err(ErrorView::InvalidConfig(key)),
    }
}

/// The value of a setting with a default: the default where the variable is
/// not set, the value that its text stands for where it is, and an error
/// that names the variable where the text stands for none.
pub open spec fn value_or_default<T: Setting>(key: Seq<char>, found: EnvValue, default: T) -> Result<
    T,
    ErrorView,
> {
    match found {
        EnvValue::Text(value) => match T::parsed(value@) {
            Some(value) => Ok(value),
            None => Err(ErrorView::InvalidConfig(key)),
        },
        EnvValue::Missing => Ok(default),
        EnvValue::NotUnicode => Err(ErrorView::InvalidConfig(key)),
    }
}

/// The value of a required setting of a type: the value that the text found
/// stands for, an error that names the variable as missing where none was
/// found, and one that names it as invalid where the text stands for none.
pub open spec fn required_setting<T: Setting>(key: Seq<char>, found: EnvValue) -> Result<
    T,
    ErrorView,
> {
    match found {
        EnvValue::Text(value) => match T::parsed(value@) {
            Some(value) => Ok(value),
            None => Err(ErrorView::InvalidConfig(key)),
        },
        EnvValue::Missing => Err(ErrorView::MissingConfig(key)),
        EnvValue::NotUnicode => Err(ErrorView::InvalidConfig(key)),
    }
}

/// Takes the value of a variable that must be set.
pub fn env_required(key: &str, found: &EnvValue) -> (result: Result<String, AppError>)
    ensures
        match required_value(key@, *found) {
            Ok(value) => result is Ok && result->Ok_0@ == value,
            Err(error) => result is Err && result->Err_0@ == error,
        },
{
    match found {
        EnvValue::Text(value) => Ok(value.clone()),
        EnvValue::Missing => Err(AppError::MissingConfig(key.to_owned())),
        EnvValue::NotUnicode => Err(AppError::InvalidConfig(key.to_owned())),
    }
}

/// Reads the value of a variable that must be set.
pub fn env_setting<T: Setting>(key: &str, found: &EnvValue) -> (result: Result<T, AppError>)
    ensures
        match required_setting::<T>(key@, *found) {
            Ok(value) => result == Ok::<T, AppError>(value),
            Err(error) => result is Err && result->Err_0@ == error,
        },
{
    match found {
        EnvValue::Text(value) => match T::read(value.as_str()) {
            Some(value) => Ok(value),
            None => Err(AppError::InvalidConfig(key.to_owned())),
        },
        EnvValue::Missing => Err(AppError::MissingConfig(key.to_owned())),
        EnvValue::NotUnicode => Err(AppError::InvalidConfig(key.to_owned())),
    }
}

/// Reads the value of a variable, or takes the default where it is not set.
pub fn env_or_default<T: Setting>(key: &str, found: &EnvValue, default: T) -> (result: Result<
    T,
    AppError,
>)
    ensures
        match value_or_default(key@, *found, default) {
            Ok(value) => result == Ok::<T, AppError>(value),
            Err(error) => result is Err && result->Err_0@ == error,
        },
{
    match found {
        EnvValue::Text(value) => match T::read(value.as_str()) {
            Some(value) => Ok(value),
            None => Err(AppError::InvalidConfig(key.to_owned())),
        },
        EnvValue::Missing => Ok(default),
        EnvValue::NotUnicode => Err(AppError::InvalidConfig(key.to_owned())),
    }
}

} // verus!
