use brief_measure::auth::key_from_header;
use brief_measure::credential::{ApiKey, API_KEY_LENGTH};
use brief_measure::error::AppError;

fn sample() -> ApiKey {
    let mut bytes = [0x3cu8; API_KEY_LENGTH];
    bytes[0] = 0x01;
    bytes[31] = 0xfe;
    ApiKey { bytes }
}

#[test]
fn header_with_a_bearer_credential_is_read() {
    let header = format!("Bearer {}", sample().to_hex());
    assert_eq!(key_from_header(Some(&header)), Ok(sample()));
}

#[test]
fn header_token_is_trimmed() {
    let header = format!("Bearer   {}  ", sample().to_hex());
    assert_eq!(key_from_header(Some(&header)), Ok(sample()));
    let tabbed = format!("Bearer \t{}\t", sample().to_hex().to_uppercase());
    assert_eq!(key_from_header(Some(&tabbed)), Ok(sample()));
}

#[test]
fn header_that_is_missing_is_unauthorized() {
    assert_eq!(key_from_header(None), Err(AppError::Unauthorized));
}

#[test]
fn header_of_another_scheme_is_unauthorized() {
    let hex = sample().to_hex();
    for header in [
        format!("Basic {hex}"),
        format!("bearer {hex}"),
        format!("Bearer{hex}"),
        format!(" Bearer {hex}"),
        format!("Bearer\t{hex}"),
        hex.clone(),
        "Bearer".to_string(),
        "Bear".to_string(),
        String::new(),
    ] {
        assert_eq!(key_from_header(Some(&header)), Err(AppError::Unauthorized));
    }
}

#[test]
fn header_with_a_malformed_credential_is_unauthorized() {
    assert_eq!(key_from_header(Some("Bearer ")), Err(AppError::Unauthorized));
    assert_eq!(key_from_header(Some("Bearer abc")), Err(AppError::Unauthorized));
    let long = format!("Bearer {}0", sample().to_hex());
    assert_eq!(key_from_header(Some(&long)), Err(AppError::Unauthorized));
    let split = format!("Bearer {} {}", "0".repeat(31), "0".repeat(32));
    assert_eq!(key_from_header(Some(&split)), Err(AppError::Unauthorized));
    let wide = format!("Bearer {}\u{e9}", "0".repeat(62));
    assert_eq!(key_from_header(Some(&wide)), Err(AppError::Unauthorized));
}
