use brief_measure::codec::{parse_observation, parse_uuid_v7, require_v7};
use brief_measure::error::AppError;

#[test]
fn parse_observation_returns_the_ascii_codes() {
    assert_eq!(
        parse_observation("1234123412"),
        Ok([0x31, 0x32, 0x33, 0x34, 0x31, 0x32, 0x33, 0x34, 0x31, 0x32])
    );
    assert_eq!(parse_observation("4444444444"), Ok([0x34; 10]));
}

#[test]
fn parse_observation_rejects_wrong_length() {
    assert_eq!(parse_observation(""), Err(AppError::InvalidObservation));
    assert_eq!(parse_observation("12345"), Err(AppError::InvalidObservation));
    assert_eq!(parse_observation("12345678900"), Err(AppError::InvalidObservation));
    assert_eq!(parse_observation("12341234123"), Err(AppError::InvalidObservation));
}

#[test]
fn parse_observation_rejects_other_characters() {
    assert_eq!(parse_observation("123456789a"), Err(AppError::InvalidObservation));
    assert_eq!(parse_observation("1234123410"), Err(AppError::InvalidObservation));
    assert_eq!(parse_observation("1234123415"), Err(AppError::InvalidObservation));
    assert_eq!(parse_observation("123412341\u{e9}"), Err(AppError::InvalidObservation));
    assert_eq!(parse_observation("12341234\u{e9}"), Err(AppError::InvalidObservation));
}

#[test]
fn parse_observation_does_not_trim() {
    assert_eq!(parse_observation(" 123412341"), Err(AppError::InvalidObservation));
    assert_eq!(parse_observation("123412341 "), Err(AppError::InvalidObservation));
    assert_eq!(parse_observation("1234123412\n"), Err(AppError::InvalidObservation));
}

#[test]
fn parse_uuid_v7_accepts_version_7() {
    assert_eq!(
        parse_uuid_v7("01890a5d-ac96-774b-bcce-b302099a8057"),
        Ok(0x01890a5d_ac96_774b_bcce_b302099a8057)
    );
    assert_eq!(
        parse_uuid_v7("01890A5DAC96774BBCCEB302099A8057"),
        Ok(0x01890a5d_ac96_774b_bcce_b302099a8057)
    );
}

#[test]
fn parse_uuid_v7_rejects_other_versions() {
    assert_eq!(
        parse_uuid_v7("550e8400-e29b-41d4-a716-446655440000"),
        Err(AppError::InvalidUuid)
    );
    assert_eq!(
        parse_uuid_v7("00000000-0000-0000-0000-000000000000"),
        Err(AppError::InvalidUuid)
    );
    assert_eq!(
        parse_uuid_v7("01890a5d-ac96-674b-bcce-b302099a8057"),
        Err(AppError::InvalidUuid)
    );
}

#[test]
fn parse_uuid_v7_rejects_what_is_no_uuid() {
    assert_eq!(parse_uuid_v7(""), Err(AppError::InvalidUuid));
    assert_eq!(parse_uuid_v7("not-a-uuid"), Err(AppError::InvalidUuid));
    assert_eq!(
        parse_uuid_v7("01890a5d-ac96-774b-bcce-b302099a805"),
        Err(AppError::InvalidUuid)
    );
    assert_eq!(
        parse_uuid_v7("01890a5d-ac96-774b-bcce-b302099a805g"),
        Err(AppError::InvalidUuid)
    );
}

#[test]
fn require_v7_reads_the_version_digit() {
    assert_eq!(require_v7(None), Err(AppError::InvalidUuid));
    assert_eq!(require_v7(Some(7u128 << 76)), Ok(7u128 << 76));
    assert_eq!(require_v7(Some(8u128 << 76)), Err(AppError::InvalidUuid));
    assert_eq!(require_v7(Some(7u128 << 72)), Err(AppError::InvalidUuid));
    assert_eq!(require_v7(Some(7u128 << 80)), Err(AppError::InvalidUuid));
    assert_eq!(require_v7(Some(u128::MAX)), Err(AppError::InvalidUuid));
    assert_eq!(
        require_v7(Some(u128::MAX & !(8u128 << 76))),
        Ok(u128::MAX & !(8u128 << 76))
    );
}

#[test]
fn parse_uuid_v7_reads_the_four_written_forms() {
    let id = 0x01890a5d_ac96_774b_bcce_b302099a8057u128;
    assert_eq!(parse_uuid_v7("01890a5dac96774bbcceb302099a8057"), Ok(id));
    assert_eq!(parse_uuid_v7("01890a5d-ac96-774b-bcce-b302099a8057"), Ok(id));
    assert_eq!(parse_uuid_v7("{01890a5d-ac96-774b-bcce-b302099a8057}"), Ok(id));
    assert_eq!(parse_uuid_v7("urn:uuid:01890a5d-ac96-774b-bcce-b302099a8057"), Ok(id));
    assert_eq!(parse_uuid_v7("URN:UUID:01890A5D-AC96-774B-BCCE-B302099A8057"), Ok(id));
    assert_eq!(parse_uuid_v7("Urn:uUid:01890a5d-ac96-774b-bcce-b302099a8057"), Ok(id));
}

#[test]
fn parse_uuid_v7_rejects_near_misses_of_the_written_forms() {
    for text in [
        "{01890a5dac96774bbcceb302099a8057}",
        "(01890a5d-ac96-774b-bcce-b302099a8057)",
        "{01890a5d-ac96-774b-bcce-b302099a8057",
        "urn-uuid:01890a5d-ac96-774b-bcce-b302099a8057",
        "urn:uuid:01890a5dac96774bbcceb302099a8057",
        "urn:uuid:{01890a5d-ac96-774b-bcce-b302099a8057}",
        "01890a5d_ac96_774b_bcce_b302099a8057",
        "01890a5da-c96-774b-bcce-b302099a8057",
        "01890a5d-ac96-774b-bcce-b302099a80 7",
        " 01890a5d-ac96-774b-bcce-b302099a8057",
        "01890a5d-ac96-774b-bcce-b302099a8057 ",
        "01890a5d-ac96-774b-bcce-b302099a805\u{ff17}",
        "01890a5d-ac96-774b-bcce-b302099a80\u{e9}",
        "01890a5dac96774bbcceb302099a80\u{e9}",
        "-1890a5dac96774bbcceb302099a8057",
        "+1890a5dac96774bbcceb302099a8057",
        "0x890a5dac96774bbcceb302099a8057",
    ] {
        assert_eq!(parse_uuid_v7(text), Err(AppError::InvalidUuid));
    }
}
