use brief_measure::error::AppError;
use brief_measure::observation::{observation_from_row, observations_from_rows};

#[test]
fn row_is_shown_with_a_hyphenated_lower_case_identifier() {
    let shown =
        observation_from_row(0x01890A5D_AC96_774B_BCCE_B302099A8057, b"1234123412".to_vec())
            .unwrap();
    assert_eq!(shown.uuidv7, "01890a5d-ac96-774b-bcce-b302099a8057");
    assert_eq!(shown.observation, "1234123412");
    let low = observation_from_row(0x1f, Vec::new()).unwrap();
    assert_eq!(low.uuidv7, "00000000-0000-0000-0000-00000000001f");
    assert_eq!(low.observation, "");
    let high = observation_from_row(u128::MAX, "é".as_bytes().to_vec()).unwrap();
    assert_eq!(high.uuidv7, "ffffffff-ffff-ffff-ffff-ffffffffffff");
    assert_eq!(high.observation, "é");
}

#[test]
fn row_with_a_payload_that_is_no_utf8_is_an_error() {
    assert_eq!(
        observation_from_row(1, vec![0x31, 0xff]).err(),
        Some(AppError::InvalidObservation)
    );
    assert_eq!(
        observation_from_row(1, vec![0xc3]).err(),
        Some(AppError::InvalidObservation)
    );
    assert_eq!(
        observation_from_row(1, vec![0xed, 0xa0, 0x80]).err(),
        Some(AppError::InvalidObservation)
    );
}

#[test]
fn rows_are_shown_in_their_order() {
    let rows = vec![
        (3u128, b"3333333333".to_vec()),
        (1u128, b"1111111111".to_vec()),
        (2u128, b"2222222222".to_vec()),
    ];
    let shown = observations_from_rows(&rows).unwrap();
    assert_eq!(shown.len(), 3);
    assert_eq!(shown[0].uuidv7, "00000000-0000-0000-0000-000000000003");
    assert_eq!(shown[0].observation, "3333333333");
    assert_eq!(shown[1].uuidv7, "00000000-0000-0000-0000-000000000001");
    assert_eq!(shown[2].observation, "2222222222");
    assert!(observations_from_rows(&Vec::new()).unwrap().is_empty());
}

#[test]
fn rows_with_one_bad_payload_are_an_error() {
    let rows = vec![(3u128, b"3333333333".to_vec()), (1u128, vec![0x80])];
    assert_eq!(observations_from_rows(&rows).err(), Some(AppError::InvalidObservation));
}
