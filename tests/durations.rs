use tomltojson::duration::{parse_modified, DurationError};
use tomltojson::eligibility::is_transcode_eligible;

#[test]
fn duration_units_multiply() {
    assert_eq!(parse_modified("1s"), Ok(1));
    assert_eq!(parse_modified("1m"), Ok(60));
    assert_eq!(parse_modified("1h"), Ok(3600));
    assert_eq!(parse_modified("1d"), Ok(86400));
    assert_eq!(parse_modified("0s"), Ok(0));
    assert_eq!(parse_modified("007m"), Ok(420));
    assert_eq!(parse_modified("300s"), Ok(300));
}

#[test]
fn duration_rejects_other_shapes() {
    for s in ["", "d", "5", "24hr", "abc", "a30m", "60j", "+5d", " 5d", "5 d", "5D", "1.5h", "-3s", "5ds"] {
        assert_eq!(parse_modified(s), Err(DurationError::InvalidFormat), "{s:?}");
    }
}

#[test]
fn duration_largest_values() {
    assert_eq!(parse_modified("18446744073709551615s"), Ok(u64::MAX));
    assert_eq!(parse_modified("213503982334601d"), Ok(213503982334601 * 86400));
    assert_eq!(parse_modified("213503982334602d"), Err(DurationError::OutOfRange));
    assert_eq!(parse_modified("18446744073709551616s"), Err(DurationError::OutOfRange));
    assert_eq!(parse_modified("99999999999999999999999m"), Err(DurationError::OutOfRange));
}

#[test]
fn eligibility_is_strictly_younger() {
    let thirty_days = parse_modified("30d").unwrap();
    assert!(!is_transcode_eligible(thirty_days, Some(thirty_days)));
    assert!(is_transcode_eligible(thirty_days - 1, Some(thirty_days)));
    assert!(!is_transcode_eligible(thirty_days + 1, Some(thirty_days)));
    assert!(is_transcode_eligible(0, Some(1)));
    assert!(!is_transcode_eligible(0, Some(0)));
    assert!(is_transcode_eligible(u64::MAX, None));
}
