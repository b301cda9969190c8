use voice_core::schema::{parse_duration, parse_time};

#[test]
fn test_parse_duration() {
    assert_eq!(parse_duration("30s").unwrap(), 30);
    assert_eq!(parse_duration("5m").unwrap(), 300);
    assert_eq!(parse_duration("1h").unwrap(), 3600);
    assert_eq!(parse_duration("1h30m").unwrap(), 5400);
    assert_eq!(parse_duration("1d").unwrap(), 86400);
}

#[test]
fn test_parse_time() {
    assert_eq!(parse_time("09:00").unwrap(), (9, 0));
    assert_eq!(parse_time("22:30").unwrap(), (22, 30));
    assert_eq!(parse_time("00:00").unwrap(), (0, 0));
    assert_eq!(parse_time("23:59").unwrap(), (23, 59));
}

#[test]
fn parse_duration_rejects_bad_unit() {
    let e = parse_duration("5x").unwrap_err();
    assert_eq!(e, "Unknown duration unit: x");
}

#[test]
fn parse_duration_rejects_missing_number() {
    let e = parse_duration("h").unwrap_err();
    assert_eq!(e, "Invalid number in duration: h");
}

#[test]
fn parse_duration_rejects_zero() {
    let e = parse_duration("").unwrap_err();
    assert_eq!(e, "Invalid duration: ");
    let e2 = parse_duration("30").unwrap_err();
    assert_eq!(e2, "Invalid duration: 30");
}

#[test]
fn parse_time_rejects_bad_shape() {
    assert!(parse_time("0900").is_err());
    assert!(parse_time("09:00:00").is_err());
    assert!(parse_time("24:00").is_err());
    assert!(parse_time("12:60").is_err());
    assert!(parse_time("ab:cd").is_err());
}
