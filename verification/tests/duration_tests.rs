use sleep_fade::duration_parse::{ParseError, TimeInterval};

#[test]
fn hours_suffix_scales_by_3600() {
    let t = TimeInterval::parse_from_str("1h").unwrap();
    assert_eq!(t.total_seconds(), 3600);
    let t = TimeInterval::parse_from_str("2h").unwrap();
    assert_eq!(t.total_seconds(), 7200);
    let t = TimeInterval::parse_from_str("0h").unwrap();
    assert_eq!(t.total_seconds(), 0);
    let t = TimeInterval::parse_from_str("25hour").unwrap();
    assert_eq!(t.total_seconds(), 90000);
}

#[test]
fn minutes_suffix_scales_by_60() {
    let t = TimeInterval::parse_from_str("1m").unwrap();
    assert_eq!(t.total_seconds(), 60);
    let t = TimeInterval::parse_from_str("30m").unwrap();
    assert_eq!(t.total_seconds(), 1800);
    let t = TimeInterval::parse_from_str("30min").unwrap();
    assert_eq!(t.total_seconds(), 1800);
    let t = TimeInterval::parse_from_str("5minute").unwrap();
    assert_eq!(t.total_seconds(), 300);
}

#[test]
fn unit_match_is_case_insensitive() {
    assert_eq!(TimeInterval::parse_from_str("2H").unwrap().total_seconds(), 7200);
    assert_eq!(TimeInterval::parse_from_str("30MIN").unwrap().total_seconds(), 1800);
}

#[test]
fn hours_win_when_unit_names_both() {
    assert_eq!(TimeInterval::parse_from_str("1hm").unwrap().total_seconds(), 3600);
}

#[test]
fn explicit_unit_seconds_are_added() {
    let t = TimeInterval::parse_from_str("1h:25").unwrap();
    assert_eq!(t.total_seconds(), 3625);
}

#[test]
fn explicit_unit_seconds_may_exceed_59() {
    let t = TimeInterval::parse_from_str("1h:90").unwrap();
    assert_eq!(t.total_seconds(), 3690);
    let t = TimeInterval::parse_from_str("1m:90").unwrap();
    assert_eq!(t.total_seconds(), 150);
}

#[test]
fn bare_number_has_no_unit() {
    match TimeInterval::parse_from_str("45") {
        Err(ParseError::InvalidUnit(tok)) => assert_eq!(tok, ""),
        other => panic!("expected an invalid-unit failure, got {:?}", other),
    }
}

#[test]
fn empty_unit_caps_seconds_at_59() {
    match TimeInterval::parse_from_str("30:70") {
        Err(ParseError::SecondsOutOfRange) => {}
        other => panic!("expected the seconds cap failure, got {:?}", other),
    }
    assert_eq!(
        TimeInterval::parse_from_str("30:70").unwrap_err().message(),
        "Seconds cannot exceed 59"
    );
}

#[test]
fn empty_unit_with_small_seconds_keeps_only_seconds() {
    let t = TimeInterval::parse_from_str("30:45").unwrap();
    assert_eq!(t.total_seconds(), 45);
}

#[test]
fn missing_digits_is_invalid_duration() {
    match TimeInterval::parse_from_str("abc") {
        Err(ParseError::InvalidDuration(tok)) => assert_eq!(tok, "abc"),
        other => panic!("expected an invalid-duration failure, got {:?}", other),
    }
    match TimeInterval::parse_from_str("") {
        Err(ParseError::InvalidDuration(tok)) => assert_eq!(tok, ""),
        other => panic!("expected an invalid-duration failure, got {:?}", other),
    }
    match TimeInterval::parse_from_str(":30") {
        Err(ParseError::InvalidDuration(tok)) => assert_eq!(tok, ""),
        other => panic!("expected an invalid-duration failure, got {:?}", other),
    }
}

#[test]
fn oversized_number_is_invalid_duration() {
    match TimeInterval::parse_from_str("99999999999999999999h") {
        Err(ParseError::InvalidDuration(tok)) => assert_eq!(tok, "99999999999999999999h"),
        other => panic!("expected an invalid-duration failure, got {:?}", other),
    }
}

#[test]
fn oversized_total_is_invalid_duration() {
    match TimeInterval::parse_from_str("6000000000000000h") {
        Err(ParseError::InvalidDuration(_)) => {}
        other => panic!("expected an invalid-duration failure, got {:?}", other),
    }
}

#[test]
fn largest_total_still_parses() {
    let t = TimeInterval::parse_from_str("0h:18446744073709551615").unwrap();
    assert_eq!(t.total_seconds(), u64::MAX);
}

#[test]
fn bad_seconds_segment_is_invalid_seconds() {
    match TimeInterval::parse_from_str("1h:2x") {
        Err(ParseError::InvalidSeconds(tok)) => assert_eq!(tok, "2x"),
        other => panic!("expected an invalid-seconds failure, got {:?}", other),
    }
    match TimeInterval::parse_from_str("30:") {
        Err(ParseError::InvalidSeconds(tok)) => assert_eq!(tok, ""),
        other => panic!("expected an invalid-seconds failure, got {:?}", other),
    }
    match TimeInterval::parse_from_str("1h:25:30") {
        Err(ParseError::InvalidSeconds(tok)) => assert_eq!(tok, "25:30"),
        other => panic!("expected an invalid-seconds failure, got {:?}", other),
    }
}

#[test]
fn messages_embed_the_offending_token() {
    assert_eq!(
        TimeInterval::parse_from_str("abc").unwrap_err().message(),
        "Invalid duration: abc"
    );
    assert_eq!(
        TimeInterval::parse_from_str("45x").unwrap_err().message(),
        "Invalid unit: x"
    );
    assert_eq!(
        TimeInterval::parse_from_str("1h:2x").unwrap_err().message(),
        "Invalid seconds: 2x"
    );
}

#[test]
fn from_str_renders_failures() {
    let r: Result<TimeInterval, String> = "45".parse();
    assert_eq!(r.unwrap_err(), "Invalid unit: ");
    let r: Result<TimeInterval, String> = "1h25".parse();
    assert_eq!(r.unwrap().total_seconds(), 3600);
}

#[test]
fn to_duration_carries_the_total() {
    let t = TimeInterval::parse_from_str("1h:25").unwrap();
    let d = t.to_duration();
    assert_eq!(d.as_secs(), 3625);
    assert_eq!(d.subsec_nanos(), 0);
}
