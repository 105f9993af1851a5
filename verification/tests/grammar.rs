use agmd::agmd::{parse_agmd, Agmd};
use agmd::date::Date;
use agmd::date_range::{parse_date_range, DateFormat, DateRangeFormat, QueryParseError};

fn d(y: u16, m: u8, day: u8) -> Date {
    Date::new(y, m, day).unwrap()
}

#[test]
fn bare_date_embedded_anywhere() {
    let r = parse_agmd("note 2025-11-30 tail").unwrap();
    assert_eq!(r.start, Some(d(2025, 11, 30)));
    assert_eq!(r.due, Some(d(2025, 11, 30)));
}

#[test]
fn bare_date_exact() {
    let r = parse_agmd("2025-12-01").unwrap();
    assert_eq!(r.start, Some(d(2025, 12, 1)));
    assert_eq!(r.due, Some(d(2025, 12, 1)));
}

#[test]
fn bare_date_skips_invalid_candidates() {
    let r = parse_agmd("2025-13-01 2025-11-30").unwrap();
    assert_eq!(r.start, Some(d(2025, 11, 30)));
    assert_eq!(r.due, Some(d(2025, 11, 30)));
}

#[test]
fn bare_date_first_occurrence_wins() {
    let r = parse_agmd("2025-01-02 2025-03-04").unwrap();
    assert_eq!(r.start, Some(d(2025, 1, 2)));
    assert_eq!(r.due, Some(d(2025, 1, 2)));
}

#[test]
fn key_value_start_and_due() {
    let r = parse_agmd("start=2025-11-30;due=2025-12-20").unwrap();
    assert_eq!(r.start, Some(d(2025, 11, 30)));
    assert_eq!(r.due, Some(d(2025, 12, 20)));
}

#[test]
fn key_value_due_only() {
    let r = parse_agmd("due=2025-12-30").unwrap();
    assert_eq!(r.start, None);
    assert_eq!(r.due, Some(d(2025, 12, 30)));
}

#[test]
fn key_value_start_only() {
    let r = parse_agmd("start=2025-02-28").unwrap();
    assert_eq!(r.start, Some(d(2025, 2, 28)));
    assert_eq!(r.due, None);
}

#[test]
fn invalid_month_rejected() {
    assert_eq!(parse_agmd("start=2025-13-01"), None);
}

#[test]
fn invalid_day_rejected() {
    assert_eq!(parse_agmd("due=2025-02-29"), None);
    assert!(parse_agmd("due=2024-02-29").is_some());
}

#[test]
fn empty_body_is_fully_open() {
    let r = parse_agmd("").unwrap();
    assert_eq!(r, Agmd { start: None, due: None });
}

#[test]
fn trailing_semicolon_tolerated() {
    let r = parse_agmd("start=2025-11-30;").unwrap();
    assert_eq!(r.start, Some(d(2025, 11, 30)));
    assert_eq!(r.due, None);
}

#[test]
fn one_bad_component_fails_whole_parse() {
    assert_eq!(parse_agmd("start=2025-11-30;oops"), None);
    assert_eq!(parse_agmd("junk"), None);
}

#[test]
fn unknown_key_validated_but_ignored() {
    let r = parse_agmd("other=2025-03-03").unwrap();
    assert_eq!(r, Agmd { start: None, due: None });
    assert_eq!(parse_agmd("other=2025-33-03"), None);
}

#[test]
fn later_key_occurrence_wins() {
    let r = parse_agmd("start=2025-01-01;start=2025-02-02").unwrap();
    assert_eq!(r.start, Some(d(2025, 2, 2)));
}

#[test]
fn query_single_forms() {
    assert_eq!(
        parse_date_range("5"),
        Ok(DateRangeFormat::Single(DateFormat::Relative(5)))
    );
    assert_eq!(
        parse_date_range("+3"),
        Ok(DateRangeFormat::Single(DateFormat::Relative(3)))
    );
    assert_eq!(
        parse_date_range("-1"),
        Ok(DateRangeFormat::Single(DateFormat::Relative(-1)))
    );
    assert_eq!(
        parse_date_range("007"),
        Ok(DateRangeFormat::Single(DateFormat::Relative(7)))
    );
}

#[test]
fn query_range_forms() {
    assert_eq!(
        parse_date_range("-1..3"),
        Ok(DateRangeFormat::Range(
            Some(DateFormat::Relative(-1)),
            Some(DateFormat::Relative(3))
        ))
    );
    assert_eq!(
        parse_date_range(".."),
        Ok(DateRangeFormat::Range(None, None))
    );
    assert_eq!(
        parse_date_range("..3"),
        Ok(DateRangeFormat::Range(None, Some(DateFormat::Relative(3))))
    );
    assert_eq!(
        parse_date_range("-1.."),
        Ok(DateRangeFormat::Range(Some(DateFormat::Relative(-1)), None))
    );
}

#[test]
fn query_rejects_garbage() {
    assert_eq!(parse_date_range("abc"), Err(QueryParseError::NotAQuery));
    assert_eq!(parse_date_range(""), Err(QueryParseError::NotAQuery));
    assert_eq!(parse_date_range("1..2..3"), Err(QueryParseError::NotAQuery));
    assert_eq!(parse_date_range("ab"), Err(QueryParseError::NotAQuery));
    assert_eq!(parse_date_range("+"), Err(QueryParseError::NotAQuery));
    assert_eq!(parse_date_range("1.2"), Err(QueryParseError::NotAQuery));
}

#[test]
fn query_single_overflow_is_an_error() {
    assert_eq!(
        parse_date_range("99999999999999999999"),
        Err(QueryParseError::OffsetOutOfRange)
    );
    assert_eq!(
        parse_date_range("9223372036854775807"),
        Ok(DateRangeFormat::Single(DateFormat::Relative(i64::MAX)))
    );
    assert_eq!(
        parse_date_range("-9223372036854775808"),
        Ok(DateRangeFormat::Single(DateFormat::Relative(i64::MIN)))
    );
    assert_eq!(
        parse_date_range("-9223372036854775809"),
        Err(QueryParseError::OffsetOutOfRange)
    );
}

#[test]
fn query_range_overflowing_side_is_open() {
    assert_eq!(
        parse_date_range("99999999999999999999..3"),
        Ok(DateRangeFormat::Range(None, Some(DateFormat::Relative(3))))
    );
}

#[test]
fn error_messages_are_descriptive() {
    assert_eq!(
        QueryParseError::NotAQuery.message(),
        "neither single date or range"
    );
    assert_eq!(
        QueryParseError::OffsetOutOfRange.message(),
        "date offset out of range"
    );
}

#[test]
fn query_render_round_trip() {
    for q in ["0", "5", "-1", "-1..3", "..", "..3", "-1.."] {
        let parsed = parse_date_range(q).unwrap();
        assert_eq!(parse_date_range(&parsed.render()).unwrap(), parsed);
    }
    assert_eq!(DateRangeFormat::default().render(), "0");
    assert_eq!(DateFormat::Relative(-12).render(), "-12");
}

#[test]
fn date_constructor_validates() {
    assert!(Date::new(2025, 6, 15).is_some());
    assert!(Date::new(2025, 0, 15).is_none());
    assert!(Date::new(2025, 13, 1).is_none());
    assert!(Date::new(2025, 2, 29).is_none());
    assert!(Date::new(2024, 2, 29).is_some());
    assert!(Date::new(2000, 2, 29).is_some());
    assert!(Date::new(1900, 2, 29).is_none());
}

#[test]
fn day_numbers_count_days() {
    let a = d(2025, 6, 15).to_day_number();
    let b = d(2025, 6, 20).to_day_number();
    assert_eq!(b - a, 5);
    let c = d(2025, 12, 31).to_day_number();
    let e = d(2026, 1, 1).to_day_number();
    assert_eq!(e - c, 1);
    let f = d(2024, 2, 28).to_day_number();
    let g = d(2024, 3, 1).to_day_number();
    assert_eq!(g - f, 2);
}
