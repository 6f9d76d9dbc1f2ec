use submod::dialect::Dialect;
use submod::error::SubError;
use submod::timecode::TimeCode;

#[test]
fn parses_a_subrip_timestamp() {
    assert_eq!(
        TimeCode::parse(b"01:02:03,004", Dialect::Srt),
        Ok(TimeCode { total_milliseconds: 3_723_004 })
    );
}

#[test]
fn parses_a_webvtt_timestamp() {
    assert_eq!(
        TimeCode::parse(b"00:00:10.500", Dialect::Vtt),
        Ok(TimeCode { total_milliseconds: 10_500 })
    );
}

#[test]
fn rejects_the_separator_of_the_other_dialect() {
    assert_eq!(TimeCode::parse(b"00:00:10.500", Dialect::Srt), Err(SubError::MalformedTimestamp));
    assert_eq!(TimeCode::parse(b"00:00:10,500", Dialect::Vtt), Err(SubError::MalformedTimestamp));
}

#[test]
fn rejects_fields_out_of_range() {
    assert_eq!(TimeCode::parse(b"00:60:00,000", Dialect::Srt), Err(SubError::MalformedTimestamp));
    assert_eq!(TimeCode::parse(b"00:00:60,000", Dialect::Srt), Err(SubError::MalformedTimestamp));
    assert_eq!(TimeCode::parse(b"00:59:59,999", Dialect::Srt), Ok(TimeCode { total_milliseconds: 3_599_999 }));
}

#[test]
fn rejects_a_wrong_width() {
    assert_eq!(TimeCode::parse(b"0:00:01,000", Dialect::Srt), Err(SubError::MalformedTimestamp));
    assert_eq!(TimeCode::parse(b"00:0:01,000", Dialect::Srt), Err(SubError::MalformedTimestamp));
    assert_eq!(TimeCode::parse(b"00:00:01,00", Dialect::Srt), Err(SubError::MalformedTimestamp));
    assert_eq!(TimeCode::parse(b"", Dialect::Srt), Err(SubError::MalformedTimestamp));
    assert_eq!(TimeCode::parse(b"00:00:01,000 ", Dialect::Srt), Err(SubError::MalformedTimestamp));
}

#[test]
fn hours_grow_beyond_two_digits() {
    assert_eq!(
        TimeCode::parse(b"123:00:00,000", Dialect::Srt),
        Ok(TimeCode { total_milliseconds: 442_800_000 })
    );
    assert_eq!(
        TimeCode { total_milliseconds: 442_800_000 }.format(Dialect::Srt),
        b"123:00:00,000".to_vec()
    );
}

#[test]
fn rejects_hours_beyond_the_range() {
    assert_eq!(
        TimeCode::parse(b"99999999999999999999999:00:00,000", Dialect::Srt),
        Err(SubError::MalformedTimestamp)
    );
    assert_eq!(
        TimeCode::parse(b"2562047788015:12:55,807", Dialect::Srt),
        Ok(TimeCode { total_milliseconds: i64::MAX })
    );
    assert_eq!(
        TimeCode::parse(b"2562047788015:12:55,808", Dialect::Srt),
        Err(SubError::MalformedTimestamp)
    );
}

#[test]
fn formats_with_zero_padding() {
    assert_eq!(TimeCode { total_milliseconds: 0 }.format(Dialect::Srt), b"00:00:00,000".to_vec());
    assert_eq!(TimeCode { total_milliseconds: 3_723_004 }.format(Dialect::Vtt), b"01:02:03.004".to_vec());
    assert_eq!(TimeCode { total_milliseconds: 61_001 }.format(Dialect::Srt), b"00:01:01,001".to_vec());
}

#[test]
fn formats_an_instant_before_the_start() {
    assert_eq!(TimeCode { total_milliseconds: -1500 }.format(Dialect::Srt), b"-00:00:01,500".to_vec());
    assert_eq!(
        TimeCode { total_milliseconds: i64::MIN }.format(Dialect::Srt),
        b"-2562047788015:12:55,808".to_vec()
    );
}

#[test]
fn format_then_parse_gives_the_instant_back() {
    for ms in [0i64, 1, 999, 1000, 59_999, 60_000, 3_599_999, 3_600_000, 86_400_000, i64::MAX] {
        let t = TimeCode { total_milliseconds: ms };
        assert_eq!(TimeCode::parse(&t.format(Dialect::Srt), Dialect::Srt), Ok(t));
        assert_eq!(TimeCode::parse(&t.format(Dialect::Vtt), Dialect::Vtt), Ok(t));
    }
}

#[test]
fn shift_is_plain_addition() {
    let t = TimeCode { total_milliseconds: 2000 };
    assert_eq!(t.shift(-3000), TimeCode { total_milliseconds: -1000 });
    assert_eq!(t.shift(500), TimeCode { total_milliseconds: 2500 });
}

#[test]
fn a_time_of_day_is_hours_minutes_and_seconds() {
    assert_eq!(TimeCode::from_parts(&[90_000]), Some(TimeCode { total_milliseconds: 90_000 }));
    assert_eq!(TimeCode::from_parts(&[1_000, 30_500]), Some(TimeCode { total_milliseconds: 90_500 }));
    assert_eq!(
        TimeCode::from_parts(&[1_000, 2_000, 3_000]),
        Some(TimeCode { total_milliseconds: 3_723_000 })
    );
    assert_eq!(TimeCode::from_parts(&[-1_000, 0]), Some(TimeCode { total_milliseconds: -60_000 }));
}

#[test]
fn a_time_of_day_has_one_to_three_parts_and_fits() {
    assert_eq!(TimeCode::from_parts(&[]), None);
    assert_eq!(TimeCode::from_parts(&[1, 2, 3, 4]), None);
    assert_eq!(TimeCode::from_parts(&[i64::MAX, 0]), None);
    assert_eq!(TimeCode::from_parts(&[i64::MIN, 0, 0]), None);
    assert_eq!(TimeCode::from_parts(&[i64::MAX]), Some(TimeCode { total_milliseconds: i64::MAX }));
    assert_eq!(
        TimeCode::from_parts(&[1, -60]),
        Some(TimeCode { total_milliseconds: 0 })
    );
}
