use submod::error::SubError;
use submod::namer::{retag, smart_name};

#[test]
fn first_shift_appends_a_tag() {
    assert_eq!(smart_name(b"movie.srt", 150, false), Ok(b"movie__[+1.50_Sec+].srt".to_vec()));
}

#[test]
fn second_shift_replaces_the_tag() {
    assert_eq!(
        smart_name(b"movie__[+1.50_Sec+].srt", -50, true),
        Ok(b"movie__[+1.00_Sec-].srt".to_vec())
    );
}

#[test]
fn retag_rejects_a_span_that_is_no_tag() {
    assert_eq!(retag(b"movie.srt", Some((0, 5)), 10, false), Err(SubError::MalformedTag));
}

#[test]
fn the_sign_is_always_written() {
    assert_eq!(smart_name(b"movie.vtt", 0, false), Ok(b"movie__[+0.00_Sec+].vtt".to_vec()));
    assert_eq!(smart_name(b"movie.vtt", -5, true), Ok(b"movie__[-0.05_Sec-].vtt".to_vec()));
    assert_eq!(smart_name(b"movie.vtt", 123_456, false), Ok(b"movie__[+1234.56_Sec+].vtt".to_vec()));
    assert_eq!(
        smart_name(b"movie.vtt", i64::MIN, false),
        Ok(b"movie__[-92233720368547758.08_Sec+].vtt".to_vec())
    );
}

#[test]
fn amounts_add_up_across_zero() {
    assert_eq!(
        smart_name(b"movie__[+1.00_Sec-].srt", -250, false),
        Ok(b"movie__[-1.50_Sec+].srt".to_vec())
    );
    assert_eq!(
        smart_name(b"movie__[-1.50_Sec+].srt", 150, false),
        Ok(b"movie__[+0.00_Sec+].srt".to_vec())
    );
}

#[test]
fn two_shifts_name_like_one() {
    for (x, y) in [(150i64, -50i64), (0, 0), (-1, 1), (99, 1), (-12_345, 345), (7, -700)] {
        for first in [false, true] {
            for second in [false, true] {
                let once = smart_name(b"movie.srt", x + y, second).unwrap();
                let mid = smart_name(b"movie.srt", x, first).unwrap();
                assert_eq!(smart_name(&mid, y, second), Ok(once));
            }
        }
    }
}

#[test]
fn only_the_marker_tells_a_partial_shift() {
    let full = smart_name(b"movie__[+1.50_Sec-].srt", 25, false).unwrap();
    let part = smart_name(b"movie__[+1.50_Sec-].srt", 25, true).unwrap();
    assert_eq!(full, b"movie__[+1.75_Sec+].srt".to_vec());
    assert_eq!(part, b"movie__[+1.75_Sec-].srt".to_vec());
}

#[test]
fn a_tag_with_one_or_many_decimals_is_read() {
    assert_eq!(smart_name(b"a__[+1.5_Sec+].srt", 0, false), Ok(b"a__[+1.50_Sec+].srt".to_vec()));
    assert_eq!(smart_name(b"a__[-2.759_Sec+].srt", 0, false), Ok(b"a__[-2.76_Sec+].srt".to_vec()));
    assert_eq!(smart_name(b"a__[-2.754_Sec+].srt", 0, false), Ok(b"a__[-2.75_Sec+].srt".to_vec()));
    assert_eq!(smart_name(b"a__[+1.999_Sec+].srt", 0, false), Ok(b"a__[+2.00_Sec+].srt".to_vec()));
}

#[test]
fn the_sum_is_rounded_to_the_nearest_hundredth() {
    assert_eq!(smart_name(b"a__[+0.125_Sec+].srt", 0, false), Ok(b"a__[+0.12_Sec+].srt".to_vec()));
    assert_eq!(smart_name(b"a__[+0.375_Sec+].srt", 0, false), Ok(b"a__[+0.38_Sec+].srt".to_vec()));
    assert_eq!(smart_name(b"a__[-0.125_Sec+].srt", 0, false), Ok(b"a__[-0.12_Sec+].srt".to_vec()));
    assert_eq!(smart_name(b"a__[+0.1250001_Sec+].srt", 0, false), Ok(b"a__[+0.13_Sec+].srt".to_vec()));
    assert_eq!(smart_name(b"a__[+0.12500_Sec+].srt", 1, false), Ok(b"a__[+0.14_Sec+].srt".to_vec()));
    assert_eq!(smart_name(b"a__[+0.125_Sec+].srt", 2, false), Ok(b"a__[+0.14_Sec+].srt".to_vec()));
    assert_eq!(smart_name(b"a__[-0.005_Sec+].srt", 1, false), Ok(b"a__[+0.00_Sec+].srt".to_vec()));
    assert_eq!(smart_name(b"a__[-0.006_Sec+].srt", 1, false), Ok(b"a__[+0.00_Sec+].srt".to_vec()));
    assert_eq!(smart_name(b"a__[-0.016_Sec+].srt", 1, false), Ok(b"a__[-0.01_Sec+].srt".to_vec()));
    for (name, offset) in [("0.125", 0.0), ("0.375", 0.0), ("2.759", 0.0), ("0.125", 0.02), ("1.999", 0.0)] {
        let old: f64 = name.parse().unwrap();
        let want = format!("a__[+{:.2}_Sec+].srt", old + offset);
        let tagged = format!("a__[+{}_Sec+].srt", name);
        let got = smart_name(tagged.as_bytes(), (offset * 100.0).round() as i64, false).unwrap();
        assert_eq!(got, want.into_bytes());
    }
}

#[test]
fn the_leftmost_tag_is_replaced_and_the_rest_dropped() {
    assert_eq!(
        smart_name(b"a__[+1.00_Sec+]_b__[+2.00_Sec+].srt", 100, false),
        Ok(b"a__[+2.00_Sec+].srt".to_vec())
    );
}

#[test]
fn a_name_shorter_than_an_extension_is_invalid() {
    assert_eq!(smart_name(b"srt", 1, false), Err(SubError::InvalidPath));
    assert_eq!(smart_name(b"", 1, false), Err(SubError::InvalidPath));
    assert_eq!(smart_name(b".srt", 1, false), Ok(b"__[+0.01_Sec+].srt".to_vec()));
}

#[test]
fn an_amount_beyond_the_range_fails() {
    assert_eq!(
        smart_name(b"a__[+92233720368547758.07_Sec+].srt", 1, false),
        Err(SubError::OutOfRange)
    );
    assert_eq!(
        smart_name(b"a__[+92233720368547758.07_Sec+].srt", -1, false),
        Ok(b"a__[+92233720368547758.06_Sec+].srt".to_vec())
    );
    assert_eq!(
        smart_name(b"a__[+99999999999999999999999999.00_Sec+].srt", -1, false),
        Err(SubError::OutOfRange)
    );
}

#[test]
fn digits_that_are_not_ascii_make_a_malformed_tag() {
    let name = "a__[+\u{663}.\u{665}_Sec+].srt";
    assert_eq!(smart_name(name.as_bytes(), 1, false), Err(SubError::MalformedTag));
}

#[test]
fn retag_takes_the_span_it_is_given() {
    assert_eq!(retag(b"movie.srt", None, 150, false), Ok(b"movie__[+1.50_Sec+].srt".to_vec()));
    assert_eq!(
        retag(b"movie__[+1.50_Sec+].srt", Some((5, 19)), -50, true),
        Ok(b"movie__[+1.00_Sec-].srt".to_vec())
    );
    assert_eq!(retag(b"movie__[+1.50_Sec+].srt", Some((5, 18)), -50, true), Err(SubError::MalformedTag));
    assert_eq!(retag(b"movie__[+1.50_Sec+].srt", None, 0, false), Ok(b"movie__[+1.50_Sec+]__[+0.00_Sec+].srt".to_vec()));
}
