use submod::dialect::Dialect;
use submod::error::SubError;
use submod::paths::{backup_name, converted_name, get_paths, Paths, Target};
use submod::report::{error_message, report_error, report_success};
use submod::validate::{is_float, is_srt_or_vtt, is_timing};

fn s(text: &str) -> String {
    text.to_string()
}

#[test]
fn accepts_the_two_extensions() {
    assert_eq!(is_srt_or_vtt(s("movie.srt")), Ok(()));
    assert_eq!(is_srt_or_vtt(s("dir/movie.vtt")), Ok(()));
    assert_eq!(is_srt_or_vtt(s(".srt")), Ok(()));
}

#[test]
fn rejects_other_extensions() {
    let message = "incorrect file extension\n\nOnly \u{1b}[32m.srt\u{1b}[0m or \u{1b}[32m.vtt\u{1b}[0m files are allowed.";
    assert_eq!(is_srt_or_vtt(s("movie.txt")), Err(s(message)));
    assert_eq!(is_srt_or_vtt(s("movie.SRT")), Err(s(message)));
    assert_eq!(is_srt_or_vtt(s("srt")), Err(s(message)));
    assert_eq!(is_srt_or_vtt(s("")), Err(s(message)));
}

#[test]
fn accepts_numbers() {
    for text in [
        "0", "1.5", "-2.25", "+3", ".5", "5.", "1e3", "1E-3", "1.5e+10", "-.5e2", "inf", "-inf", "+Infinity",
        "NaN", "nan", "007", "1.e1",
    ] {
        assert_eq!(is_float(s(text)), Ok(()), "{}", text);
        assert!(text.parse::<f64>().is_ok());
    }
}

#[test]
fn rejects_what_is_no_number() {
    for text in [
        "", ".", "+", "-", "e5", "1e", "1e+", "abc", "1.2.3", " 1", "1 ", "1,5", "--1", "infinit", "in", "nane",
        "0x10", "1_000", ".e1", "+-1", "1e1.5", "\u{663}",
    ] {
        assert_eq!(is_float(s(text)), Err(s("should be a number")), "{}", text);
        assert!(text.parse::<f64>().is_err());
    }
}

#[test]
fn accepts_times() {
    for text in ["12", "1:30", "01:02:03", "1.5:30.25", "-1:5", "0:0:0"] {
        assert_eq!(is_timing(s(text)), Ok(()), "{}", text);
    }
}

#[test]
fn a_time_is_numbers_between_colons() {
    for text in [
        "12", "1:30", "01:02:03", "1:2:3:4", "", ":", "1:", ":1", "a", "1:b", "1.5:2e3", "inf:nan", "-1:+2",
        "1: 2", "::", "0:0:0", "1.2.3:4",
    ] {
        let every_part_is_a_number = text.rsplit(':').all(|part| part.parse::<f64>().is_ok());
        let at_most_three = text.split(':').count() <= 3;
        assert_eq!(is_timing(s(text)).is_ok(), every_part_is_a_number && at_most_three, "{}", text);
    }
}

#[test]
fn rejects_what_is_no_time() {
    for text in ["", ":", "1:", ":1", "1::2", "a:b", "1:2:x", "1;2", "1:2:3:4", "0:0:0:0:0", "1:2:3:"] {
        assert!(is_timing(s(text)).is_err(), "{}", text);
    }
    let message = is_timing(s("x")).unwrap_err();
    assert!(message.starts_with("incorrect time formatting\n\nUse ':' to separate hours, minutes and seconds, like so:\n    \u{1b}[32mhh:mm:ss\u{1b}[0m to specify"));
    assert!(message.ends_with("\u{1b}[32mss\u{1b}[0m to only specify seconds"));
}

#[test]
fn converts_the_extension() {
    assert_eq!(converted_name(b"movie.srt", Some(Dialect::Vtt)), Ok(b"movie.vtt".to_vec()));
    assert_eq!(converted_name(b"a.b.vtt", Some(Dialect::Srt)), Ok(b"a.b.srt".to_vec()));
    assert_eq!(converted_name(b"movie.srt", None), Ok(b"movie.srt".to_vec()));
    assert_eq!(converted_name(b"movie", Some(Dialect::Vtt)), Err(SubError::InvalidPath));
}

#[test]
fn names_the_backup() {
    assert_eq!(backup_name(b"movie.srt"), Ok(b"movie__[Original].srt".to_vec()));
    assert_eq!(backup_name(b"a.b.vtt"), Ok(b"a.b__[Original].vtt".to_vec()));
    assert_eq!(backup_name(b"movie"), Err(SubError::InvalidPath));
}

fn same(paths: Result<Paths, SubError>, target: Target, backup: Option<&[u8]>) {
    assert_eq!(paths, Ok(Paths { target, backup: backup.map(|b| b.to_vec()) }));
}

#[test]
fn an_output_path_is_taken_as_it_is() {
    same(
        get_paths(false, None, 150, false, Some(b"out/there.vtt"), Some(Dialect::Srt), false),
        Target::Given(b"out/there.vtt".to_vec()),
        None,
    );
}

#[test]
fn the_input_is_kept_also_where_an_output_path_is_given() {
    same(
        get_paths(true, Some(b"movie.srt"), 150, false, Some(b"a/movie.srt"), None, true),
        Target::Given(b"a/movie.srt".to_vec()),
        Some(b"movie__[Original].srt"),
    );
    assert_eq!(
        get_paths(false, None, 150, false, Some(b"a/movie.srt"), None, true),
        Err(SubError::InvalidPath)
    );
    assert_eq!(
        get_paths(true, Some(b"movie"), 150, false, Some(b"a/movie.srt"), None, true),
        Err(SubError::InvalidPath)
    );
}

#[test]
fn the_default_output_stands_beside_the_input() {
    same(
        get_paths(true, Some(b"movie.srt"), 150, false, None, None, false),
        Target::Beside(b"movie__[+1.50_Sec+].srt".to_vec()),
        None,
    );
    same(
        get_paths(true, Some(b"movie__[+1.50_Sec+].srt"), -50, true, None, None, false),
        Target::Beside(b"movie__[+1.00_Sec-].srt".to_vec()),
        None,
    );
}

#[test]
fn conversion_and_backup() {
    same(
        get_paths(true, Some(b"movie.srt"), -275, true, None, Some(Dialect::Vtt), true),
        Target::Beside(b"movie__[-2.75_Sec-].vtt".to_vec()),
        Some(b"movie__[Original].srt"),
    );
}

#[test]
fn a_path_without_parent_or_name_is_invalid() {
    assert_eq!(
        get_paths(false, Some(b"movie.srt"), 1, false, None, None, false).unwrap_err(),
        SubError::InvalidPath
    );
    assert_eq!(get_paths(true, None, 1, false, None, None, false).unwrap_err(), SubError::InvalidPath);
    assert_eq!(
        get_paths(true, Some(b"movie"), 1, false, None, Some(Dialect::Srt), false).unwrap_err(),
        SubError::InvalidPath
    );
    assert_eq!(get_paths(true, Some(b"a.b"), 1, false, None, None, false).unwrap_err(), SubError::InvalidPath);
}

#[test]
fn reports_an_error() {
    let (complaint, usage) = report_error(b"incorrect path");
    assert_eq!(complaint, b"\x1b[38;5;208mError:\x1b[0m incorrect path\n\n".to_vec());
    assert_eq!(
        usage,
        b"USAGE:\n    submod [FLAGS] [OPTIONS] <INPUT> <SECONDS>\n        INPUT: (Path to) .srt or .vtt subtitle file to convert\n        SECONDS: seconds to add or subtract from time encoding\n\nFor more information try \x1b[32m--help\x1b[0m\n".to_vec()
    );
}

#[test]
fn reports_a_plain_success() {
    assert_eq!(
        report_success(0, b"out.srt", false, None),
        b"\x1b[32;1mSuccess.\x1b[0m\n Output: \x1b[1m \x1b[48;5;238m out.srt \x1b[0m\n".to_vec()
    );
    assert_eq!(report_success(-3, b"out.srt", false, None), report_success(0, b"out.srt", false, None));
}

#[test]
fn reports_deleted_subtitles() {
    assert_eq!(
        report_success(1, b"o.srt", true, None),
        b"\x1b[32;1mSuccess.\x1b[0m\n    \x1b[41;1m ! \x1b[0m   One subtitle was deleted at the beginning of the file.\n The input file was overwritten.\n Output: \x1b[1m \x1b[48;5;238m o.srt \x1b[0m\n".to_vec()
    );
    assert_eq!(
        report_success(12, b"o.srt", true, Some(b"i__[Original].srt")),
        b"\x1b[32;1mSuccess.\x1b[0m\n    \x1b[41;1m ! \x1b[0m   12 subtitles were deleted at the beginning of the file.\n The input file was renamed to i__[Original].srt\n Output: \x1b[1m \x1b[48;5;238m o.srt \x1b[0m\n".to_vec()
    );
    assert!(report_success(i32::MAX, b"o", false, None)
        .windows(10)
        .any(|w| w == b"2147483647"));
}

#[test]
fn words_every_error() {
    assert_eq!(error_message(SubError::MalformedTimestamp), b"malformed timestamp".to_vec());
    assert_eq!(error_message(SubError::MalformedCue(12)), b"malformed cue in block 12".to_vec());
    assert_eq!(error_message(SubError::InvalidPath), b"incorrect path".to_vec());
    assert_eq!(error_message(SubError::MalformedTag), b"malformed tag in the file name".to_vec());
    assert_eq!(error_message(SubError::OutOfRange), b"time or offset out of range".to_vec());
    assert_eq!(error_message(SubError::Matcher), b"the tag pattern was rejected".to_vec());
}
