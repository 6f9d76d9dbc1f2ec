use submod::cue::{Cue, Document};
use submod::dialect::Dialect;
use submod::error::SubError;
use submod::parser::{parse, parse_timing, split_lines};
use submod::serialize::serialize;
use submod::shift::{shift, Window};
use submod::timecode::TimeCode;
use submod::transform::transform;

fn tc(ms: i64) -> TimeCode {
    TimeCode { total_milliseconds: ms }
}

fn cue(index: Option<u64>, start: i64, end: i64, text: &[&str]) -> Cue {
    Cue {
        index,
        start: tc(start),
        end: tc(end),
        text: text.iter().map(|l| l.as_bytes().to_vec()).collect(),
    }
}

fn two_cues() -> Document {
    Document {
        dialect: Dialect::Srt,
        header: None,
        cues: vec![cue(Some(1), 1000, 3000, &["A"]), cue(Some(2), 10_000, 12_000, &["B"])],
    }
}

const TWO_CUES: &[u8] = b"1\n00:00:01,000 --> 00:00:03,000\nA\n\n2\n00:00:10,000 --> 00:00:12,000\nB\n\n";

#[test]
fn splits_lines_and_drops_carriage_returns() {
    assert_eq!(
        split_lines(b"a\r\nb\n\nc"),
        vec![b"a".to_vec(), b"b".to_vec(), b"".to_vec(), b"c".to_vec()]
    );
    assert_eq!(split_lines(b""), vec![b"".to_vec()]);
    assert_eq!(split_lines(b"x\r\r\n"), vec![b"x".to_vec(), b"".to_vec()]);
}

#[test]
fn reads_a_timing_line() {
    assert_eq!(
        parse_timing(b"00:00:01,000 --> 00:00:03,000", Dialect::Srt),
        Some((tc(1000), tc(3000)))
    );
    assert_eq!(parse_timing(b"00:00:01,000 -> 00:00:03,000", Dialect::Srt), None);
    assert_eq!(parse_timing(b"00:00:01,000 --> 00:00:03.000", Dialect::Srt), None);
    assert_eq!(parse_timing(b"00:00:03,000 --> 00:00:01,000", Dialect::Srt), None);
    assert_eq!(parse_timing(b"00:00:01,000-->00:00:03,000", Dialect::Srt), None);
}

#[test]
fn parses_a_subrip_document() {
    assert_eq!(parse(TWO_CUES), Ok(two_cues()));
}

#[test]
fn parses_with_windows_line_ends() {
    let input = b"1\r\n00:00:01,000 --> 00:00:03,000\r\nA\r\n\r\n2\r\n00:00:10,000 --> 00:00:12,000\r\nB\r\n";
    assert_eq!(parse(input), Ok(two_cues()));
}

#[test]
fn an_empty_text_is_an_empty_document() {
    assert_eq!(parse(b""), Ok(Document { dialect: Dialect::Srt, header: None, cues: vec![] }));
    assert_eq!(parse(b"\n\n  \n"), Ok(Document { dialect: Dialect::Srt, header: None, cues: vec![] }));
}

#[test]
fn a_header_alone_is_an_empty_webvtt_document() {
    assert_eq!(
        parse(b"WEBVTT\n"),
        Ok(Document { dialect: Dialect::Vtt, header: Some(b"WEBVTT".to_vec()), cues: vec![] })
    );
}

#[test]
fn parses_a_webvtt_document_and_keeps_its_header() {
    let input = b"WEBVTT - demo\n\n00:00:01.000 --> 00:00:03.000\nA\nsecond line\n\n7\n00:00:10.000 --> 00:00:12.000\nB\n";
    assert_eq!(
        parse(input),
        Ok(Document {
            dialect: Dialect::Vtt,
            header: Some(b"WEBVTT - demo".to_vec()),
            cues: vec![
                cue(None, 1000, 3000, &["A", "second line"]),
                cue(Some(7), 10_000, 12_000, &["B"]),
            ],
        })
    );
}

#[test]
fn a_bad_timing_line_fails_with_the_position_of_its_block() {
    let input = b"1\n00:00:01,000 --> 00:00:03,000\nA\n\n2\nnot a timing line\nB\n\n3\n00:00:20,000 --> 00:00:21,000\nC\n";
    assert_eq!(parse(input), Err(SubError::MalformedCue(2)));
    assert_eq!(parse(b"hello\n"), Err(SubError::MalformedCue(1)));
    assert_eq!(parse(b"5\n"), Err(SubError::MalformedCue(1)));
}

#[test]
fn a_subrip_document_with_webvtt_timestamps_fails() {
    assert_eq!(parse(b"1\n00:00:01.000 --> 00:00:03.000\nA\n"), Err(SubError::MalformedCue(1)));
}

#[test]
fn writes_a_subrip_document() {
    assert_eq!(serialize(&two_cues(), Dialect::Srt), TWO_CUES.to_vec());
}

#[test]
fn writes_numbers_by_position_whatever_the_cues_hold() {
    let mut doc = two_cues();
    doc.cues[0].index = Some(40);
    doc.cues[1].index = None;
    assert_eq!(serialize(&doc, Dialect::Srt), TWO_CUES.to_vec());
}

#[test]
fn writes_a_webvtt_document_with_a_made_up_header() {
    assert_eq!(
        serialize(&two_cues(), Dialect::Vtt),
        b"WEBVTT\n\n00:00:01.000 --> 00:00:03.000\nA\n\n00:00:10.000 --> 00:00:12.000\nB\n\n".to_vec()
    );
}

#[test]
fn writes_a_webvtt_document_with_its_own_header() {
    let doc = Document { dialect: Dialect::Vtt, header: Some(b"WEBVTT - demo".to_vec()), cues: vec![] };
    assert_eq!(serialize(&doc, Dialect::Vtt), b"WEBVTT - demo\n\n".to_vec());
    assert_eq!(serialize(&doc, Dialect::Srt), b"".to_vec());
}

#[test]
fn read_then_write_gives_the_text_back() {
    let doc = parse(TWO_CUES).unwrap();
    assert_eq!(serialize(&doc, Dialect::Srt), TWO_CUES.to_vec());
}

#[test]
fn a_zero_shift_keeps_the_cue_content() {
    let input = b"8\n00:00:01,000 --> 00:00:03,000\nA\nmore\n\n\n\n9\n00:00:10,000 --> 00:00:12,000\nB";
    let (out, deleted) = transform(input, 0, &Window::all(), None).unwrap();
    assert_eq!(deleted, 0);
    assert_eq!(
        out,
        b"1\n00:00:01,000 --> 00:00:03,000\nA\nmore\n\n2\n00:00:10,000 --> 00:00:12,000\nB\n\n".to_vec()
    );
    let again = transform(&out, 0, &Window::all(), None).unwrap();
    assert_eq!(again, (out, 0));
}

#[test]
fn shift_back_clamps_the_start() {
    let mut doc = two_cues();
    assert_eq!(shift(&mut doc, -2000, &Window::all()), Ok(0));
    assert_eq!(doc.cues, vec![cue(Some(1), 0, 1000, &["A"]), cue(Some(2), 8000, 10_000, &["B"])]);
    assert_eq!(
        serialize(&doc, Dialect::Srt),
        b"1\n00:00:00,000 --> 00:00:01,000\nA\n\n2\n00:00:08,000 --> 00:00:10,000\nB\n\n".to_vec()
    );
}

#[test]
fn shift_back_drops_what_ends_before_the_start() {
    let mut doc = two_cues();
    assert_eq!(shift(&mut doc, -5000, &Window::all()), Ok(1));
    assert_eq!(doc.cues, vec![cue(Some(1), 5000, 7000, &["B"])]);
    assert_eq!(
        serialize(&doc, Dialect::Srt),
        b"1\n00:00:05,000 --> 00:00:07,000\nB\n\n".to_vec()
    );
}

#[test]
fn deletion_boundary() {
    let mut doc = Document {
        dialect: Dialect::Srt,
        header: None,
        cues: vec![cue(None, 0, 2000, &["gone"])],
    };
    assert_eq!(shift(&mut doc, -3000, &Window::all()), Ok(1));
    assert!(doc.cues.is_empty());

    let mut doc = Document {
        dialect: Dialect::Srt,
        header: None,
        cues: vec![cue(None, 500, 2000, &["kept"])],
    };
    assert_eq!(shift(&mut doc, -1000, &Window::all()), Ok(0));
    assert_eq!(doc.cues, vec![cue(Some(1), 0, 1000, &["kept"])]);

    let mut doc = Document {
        dialect: Dialect::Srt,
        header: None,
        cues: vec![cue(None, 500, 2000, &["edge"])],
    };
    assert_eq!(shift(&mut doc, -2000, &Window::all()), Ok(0));
    assert_eq!(doc.cues, vec![cue(Some(1), 0, 0, &["edge"])]);
    let mut doc = Document {
        dialect: Dialect::Srt,
        header: None,
        cues: vec![cue(None, 500, 2000, &["edge"])],
    };
    assert_eq!(shift(&mut doc, -2001, &Window::all()), Ok(1));
}

#[test]
fn shift_forward_adds_to_both_times() {
    let mut doc = two_cues();
    assert_eq!(shift(&mut doc, 1500, &Window::all()), Ok(0));
    assert_eq!(doc.cues, vec![cue(Some(1), 2500, 4500, &["A"]), cue(Some(2), 11_500, 13_500, &["B"])]);
}

#[test]
fn a_window_gates_by_the_start_of_a_cue() {
    let three = || Document {
        dialect: Dialect::Srt,
        header: None,
        cues: vec![
            cue(Some(1), 1000, 3000, &["A"]),
            cue(Some(2), 10_000, 12_000, &["B"]),
            cue(Some(3), 20_000, 22_000, &["C"]),
        ],
    };
    let mut doc = three();
    let window = Window { start: Some(tc(10_000)), stop: Some(tc(20_000)) };
    assert_eq!(shift(&mut doc, 100, &window), Ok(0));
    assert_eq!(
        doc.cues,
        vec![
            cue(Some(1), 1000, 3000, &["A"]),
            cue(Some(2), 10_100, 12_100, &["B"]),
            cue(Some(3), 20_100, 22_100, &["C"]),
        ]
    );
    let mut doc = three();
    let window = Window { start: Some(tc(10_001)), stop: None };
    assert_eq!(shift(&mut doc, 100, &window), Ok(0));
    assert_eq!(doc.cues[1], cue(Some(2), 10_000, 12_000, &["B"]));
    assert_eq!(doc.cues[2], cue(Some(3), 20_100, 22_100, &["C"]));
    let mut doc = three();
    let window = Window { start: None, stop: Some(tc(9_999)) };
    assert_eq!(shift(&mut doc, 100, &window), Ok(0));
    assert_eq!(doc.cues[0], cue(Some(1), 1100, 3100, &["A"]));
    assert_eq!(doc.cues[1], cue(Some(2), 10_000, 12_000, &["B"]));
}

#[test]
fn cues_outside_the_window_are_never_dropped() {
    let mut doc = two_cues();
    let window = Window { start: Some(tc(5000)), stop: None };
    assert_eq!(shift(&mut doc, -20_000, &window), Ok(1));
    assert_eq!(doc.cues, vec![cue(Some(1), 1000, 3000, &["A"])]);
}

#[test]
fn the_order_of_the_file_is_kept() {
    let mut doc = Document {
        dialect: Dialect::Srt,
        header: None,
        cues: vec![cue(Some(1), 10_000, 12_000, &["late"]), cue(Some(2), 1000, 3000, &["early"])],
    };
    let window = Window { start: None, stop: Some(tc(5000)) };
    assert_eq!(shift(&mut doc, 20_000, &window), Ok(0));
    assert_eq!(
        doc.cues,
        vec![cue(Some(1), 10_000, 12_000, &["late"]), cue(Some(2), 21_000, 23_000, &["early"])]
    );
}

#[test]
fn a_shift_beyond_the_range_changes_nothing() {
    let mut doc = two_cues();
    assert_eq!(shift(&mut doc, i64::MAX, &Window::all()), Err(SubError::OutOfRange));
    assert_eq!(doc, two_cues());
    assert_eq!(transform(TWO_CUES, i64::MAX, &Window::all(), None), Err(SubError::OutOfRange));
}

#[test]
fn a_shift_far_back_drops_everything() {
    let mut doc = two_cues();
    assert_eq!(shift(&mut doc, i64::MIN, &Window::all()), Ok(2));
    assert!(doc.cues.is_empty());
}

#[test]
fn transform_shifts_and_converts() {
    let (out, deleted) = transform(TWO_CUES, -5000, &Window::all(), Some(Dialect::Vtt)).unwrap();
    assert_eq!(deleted, 1);
    assert_eq!(out, b"WEBVTT\n\n00:00:05.000 --> 00:00:07.000\nB\n\n".to_vec());
    let (back, deleted) = transform(&out, 0, &Window::all(), Some(Dialect::Srt)).unwrap();
    assert_eq!(deleted, 0);
    assert_eq!(back, b"1\n00:00:05,000 --> 00:00:07,000\nB\n\n".to_vec());
}

#[test]
fn transform_reports_the_failing_block() {
    assert_eq!(
        transform(b"1\n00:00:01,000 --> oops\nA\n", 0, &Window::all(), None),
        Err(SubError::MalformedCue(1))
    );
}
