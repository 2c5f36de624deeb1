use hibi_nuku::subtitle::extract::{codec_for_ext, ext_for_format, parse_extracted};
use hibi_nuku::subtitle::{SubtitleError, ass, srt};

const MIN: &str = "[Script Info]\nTitle: x\n\n[V4+ Styles]\nFormat: Name\nStyle: Default\n\n[Events]\nFormat: Layer, Start, End, Style, Name, MarginL, MarginR, MarginV, Effect, Text\n";

#[test]
fn parses_basic_two_cues() {
    let input = "1\n00:00:01,000 --> 00:00:02,500\nHello\n\n2\n00:00:03,000 --> 00:00:04,000\nWorld";
    let lines = srt::parse(input).unwrap();
    assert_eq!(lines.len(), 2);
    assert_eq!(lines[0].start_ms, 1000);
    assert_eq!(lines[0].end_ms, 2500);
    assert_eq!(lines[0].text, "Hello");
    assert_eq!(lines[1].text, "World");
}

#[test]
fn handles_bom_and_crlf() {
    let input = "\u{feff}1\r\n00:00:01,000 --> 00:00:02,000\r\n日本語\r\n\r\n";
    let lines = srt::parse(input).unwrap();
    assert_eq!(lines.len(), 1);
    assert_eq!(lines[0].text, "日本語");
}

#[test]
fn multi_line_text() {
    let input = "1\n00:00:01,000 --> 00:00:02,000\nline one\nline two";
    let lines = srt::parse(input).unwrap();
    assert_eq!(lines[0].text, "line one\nline two");
}

#[test]
fn accepts_vtt_dot_separator_and_header() {
    let input = "WEBVTT\n\n00:00:01.500 --> 00:00:02.750\nhi\n\n";
    let lines = srt::parse(input).unwrap();
    assert_eq!(lines[0].start_ms, 1500);
    assert_eq!(lines[0].end_ms, 2750);
    assert_eq!(lines[0].text, "hi");
}

#[test]
fn extra_blank_lines_between_cues() {
    let input = "1\n00:00:01,000 --> 00:00:02,000\nA\n\n\n\n2\n00:00:03,000 --> 00:00:04,000\nB";
    let lines = srt::parse(input).unwrap();
    assert_eq!(lines.len(), 2);
}

#[test]
fn srt_lines_are_numbered_in_order() {
    let input = "7\n00:00:01,000 --> 00:00:02,000\nA\n\n9\n00:00:03,000 --> 00:00:04,000\nB\n\n1\n00:00:05,000 --> 00:00:06,000\nC";
    let lines = srt::parse(input).unwrap();
    let idx: Vec<usize> = lines.iter().map(|l| l.idx).collect();
    assert_eq!(idx, vec![0, 1, 2]);
}

#[test]
fn srt_short_fraction_is_scaled() {
    let input = "1\n00:00:01,5 --> 00:00:02,75\nx";
    let lines = srt::parse(input).unwrap();
    assert_eq!(lines[0].start_ms, 1500);
    assert_eq!(lines[0].end_ms, 2750);
}

#[test]
fn srt_hours_count() {
    let input = "1\n01:02:03,004 --> 01:02:04,000\nx";
    let lines = srt::parse(input).unwrap();
    assert_eq!(lines[0].start_ms, 3_723_004);
}

#[test]
fn srt_missing_arrow_is_an_error() {
    let input = "1\n00:00:01,000 00:00:02,000\nx";
    assert!(matches!(srt::parse(input), Err(SubtitleError::MissingArrow)));
}

#[test]
fn srt_bad_minutes_is_an_error() {
    let input = "1\n00:xx:01,000 --> 00:00:02,000\nx";
    assert!(matches!(srt::parse(input), Err(SubtitleError::BadMinutes)));
}

#[test]
fn srt_empty_input_gives_no_lines() {
    assert!(srt::parse("").unwrap().is_empty());
}

#[test]
fn parses_basic_dialogue() {
    let mut s = MIN.to_string();
    s.push_str("Dialogue: 0,0:00:01.50,0:00:02.75,Default,,0,0,0,,Hello there\n");
    let lines = ass::parse(&s).unwrap();
    assert_eq!(lines.len(), 1);
    assert_eq!(lines[0].start_ms, 1500);
    assert_eq!(lines[0].end_ms, 2750);
    assert_eq!(lines[0].text, "Hello there");
}

#[test]
fn strips_override_blocks_and_n() {
    let mut s = MIN.to_string();
    s.push_str("Dialogue: 0,0:00:01.00,0:00:02.00,Default,,0,0,0,,{\\an8\\fad(300,300)}line\\Nbreak\n");
    let lines = ass::parse(&s).unwrap();
    assert_eq!(lines[0].text, "line\nbreak");
}

#[test]
fn drops_drawing_commands() {
    let mut s = MIN.to_string();
    s.push_str("Dialogue: 0,0:00:01.00,0:00:02.00,Default,,0,0,0,,{\\p1}m 0 0 l 100 100{\\p0}only this\n");
    let lines = ass::parse(&s).unwrap();
    assert_eq!(lines[0].text, "only this");
}

#[test]
fn ignores_comments_and_non_dialogue() {
    let mut s = MIN.to_string();
    s.push_str("Comment: 0,0:00:01.00,0:00:02.00,Default,,0,0,0,,boring\n");
    s.push_str("Dialogue: 0,0:00:01.00,0:00:02.00,Default,,0,0,0,,kept\n");
    let lines = ass::parse(&s).unwrap();
    assert_eq!(lines.len(), 1);
    assert_eq!(lines[0].text, "kept");
}

#[test]
fn sorts_by_start_time() {
    let mut s = MIN.to_string();
    s.push_str("Dialogue: 0,0:00:05.00,0:00:06.00,Default,,0,0,0,,B\n");
    s.push_str("Dialogue: 0,0:00:01.00,0:00:02.00,Default,,0,0,0,,A\n");
    let lines = ass::parse(&s).unwrap();
    assert_eq!(lines[0].text, "A");
    assert_eq!(lines[1].text, "B");
    assert_eq!(lines[0].idx, 0);
    assert_eq!(lines[1].idx, 1);
}

#[test]
fn preserves_commas_in_text() {
    let mut s = MIN.to_string();
    s.push_str("Dialogue: 0,0:00:01.00,0:00:02.00,Default,,0,0,0,,well, hello, friend\n");
    let lines = ass::parse(&s).unwrap();
    assert_eq!(lines[0].text, "well, hello, friend");
}

#[test]
fn ass_equal_starts_keep_file_order() {
    let mut s = MIN.to_string();
    s.push_str("Dialogue: 0,0:00:01.00,0:00:03.00,Default,,0,0,0,,first\n");
    s.push_str("Dialogue: 0,0:00:01.00,0:00:02.00,Default,,0,0,0,,second\n");
    let lines = ass::parse(&s).unwrap();
    assert_eq!(lines[0].text, "first");
    assert_eq!(lines[1].text, "second");
}

#[test]
fn ass_without_events_section_is_an_error() {
    let s = "[Script Info]\nTitle: x\n";
    assert!(matches!(ass::parse(s), Err(SubtitleError::NoEventsSection)));
}

#[test]
fn ass_without_format_line_is_an_error() {
    let s = "[Events]\nDialogue: 0,0:00:01.00,0:00:02.00,Default,,0,0,0,,x\n";
    assert!(matches!(ass::parse(s), Err(SubtitleError::NoFormatLine)));
}

#[test]
fn ext_and_codec_for_formats() {
    assert_eq!(ext_for_format("ass"), "ass");
    assert_eq!(ext_for_format("ssa"), "ass");
    assert_eq!(ext_for_format("subrip"), "srt");
    assert_eq!(ext_for_format("webvtt"), "vtt");
    assert_eq!(ext_for_format("mov_text"), "srt");
    assert_eq!(codec_for_ext("ass"), "ass");
    assert_eq!(codec_for_ext("vtt"), "webvtt");
    assert_eq!(codec_for_ext("srt"), "srt");
}

#[test]
fn parse_extracted_dispatches_on_extension() {
    let mut s = MIN.to_string();
    s.push_str("Dialogue: 0,0:00:01.00,0:00:02.00,Default,,0,0,0,,x\n");
    assert_eq!(parse_extracted("ass", &s).unwrap().len(), 1);
    let srt_body = "1\n00:00:01,000 --> 00:00:02,000\ny";
    assert_eq!(parse_extracted("srt", srt_body).unwrap()[0].text, "y");
}

#[test]
fn line_endings_and_bom_do_not_change_the_parse() {
    let lf = format!("{MIN}Dialogue: 0,0:00:01.00,0:00:02.00,Default,,0,0,0,,x\n");
    let crlf = lf.replace('\n', "\r\n");
    let cr = lf.replace('\n', "\r");
    let bom = format!("\u{feff}{crlf}");
    let expected = ass::parse(&lf).unwrap();
    assert_eq!(ass::parse(&crlf).unwrap(), expected);
    assert_eq!(ass::parse(&cr).unwrap(), expected);
    assert_eq!(ass::parse(&bom).unwrap(), expected);
    let srt_lf = "1\n00:00:01,000 --> 00:00:02,000\na\nb\n";
    assert_eq!(srt::parse(&srt_lf.replace('\n', "\r\n")).unwrap(), srt::parse(srt_lf).unwrap());
}

#[test]
fn srt_one_line_per_block_in_file_order() {
    let input = "1\n00:00:05,000 --> 00:00:06,000\nsecond in time\n\n2\n00:00:01,000 --> 00:00:02,000\nfirst in time\n\n\n\n3\n00:00:07,000 --> 00:00:08,000\nthird\n";
    let lines = srt::parse(input).unwrap();
    let texts: Vec<&str> = lines.iter().map(|l| l.text.as_str()).collect();
    assert_eq!(texts, vec!["second in time", "first in time", "third"]);
    assert_eq!(lines.iter().map(|l| l.idx).collect::<Vec<_>>(), vec![0, 1, 2]);
    assert_eq!(lines[1].start_ms, 1000);
}

#[test]
fn srt_a_malformed_block_anywhere_fails_the_parse() {
    let input = "1\n00:00:01,000 --> 00:00:02,000\nok\n\n2\nnot a timing line\ntext\n";
    assert!(srt::parse(input).is_err());
}

#[test]
fn ass_bad_timestamp_in_a_dialogue_row_fails_the_parse() {
    let mut s = MIN.to_string();
    s.push_str("Dialogue: 0,0:00:01.00,0:00:02.00,Default,,0,0,0,,fine\n");
    s.push_str("Dialogue: 0,0:00:xx.00,0:00:03.00,Default,,0,0,0,,broken\n");
    assert!(ass::parse(&s).is_err());
}

#[test]
fn ass_short_rows_and_empty_text_are_skipped() {
    let mut s = MIN.to_string();
    s.push_str("Dialogue: 0,0:00:04.00,0:00:05.00,Default,,0,0,0,,kept\n");
    s.push_str("Dialogue: 0,0:00:01.00\n");
    s.push_str("Dialogue: 0,0:00:02.00,0:00:03.00,Default,,0,0,0,,{\\i1}\n");
    let lines = ass::parse(&s).unwrap();
    assert_eq!(lines.len(), 1);
    assert_eq!(lines[0].text, "kept");
    assert_eq!(lines[0].idx, 0);
}

#[test]
fn ass_missing_text_column_is_an_error() {
    let s = "[Events]\nFormat: Layer, Start, End, Style\nDialogue: 0,0:00:01.00,0:00:02.00,Default\n";
    assert!(ass::parse(s).is_err());
}
