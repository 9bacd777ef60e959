use goosy::lrc::{lrc_invalid_timestamp_lines, lrc_timestamps_fit, parse_lrc, scan_end_ms};
use goosy::lyrics::{LyricLine, LyricsError};

#[test]
fn expands_multiple_timestamps() {
    let lines = parse_lrc("[00:01.00][00:03.00]hello\n").unwrap();
    assert_eq!(lines.len(), 2);
    assert_eq!(lines[0].start_ms, 1_000);
    assert_eq!(lines[1].start_ms, 3_000);
    assert_eq!(lines[0].end_ms, 3_000);
}

#[test]
fn untimed_scan_finishes_before_nominal_line_end() {
    let lines = parse_lrc("[00:00.00]first\n[00:02.00]second\n").unwrap();
    assert_eq!(scan_end_ms(&lines[0]), 1_750);
    assert!(scan_end_ms(&lines[0]) < lines[1].start_ms);
}

#[test]
fn parses_enhanced_words_and_text() {
    let lines =
        parse_lrc("[00:04.00]<00:04.00>He</00:04.00><00:04.50>llo</00:04.50>\n").unwrap();
    assert_eq!(lines[0].text, "Hello");
    assert_eq!(lines[0].words.len(), 2);
    assert_eq!(lines[0].words[1].start_ms, 4_500);
    assert_eq!(lines[0].words[0].end_ms, 4_500);
    assert_eq!(lines[0].words[1].end_ms, 9_000);
}

#[test]
fn sorts_lines_and_uses_last_end_fallback() {
    let lines = parse_lrc("[00:05]later\n[00:01]first\n").unwrap();
    assert_eq!(lines[0].text, "first");
    assert_eq!(lines[0].end_ms, 5_000);
    assert_eq!(lines[1].end_ms, 10_000);
}

#[test]
fn rejects_input_without_valid_lines() {
    assert!(parse_lrc("[ti:title]\nnot lyrics\n").is_err());
}

#[test]
fn missing_lines_give_the_lrc_error() {
    assert_eq!(parse_lrc("").unwrap_err(), LyricsError::NoLyricLines);
    assert_eq!(LyricsError::NoLyricLines.message(), "no lyric lines");
}

#[test]
fn lines_come_in_start_order_and_end_after_they_start() {
    let lines = parse_lrc("[00:09]c\n[00:01]a\n[00:05]b\n[00:05]b2\n").unwrap();
    let starts: Vec<u64> = lines.iter().map(|line| line.start_ms).collect();
    assert_eq!(starts, vec![1_000, 5_000, 5_000, 9_000]);
    assert_eq!(lines[1].text, "b");
    assert_eq!(lines[2].text, "b2");
    assert!(lines.iter().all(|line| line.end_ms > line.start_ms));
    assert_eq!(lines[1].end_ms, 5_001);
}

#[test]
fn reads_fraction_digits_and_carriage_returns() {
    let lines = parse_lrc("[01:02.5]x\r\n[01:02.345]y\r\n").unwrap();
    assert_eq!(lines[0].start_ms, 62_345);
    assert_eq!(lines[1].start_ms, 62_500);
    assert_eq!(lines[1].text, "x");
    assert_eq!(lines[1].end_ms, 67_500);
}

#[test]
fn timestamps_that_overflow_are_reported() {
    assert!(lrc_timestamps_fit("[00:01]a\n"));
    assert!(!lrc_timestamps_fit("[999999999999999:00]a\n"));
}

#[test]
fn invalid_timestamp_lines_are_listed() {
    let lines = lrc_invalid_timestamp_lines("[00:01]a\n[xx:yy]b\r\n[ti:title]\nplain\n");
    assert_eq!(lines, vec!["[xx:yy]b".to_owned()]);
}

#[test]
fn scan_of_a_worded_line_ends_at_its_last_word() {
    let lines = parse_lrc("[00:01]<00:01>a</00:01><00:03>b</00:03>\n").unwrap();
    let line: &LyricLine = &lines[0];
    assert_eq!(line.words[0].end_ms, 3_000);
    assert_eq!(line.words[1].end_ms, 6_000);
    assert_eq!(scan_end_ms(line), 6_000);
}
