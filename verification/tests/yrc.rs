use goosy::lyrics::LyricsError;
use goosy::yrc::{looks_like_yrc, parse_yrc};

#[test]
fn parses_absolute_word_start_and_duration() {
    let lines =
        parse_yrc("[44810,3780](44810,240,0)Think (45050,450,0)about(45500,510,0), ").unwrap();
    assert_eq!(lines[0].start_ms, 44_810);
    assert_eq!(lines[0].end_ms, 48_590);
    assert_eq!(lines[0].text, "Think about, ");
    assert_eq!(lines[0].words.len(), 3);
    assert_eq!(lines[0].words[1].start_ms, 45_050);
    assert_eq!(lines[0].words[1].end_ms, 45_500);
}

#[test]
fn keeps_zero_duration_punctuation_and_parentheses() {
    let lines = parse_yrc(
        "[344030,5970](344030,720,0)You(344750,0,0)（(344750,420,0)and(345170,0,0)）",
    )
    .unwrap();
    assert_eq!(lines[0].text, "You（and）");
    assert_eq!(lines[0].words[1].text, "（");
    assert_eq!(lines[0].words[1].end_ms, 344_751);
}

#[test]
fn detects_yrc_without_confusing_lrc() {
    assert!(looks_like_yrc("[1000,500](1000,500,0)hello"));
    assert!(!looks_like_yrc("[00:01.00]hello"));
}

#[test]
fn detects_yrc_after_metadata() {
    assert!(looks_like_yrc(
        "[by:artist]\n[id:123]\n[1000,500](1000,500,0)hello"
    ));
}

#[test]
fn detects_yrc_without_word_tags() {
    assert!(looks_like_yrc("[1000,500]hello"));
}

#[test]
fn rejects_input_without_yrc_lines() {
    assert!(parse_yrc("[ti:title]\nnot lyrics").is_err());
}

#[test]
fn missing_yrc_lines_give_the_yrc_error() {
    assert_eq!(parse_yrc("").unwrap_err(), LyricsError::NoYrcLyricLines);
    assert_eq!(LyricsError::NoYrcLyricLines.message(), "no YRC lyric lines");
}

#[test]
fn yrc_lines_come_in_start_order_and_cover_their_words() {
    let lines = parse_yrc("[5000,100](5000,900,0)late\n[1000,500](1000,2000,0)early\n").unwrap();
    assert_eq!(lines[0].text, "early");
    assert_eq!(lines[1].text, "late");
    assert_eq!(lines[0].end_ms, 3_000);
    assert_eq!(lines[1].end_ms, 5_900);
    assert!(lines
        .iter()
        .all(|line| line.words.iter().all(|word| word.end_ms <= line.end_ms)));
}

#[test]
fn header_without_text_is_no_yrc_line() {
    assert!(!looks_like_yrc("[1000,500]"));
    assert!(!looks_like_yrc("[1000]hello"));
    assert!(parse_yrc("[1000,500]").is_err());
}
