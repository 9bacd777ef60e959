use goosy::library::{
    cover_extensions, detect_credit_lines, equal_ignoring_ascii_case, excluded_line_indices,
    format_line_time, has_extension, lyric_extensions, parse_preview_event, parse_stage_message,
    sample_file_name,
    sample_range, sibling_kind, PreviewEvent, SiblingKind,
};
use goosy::lyrics::LyricLine;

fn line(text: &str) -> LyricLine {
    LyricLine {
        start_ms: 0,
        end_ms: 1_000,
        text: text.to_owned(),
        translation: None,
        agent_id: None,
        is_duet: false,
        is_background: false,
        background_vocal: None,
        words: Vec::new(),
    }
}

#[test]
fn accepts_case_insensitive_sibling_extensions() {
    assert!(has_extension("TTML", &lyric_extensions()));
    assert!(has_extension("JPEG", &cover_extensions()));
    assert!(has_extension("webp", &cover_extensions()));
    assert!(!has_extension("mp3", &cover_extensions()));
}

#[test]
fn extension_case_is_ignored_either_way() {
    assert!(has_extension("Lrc", &lyric_extensions()));
    assert!(has_extension("yRc", &lyric_extensions()));
    assert!(!has_extension("lr", &lyric_extensions()));
    assert!(!has_extension("", &lyric_extensions()));
    assert!(equal_ignoring_ascii_case("HeIF", "heif"));
    assert!(!equal_ignoring_ascii_case("heif", "heic"));
}

#[test]
fn detects_credit_markers_only_at_edges() {
    let lines = vec![
        line("歌手：Someone"),
        line("普通歌词"),
        line("作词：Someone"),
    ];
    assert_eq!(detect_credit_lines(&lines), vec![true, false, true]);
}

#[test]
fn does_not_exclude_credit_word_in_middle_of_song() {
    let mut lines = vec![line("普通歌词"); 10];
    lines[5] = line("作曲的旋律");
    assert!(!detect_credit_lines(&lines)[5]);
}

#[test]
fn credit_markers_match_in_any_case_and_in_translations() {
    let mut lines = vec![line("plain"); 12];
    lines[0] = line("Composer: Somebody");
    lines[11].translation = Some("PRODUCER x".to_owned());
    lines[6] = line("Arranger in the middle");
    let marks = detect_credit_lines(&lines);
    assert!(marks[0]);
    assert!(marks[11]);
    assert!(!marks[6]);
    assert_eq!(marks.iter().filter(|mark| **mark).count(), 2);
}

#[test]
fn no_lines_give_no_credits() {
    assert!(detect_credit_lines(&[]).is_empty());
}

#[test]
fn parses_complete_preview_events_only() {
    assert_eq!(
        parse_preview_event("GOOSY_PREVIEW 45 640 360"),
        Some(PreviewEvent {
            frame: 45,
            width: 640,
            height: 360,
        })
    );
    assert_eq!(parse_preview_event("GOOSY_PREVIEW 45 0 360"), None);
    assert_eq!(parse_preview_event("GOOSY_PREVIEW 45 640"), None);
    assert_eq!(parse_preview_event("GOOSY_PROGRESS 45 300 1.0"), None);
}

#[test]
fn preview_events_take_any_white_space_and_no_extra_field() {
    assert_eq!(
        parse_preview_event("  GOOSY_PREVIEW\t7  +2 3\n"),
        Some(PreviewEvent {
            frame: 7,
            width: 2,
            height: 3,
        })
    );
    assert_eq!(parse_preview_event("GOOSY_PREVIEW 7 2 3 4"), None);
    assert_eq!(parse_preview_event("GOOSY_PREVIEW -7 2 3"), None);
    assert_eq!(parse_preview_event(""), None);
}

#[test]
fn random_sample_selects_a_bounded_lyrics_window() {
    let mut lines = vec![line("first"), line("second")];
    lines[0].start_ms = 20_000;
    lines[0].end_ms = 21_000;
    lines[1].start_ms = 40_000;
    lines[1].end_ms = 41_000;
    for pick in [0usize, 1, 2, 12_345] {
        let (start, end) = sample_range(&lines, &[], &[], pick).unwrap();
        assert_eq!(end - start, 15_000);
        assert!(start <= 27_000);
        assert!(end <= 42_000);
    }
}

#[test]
fn random_sample_returns_none_without_nonempty_lyrics() {
    let lines = vec![line("   ")];
    assert_eq!(sample_range(&lines, &[], &[], 0), None);
}

#[test]
fn sample_window_starts_three_seconds_early_and_skips_excluded_lines() {
    let mut lines = vec![line("first"), line("second")];
    lines[0].start_ms = 20_000;
    lines[0].end_ms = 21_000;
    lines[1].start_ms = 40_000;
    lines[1].end_ms = 41_000;
    assert_eq!(sample_range(&lines, &[], &[], 0), Some((17_000, 32_000)));
    assert_eq!(sample_range(&lines, &[], &[], 1), Some((27_000, 42_000)));
    assert_eq!(sample_range(&lines, &[true], &[], 0), Some((27_000, 42_000)));
    assert_eq!(sample_range(&lines, &[true], &[false, true], 0), None);
}

#[test]
fn short_songs_are_sampled_whole() {
    let mut lines = vec![line("only")];
    lines[0].start_ms = 1_000;
    lines[0].end_ms = 4_000;
    assert_eq!(sample_range(&lines, &[], &[], 3), Some((0, 5_000)));
    assert_eq!(sample_range(&[], &[], &[], 3), None);
}

#[test]
fn excluded_indices_merge_manual_and_detected_marks() {
    assert_eq!(
        excluded_line_indices(5, &[true, false, false, true], &[false, false, true]),
        vec![0, 2, 3]
    );
    assert_eq!(excluded_line_indices(2, &[false, false, true], &[]), Vec::<usize>::new());
}

#[test]
fn formats_times_as_minutes_seconds_and_milliseconds() {
    assert_eq!(format_line_time(0), "00:00.000");
    assert_eq!(format_line_time(61_005), "01:01.005");
    assert_eq!(format_line_time(59_999), "00:59.999");
    assert_eq!(format_line_time(6_000_000), "100:00.000");
}

#[test]
fn siblings_are_classified_by_stem_and_extension() {
    assert_eq!(sibling_kind("Song", "song", "LRC"), Some(SiblingKind::Lyrics));
    assert_eq!(sibling_kind("Song", "SONG", "xml"), Some(SiblingKind::Lyrics));
    assert_eq!(sibling_kind("Song", "song", "Png"), Some(SiblingKind::Cover));
    assert_eq!(sibling_kind("Song", "song", "mp3"), None);
    assert_eq!(sibling_kind("Song", "other", "lrc"), None);
}

#[test]
fn sample_renders_are_named_after_their_start() {
    assert_eq!(sample_file_name("out", Some("mkv"), 27_000), "out.sample-27000ms.mkv");
    assert_eq!(sample_file_name("out", None, 0), "out.sample-0ms.mp4");
}

#[test]
fn stage_lines_give_their_message() {
    assert_eq!(
        parse_stage_message("GOOSY_STAGE loading-lyrics 正在读取歌词"),
        Some("正在读取歌词".to_owned())
    );
    assert_eq!(
        parse_stage_message("  GOOSY_STAGE key  many   spaced\twords "),
        Some("many spaced words".to_owned())
    );
    assert_eq!(parse_stage_message("GOOSY_STAGE key"), None);
    assert_eq!(parse_stage_message("GOOSY_PROGRESS 1 2 0.5"), None);
}
