use goosy::format::{
    choose_reader, lyric_format_from_name, lyric_format_from_name_any_case, reader_for,
    reads_as_ttml, LyricFormat, LyricReader,
};

#[test]
fn names_select_formats() {
    assert_eq!(lyric_format_from_name("auto"), Some(LyricFormat::Auto));
    assert_eq!(lyric_format_from_name("lrc"), Some(LyricFormat::Lrc));
    assert_eq!(lyric_format_from_name("ttml"), Some(LyricFormat::Ttml));
    assert_eq!(lyric_format_from_name("xml"), Some(LyricFormat::Ttml));
    assert_eq!(lyric_format_from_name("LRC"), None);
    assert_eq!(lyric_format_from_name("yrc"), None);
    assert_eq!(lyric_format_from_name_any_case("LRC"), Some(LyricFormat::Lrc));
    assert_eq!(lyric_format_from_name_any_case("XmL"), Some(LyricFormat::Ttml));
    assert_eq!(LyricFormat::default(), LyricFormat::Auto);
}

#[test]
fn explicit_formats_decide_the_reader() {
    assert!(reads_as_ttml("[00:01]x", LyricFormat::Ttml));
    assert!(!reads_as_ttml("<tt/>", LyricFormat::Lrc));
    assert!(reads_as_ttml("<tt/>", LyricFormat::Auto));
    assert!(!reads_as_ttml("[00:01]x", LyricFormat::Auto));
}

#[test]
fn auto_reader_follows_ttml_extension() {
    let input = r#"<body><p begin="1s" end="2s">hello</p></body>"#;
    assert_eq!(choose_reader(None, input, Some("ttml")), LyricReader::Ttml);
    assert_eq!(choose_reader(None, input, None), LyricReader::Lrc);
}

#[test]
fn automatic_reader_choice_prefers_ttml_then_yrc() {
    assert_eq!(reader_for(None, true, "[1000,500]hi", Some("yrc")), LyricReader::Ttml);
    assert_eq!(reader_for(None, false, "[1000,500]hi", None), LyricReader::Yrc);
    assert_eq!(reader_for(None, false, "[00:01]hi", Some("YRC")), LyricReader::Yrc);
    assert_eq!(reader_for(None, false, "[00:01]hi", Some("lrc")), LyricReader::Lrc);
    assert_eq!(reader_for(Some(LyricReader::Lrc), true, "<tt/>", Some("ttml")), LyricReader::Lrc);
    assert_eq!(choose_reader(Some(LyricReader::Yrc), "<tt/>", None), LyricReader::Yrc);
    assert_eq!(choose_reader(None, "<tt/>", None), LyricReader::Ttml);
}
