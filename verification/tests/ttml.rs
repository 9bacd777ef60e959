use goosy::lyrics::{LyricLine, LyricsError};
use goosy::ttml::{
    check_ttml_content, is_ttml_root, looks_like_ttml, parse_ttml_events, read_says_ttml,
    read_ttml_events, ttml_events_fit, xml_attribute, TtmlParser, XmlAttribute, XmlElement,
    XmlEvent,
};
use goosy::xml::XmlRead;

fn element(name: &str, attributes: &[(&str, &str)], begin_ms: Option<u64>, end_ms: Option<u64>) -> XmlElement {
    XmlElement {
        name: name.to_owned(),
        attributes: attributes
            .iter()
            .map(|(key, value)| XmlAttribute {
                key: (*key).to_owned(),
                value: (*value).to_owned(),
            })
            .collect(),
        begin_ms,
        end_ms,
    }
}

fn open(name: &str, attributes: &[(&str, &str)]) -> XmlEvent {
    XmlEvent::Start(element(name, attributes, None, None))
}

fn timed(name: &str, attributes: &[(&str, &str)], begin_ms: u64, end_ms: u64) -> XmlEvent {
    XmlEvent::Start(element(name, attributes, Some(begin_ms), Some(end_ms)))
}

fn text(value: &str) -> XmlEvent {
    XmlEvent::Text(value.to_owned())
}

fn close(name: &str) -> XmlEvent {
    XmlEvent::End(name.to_owned())
}

fn document(body: Vec<XmlEvent>) -> Vec<XmlEvent> {
    let mut events = vec![open("tt", &[]), open("body", &[])];
    events.extend(body);
    events.push(close("body"));
    events.push(close("tt"));
    events
}

#[test]
fn preserves_spaces_between_timed_english_span_events() {
    let events = document(vec![
        timed("p", &[], 1_000, 4_000),
        timed("span", &[], 1_000, 2_000),
        text("We’re"),
        close("span"),
        text(" "),
        timed("span", &[], 2_000, 4_000),
        text("wild"),
        close("span"),
        close("p"),
    ]);
    assert!(ttml_events_fit(&events));
    let lines = parse_ttml_events(&events).unwrap();
    assert_eq!(lines[0].text, "We’re wild");
    assert_eq!(
        lines[0]
            .words
            .iter()
            .map(|word| word.text.as_str())
            .collect::<String>(),
        lines[0].text
    );
}

#[test]
fn reads_namespaced_word_events() {
    let events = vec![
        open("tt", &[("xmlns", "http://www.w3.org/ns/ttml")]),
        open("body", &[]),
        timed("p", &[], 1_000, 3_000),
        timed("span", &[], 1_000, 1_500),
        text("Hel"),
        close("span"),
        timed("span", &[], 1_500, 2_000),
        text("lo "),
        close("span"),
        timed("span", &[], 2_000, 3_000),
        text("world"),
        close("span"),
        close("p"),
        close("body"),
        close("tt"),
    ];
    let lines = parse_ttml_events(&events).unwrap();
    assert_eq!(lines.len(), 1);
    assert_eq!(lines[0].text, "Hello world");
    assert_eq!(lines[0].words.len(), 3);
    assert_eq!(lines[0].words[1].start_ms, 1_500);
    assert_eq!(lines[0].end_ms, 3_000);
}

#[test]
fn inline_translation_event_stays_out_of_main_line() {
    let events = document(vec![
        timed("p", &[], 1_000, 3_000),
        timed("span", &[], 1_000, 2_000),
        text("main "),
        close("span"),
        open("span", &[("ttm:role", "x-translation")]),
        text("翻译"),
        close("span"),
        close("p"),
    ]);
    let lines = parse_ttml_events(&events).unwrap();
    assert_eq!(lines[0].text, "main");
    assert_eq!(lines[0].translation.as_deref(), Some("翻译"));
}

#[test]
fn sidecar_translation_events_attach_by_line_key() {
    let events = vec![
        open("tt", &[]),
        open("head", &[]),
        open("metadata", &[]),
        open("iTunesMetadata", &[]),
        open("translations", &[]),
        open("translation", &[]),
        open("text", &[("for", "L1")]),
        text("译文"),
        close("text"),
        close("translation"),
        close("translations"),
        close("iTunesMetadata"),
        close("metadata"),
        close("head"),
        open("body", &[]),
        timed("p", &[("itunes:key", "L1")], 1_000, 3_000),
        text("main"),
        close("p"),
        close("body"),
        close("tt"),
    ];
    let lines = parse_ttml_events(&events).unwrap();
    assert_eq!(lines[0].translation.as_deref(), Some("译文"));
}

#[test]
fn untimed_paragraph_event_becomes_one_word() {
    let events = document(vec![timed("p", &[], 2_000, 4_000), text("Line"), close("p")]);
    let lines = parse_ttml_events(&events).unwrap();
    assert_eq!(lines[0].start_ms, 2_000);
    assert_eq!(lines[0].end_ms, 4_000);
    assert_eq!(lines[0].words[0].text, "Line");
}

#[test]
fn background_vocal_events_stay_out_of_main_line() {
    let events = document(vec![
        timed("p", &[], 1_000, 3_000),
        timed("span", &[], 1_000, 2_000),
        text("main "),
        close("span"),
        open("span", &[("ttm:role", "x-bg")]),
        timed("span", &[], 2_000, 3_000),
        text("background"),
        close("span"),
        close("span"),
        close("p"),
    ]);
    let lines = parse_ttml_events(&events).unwrap();
    assert_eq!(lines[0].text, "main");
    assert_eq!(lines[0].words.len(), 1);
    let background = lines[0].background_vocal.as_ref().unwrap();
    assert_eq!(background.text, "background");
    assert_eq!(background.words.len(), 1);
    assert_eq!(background.words[0].start_ms, 2_000);
}

#[test]
fn sidecar_background_vocal_events() {
    let events = vec![
        open("tt", &[]),
        open("head", &[]),
        open("translation", &[]),
        open("text", &[("for", "L1")]),
        text("译文 "),
        open("span", &[("ttm:role", "x-bg")]),
        text("(伴唱)"),
        close("span"),
        close("text"),
        close("translation"),
        close("head"),
        open("body", &[]),
        timed("p", &[("itunes:key", "L1")], 1_000, 3_000),
        text("main"),
        close("p"),
        close("body"),
        close("tt"),
    ];
    let lines = parse_ttml_events(&events).unwrap();
    assert_eq!(lines[0].translation.as_deref(), Some("译文"));
    assert_eq!(lines[0].background_vocal.as_ref().unwrap().text, "(伴唱)");
}

#[test]
fn nested_styling_span_events_keep_timed_leaf_words() {
    let events = document(vec![
        timed("p", &[], 1_000, 3_000),
        open("span", &[("tts:fontStyle", "italic")]),
        timed("span", &[], 1_000, 2_000),
        text("nested"),
        close("span"),
        close("span"),
        close("p"),
    ]);
    let lines = parse_ttml_events(&events).unwrap();
    assert_eq!(lines[0].text, "nested");
    assert_eq!(lines[0].words.len(), 1);
    assert_eq!(lines[0].words[0].start_ms, 1_000);
}

#[test]
fn sniffs_ttml_root_independent_of_file_extension() {
    assert!(looks_like_ttml(
        "<?xml version=\"1.0\"?><tt xmlns=\"http://www.w3.org/ns/ttml\"><body/></tt>"
    ));
    assert!(!looks_like_ttml("[00:01]not XML"));
}

#[test]
fn sniffing_looks_at_the_first_element_only() {
    assert!(looks_like_ttml("<tt:tt/>"));
    assert!(!looks_like_ttml("<html><tt/></html>"));
    assert!(!looks_like_ttml(""));
    assert!(looks_like_ttml("<?xml version=\"1.0\"?><!-- lyrics --><tt><p>"));
    assert!(!looks_like_ttml("</b><tt/>"));
    assert!(!looks_like_ttml("<body><tt/></body>"));
}

#[test]
fn reads_decide_on_the_first_element() {
    let element = |name: &[u8]| XmlRead::Element(false, name.to_vec(), Vec::new());
    assert_eq!(read_says_ttml(&element(b"ns:tt")), Some(true));
    assert_eq!(read_says_ttml(&XmlRead::Element(true, b"tt".to_vec(), Vec::new())), Some(true));
    assert_eq!(read_says_ttml(&element(b"body")), Some(false));
    assert_eq!(read_says_ttml(&element(b"\xfftt")), Some(false));
    assert_eq!(read_says_ttml(&XmlRead::Eof), Some(false));
    assert_eq!(read_says_ttml(&XmlRead::Error), Some(false));
    assert_eq!(read_says_ttml(&XmlRead::Other), None);
    assert_eq!(read_says_ttml(&XmlRead::Text(Some("tt".to_owned()))), None);
    assert_eq!(read_says_ttml(&XmlRead::End(b"tt".to_vec())), None);
}

#[test]
fn roots_and_attributes_match_by_local_name() {
    assert!(is_ttml_root("tt"));
    assert!(is_ttml_root("a:b:tt"));
    assert!(!is_ttml_root("ttx"));
    let attributes = vec![
        XmlAttribute {
            key: "xml:id".to_owned(),
            value: "first".to_owned(),
        },
        XmlAttribute {
            key: "id".to_owned(),
            value: "second".to_owned(),
        },
    ];
    assert_eq!(xml_attribute(&attributes, "id").as_deref(), Some("first"));
    assert_eq!(xml_attribute(&attributes, "begin"), None);
}

#[test]
fn blank_documents_and_documents_without_lines_are_refused() {
    assert_eq!(check_ttml_content("  \n\t"), Err(LyricsError::NoTtmlContent));
    assert_eq!(check_ttml_content("<tt/>"), Ok(()));
    let events = document(vec![timed("p", &[], 1_000, 2_000), text("   "), close("p")]);
    assert_eq!(parse_ttml_events(&events).unwrap_err(), LyricsError::NoTtmlLyricLines);
}

#[test]
fn duet_sides_follow_agent_changes() {
    let events = vec![
        open("tt", &[]),
        open("head", &[]),
        XmlEvent::Empty(element("ttm:agent", &[("xml:id", "v2"), ("type", "other")], None, None)),
        close("head"),
        open("body", &[]),
        timed("p", &[("ttm:agent", "v2")], 1_000, 2_000),
        text("one"),
        close("p"),
        timed("p", &[("ttm:agent", "v2")], 2_000, 3_000),
        text("two"),
        close("p"),
        timed("p", &[("ttm:agent", "v1")], 3_000, 4_000),
        text("three"),
        close("p"),
        timed("p", &[], 4_000, 5_000),
        text("four"),
        close("p"),
        close("body"),
        close("tt"),
    ];
    let lines = parse_ttml_events(&events).unwrap();
    let sides: Vec<bool> = lines.iter().map(|line| line.is_duet).collect();
    assert_eq!(sides, vec![true, true, false, false]);
}

#[test]
fn feeding_events_one_by_one_gives_the_same_lines() {
    let events = document(vec![timed("p", &[], 5_000, 6_000), text("b"), close("p"), timed("p", &[], 1_000, 2_000), text("a"), close("p")]);
    let mut parser = TtmlParser::new();
    for event in &events {
        parser = parser.feed(event);
    }
    assert!(!parser.overflowed());
    let lines = parser.finish().unwrap();
    assert_eq!(lines, parse_ttml_events(&events).unwrap());
    assert_eq!(lines[0].text, "a");
    assert_eq!(lines[1].text, "b");
}

// TTML clock values (`2s`, `340ms`, `00:01.500`) in milliseconds, read as
// floating-point numbers the way the command-line tools read them.
fn clock_value_ms(value: Option<&str>) -> Option<u64> {
    let value = value?.trim();
    if value.is_empty() {
        return None;
    }
    if let Some(number) = value.strip_suffix("ms") {
        return number.parse::<f64>().ok().map(|ms| ms.round() as u64);
    }
    if let Some(number) = value.strip_suffix('s') {
        return number.parse::<f64>().ok().map(|s| (s * 1_000.0).round() as u64);
    }
    let parts: Vec<&str> = value.split(':').collect();
    let seconds = match parts.as_slice() {
        [s] => s.parse::<f64>().ok()?,
        [m, s] => m.parse::<f64>().ok()? * 60.0 + s.parse::<f64>().ok()?,
        [h, m, s] => {
            h.parse::<f64>().ok()? * 3_600.0 + m.parse::<f64>().ok()? * 60.0 + s.parse::<f64>().ok()?
        }
        _ => return None,
    };
    Some((seconds * 1_000.0).round() as u64)
}

fn clock_table(input: &str) -> Vec<(String, Option<u64>)> {
    let mut table = Vec::new();
    for event in read_ttml_events(input, &Vec::new()).unwrap_or_default() {
        if let XmlEvent::Start(element) | XmlEvent::Empty(element) = event {
            for name in ["begin", "end"] {
                if let Some(value) = xml_attribute(&element.attributes, name) {
                    let ms = clock_value_ms(Some(&value));
                    table.push((value, ms));
                }
            }
        }
    }
    table
}

fn parse_ttml(input: &str) -> Result<Vec<LyricLine>, LyricsError> {
    goosy::ttml::parse_ttml(input, &clock_table(input))
}

#[test]
fn preserves_spaces_between_timed_english_spans() {
    let input = r#"<tt><body><p begin="1s" end="4s"><span begin="1s" end="2s">We’re</span> <span begin="2s" end="4s">wild</span></p></body></tt>"#;
    let lines = parse_ttml(input).unwrap();
    assert_eq!(lines[0].text, "We’re wild");
    assert_eq!(
        lines[0]
            .words
            .iter()
            .map(|word| word.text.as_str())
            .collect::<String>(),
        lines[0].text
    );
}

#[test]
fn parses_namespaced_word_ttml() {
    let input = r#"<tt xmlns="http://www.w3.org/ns/ttml" xmlns:xml="http://www.w3.org/XML/1998/namespace"><body><p xml:begin="00:01.000" xml:end="00:03.000"><span xml:begin="00:01.000" xml:end="00:01.500">Hel</span><span xml:begin="00:01.500" xml:end="00:02.000">lo </span><span xml:begin="00:02.000" xml:end="00:03.000">world</span></p></body></tt>"#;
    let lines = parse_ttml(input).unwrap();
    assert_eq!(lines.len(), 1);
    assert_eq!(lines[0].text, "Hello world");
    assert_eq!(lines[0].words.len(), 3);
    assert_eq!(lines[0].words[1].start_ms, 1_500);
    assert_eq!(lines[0].end_ms, 3_000);
}

#[test]
fn parses_inline_translation_without_mixing_it_into_main_line() {
    let input = r#"<tt><body><p begin="1s" end="3s"><span begin="1s" end="2s">main </span><span ttm:role="x-translation">翻译</span></p></body></tt>"#;
    let lines = parse_ttml(input).unwrap();
    assert_eq!(lines[0].text, "main");
    assert_eq!(lines[0].translation.as_deref(), Some("翻译"));
}

#[test]
fn parses_sidecar_translation_by_line_key() {
    let input = r#"<tt><head><metadata><iTunesMetadata><translations><translation><text for="L1">译文</text></translation></translations></iTunesMetadata></metadata></head><body><p begin="1s" end="3s" itunes:key="L1">main</p></body></tt>"#;
    let lines = parse_ttml(input).unwrap();
    assert_eq!(lines[0].translation.as_deref(), Some("译文"));
}

#[test]
fn supports_seconds_and_fallback_line_word() {
    let input = r#"<tt><body><p begin="2s" end="4s">Line</p></body></tt>"#;
    let lines = parse_ttml(input).unwrap();
    assert_eq!(lines[0].start_ms, 2_000);
    assert_eq!(lines[0].end_ms, 4_000);
    assert_eq!(lines[0].words[0].text, "Line");
}

#[test]
fn parses_background_vocal_without_mixing_main_line() {
    let input = r#"<tt><body><p begin="1s" end="3s"><span begin="1s" end="2s">main </span><span ttm:role="x-bg"><span begin="2s" end="3s">background</span></span></p></body></tt>"#;
    let lines = parse_ttml(input).unwrap();
    assert_eq!(lines[0].text, "main");
    assert_eq!(lines[0].words.len(), 1);
    let background = lines[0].background_vocal.as_ref().unwrap();
    assert_eq!(background.text, "background");
    assert_eq!(background.words.len(), 1);
    assert_eq!(background.words[0].start_ms, 2_000);
}

#[test]
fn parses_sidecar_background_vocal() {
    let input = r#"<tt><head><metadata><iTunesMetadata><translations><translation><text for="L1">译文 <span ttm:role="x-bg">(伴唱)</span></text></translation></translations></iTunesMetadata></metadata></head><body><p begin="1s" end="3s" itunes:key="L1">main</p></body></tt>"#;
    let lines = parse_ttml(input).unwrap();
    assert_eq!(lines[0].translation.as_deref(), Some("译文"));
    assert_eq!(lines[0].background_vocal.as_ref().unwrap().text, "(伴唱)");
}

#[test]
fn records_timed_leaf_spans_nested_for_styling() {
    let input = r#"<tt><body><p begin="1s" end="3s"><span tts:fontStyle="italic"><span begin="1s" end="2s">nested</span></span></p></body></tt>"#;
    let lines = parse_ttml(input).unwrap();
    assert_eq!(lines[0].text, "nested");
    assert_eq!(lines[0].words.len(), 1);
    assert_eq!(lines[0].words[0].start_ms, 1_000);
}

#[test]
fn reading_a_document_gives_its_events_in_order() {
    let events = read_ttml_events(
        "<?xml version=\"1.0\"?><tt a:b=\"x&amp;y\"><!-- c --><p/>one &lt;two&gt;<![CDATA[<raw>]]></tt>",
        &Vec::new(),
    )
    .unwrap();
    assert_eq!(events.len(), 5);
    match &events[0] {
        XmlEvent::Start(e) => {
            assert_eq!(e.name, "tt");
            assert_eq!(e.attributes.len(), 1);
            assert_eq!(e.attributes[0].key, "a:b");
            assert_eq!(e.attributes[0].value, "x&amp;y");
            assert_eq!((e.begin_ms, e.end_ms), (None, None));
        }
        _ => panic!("expected a start tag"),
    }
    assert!(matches!(&events[1], XmlEvent::Empty(e) if e.name == "p" && e.attributes.is_empty()));
    assert!(matches!(&events[2], XmlEvent::Text(t) if t == "one <two>"));
    assert!(matches!(&events[3], XmlEvent::Text(t) if t == "<raw>"));
    assert!(matches!(&events[4], XmlEvent::End(n) if n == "tt"));
}

#[test]
fn reading_refuses_blank_broken_and_undecodable_documents() {
    let none = Vec::new();
    assert!(matches!(read_ttml_events(" \n ", &none), Err(LyricsError::NoTtmlContent)));
    assert!(matches!(read_ttml_events("<tt></p>", &none), Err(LyricsError::UnreadableTtmlXml)));
    assert!(matches!(
        read_ttml_events("<tt>&bogus;</tt>", &none),
        Err(LyricsError::UndecodableTtmlText)
    ));
    assert_eq!(LyricsError::UnreadableTtmlXml.message(), "read TTML XML event");
    assert_eq!(LyricsError::UndecodableTtmlText.message(), "decode TTML text");
    assert!(parse_ttml("<tt><body/></tt>").is_err());
}

#[test]
fn auto_uses_ttml_extension_fallback() {
    let input = r#"<body><p begin="1s" end="2s">hello</p></body>"#;
    assert_eq!(
        goosy::format::choose_reader(None, input, Some("ttml")),
        goosy::format::LyricReader::Ttml
    );
    let lines = parse_ttml(input).unwrap();
    assert_eq!(lines[0].text, "hello");
}

#[test]
fn times_come_from_the_clock_table() {
    let input = r#"<tt><body><p xml:begin="A" end="B">Line</p></body></tt>"#;
    let table = vec![
        ("A".to_owned(), Some(7)),
        ("A".to_owned(), Some(9)),
        ("B".to_owned(), Some(4_000)),
    ];
    let events = read_ttml_events(input, &table).unwrap();
    match &events[2] {
        XmlEvent::Start(e) => assert_eq!((e.begin_ms, e.end_ms), (Some(7), Some(4_000))),
        _ => panic!("expected the paragraph"),
    }
    let lines = goosy::ttml::parse_ttml(input, &table).unwrap();
    assert_eq!((lines[0].start_ms, lines[0].end_ms), (7, 4_000));
    let unread = vec![("A".to_owned(), None), ("B".to_owned(), Some(4_000))];
    match &read_ttml_events(input, &unread).unwrap()[2] {
        XmlEvent::Start(e) => assert_eq!((e.begin_ms, e.end_ms), (None, Some(4_000))),
        _ => panic!("expected the paragraph"),
    }
}

#[test]
fn times_beyond_the_millisecond_range_are_refused() {
    let input = r#"<tt><body><p begin="A" end="B">Line</p></body></tt>"#;
    let table = vec![("A".to_owned(), Some(u64::MAX - 100)), ("B".to_owned(), Some(u64::MAX))];
    assert_eq!(goosy::ttml::parse_ttml(input, &table), Err(LyricsError::TtmlTimesOverflow));
    assert_eq!(
        LyricsError::TtmlTimesOverflow.message(),
        "TTML times overflow the millisecond range"
    );
}
