use goosy::format::LyricFormat;
use goosy::request::{options_from_entries, request_options, JsonField, RenderOptions, RequestError};

#[test]
fn minimal_request_takes_the_defaults() {
    let options = request_options(r#"{"song": "a.mp3", "output": "b.mp4"}"#).unwrap();
    assert_eq!(options, RenderOptions::new("a.mp3".to_owned(), "b.mp4".to_owned()));
    assert_eq!(options.width, 1_920);
    assert_eq!(options.height, 1_080);
    assert_eq!(options.fps, 30);
    assert_eq!(options.format, LyricFormat::Auto);
}

#[test]
fn full_request_sets_every_option() {
    let options = request_options(
        r#"{"song":"s","output":"o","lyrics":"l.ttml","background":null,"cover":"c.png","title":"T",
            "width":1280,"height":720,"fps":60,"no_embedded_cover":true,"no_audio":false,"format":"xml"}"#,
    )
    .unwrap();
    assert_eq!(options.lyrics.as_deref(), Some("l.ttml"));
    assert_eq!(options.background, None);
    assert_eq!(options.cover.as_deref(), Some("c.png"));
    assert_eq!(options.title.as_deref(), Some("T"));
    assert_eq!((options.width, options.height, options.fps), (1_280, 720, 60));
    assert!(options.no_embedded_cover);
    assert!(!options.no_audio);
    assert_eq!(options.format, LyricFormat::Ttml);
}

#[test]
fn malformed_requests_name_the_first_bad_field() {
    assert!(matches!(request_options("{"), Err(RequestError::InvalidJson(_))));
    assert_eq!(request_options("[1]"), Err(RequestError::NotObject));
    assert_eq!(
        request_options(r#"{"output":"o"}"#).unwrap_err().message(),
        "request.song must be a string"
    );
    assert_eq!(
        request_options(r#"{"song":"s","output":"o","cover":3,"width":-1}"#).unwrap_err(),
        RequestError::NotStringOrNull("cover".to_owned())
    );
    assert_eq!(
        request_options(r#"{"song":"s","output":"o","width":1.5}"#).unwrap_err().message(),
        "request.width must be a positive integer"
    );
    assert_eq!(
        request_options(r#"{"song":"s","output":"o","no_audio":"yes"}"#).unwrap_err().message(),
        "request.no_audio must be boolean"
    );
    assert_eq!(
        request_options(r#"{"song":"s","output":"o","format":"yrc"}"#).unwrap_err().message(),
        "unsupported lyric format: yrc"
    );
    assert_eq!(RequestError::NotObject.message(), "request must be a JSON object");
}

#[test]
fn non_string_formats_count_as_auto_and_sizes_keep_their_low_bits() {
    let entries = vec![
        ("song".to_owned(), JsonField::Text("s".to_owned())),
        ("output".to_owned(), JsonField::Text("o".to_owned())),
        ("format".to_owned(), JsonField::Unsigned(3)),
        ("width".to_owned(), JsonField::Unsigned(4_294_967_297)),
    ];
    let options = options_from_entries(&entries).unwrap();
    assert_eq!(options.format, LyricFormat::Auto);
    assert_eq!(options.width, 1);
}
