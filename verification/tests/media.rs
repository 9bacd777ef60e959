use goosy::backend::Platform;
use goosy::media::{
    encoder_available, find_tag, hardware_encoder_candidates, lyrics_tag_names,
    preferred_hardware_encoder, probe_output_tags, title_tag_names, video_encoder_args,
    MetadataTag, ProbeError,
};

const LISTING: &str = " V....D libx264 H.264\n V....D h264_amf AMD AMF H.264\n V....D h264_qsv Intel\n";

#[test]
fn encoders_are_available_when_listed() {
    assert!(encoder_available(Some(LISTING), "h264_amf"));
    assert!(!encoder_available(Some(LISTING), "h264_nvenc"));
    assert!(!encoder_available(None, "libx264"));
}

#[test]
fn hardware_encoder_is_the_first_usable_candidate() {
    assert_eq!(hardware_encoder_candidates(Platform::Windows), vec!["h264_nvenc", "h264_amf", "h264_qsv"]);
    assert_eq!(
        preferred_hardware_encoder(Platform::Windows, Some(LISTING), &[true, true, true]),
        Some("h264_amf")
    );
    assert_eq!(
        preferred_hardware_encoder(Platform::Windows, Some(LISTING), &[true, false, true]),
        Some("h264_qsv")
    );
    assert_eq!(preferred_hardware_encoder(Platform::Windows, Some(LISTING), &[]), None);
    assert_eq!(
        preferred_hardware_encoder(Platform::MacOs, Some("h264_videotoolbox"), &[]),
        Some("h264_videotoolbox")
    );
    assert_eq!(preferred_hardware_encoder(Platform::MacOs, None, &[]), None);
    assert_eq!(preferred_hardware_encoder(Platform::Other, Some(LISTING), &[true]), None);
}

#[test]
fn encoder_arguments_select_bitrate_or_quality() {
    assert_eq!(video_encoder_args(Some("h264_videotoolbox")), vec!["-c:v", "h264_videotoolbox", "-b:v", "8M"]);
    assert_eq!(video_encoder_args(Some("h264_nvenc")), vec!["-c:v", "h264_nvenc", "-preset", "p5", "-b:v", "8M"]);
    assert_eq!(video_encoder_args(Some("h264_amf")), vec!["-c:v", "h264_amf", "-quality", "quality", "-b:v", "8M"]);
    assert_eq!(video_encoder_args(Some("h264_qsv")), vec!["-c:v", "h264_qsv", "-b:v", "8M"]);
    assert_eq!(video_encoder_args(None), vec!["-c:v", "libx264", "-preset", "veryfast", "-crf", "20"]);
    assert_eq!(video_encoder_args(Some("other")), vec!["-c:v", "libx264", "-preset", "veryfast", "-crf", "20"]);
}

fn tag(key: &str, value: Option<&str>) -> MetadataTag {
    MetadataTag {
        key: key.to_owned(),
        value: value.map(str::to_owned),
    }
}

#[test]
fn tags_are_found_by_name_in_any_case() {
    let tags = vec![
        tag("artist", Some("Someone")),
        tag("TITLE", Some("Song")),
        tag("lyrics", Some("   ")),
        tag("©lyr", Some("[00:01]x")),
    ];
    assert_eq!(find_tag(&tags, &title_tag_names()), Some("Song".to_owned()));
    assert_eq!(find_tag(&tags, &lyrics_tag_names()), None);
    assert_eq!(find_tag(&tags[3..], &lyrics_tag_names()), Some("[00:01]x".to_owned()));
    assert_eq!(find_tag(&[tag("title", None)], &title_tag_names()), None);
    assert_eq!(find_tag(&[], &title_tag_names()), None);
}

#[test]
fn raw_frames_are_read_at_the_render_size_and_rate() {
    let args = goosy::media::raw_input_args(1_920, 1_080, 30);
    assert_eq!(
        args,
        vec![
            "-y", "-hide_banner", "-loglevel", "error", "-f", "rawvideo", "-pix_fmt", "rgba", "-s",
            "1920x1080", "-r", "30", "-i", "pipe:0"
        ]
    );
    assert_eq!(goosy::media::raw_input_args(7, 0, 5)[9], "7x0");
}

#[test]
fn audio_adds_mapping_and_aac_options() {
    assert_eq!(
        goosy::media::output_args(true),
        vec![
            "-map", "0:v:0", "-map", "1:a:0", "-pix_fmt", "yuv420p", "-c:a", "aac", "-b:a", "192k",
            "-movflags", "+faststart", "-shortest"
        ]
    );
    assert_eq!(
        goosy::media::output_args(false),
        vec!["-pix_fmt", "yuv420p", "-movflags", "+faststart"]
    );
}

#[test]
fn probe_output_gives_duration_title_and_lyrics() {
    let output = br#"{"format":{"duration":"12.5","tags":{"TITLE":"Song","comment":"x","lyrics":"  ","lyric":"[00:01]la"}}}"#;
    let (duration, title, lyrics) = probe_output_tags(output).unwrap();
    assert_eq!(duration.as_deref(), Some("12.5"));
    assert_eq!(title.as_deref(), Some("Song"));
    // Keys come in the parser's (sorted) order: `lyric` before `lyrics`.
    assert_eq!(lyrics.as_deref(), Some("[00:01]la"));
    let bare = probe_output_tags(br#"{"format":{"duration":12,"tags":{"title":5}}}"#).unwrap();
    assert_eq!(bare, (None, None, None));
    assert_eq!(probe_output_tags(br#"{"format":{}}"#).unwrap(), (None, None, None));
}

#[test]
fn probe_output_without_json_or_format_is_refused() {
    assert_eq!(probe_output_tags(b"not json"), Err(ProbeError::InvalidJson));
    assert_eq!(probe_output_tags(br#"{"streams":[]}"#), Err(ProbeError::NoFormat));
    assert_eq!(ProbeError::InvalidJson.message(), "parse ffprobe JSON");
    assert_eq!(ProbeError::NoFormat.message(), "ffprobe JSON has no format");
}
