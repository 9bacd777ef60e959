//! Decisions around the FFmpeg tools: which H.264 encoder to use and with
//! which arguments, and what ffprobe says of a song: its duration and the
//! tags that hold its title and lyrics.
use vstd::prelude::*;

use crate::backend::Platform;
use crate::lyrics::opt_text;
use crate::text::{
    chars_of, contains_seq, decimal, eq_ignore_ascii_case, find_seq_from_exec, is_blank, push_decimal,
    string_from_chars, trim,
};

verus! {

/// Whether the encoder listing of `ffmpeg -encoders` (when it could be had)
/// mentions `name`.
pub open spec fn encoder_listed(listing: Option<Seq<char>>, name: Seq<char>) -> bool {
    match listing {
        Some(l) => contains_seq(l, name),
        None => false,
    }
}

/// Whether FFmpeg lists the encoder `name`; `listing` is what
/// `ffmpeg -encoders` printed, if it ran.
pub fn encoder_available(listing: Option<&str>, name: &str) -> (b: bool)
    ensures
        b == encoder_listed(
            match listing {
                Some(l) => Some(l@),
                None => None,
            },
            name@,
        ),
{
    match listing {
        None => false,
        Some(l) => find_seq_from_exec(&chars_of(l), &chars_of(name), 0).is_some(),
    }
}

/// The hardware H.264 encoders of a platform, in order of preference.
pub open spec fn hardware_encoders(platform: Platform) -> Seq<Seq<char>> {
    match platform {
        Platform::MacOs => seq!["h264_videotoolbox"@],
        Platform::Windows => seq!["h264_nvenc"@, "h264_amf"@, "h264_qsv"@],
        Platform::Other => Seq::empty(),
    }
}

/// Lists the hardware H.264 encoders of a platform, in order of preference.
pub fn hardware_encoder_candidates(platform: Platform) -> (r: Vec<&'static str>)
    ensures
        r@.len() == hardware_encoders(platform).len(),
        forall|i: int| 0 <= i < r@.len() ==> (#[trigger] r@[i])@ == hardware_encoders(platform)[i],
{
    match platform {
        Platform::MacOs => vec!["h264_videotoolbox"],
        Platform::Windows => vec!["h264_nvenc", "h264_amf", "h264_qsv"],
        Platform::Other => Vec::new(),
    }
}

/// Whether candidate `i` of a platform may encode: FFmpeg lists it, and on
/// Windows a one-frame trial encode with it succeeded (`opened[i]`), since a
/// listed wrapper may lack its driver.
pub open spec fn encoder_usable(
    platform: Platform,
    listing: Option<Seq<char>>,
    opened: Seq<bool>,
    i: int,
) -> bool {
    encoder_listed(listing, hardware_encoders(platform)[i]) && (platform == Platform::Windows
        ==> (0 <= i < opened.len() && opened[i]))
}

/// The first usable hardware encoder of the platform, from candidate `from` on.
pub open spec fn first_usable_encoder(
    platform: Platform,
    listing: Option<Seq<char>>,
    opened: Seq<bool>,
    from: int,
) -> Option<int>
    decreases hardware_encoders(platform).len() - from,
{
    if from < 0 || from >= hardware_encoders(platform).len() {
        None
    } else if encoder_usable(platform, listing, opened, from) {
        Some(from)
    } else {
        first_usable_encoder(platform, listing, opened, from + 1)
    }
}

/// The hardware encoder to use: the first candidate of the platform that is
/// usable, none on platforms without one.
pub fn preferred_hardware_encoder(platform: Platform, listing: Option<&str>, opened: &[bool]) -> (r:
    Option<&'static str>)
    ensures
        match first_usable_encoder(
            platform,
            match listing {
                Some(l) => Some(l@),
                None => None,
            },
            opened@,
            0,
        ) {
            Some(i) => r matches Some(name) && name@ == hardware_encoders(platform)[i],
            None => r is None,
        },
{
    let ghost lv = match listing {
        Some(l) => Some(l@),
        None => None,
    };
    let candidates = hardware_encoder_candidates(platform);
    let mut i: usize = 0;
    while i < candidates.len()
        invariant
            i <= candidates.len(),
            candidates@.len() == hardware_encoders(platform).len(),
            forall|k: int|
                0 <= k < candidates@.len() ==> (#[trigger] candidates@[k])@ == hardware_encoders(
                    platform,
                )[k],
            lv == match listing {
                Some(l) => Some(l@),
                None => None::<Seq<char>>,
            },
            first_usable_encoder(platform, lv, opened@, 0) == first_usable_encoder(
                platform,
                lv,
                opened@,
                i as int,
            ),
        decreases candidates.len() - i,
    {
        let name = candidates[i];
        let listed = encoder_available(listing, name);
        let trial_ok = match platform {
            Platform::Windows => i < opened.len() && opened[i],
            _ => true,
        };
        if listed && trial_ok {
            return Some(name);
        }
        i = i + 1;
    }
    None
}

/// The FFmpeg video codec arguments for an encoder: the hardware encoders at
/// 8 Mbit/s (with their quality presets), else `libx264` at CRF 20.
pub open spec fn encoder_arguments(encoder: Option<Seq<char>>) -> Seq<Seq<char>> {
    match encoder {
        Some(e) => if e == "h264_videotoolbox"@ {
            seq!["-c:v"@, "h264_videotoolbox"@, "-b:v"@, "8M"@]
        } else if e == "h264_nvenc"@ {
            seq!["-c:v"@, "h264_nvenc"@, "-preset"@, "p5"@, "-b:v"@, "8M"@]
        } else if e == "h264_amf"@ {
            seq!["-c:v"@, "h264_amf"@, "-quality"@, "quality"@, "-b:v"@, "8M"@]
        } else if e == "h264_qsv"@ {
            seq!["-c:v"@, "h264_qsv"@, "-b:v"@, "8M"@]
        } else {
            seq!["-c:v"@, "libx264"@, "-preset"@, "veryfast"@, "-crf"@, "20"@]
        },
        None => seq!["-c:v"@, "libx264"@, "-preset"@, "veryfast"@, "-crf"@, "20"@],
    }
}

/// The arguments that select and tune the video encoder of an FFmpeg command.
pub fn video_encoder_args(encoder: Option<&str>) -> (r: Vec<&'static str>)
    ensures
        r@.len() == encoder_arguments(
            match encoder {
                Some(e) => Some(e@),
                None => None,
            },
        ).len(),
        forall|i: int|
            0 <= i < r@.len() ==> (#[trigger] r@[i])@ == encoder_arguments(
                match encoder {
                    Some(e) => Some(e@),
                    None => None,
                },
            )[i],
{
    let software = vec!["-c:v", "libx264", "-preset", "veryfast", "-crf", "20"];
    match encoder {
        None => software,
        Some(e) => {
            let c = chars_of(e);
            if crate::text::chars_equal_str(&c, "h264_videotoolbox") {
                vec!["-c:v", "h264_videotoolbox", "-b:v", "8M"]
            } else if crate::text::chars_equal_str(&c, "h264_nvenc") {
                vec!["-c:v", "h264_nvenc", "-preset", "p5", "-b:v", "8M"]
            } else if crate::text::chars_equal_str(&c, "h264_amf") {
                vec!["-c:v", "h264_amf", "-quality", "quality", "-b:v", "8M"]
            } else if crate::text::chars_equal_str(&c, "h264_qsv") {
                vec!["-c:v", "h264_qsv", "-b:v", "8M"]
            } else {
                software
            }
        },
    }
}

/// One tag of a probed song: its key, and its value where that is a string.
#[derive(Clone, Debug, PartialEq, Eq)]
pub struct MetadataTag {
    pub key: String,
    pub value: Option<String>,
}

impl View for MetadataTag {
    type V = (Seq<char>, Option<Seq<char>>);

    open spec fn view(&self) -> (Seq<char>, Option<Seq<char>>) {
        (self.key@, opt_text(self.value))
    }
}

/// The mathematical values of tags.
pub open spec fn tags_view(tags: Seq<MetadataTag>) -> Seq<(Seq<char>, Option<Seq<char>>)> {
    tags.map_values(|t: MetadataTag| t@)
}

/// Whether `key` equals one of `names`, ASCII letters in either case.
pub open spec fn key_matches(key: Seq<char>, names: Seq<Seq<char>>) -> bool {
    exists|j: int| 0 <= j < names.len() && eq_ignore_ascii_case(key, #[trigger] names[j])
}

/// The first tag, from index `from` on, whose key is one of `names`.
pub open spec fn first_tag_named(
    tags: Seq<(Seq<char>, Option<Seq<char>>)>,
    names: Seq<Seq<char>>,
    from: int,
) -> Option<int>
    decreases tags.len() - from,
{
    if from < 0 || from >= tags.len() {
        None
    } else if key_matches(tags[from].0, names) {
        Some(from)
    } else {
        first_tag_named(tags, names, from + 1)
    }
}

/// The value of the first tag whose key is one of `names`, when that value is
/// a string with more than white space in it.
pub open spec fn tag_value(tags: Seq<(Seq<char>, Option<Seq<char>>)>, names: Seq<Seq<char>>) -> Option<
    Seq<char>,
> {
    match first_tag_named(tags, names, 0) {
        None => None,
        Some(i) => match tags[i].1 {
            Some(v) => if trim(v).len() > 0 {
                Some(v)
            } else {
                None
            },
            None => None,
        },
    }
}

fn key_matches_exec(key: &String, names: &[&str]) -> (b: bool)
    ensures
        b == key_matches(key@, names@.map_values(|n: &str| n@)),
{
    let ghost nv = names@.map_values(|n: &str| n@);
    let mut j: usize = 0;
    while j < names.len()
        invariant
            j <= names.len(),
            nv == names@.map_values(|n: &str| n@),
            forall|k: int| 0 <= k < j ==> !eq_ignore_ascii_case(key@, #[trigger] nv[k]),
        decreases names.len() - j,
    {
        if crate::library::equal_ignoring_ascii_case(key.as_str(), names[j]) {
            assert(nv[j as int] == names@[j as int]@);
            return true;
        }
        j = j + 1;
    }
    false
}

/// The value of the first tag whose key is one of `names` (ASCII letters in
/// either case), if that value is a string with more than white space.
pub fn find_tag(tags: &[MetadataTag], names: &[&str]) -> (r: Option<String>)
    ensures
        opt_text(r) == tag_value(tags_view(tags@), names@.map_values(|n: &str| n@)),
{
    let ghost nv = names@.map_values(|n: &str| n@);
    let ghost tv = tags_view(tags@);
    let mut i: usize = 0;
    while i < tags.len()
        invariant
            i <= tags.len(),
            nv == names@.map_values(|n: &str| n@),
            tv == tags_view(tags@),
            first_tag_named(tv, nv, 0) == first_tag_named(tv, nv, i as int),
        decreases tags.len() - i,
    {
        assert(tv[i as int] == tags@[i as int]@);
        if key_matches_exec(&tags[i].key, names) {
            return match &tags[i].value {
                Some(v) => {
                    if is_blank(&chars_of(v.as_str())) {
                        None
                    } else {
                        Some(v.clone())
                    }
                },
                None => None,
            };
        }
        i = i + 1;
    }
    None
}

/// The tag names that hold a song's title.
pub open spec fn title_names() -> Seq<Seq<char>> {
    seq!["title"@, "sort_name"@, "©nam"@]
}

/// The tag names that hold a song's lyrics.
pub open spec fn lyrics_names() -> Seq<Seq<char>> {
    seq!["lyrics"@, "lyric"@, "©lyr"@]
}

/// The tag names that hold a song's title.
pub fn title_tag_names() -> (r: Vec<&'static str>)
    ensures
        r@.map_values(|n: &str| n@) == title_names(),
{
    let r = vec!["title", "sort_name", "©nam"];
    assert(r@.map_values(|n: &str| n@) =~= title_names());
    r
}

/// The tag names that hold a song's lyrics.
pub fn lyrics_tag_names() -> (r: Vec<&'static str>)
    ensures
        r@.map_values(|n: &str| n@) == lyrics_names(),
{
    let r = vec!["lyrics", "lyric", "©lyr"];
    assert(r@.map_values(|n: &str| n@) =~= lyrics_names());
    r
}

/// What `ffprobe -show_entries format=duration:format_tags -of json` printed,
/// as far as a song's probe reads it: no JSON, JSON without a `format` entry,
/// or the format's duration (where it is a string) and its tags (each value
/// where it is a string), in the order the JSON parser keeps them.
pub enum FfprobeFormat {
    Invalid,
    NoFormat,
    Format(Option<String>, Vec<MetadataTag>),
}

/// The mathematical value of what ffprobe printed.
pub enum FfprobeFormatModel {
    Invalid,
    NoFormat,
    Format(Option<Seq<char>>, Seq<(Seq<char>, Option<Seq<char>>)>),
}

impl View for FfprobeFormat {
    type V = FfprobeFormatModel;

    open spec fn view(&self) -> FfprobeFormatModel {
        match self {
            FfprobeFormat::Invalid => FfprobeFormatModel::Invalid,
            FfprobeFormat::NoFormat => FfprobeFormatModel::NoFormat,
            FfprobeFormat::Format(d, tags) => FfprobeFormatModel::Format(
                opt_text(*d),
                tags_view(tags@),
            ),
        }
    }
}

/// What `serde_json::from_slice` makes of ffprobe's output, reduced to the
/// format's duration and tags: a function of the bytes alone.
pub uninterp spec fn ffprobe_format(output: Seq<u8>) -> FfprobeFormatModel;

/// `serde_json::from_slice::<serde_json::Value>` on ffprobe's output, then
/// `Value::get` of `format`, of its `duration` and `tags`, and `as_str` of
/// each string. Its result is named, not spelled out: JSON syntax is not
/// modelled.
#[verifier::external_body]
fn parse_ffprobe(output: &[u8]) -> (r: FfprobeFormat)
    ensures
        r@ == ffprobe_format(output@),
{
    let document = match serde_json::from_slice::<serde_json::Value>(output) {
        Ok(document) => document,
        Err(_) => return FfprobeFormat::Invalid,
    };
    let format = match document.get("format") {
        Some(format) => format,
        None => return FfprobeFormat::NoFormat,
    };
    let tags = format.get("tags").and_then(serde_json::Value::as_object).into_iter().flatten();
    FfprobeFormat::Format(
        format.get("duration").and_then(serde_json::Value::as_str).map(str::to_owned),
        tags.map(|(k, v)| MetadataTag { key: k.clone(), value: v.as_str().map(str::to_owned) }).collect(),
    )
}

/// Why ffprobe's output gives no song details.
#[derive(Clone, Copy, Debug, PartialEq, Eq)]
pub enum ProbeError {
    /// The output is no JSON.
    InvalidJson,
    /// The JSON has no `format` entry.
    NoFormat,
}

impl ProbeError {
    /// The message that describes the error.
    pub fn message(&self) -> (m: &'static str)
        ensures
            m@ == (match *self {
                ProbeError::InvalidJson => "parse ffprobe JSON"@,
                ProbeError::NoFormat => "ffprobe JSON has no format"@,
            }),
    {
        match self {
            ProbeError::InvalidJson => "parse ffprobe JSON",
            ProbeError::NoFormat => "ffprobe JSON has no format",
        }
    }
}

/// What ffprobe's output says of a song: its duration as printed, and its
/// title and lyrics, each the value of the first tag (in the parser's order)
/// whose key is one of the names, where that value has more than white space.
pub fn probe_output_tags(output: &[u8]) -> (r: Result<
    (Option<String>, Option<String>, Option<String>),
    ProbeError,
>)
    ensures
        match ffprobe_format(output@) {
            FfprobeFormatModel::Invalid => r == Err::<
                (Option<String>, Option<String>, Option<String>),
                ProbeError,
            >(ProbeError::InvalidJson),
            FfprobeFormatModel::NoFormat => r == Err::<
                (Option<String>, Option<String>, Option<String>),
                ProbeError,
            >(ProbeError::NoFormat),
            FfprobeFormatModel::Format(duration, tags) => r matches Ok(p) && opt_text(p.0)
                == duration && opt_text(p.1) == tag_value(tags, title_names()) && opt_text(p.2)
                == tag_value(tags, lyrics_names()),
        },
{
    match parse_ffprobe(output) {
        FfprobeFormat::Invalid => Err(ProbeError::InvalidJson),
        FfprobeFormat::NoFormat => Err(ProbeError::NoFormat),
        FfprobeFormat::Format(duration, tags) => {
            let title = find_tag(tags.as_slice(), title_tag_names().as_slice());
            let lyrics = find_tag(tags.as_slice(), lyrics_tag_names().as_slice());
            Ok((duration, title, lyrics))
        },
    }
}

/// The FFmpeg arguments that read raw RGBA frames of the given size and rate
/// from standard input.
pub open spec fn raw_input_arguments(width: u32, height: u32, fps: u32) -> Seq<Seq<char>> {
    seq![
        "-y"@,
        "-hide_banner"@,
        "-loglevel"@,
        "error"@,
        "-f"@,
        "rawvideo"@,
        "-pix_fmt"@,
        "rgba"@,
        "-s"@,
        decimal(width as nat) + "x"@ + decimal(height as nat),
        "-r"@,
        decimal(fps as nat),
        "-i"@,
        "pipe:0"@,
    ]
}

fn owned(s: &str) -> (r: String)
    ensures
        r@ == s@,
{
    string_from_chars(&chars_of(s))
}

fn decimal_string(n: u32) -> (r: String)
    ensures
        r@ == decimal(n as nat),
{
    let mut digits: Vec<char> = Vec::new();
    push_decimal(&mut digits, n as u64);
    assert(digits@ =~= decimal(n as nat));
    string_from_chars(&digits)
}

/// The arguments that make FFmpeg read the rendered frames.
pub fn raw_input_args(width: u32, height: u32, fps: u32) -> (r: Vec<String>)
    ensures
        r@.len() == raw_input_arguments(width, height, fps).len(),
        forall|i: int|
            0 <= i < r@.len() ==> (#[trigger] r@[i])@ == raw_input_arguments(width, height, fps)[i],
{
    let mut size = chars_of(decimal_string(width).as_str());
    size.push('x');
    crate::text::push_all(&mut size, &chars_of(decimal_string(height).as_str()));
    proof {
        reveal_strlit("x");
    }
    assert(size@ =~= decimal(width as nat) + "x"@ + decimal(height as nat));
    let r = vec![
        owned("-y"),
        owned("-hide_banner"),
        owned("-loglevel"),
        owned("error"),
        owned("-f"),
        owned("rawvideo"),
        owned("-pix_fmt"),
        owned("rgba"),
        owned("-s"),
        string_from_chars(&size),
        owned("-r"),
        decimal_string(fps),
        owned("-i"),
        owned("pipe:0"),
    ];
    r
}

/// The FFmpeg output options that follow the inputs: with an audio input
/// (given just before them), map video and audio, encode AAC at 192 kbit/s
/// and stop with the shorter stream; always YUV 4:2:0 and a fast-start file.
pub open spec fn output_arguments(with_audio: bool) -> Seq<Seq<char>> {
    if with_audio {
        seq![
            "-map"@,
            "0:v:0"@,
            "-map"@,
            "1:a:0"@,
            "-pix_fmt"@,
            "yuv420p"@,
            "-c:a"@,
            "aac"@,
            "-b:a"@,
            "192k"@,
            "-movflags"@,
            "+faststart"@,
            "-shortest"@,
        ]
    } else {
        seq!["-pix_fmt"@, "yuv420p"@, "-movflags"@, "+faststart"@]
    }
}

/// The output options of the video FFmpeg command.
pub fn output_args(with_audio: bool) -> (r: Vec<&'static str>)
    ensures
        r@.len() == output_arguments(with_audio).len(),
        forall|i: int| 0 <= i < r@.len() ==> (#[trigger] r@[i])@ == output_arguments(with_audio)[i],
{
    if with_audio {
        vec![
            "-map",
            "0:v:0",
            "-map",
            "1:a:0",
            "-pix_fmt",
            "yuv420p",
            "-c:a",
            "aac",
            "-b:a",
            "192k",
            "-movflags",
            "+faststart",
            "-shortest",
        ]
    } else {
        vec!["-pix_fmt", "yuv420p", "-movflags", "+faststart"]
    }
}

} // verus!
