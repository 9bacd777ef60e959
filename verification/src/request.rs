//! Render requests given as JSON through the C interface: the options they
//! set, their defaults, and the error that a malformed request gets.
use vstd::prelude::*;

use serde_json::Value;

use crate::format::{format_named, LyricFormat};
use crate::lyrics::opt_text;
use crate::text::{chars_equal_str, chars_of, push_all, string_from_chars};

verus! {

/// What a render produces and from what.
#[derive(Clone, Debug, PartialEq, Eq)]
pub struct RenderOptions {
    pub song: String,
    pub lyrics: Option<String>,
    pub output: String,
    pub width: u32,
    pub height: u32,
    pub fps: u32,
    pub background: Option<String>,
    pub cover: Option<String>,
    pub title: Option<String>,
    pub no_embedded_cover: bool,
    pub no_audio: bool,
    pub format: LyricFormat,
}

/// The mathematical value of render options.
pub struct RenderOptionsModel {
    pub song: Seq<char>,
    pub lyrics: Option<Seq<char>>,
    pub output: Seq<char>,
    pub width: u32,
    pub height: u32,
    pub fps: u32,
    pub background: Option<Seq<char>>,
    pub cover: Option<Seq<char>>,
    pub title: Option<Seq<char>>,
    pub no_embedded_cover: bool,
    pub no_audio: bool,
    pub format: LyricFormat,
}

impl View for RenderOptions {
    type V = RenderOptionsModel;

    open spec fn view(&self) -> RenderOptionsModel {
        RenderOptionsModel {
            song: self.song@,
            lyrics: opt_text(self.lyrics),
            output: self.output@,
            width: self.width,
            height: self.height,
            fps: self.fps,
            background: opt_text(self.background),
            cover: opt_text(self.cover),
            title: opt_text(self.title),
            no_embedded_cover: self.no_embedded_cover,
            no_audio: self.no_audio,
            format: self.format,
        }
    }
}

/// The options of a render of `song` into `output` that sets nothing else:
/// 1920 by 1080 pixels at 30 frames per second, with audio, the embedded
/// cover, and the lyric format sniffed.
pub open spec fn default_options(song: Seq<char>, output: Seq<char>) -> RenderOptionsModel {
    RenderOptionsModel {
        song,
        lyrics: None,
        output,
        width: 1920,
        height: 1080,
        fps: 30,
        background: None,
        cover: None,
        title: None,
        no_embedded_cover: false,
        no_audio: false,
        format: LyricFormat::Auto,
    }
}

impl RenderOptions {
    /// A render of `song` into `output` with the default settings.
    pub fn new(song: String, output: String) -> (r: Self)
        ensures
            r@ == default_options(song@, output@),
    {
        RenderOptions {
            song,
            lyrics: None,
            output,
            width: 1920,
            height: 1080,
            fps: 30,
            background: None,
            cover: None,
            title: None,
            no_embedded_cover: false,
            no_audio: false,
            format: LyricFormat::Auto,
        }
    }
}

/// A JSON value as a request field is read: null, a string, an integer that
/// fits in a `u64`, a boolean, or something else.
#[derive(Clone, Debug, PartialEq, Eq)]
pub enum JsonField {
    Null,
    Text(String),
    Unsigned(u64),
    Boolean(bool),
    Other,
}

/// The mathematical value of a request field.
pub enum JsonFieldModel {
    Null,
    Text(Seq<char>),
    Unsigned(u64),
    Boolean(bool),
    Other,
}

impl View for JsonField {
    type V = JsonFieldModel;

    open spec fn view(&self) -> JsonFieldModel {
        match self {
            JsonField::Null => JsonFieldModel::Null,
            JsonField::Text(s) => JsonFieldModel::Text(s@),
            JsonField::Unsigned(n) => JsonFieldModel::Unsigned(*n),
            JsonField::Boolean(b) => JsonFieldModel::Boolean(*b),
            JsonField::Other => JsonFieldModel::Other,
        }
    }
}

/// What reading a request as JSON gives: the parser's error message, a value
/// that is no object, or the object's entries.
pub enum ParsedRequest {
    Invalid(String),
    NotObject,
    Object(Vec<(String, JsonField)>),
}

/// The mathematical value of a parsed request.
pub enum ParsedRequestModel {
    Invalid(Seq<char>),
    NotObject,
    Object(Seq<(Seq<char>, JsonFieldModel)>),
}

/// The mathematical values of request entries.
pub open spec fn entries_view(entries: Seq<(String, JsonField)>) -> Seq<(Seq<char>, JsonFieldModel)> {
    entries.map_values(|e: (String, JsonField)| (e.0@, e.1@))
}

impl View for ParsedRequest {
    type V = ParsedRequestModel;

    open spec fn view(&self) -> ParsedRequestModel {
        match self {
            ParsedRequest::Invalid(m) => ParsedRequestModel::Invalid(m@),
            ParsedRequest::NotObject => ParsedRequestModel::NotObject,
            ParsedRequest::Object(entries) => ParsedRequestModel::Object(entries_view(entries@)),
        }
    }
}

/// What `serde_json::from_str` makes of a request text, reduced to its
/// object's entries: a function of the text alone.
pub uninterp spec fn parsed_request(text: Seq<char>) -> ParsedRequestModel;

/// `serde_json::from_str::<serde_json::Value>`: reads the request as JSON and
/// hands over the error message, or whether it is an object and its entries
/// with each value reduced to a `JsonField` (`Number::as_u64` for numbers).
/// Its result is named, not spelled out: JSON syntax is not modelled.
#[verifier::external_body]
fn parse_request_json(request: &str) -> (r: ParsedRequest)
    ensures
        r@ == parsed_request(request@),
{
    let map = match serde_json::from_str::<Value>(request) {
        Ok(Value::Object(map)) => map,
        other => return other.map_or_else(|e| ParsedRequest::Invalid(e.to_string()), |_| ParsedRequest::NotObject),
    };
    let mut entries = Vec::new();
    for (key, value) in map {
        entries.push((key, match value {
            Value::Null => JsonField::Null,
            Value::Bool(b) => JsonField::Boolean(b),
            Value::String(s) => JsonField::Text(s),
            Value::Number(n) => n.as_u64().map_or(JsonField::Other, JsonField::Unsigned),
            _ => JsonField::Other,
        }));
    }
    ParsedRequest::Object(entries)
}

/// Why a render request is refused.
#[derive(Clone, Debug, PartialEq, Eq)]
pub enum RequestError {
    /// The text is no JSON; the parser's message.
    InvalidJson(String),
    NotObject,
    /// A required field is missing or no string.
    NotString(String),
    /// An optional text field is neither a string nor null.
    NotStringOrNull(String),
    /// A size or rate field is no non-negative integer.
    NotInteger(String),
    /// A switch field is no boolean.
    NotBoolean(String),
    /// The lyric format names no format.
    UnsupportedFormat(String),
}

/// The mathematical value of a request error.
pub enum RequestErrorModel {
    InvalidJson(Seq<char>),
    NotObject,
    NotString(Seq<char>),
    NotStringOrNull(Seq<char>),
    NotInteger(Seq<char>),
    NotBoolean(Seq<char>),
    UnsupportedFormat(Seq<char>),
}

impl View for RequestError {
    type V = RequestErrorModel;

    open spec fn view(&self) -> RequestErrorModel {
        match self {
            RequestError::InvalidJson(m) => RequestErrorModel::InvalidJson(m@),
            RequestError::NotObject => RequestErrorModel::NotObject,
            RequestError::NotString(k) => RequestErrorModel::NotString(k@),
            RequestError::NotStringOrNull(k) => RequestErrorModel::NotStringOrNull(k@),
            RequestError::NotInteger(k) => RequestErrorModel::NotInteger(k@),
            RequestError::NotBoolean(k) => RequestErrorModel::NotBoolean(k@),
            RequestError::UnsupportedFormat(f) => RequestErrorModel::UnsupportedFormat(f@),
        }
    }
}

/// The message that a refused request gets.
pub open spec fn error_message(e: RequestErrorModel) -> Seq<char> {
    match e {
        RequestErrorModel::InvalidJson(m) => "invalid request JSON: "@ + m,
        RequestErrorModel::NotObject => "request must be a JSON object"@,
        RequestErrorModel::NotString(k) => "request."@ + k + " must be a string"@,
        RequestErrorModel::NotStringOrNull(k) => "request."@ + k + " must be a string or null"@,
        RequestErrorModel::NotInteger(k) => "request."@ + k + " must be a positive integer"@,
        RequestErrorModel::NotBoolean(k) => "request."@ + k + " must be boolean"@,
        RequestErrorModel::UnsupportedFormat(f) => "unsupported lyric format: "@ + f,
    }
}

fn joined(prefix: &str, middle: &String, suffix: &str) -> (r: String)
    ensures
        r@ == prefix@ + middle@ + suffix@,
{
    let mut out = chars_of(prefix);
    push_all(&mut out, &chars_of(middle.as_str()));
    push_all(&mut out, &chars_of(suffix));
    string_from_chars(&out)
}

fn prefixed(prefix: &str, rest: &String) -> (r: String)
    ensures
        r@ == prefix@ + rest@,
{
    let mut out = chars_of(prefix);
    push_all(&mut out, &chars_of(rest.as_str()));
    string_from_chars(&out)
}

impl RequestError {
    /// The message that the request is refused with.
    pub fn message(&self) -> (m: String)
        ensures
            m@ == error_message(self@),
    {
        match self {
            RequestError::InvalidJson(m) => prefixed("invalid request JSON: ", m),
            RequestError::NotObject => key_string("request must be a JSON object"),
            RequestError::NotString(k) => joined("request.", k, " must be a string"),
            RequestError::NotStringOrNull(k) => joined("request.", k, " must be a string or null"),
            RequestError::NotInteger(k) => joined("request.", k, " must be a positive integer"),
            RequestError::NotBoolean(k) => joined("request.", k, " must be boolean"),
            RequestError::UnsupportedFormat(f) => prefixed("unsupported lyric format: ", f),
        }
    }
}

/// The value of the first entry named `key`, from entry `from` on.
pub open spec fn field_from(entries: Seq<(Seq<char>, JsonFieldModel)>, key: Seq<char>, from: int) -> Option<
    JsonFieldModel,
>
    decreases entries.len() - from,
{
    if from < 0 || from >= entries.len() {
        None
    } else if entries[from].0 == key {
        Some(entries[from].1)
    } else {
        field_from(entries, key, from + 1)
    }
}

/// The value of the first entry named `key`.
pub open spec fn field(entries: Seq<(Seq<char>, JsonFieldModel)>, key: Seq<char>) -> Option<JsonFieldModel> {
    field_from(entries, key, 0)
}

/// A required string field.
pub open spec fn string_field(entries: Seq<(Seq<char>, JsonFieldModel)>, key: Seq<char>) -> Result<
    Seq<char>,
    RequestErrorModel,
> {
    match field(entries, key) {
        Some(JsonFieldModel::Text(s)) => Ok(s),
        _ => Err(RequestErrorModel::NotString(key)),
    }
}

/// An optional string field: missing or null gives none.
pub open spec fn optional_field(entries: Seq<(Seq<char>, JsonFieldModel)>, key: Seq<char>) -> Result<
    Option<Seq<char>>,
    RequestErrorModel,
> {
    match field(entries, key) {
        None => Ok(None),
        Some(JsonFieldModel::Null) => Ok(None),
        Some(JsonFieldModel::Text(s)) => Ok(Some(s)),
        _ => Err(RequestErrorModel::NotStringOrNull(key)),
    }
}

/// A size or rate field, cut to its low 32 bits; missing gives `default`.
pub open spec fn u32_field(entries: Seq<(Seq<char>, JsonFieldModel)>, key: Seq<char>, default: u32) -> Result<
    u32,
    RequestErrorModel,
> {
    match field(entries, key) {
        None => Ok(default),
        Some(JsonFieldModel::Unsigned(n)) => Ok(n as u32),
        _ => Err(RequestErrorModel::NotInteger(key)),
    }
}

/// A switch field; missing gives off.
pub open spec fn bool_field(entries: Seq<(Seq<char>, JsonFieldModel)>, key: Seq<char>) -> Result<
    bool,
    RequestErrorModel,
> {
    match field(entries, key) {
        None => Ok(false),
        Some(JsonFieldModel::Boolean(b)) => Ok(b),
        _ => Err(RequestErrorModel::NotBoolean(key)),
    }
}

/// The lyric format field: its string, `auto` where it is missing or no string.
pub open spec fn format_field(entries: Seq<(Seq<char>, JsonFieldModel)>) -> Seq<char> {
    match field(entries, "format"@) {
        Some(JsonFieldModel::Text(s)) => s,
        _ => "auto"@,
    }
}

/// The options that a request object sets, checked field by field in the
/// order `song`, `output`, `lyrics`, `background`, `cover`, `title`, `width`,
/// `height`, `fps`, `no_embedded_cover`, `no_audio`, `format`; the first field
/// that is malformed refuses the request.
pub open spec fn options_from(entries: Seq<(Seq<char>, JsonFieldModel)>) -> Result<
    RenderOptionsModel,
    RequestErrorModel,
> {
    match string_field(entries, "song"@) {
        Err(e) => Err(e),
        Ok(song) => match string_field(entries, "output"@) {
            Err(e) => Err(e),
            Ok(output) => match optional_field(entries, "lyrics"@) {
                Err(e) => Err(e),
                Ok(lyrics) => match optional_field(entries, "background"@) {
                    Err(e) => Err(e),
                    Ok(background) => match optional_field(entries, "cover"@) {
                        Err(e) => Err(e),
                        Ok(cover) => match optional_field(entries, "title"@) {
                            Err(e) => Err(e),
                            Ok(title) => match u32_field(entries, "width"@, 1920) {
                                Err(e) => Err(e),
                                Ok(width) => match u32_field(entries, "height"@, 1080) {
                                    Err(e) => Err(e),
                                    Ok(height) => match u32_field(entries, "fps"@, 30) {
                                        Err(e) => Err(e),
                                        Ok(fps) => match bool_field(entries, "no_embedded_cover"@) {
                                            Err(e) => Err(e),
                                            Ok(no_embedded_cover) => match bool_field(
                                                entries,
                                                "no_audio"@,
                                            ) {
                                                Err(e) => Err(e),
                                                Ok(no_audio) => match format_named(
                                                    format_field(entries),
                                                ) {
                                                    None => Err(
                                                        RequestErrorModel::UnsupportedFormat(
                                                            format_field(entries),
                                                        ),
                                                    ),
                                                    Some(format) => Ok(
                                                        RenderOptionsModel {
                                                            song,
                                                            lyrics,
                                                            output,
                                                            width,
                                                            height,
                                                            fps,
                                                            background,
                                                            cover,
                                                            title,
                                                            no_embedded_cover,
                                                            no_audio,
                                                            format,
                                                        },
                                                    ),
                                                },
                                            },
                                        },
                                    },
                                },
                            },
                        },
                    },
                },
            },
        },
    }
}

/// The options that a request gives, or why it is refused.
pub open spec fn request_outcome(parsed: ParsedRequestModel) -> Result<RenderOptionsModel, RequestErrorModel> {
    match parsed {
        ParsedRequestModel::Invalid(m) => Err(RequestErrorModel::InvalidJson(m)),
        ParsedRequestModel::NotObject => Err(RequestErrorModel::NotObject),
        ParsedRequestModel::Object(entries) => options_from(entries),
    }
}

fn lookup<'a>(entries: &'a Vec<(String, JsonField)>, key: &str) -> (r: Option<&'a JsonField>)
    ensures
        match r {
            Some(f) => field(entries_view(entries@), key@) == Some(f@),
            None => field(entries_view(entries@), key@) is None,
        },
{
    let ghost ev = entries_view(entries@);
    let mut i: usize = 0;
    while i < entries.len()
        invariant
            i <= entries.len(),
            ev == entries_view(entries@),
            field(ev, key@) == field_from(ev, key@, i as int),
        decreases entries.len() - i,
    {
        if chars_equal_str(&chars_of(entries[i].0.as_str()), key) {
            return Some(&entries[i].1);
        }
        i = i + 1;
    }
    None
}

fn key_string(key: &str) -> (r: String)
    ensures
        r@ == key@,
{
    string_from_chars(&chars_of(key))
}

fn read_string(entries: &Vec<(String, JsonField)>, key: &str) -> (r: Result<String, RequestError>)
    ensures
        match r {
            Ok(s) => string_field(entries_view(entries@), key@) == Ok::<Seq<char>, RequestErrorModel>(s@),
            Err(e) => string_field(entries_view(entries@), key@) == Err::<Seq<char>, RequestErrorModel>(e@),
        },
{
    match lookup(entries, key) {
        Some(JsonField::Text(s)) => Ok(s.clone()),
        _ => Err(RequestError::NotString(key_string(key))),
    }
}

fn read_optional(entries: &Vec<(String, JsonField)>, key: &str) -> (r: Result<Option<String>, RequestError>)
    ensures
        match r {
            Ok(s) => optional_field(entries_view(entries@), key@) == Ok::<Option<Seq<char>>, RequestErrorModel>(opt_text(s)),
            Err(e) => optional_field(entries_view(entries@), key@) == Err::<Option<Seq<char>>, RequestErrorModel>(e@),
        },
{
    match lookup(entries, key) {
        None => Ok(None),
        Some(JsonField::Null) => Ok(None),
        Some(JsonField::Text(s)) => Ok(Some(s.clone())),
        _ => Err(RequestError::NotStringOrNull(key_string(key))),
    }
}

fn read_u32(entries: &Vec<(String, JsonField)>, key: &str, default: u32) -> (r: Result<u32, RequestError>)
    ensures
        match r {
            Ok(v) => u32_field(entries_view(entries@), key@, default) == Ok::<u32, RequestErrorModel>(v),
            Err(e) => u32_field(entries_view(entries@), key@, default) == Err::<u32, RequestErrorModel>(e@),
        },
{
    match lookup(entries, key) {
        None => Ok(default),
        Some(JsonField::Unsigned(n)) => Ok(*n as u32),
        _ => Err(RequestError::NotInteger(key_string(key))),
    }
}

fn read_bool(entries: &Vec<(String, JsonField)>, key: &str) -> (r: Result<bool, RequestError>)
    ensures
        match r {
            Ok(b) => bool_field(entries_view(entries@), key@) == Ok::<bool, RequestErrorModel>(b),
            Err(e) => bool_field(entries_view(entries@), key@) == Err::<bool, RequestErrorModel>(e@),
        },
{
    match lookup(entries, key) {
        None => Ok(false),
        Some(JsonField::Boolean(b)) => Ok(*b),
        _ => Err(RequestError::NotBoolean(key_string(key))),
    }
}

/// The options that the entries of a request object set, or why the request
/// is refused.
pub fn options_from_entries(entries: &Vec<(String, JsonField)>) -> (r: Result<RenderOptions, RequestError>)
    ensures
        match r {
            Ok(o) => options_from(entries_view(entries@)) == Ok::<RenderOptionsModel, RequestErrorModel>(o@),
            Err(e) => options_from(entries_view(entries@)) == Err::<RenderOptionsModel, RequestErrorModel>(e@),
        },
{
    let song = match read_string(entries, "song") {
        Ok(s) => s,
        Err(e) => return Err(e),
    };
    let output = match read_string(entries, "output") {
        Ok(s) => s,
        Err(e) => return Err(e),
    };
    let lyrics = match read_optional(entries, "lyrics") {
        Ok(s) => s,
        Err(e) => return Err(e),
    };
    let background = match read_optional(entries, "background") {
        Ok(s) => s,
        Err(e) => return Err(e),
    };
    let cover = match read_optional(entries, "cover") {
        Ok(s) => s,
        Err(e) => return Err(e),
    };
    let title = match read_optional(entries, "title") {
        Ok(s) => s,
        Err(e) => return Err(e),
    };
    let width = match read_u32(entries, "width", 1920) {
        Ok(v) => v,
        Err(e) => return Err(e),
    };
    let height = match read_u32(entries, "height", 1080) {
        Ok(v) => v,
        Err(e) => return Err(e),
    };
    let fps = match read_u32(entries, "fps", 30) {
        Ok(v) => v,
        Err(e) => return Err(e),
    };
    let no_embedded_cover = match read_bool(entries, "no_embedded_cover") {
        Ok(b) => b,
        Err(e) => return Err(e),
    };
    let no_audio = match read_bool(entries, "no_audio") {
        Ok(b) => b,
        Err(e) => return Err(e),
    };
    let format_name = match lookup(entries, "format") {
        Some(JsonField::Text(s)) => s.clone(),
        _ => key_string("auto"),
    };
    let format = match crate::format::lyric_format_from_name(format_name.as_str()) {
        Some(f) => f,
        None => return Err(RequestError::UnsupportedFormat(format_name)),
    };
    Ok(
        RenderOptions {
            song,
            lyrics,
            output,
            width,
            height,
            fps,
            background,
            cover,
            title,
            no_embedded_cover,
            no_audio,
            format,
        },
    )
}

/// The options that a JSON render request sets, or why it is refused.
pub fn request_options(request: &str) -> (r: Result<RenderOptions, RequestError>)
    ensures
        match r {
            Ok(o) => request_outcome(parsed_request(request@)) == Ok::<RenderOptionsModel, RequestErrorModel>(o@),
            Err(e) => request_outcome(parsed_request(request@)) == Err::<RenderOptionsModel, RequestErrorModel>(e@),
        },
{
    match parse_request_json(request) {
        ParsedRequest::Invalid(m) => Err(RequestError::InvalidJson(m)),
        ParsedRequest::NotObject => Err(RequestError::NotObject),
        ParsedRequest::Object(entries) => options_from_entries(&entries),
    }
}

} // verus!
