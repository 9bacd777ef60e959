//! Which reader a lyrics text goes to.
use vstd::prelude::*;

use crate::text::{ascii_lower_seq, chars_equal_str, chars_of, lower_ascii};

verus! {

/// How a lyrics text is to be read: sniffed, LRC, or TTML.
#[derive(Clone, Copy, Debug, Default, PartialEq, Eq, Structural)]
pub enum LyricFormat {
    #[default]
    Auto,
    Lrc,
    Ttml,
}

/// The format that a name selects: `auto`, `lrc`, and `ttml` or `xml`.
pub open spec fn format_named(name: Seq<char>) -> Option<LyricFormat> {
    if name == "auto"@ {
        Some(LyricFormat::Auto)
    } else if name == "lrc"@ {
        Some(LyricFormat::Lrc)
    } else if name == "ttml"@ || name == "xml"@ {
        Some(LyricFormat::Ttml)
    } else {
        None
    }
}

/// The format that a request names, exactly as written.
pub fn lyric_format_from_name(name: &str) -> (r: Option<LyricFormat>)
    ensures
        r == format_named(name@),
{
    let chars = chars_of(name);
    if chars_equal_str(&chars, "auto") {
        Some(LyricFormat::Auto)
    } else if chars_equal_str(&chars, "lrc") {
        Some(LyricFormat::Lrc)
    } else if chars_equal_str(&chars, "ttml") || chars_equal_str(&chars, "xml") {
        Some(LyricFormat::Ttml)
    } else {
        None
    }
}

/// The format that a name selects, ASCII letters in either case.
pub fn lyric_format_from_name_any_case(name: &str) -> (r: Option<LyricFormat>)
    ensures
        r == format_named(ascii_lower_seq(name@)),
{
    let chars = chars_of(name);
    let mut lower: Vec<char> = Vec::new();
    let mut i: usize = 0;
    while i < chars.len()
        invariant
            i <= chars.len(),
            lower@ == ascii_lower_seq(chars@.take(i as int)),
        decreases chars.len() - i,
    {
        lower.push(lower_ascii(chars[i]));
        assert(ascii_lower_seq(chars@.take(i + 1)) =~= ascii_lower_seq(chars@.take(i as int)).push(
            crate::text::ascii_lower(chars@[i as int]),
        ));
        i = i + 1;
    }
    assert(chars@.take(chars.len() as int) =~= chars@);
    let name_lower = crate::text::string_from_chars(&lower);
    lyric_format_from_name(name_lower.as_str())
}

/// Whether a lyrics text goes to the TTML reader: always for `Ttml`, never for
/// `Lrc`, and for `Auto` when it sniffs as a TTML document.
pub fn reads_as_ttml(input: &str, format: LyricFormat) -> (b: bool)
    ensures
        format == LyricFormat::Ttml ==> b,
        format == LyricFormat::Lrc ==> !b,
        format == LyricFormat::Auto ==> b == crate::ttml::sniffs_as_ttml(input@),
{
    match format {
        LyricFormat::Auto => crate::ttml::looks_like_ttml(input),
        LyricFormat::Lrc => false,
        LyricFormat::Ttml => true,
    }
}

/// The reader that the command line sends a lyrics text to.
#[derive(Clone, Copy, Debug, PartialEq, Eq, Structural)]
pub enum LyricReader {
    Lrc,
    Ttml,
    Yrc,
}

/// The characters of an optional string slice.
pub open spec fn opt_str(o: Option<&str>) -> Option<Seq<char>> {
    match o {
        Some(s) => Some(s@),
        None => None,
    }
}

/// Whether a file extension is `wanted`, ASCII letters in either case.
pub open spec fn extension_is(extension: Option<Seq<char>>, wanted: Seq<char>) -> bool {
    match extension {
        Some(e) => crate::text::eq_ignore_ascii_case(e, wanted),
        None => false,
    }
}

/// The reader for a text: the one asked for, else (an automatic choice) TTML
/// for a text that sniffs as TTML or comes from a `.ttml` file, YRC for one
/// that looks like YRC or comes from a `.yrc` file, and LRC for the rest.
pub open spec fn reader_spec(
    requested: Option<LyricReader>,
    sniffed_ttml: bool,
    text: Seq<char>,
    extension: Option<Seq<char>>,
) -> LyricReader {
    match requested {
        Some(r) => r,
        None => if sniffed_ttml || extension_is(extension, "ttml"@) {
            LyricReader::Ttml
        } else if crate::yrc::looks_like_yrc_spec(text) || extension_is(extension, "yrc"@) {
            LyricReader::Yrc
        } else {
            LyricReader::Lrc
        },
    }
}

/// Picks the reader once it is known whether the text sniffs as TTML.
pub fn reader_for(
    requested: Option<LyricReader>,
    sniffed_ttml: bool,
    text: &str,
    extension: Option<&str>,
) -> (r: LyricReader)
    ensures
        r == reader_spec(
            requested,
            sniffed_ttml,
            text@,
            opt_str(extension),
        ),
{
    match requested {
        Some(r) => r,
        None => {
            let ext_ttml = match extension {
                Some(e) => crate::library::equal_ignoring_ascii_case(e, "ttml"),
                None => false,
            };
            if sniffed_ttml || ext_ttml {
                LyricReader::Ttml
            } else {
                let ext_yrc = match extension {
                    Some(e) => crate::library::equal_ignoring_ascii_case(e, "yrc"),
                    None => false,
                };
                if crate::yrc::looks_like_yrc(text) || ext_yrc {
                    LyricReader::Yrc
                } else {
                    LyricReader::Lrc
                }
            }
        },
    }
}

/// A text that sniffs as a TTML document goes to the TTML reader when no
/// reader is asked for, whatever the extension of the file it came from.
pub proof fn law_sniffed_ttml_ignores_extension(text: Seq<char>, extension: Option<Seq<char>>)
    requires
        crate::ttml::sniffs_as_ttml(text),
    ensures
        reader_spec(None, crate::ttml::sniffs_as_ttml(text), text, extension) == LyricReader::Ttml,
{
}

/// Picks the reader for a text, sniffing it for TTML when no reader is asked for.
pub fn choose_reader(requested: Option<LyricReader>, text: &str, extension: Option<&str>) -> (r:
    LyricReader)
    ensures
        r == reader_spec(
            requested,
            requested is None && crate::ttml::sniffs_as_ttml(text@),
            text@,
            opt_str(extension),
        ),
{
    let sniffed = match requested {
        Some(_) => false,
        None => crate::ttml::looks_like_ttml(text),
    };
    reader_for(requested, sniffed, text, extension)
}

} // verus!
