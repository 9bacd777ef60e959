//! Decisions of the lyric library screen: which sibling files count as lyrics
//! or covers, which lines are credits, how a time is shown, which lines are
//! left out, and which window a sample render covers.
use vstd::prelude::*;

use crate::lyrics::{lines_view, max_int, min_int, opt_text, sat_add, sat_sub, LineModel, LyricLine};
use crate::text::{
    ascii_lower, ascii_lower_seq, chars_of, contains_seq, eq_ignore_ascii_case, fields_from,
    find_seq_from_exec, lower_ascii, next_field, parse_u64, parse_unsigned, split_whitespace,
    string_from_chars, sub_chars, trim, decimal, push_decimal,
};

verus! {

/// The file extensions of lyric files.
pub fn lyric_extensions() -> (r: Vec<&'static str>)
    ensures
        r@.len() == 4,
        r@[0]@ == "lrc"@,
        r@[1]@ == "ttml"@,
        r@[2]@ == "xml"@,
        r@[3]@ == "yrc"@,
{
    vec!["lrc", "ttml", "xml", "yrc"]
}

/// The file extensions of cover images.
pub fn cover_extensions() -> (r: Vec<&'static str>)
    ensures
        r@.len() == 11,
        r@[0]@ == "jpg"@,
        r@[1]@ == "jpeg"@,
        r@[2]@ == "png"@,
        r@[3]@ == "webp"@,
        r@[4]@ == "bmp"@,
        r@[5]@ == "gif"@,
        r@[6]@ == "tif"@,
        r@[7]@ == "tiff"@,
        r@[8]@ == "avif"@,
        r@[9]@ == "heic"@,
        r@[10]@ == "heif"@,
{
    vec!["jpg", "jpeg", "png", "webp", "bmp", "gif", "tif", "tiff", "avif", "heic", "heif"]
}

fn lower_chars(s: &Vec<char>) -> (r: Vec<char>)
    ensures
        r@ == ascii_lower_seq(s@),
{
    let mut r: Vec<char> = Vec::new();
    let mut i: usize = 0;
    while i < s.len()
        invariant
            i <= s.len(),
            r@ == ascii_lower_seq(s@.take(i as int)),
        decreases s.len() - i,
    {
        r.push(lower_ascii(s[i]));
        assert(ascii_lower_seq(s@.take(i + 1)) =~= ascii_lower_seq(s@.take(i as int)).push(
            ascii_lower(s@[i as int]),
        ));
        i = i + 1;
    }
    assert(s@.take(s.len() as int) =~= s@);
    r
}

/// `eq_ignore_ascii_case` on two strings.
pub fn equal_ignoring_ascii_case(a: &str, b: &str) -> (r: bool)
    ensures
        r == eq_ignore_ascii_case(a@, b@),
{
    let la = lower_chars(&chars_of(a));
    let lb = lower_chars(&chars_of(b));
    crate::text::chars_equal(&la, &lb)
}

/// Whether `extension` is one of `accepted`, ASCII letters in either case.
pub fn has_extension(extension: &str, accepted: &[&str]) -> (b: bool)
    ensures
        b == exists|i: int|
            0 <= i < accepted@.len() && eq_ignore_ascii_case(extension@, #[trigger] accepted@[i]@),
{
    let mut i: usize = 0;
    while i < accepted.len()
        invariant
            i <= accepted.len(),
            forall|k: int| 0 <= k < i ==> !eq_ignore_ascii_case(extension@, #[trigger] accepted@[k]@),
        decreases accepted.len() - i,
    {
        if equal_ignoring_ascii_case(extension, accepted[i]) {
            return true;
        }
        i = i + 1;
    }
    false
}

/// What `str::to_lowercase` gives: Unicode lower case, a function of the text alone.
pub uninterp spec fn unicode_lowercase(s: Seq<char>) -> Seq<char>;

/// `str::to_lowercase`: the Unicode lower case of the text. Its result is
/// named, not spelled out: the Unicode case tables are not modelled.
#[verifier::external_body]
fn to_lowercase(s: &str) -> (r: String)
    ensures
        r@ == unicode_lowercase(s@),
{
    s.to_lowercase()
}

/// The texts that betray a credit line (singer, composer, lyricist, ...).
pub open spec fn credit_marker_texts() -> Seq<Seq<char>> {
    seq![
        "歌手"@,
        "作曲"@,
        "作词"@,
        "作詞"@,
        "演唱"@,
        "编曲"@,
        "制作"@,
        "原唱"@,
        "词："@,
        "曲："@,
        "词:"@,
        "曲:"@,
        "artist"@,
        "singer"@,
        "composer"@,
        "lyricist"@,
        "arranger"@,
        "producer"@,
    ]
}

/// The markers that betray a credit line, as string slices.
pub fn credit_markers() -> (r: Vec<&'static str>)
    ensures
        r@.len() == credit_marker_texts().len(),
        forall|i: int| 0 <= i < r@.len() ==> (#[trigger] r@[i])@ == credit_marker_texts()[i],
{
    vec![
        "歌手",
        "作曲",
        "作词",
        "作詞",
        "演唱",
        "编曲",
        "制作",
        "原唱",
        "词：",
        "曲：",
        "词:",
        "曲:",
        "artist",
        "singer",
        "composer",
        "lyricist",
        "arranger",
        "producer",
    ]
}

/// How many lines at each end of a song can be credits: a tenth of the lines
/// (rounded up), between two and eight, and never more than there are.
pub open spec fn credit_edge_count(n: int) -> int {
    min_int(crate::lrc::clamp_int((n + 9) / 10, 2, 8), n)
}

/// Whether `text` holds one of the credit markers.
pub open spec fn mentions_marker(text: Seq<char>) -> bool {
    exists|k: int|
        0 <= k < credit_marker_texts().len() && contains_seq(
            text,
            #[trigger] credit_marker_texts()[k],
        )
}

/// Whether line `i` of `n` reads as a credit: it sits within the edge lines
/// and its lower-cased text or translation names a credit marker.
pub open spec fn is_credit_line(line: LineModel, i: int, n: int) -> bool {
    let edge = credit_edge_count(n);
    let in_edge = i < edge || i >= n - edge;
    let translation = match line.translation {
        Some(t) => t,
        None => Seq::empty(),
    };
    in_edge && (mentions_marker(unicode_lowercase(line.text)) || mentions_marker(
        unicode_lowercase(translation),
    ))
}

fn mentions_marker_exec(text: &Vec<char>, markers: &Vec<&str>) -> (b: bool)
    requires
        markers@.len() == credit_marker_texts().len(),
        forall|i: int| 0 <= i < markers@.len() ==> (#[trigger] markers@[i])@ == credit_marker_texts()[i],
    ensures
        b == mentions_marker(text@),
{
    let mut k: usize = 0;
    while k < markers.len()
        invariant
            k <= markers.len(),
            markers@.len() == credit_marker_texts().len(),
            forall|i: int| 0 <= i < markers@.len() ==> (#[trigger] markers@[i])@ == credit_marker_texts()[i],
            forall|j: int| 0 <= j < k ==> !contains_seq(text@, #[trigger] credit_marker_texts()[j]),
        decreases markers.len() - k,
    {
        let marker = chars_of(markers[k]);
        assert(markers@[k as int]@ == credit_marker_texts()[k as int]);
        if find_seq_from_exec(text, &marker, 0).is_some() {
            return true;
        }
        k = k + 1;
    }
    false
}

/// Marks the lines at the start and end of a song that read as credits.
pub fn detect_credit_lines(lines: &[LyricLine]) -> (r: Vec<bool>)
    ensures
        r@.len() == lines@.len(),
        forall|i: int|
            0 <= i < lines@.len() ==> #[trigger] r@[i] == is_credit_line(
                lines@[i]@,
                i,
                lines@.len() as int,
            ),
{
    let markers = credit_markers();
    let n = lines.len();
    let mut r: Vec<bool> = Vec::new();
    if n == 0 {
        return r;
    }
    let tenth = (n - 1) / 10 + 1;
    let clamped: usize = if tenth < 2 {
        2
    } else if tenth > 8 {
        8
    } else {
        tenth
    };
    let edge: usize = if clamped <= n {
        clamped
    } else {
        n
    };
    assert(edge as int == credit_edge_count(n as int));
    let mut i: usize = 0;
    while i < n
        invariant
            i <= n,
            n == lines@.len(),
            edge as int == credit_edge_count(n as int),
            edge <= n,
            markers@.len() == credit_marker_texts().len(),
            forall|j: int| 0 <= j < markers@.len() ==> (#[trigger] markers@[j])@ == credit_marker_texts()[j],
            r@.len() == i,
            forall|k: int|
                0 <= k < i ==> #[trigger] r@[k] == is_credit_line(lines@[k]@, k, n as int),
        decreases n - i,
    {
        let line = &lines[i];
        let in_edge = i < edge || i >= n - edge;
        let main = to_lowercase(line.text.as_str());
        let translation = match &line.translation {
            Some(t) => to_lowercase(t.as_str()),
            None => {
                let e = to_lowercase("");
                proof {
                    reveal_strlit("");
                    assert(""@ =~= Seq::<char>::empty());
                }
                e
            },
        };
        let hit = mentions_marker_exec(&chars_of(main.as_str()), &markers)
            || mentions_marker_exec(&chars_of(translation.as_str()), &markers);
        proof {
            let lm = lines@[i as int]@;
            assert(lm.text == line.text@);
            assert(lm.translation == opt_text(line.translation));
            assert(translation@ == unicode_lowercase(
                match lm.translation {
                    Some(t) => t,
                    None => Seq::empty(),
                },
            ));
            assert(hit == (mentions_marker(unicode_lowercase(lm.text)) || mentions_marker(
                translation@,
            )));
        }
        r.push(in_edge && hit);
        i = i + 1;
    }
    r
}

/// Whether `flags` marks index `i`; indices past its end are unmarked.
pub open spec fn flag_at(flags: Seq<bool>, i: int) -> bool {
    0 <= i < flags.len() && flags[i]
}

/// Whether line `i` is left out, by hand or as a detected credit.
pub open spec fn is_excluded(manual: Seq<bool>, auto: Seq<bool>, i: int) -> bool {
    flag_at(manual, i) || flag_at(auto, i)
}

fn flag_at_exec(flags: &[bool], i: usize) -> (b: bool)
    ensures
        b == flag_at(flags@, i as int),
{
    i < flags.len() && flags[i]
}

/// The indices, in increasing order, of the lines among the first
/// `line_count` that are left out by hand or as detected credits.
pub fn excluded_line_indices(line_count: usize, manual: &[bool], auto: &[bool]) -> (r: Vec<usize>)
    ensures
        forall|k: int|
            0 <= k < r@.len() ==> (#[trigger] r@[k]) < line_count && is_excluded(
                manual@,
                auto@,
                r@[k] as int,
            ),
        forall|i: int|
            0 <= i < line_count && is_excluded(manual@, auto@, i) ==> r@.contains(i as usize),
        forall|a: int, b: int| 0 <= a < b < r@.len() ==> r@[a] < r@[b],
{
    let mut r: Vec<usize> = Vec::new();
    let mut i: usize = 0;
    while i < line_count
        invariant
            i <= line_count,
            forall|k: int|
                0 <= k < r@.len() ==> (#[trigger] r@[k]) < i && is_excluded(
                    manual@,
                    auto@,
                    r@[k] as int,
                ),
            forall|j: int| 0 <= j < i && is_excluded(manual@, auto@, j) ==> r@.contains(j as usize),
            forall|a: int, b: int| 0 <= a < b < r@.len() ==> r@[a] < r@[b],
        decreases line_count - i,
    {
        if flag_at_exec(manual, i) || flag_at_exec(auto, i) {
            let ghost before = r@;
            r.push(i);
            proof {
                assert forall|j: int|
                    0 <= j < i + 1 && is_excluded(manual@, auto@, j) implies r@.contains(
                    j as usize,
                ) by {
                    if j < i {
                        let k = choose|k: int| 0 <= k < before.len() && before[k] == j as usize;
                        assert(r@[k] == j as usize);
                    } else {
                        assert(r@[before.len() as int] == j as usize);
                    }
                }
            }
        }
        i = i + 1;
    }
    r
}

/// The latest end time of the lines (zero for none).
pub open spec fn latest_end(lines: Seq<LineModel>) -> int
    decreases lines.len(),
{
    if lines.len() == 0 {
        0
    } else {
        max_int(latest_end(lines.drop_last()), lines.last().end_ms)
    }
}

/// Whether a sample may centre on line `i`: it has text and is not left out.
pub open spec fn sample_eligible(line: LineModel, manual: Seq<bool>, auto: Seq<bool>, i: int) -> bool {
    trim(line.text).len() > 0 && !is_excluded(manual, auto, i)
}

/// The indices of the lines that a sample may centre on, in order.
pub open spec fn eligible_lines(lines: Seq<LineModel>, manual: Seq<bool>, auto: Seq<bool>) -> Seq<
    int,
>
    decreases lines.len(),
{
    if lines.len() == 0 {
        Seq::empty()
    } else {
        let before = eligible_lines(lines.drop_last(), manual, auto);
        let i = lines.len() - 1;
        if sample_eligible(lines[i], manual, auto, i) {
            before.push(i)
        } else {
            before
        }
    }
}

/// The window of a sample render: fifteen seconds (less for a shorter song)
/// that start three seconds before the `pick`-th eligible line, modulo their
/// number, and stay within one second past the last line's end.
pub open spec fn sample_window(
    lines: Seq<LineModel>,
    manual: Seq<bool>,
    auto: Seq<bool>,
    pick: int,
) -> Option<(int, int)> {
    if lines.len() == 0 {
        None
    } else {
        let end_ms = sat_add(latest_end(lines), 1000);
        let duration = min_int(15000, end_ms);
        let max_start = sat_sub(end_ms, duration);
        let eligible = eligible_lines(lines, manual, auto);
        if duration == 0 || eligible.len() == 0 {
            None
        } else {
            let line = lines[eligible[pick % (eligible.len() as int)]];
            let start = min_int(sat_sub(line.start_ms, 3000), max_start);
            Some((start, sat_add(start, duration)))
        }
    }
}

/// Picks the window of a sample render; `pick` stands for the random number
/// that chooses the line.
pub fn sample_range(lines: &[LyricLine], manual: &[bool], auto: &[bool], pick: usize) -> (r: Option<
    (u64, u64),
>)
    ensures
        match r {
            None => sample_window(lines_view(lines@), manual@, auto@, pick as int) is None,
            Some((a, b)) => sample_window(lines_view(lines@), manual@, auto@, pick as int) == Some(
                (a as int, b as int),
            ),
        },
{
    let ghost lv = lines_view(lines@);
    if lines.len() == 0 {
        return None;
    }
    let mut latest: u64 = 0;
    let mut eligible: Vec<usize> = Vec::new();
    let mut i: usize = 0;
    while i < lines.len()
        invariant
            i <= lines.len(),
            lv == lines_view(lines@),
            latest as int == latest_end(lv.take(i as int)),
            eligible@.len() == eligible_lines(lv.take(i as int), manual@, auto@).len(),
            forall|k: int|
                0 <= k < eligible@.len() ==> (#[trigger] eligible@[k]) as int == eligible_lines(
                    lv.take(i as int),
                    manual@,
                    auto@,
                )[k],
            forall|k: int| 0 <= k < eligible@.len() ==> (#[trigger] eligible@[k]) < i,
        decreases lines.len() - i,
    {
        proof {
            assert(lv.take(i + 1).drop_last() =~= lv.take(i as int));
            assert(lv.take(i + 1)[i as int] == lines@[i as int]@);
        }
        let line = &lines[i];
        if line.end_ms > latest {
            latest = line.end_ms;
        }
        let text = chars_of(line.text.as_str());
        let blank = crate::text::is_blank(&text);
        if !blank && !flag_at_exec(manual, i) && !flag_at_exec(auto, i) {
            eligible.push(i);
        }
        i = i + 1;
    }
    proof {
        assert(lv.take(lines.len() as int) =~= lv);
    }
    let end_ms = latest.saturating_add(1000);
    let duration: u64 = if end_ms < 15000 {
        end_ms
    } else {
        15000
    };
    if duration == 0 || eligible.len() == 0 {
        return None;
    }
    let max_start = end_ms.saturating_sub(duration);
    let chosen = eligible[pick % eligible.len()];
    let early = lines[chosen].start_ms.saturating_sub(3000);
    let start = if early < max_start {
        early
    } else {
        max_start
    };
    Some((start, start.saturating_add(duration)))
}

/// The decimal digits of `n`, with zeros in front up to `width` digits.
pub open spec fn zero_padded(n: nat, width: nat) -> Seq<char> {
    let d = decimal(n);
    if d.len() >= width {
        d
    } else {
        Seq::new((width - d.len()) as nat, |i: int| '0') + d
    }
}

/// How the lyric page shows a time: minutes (two digits or more), seconds and
/// milliseconds, as `mm:ss.mmm`.
pub open spec fn line_time_text(time_ms: nat) -> Seq<char> {
    zero_padded(time_ms / 60000, 2) + seq![':'] + zero_padded((time_ms / 1000) % 60, 2) + seq!['.']
        + zero_padded(time_ms % 1000, 3)
}

fn push_padded(out: &mut Vec<char>, n: u64, width: usize)
    ensures
        final(out)@ == old(out)@ + zero_padded(n as nat, width as nat),
{
    let mut digits: Vec<char> = Vec::new();
    push_decimal(&mut digits, n);
    assert(digits@ =~= decimal(n as nat));
    let ghost start = out@;
    let mut k: usize = digits.len();
    while k < width
        invariant
            digits.len() <= k <= width || (k == digits.len() && digits.len() >= width),
            out@ == start + Seq::new((k - digits.len()) as nat, |i: int| '0'),
        decreases width - k,
    {
        out.push('0');
        assert(out@ =~= start + Seq::new((k + 1 - digits.len()) as nat, |i: int| '0'));
        k = k + 1;
    }
    crate::text::push_all(out, &digits);
    if digits.len() >= width {
        assert(out@ =~= start + zero_padded(n as nat, width as nat));
    } else {
        assert(k == width);
        assert(out@ =~= start + zero_padded(n as nat, width as nat));
    }
}

/// Shows a time as `mm:ss.mmm`.
pub fn format_line_time(time_ms: u64) -> (s: String)
    ensures
        s@ == line_time_text(time_ms as nat),
{
    let mut out: Vec<char> = Vec::new();
    push_padded(&mut out, time_ms / 60000, 2);
    out.push(':');
    push_padded(&mut out, (time_ms / 1000) % 60, 2);
    out.push('.');
    push_padded(&mut out, time_ms % 1000, 3);
    assert(out@ =~= line_time_text(time_ms as nat));
    string_from_chars(&out)
}

/// A preview frame that the render worker announces: its number and size.
#[derive(Clone, Copy, Debug, PartialEq, Eq)]
pub struct PreviewEvent {
    pub frame: u64,
    pub width: usize,
    pub height: usize,
}

/// The preview event that a worker output line announces: exactly the word
/// `GOOSY_PREVIEW` and three numbers, frame, width and height, the last two
/// above zero.
pub open spec fn preview_event_of(line: Seq<char>) -> Option<PreviewEvent> {
    let f = split_whitespace(line);
    if f.len() == 4 && f[0] == "GOOSY_PREVIEW"@ && parse_u64(f[1]) is Some && parse_unsigned(
        f[2],
        usize::MAX as int,
    ) is Some && parse_unsigned(f[3], usize::MAX as int) is Some && parse_unsigned(
        f[2],
        usize::MAX as int,
    )->0 > 0 && parse_unsigned(f[3], usize::MAX as int)->0 > 0 {
        Some(
            PreviewEvent {
                frame: parse_u64(f[1])->0 as u64,
                width: parse_unsigned(f[2], usize::MAX as int)->0 as usize,
                height: parse_unsigned(f[3], usize::MAX as int)->0 as usize,
            },
        )
    } else {
        None
    }
}

fn parse_usize_exec(s: &Vec<char>) -> (r: Option<usize>)
    ensures
        match r {
            Some(v) => parse_unsigned(s@, usize::MAX as int) == Some(v as int),
            None => parse_unsigned(s@, usize::MAX as int) is None,
        },
{
    match crate::text::parse_unsigned_exec(s, usize::MAX as u64) {
        Some(v) => Some(v as usize),
        None => None,
    }
}

/// Reads a preview announcement from a line of the render worker's output.
pub fn parse_preview_event(line: &str) -> (r: Option<PreviewEvent>)
    ensures
        r == preview_event_of(line@),
{
    let s = chars_of(line);
    let ghost f = split_whitespace(s@);
    let (a0, b0) = match next_field(&s, 0) {
        Some(p) => p,
        None => return None,
    };
    let (a1, b1) = match next_field(&s, b0) {
        Some(p) => p,
        None => return None,
    };
    let (a2, b2) = match next_field(&s, b1) {
        Some(p) => p,
        None => return None,
    };
    let (a3, b3) = match next_field(&s, b2) {
        Some(p) => p,
        None => return None,
    };
    let more = next_field(&s, b3).is_some();
    proof {
        assert(f == seq![s@.subrange(a0 as int, b0 as int)] + (seq![
            s@.subrange(a1 as int, b1 as int),
        ] + (seq![s@.subrange(a2 as int, b2 as int)] + (seq![s@.subrange(a3 as int, b3 as int)]
            + fields_from(s@, b3 as int)))));
        assert(f[0] == s@.subrange(a0 as int, b0 as int));
        assert(f[1] == s@.subrange(a1 as int, b1 as int));
        assert(f[2] == s@.subrange(a2 as int, b2 as int));
        assert(f[3] == s@.subrange(a3 as int, b3 as int));
        assert(f.len() == 4 + fields_from(s@, b3 as int).len());
    }
    if more {
        return None;
    }
    if !crate::text::chars_equal_str(&sub_chars(&s, a0, b0), "GOOSY_PREVIEW") {
        return None;
    }
    let frame = match crate::text::parse_u64_exec(&sub_chars(&s, a1, b1)) {
        Some(v) => v,
        None => return None,
    };
    let width = match parse_usize_exec(&sub_chars(&s, a2, b2)) {
        Some(v) => v,
        None => return None,
    };
    let height = match parse_usize_exec(&sub_chars(&s, a3, b3)) {
        Some(v) => v,
        None => return None,
    };
    if width == 0 || height == 0 {
        return None;
    }
    Some(PreviewEvent { frame, width, height })
}

/// Lower-casing a text twice is lower-casing it once.
proof fn lemma_ascii_lower_idempotent(s: Seq<char>)
    ensures
        ascii_lower_seq(ascii_lower_seq(s)) == ascii_lower_seq(s),
{
    assert forall|i: int| 0 <= i < s.len() implies ascii_lower(ascii_lower(#[trigger] s[i]))
        == ascii_lower(s[i]) by {
        let c = s[i];
        if 'A' <= c && c <= 'Z' {
            assert((((c as u32) + 32) as char) as u32 == (c as u32) + 32);
        }
    }
    assert(ascii_lower_seq(ascii_lower_seq(s)) =~= ascii_lower_seq(s));
}

/// Letter case does not matter to the extension check: an extension is
/// accepted exactly when its lower-case form is.
pub proof fn law_extension_check_ignores_case(extension: Seq<char>, accepted: Seq<Seq<char>>)
    ensures
        (exists|i: int|
            0 <= i < accepted.len() && eq_ignore_ascii_case(extension, #[trigger] accepted[i]))
            == (exists|i: int|
            0 <= i < accepted.len() && eq_ignore_ascii_case(
                ascii_lower_seq(extension),
                #[trigger] accepted[i],
            )),
{
    lemma_ascii_lower_idempotent(extension);
}

/// Only lines among the first and last few of a song can count as credits.
pub proof fn law_credits_only_at_edges(line: LineModel, i: int, n: int)
    requires
        credit_edge_count(n) <= i < n - credit_edge_count(n),
    ensures
        !is_credit_line(line, i, n),
{
}

proof fn lemma_latest_end_nonneg(lines: Seq<LineModel>)
    ensures
        latest_end(lines) >= 0,
    decreases lines.len(),
{
    if lines.len() > 0 {
        lemma_latest_end_nonneg(lines.drop_last());
    }
}

/// A sample window exists exactly when some line has text and is not left
/// out. It lies within one second past the last line's end and lasts fifteen
/// seconds, or the whole of a shorter song.
pub proof fn law_sample_window_bounds(
    lines: Seq<LineModel>,
    manual: Seq<bool>,
    auto: Seq<bool>,
    pick: int,
)
    requires
        pick >= 0,
    ensures
        sample_window(lines, manual, auto, pick) is None <==> (lines.len() == 0 || eligible_lines(
            lines,
            manual,
            auto,
        ).len() == 0),
        sample_window(lines, manual, auto, pick) matches Some(w) ==> {
            &&& 0 <= w.0 <= w.1 <= sat_add(latest_end(lines), 1000)
            &&& w.1 - w.0 == min_int(15000, sat_add(latest_end(lines), 1000))
        },
{
    lemma_latest_end_nonneg(lines);
}

/// The lyric file extensions, as texts.
pub open spec fn lyric_extension_texts() -> Seq<Seq<char>> {
    seq!["lrc"@, "ttml"@, "xml"@, "yrc"@]
}

/// The cover image extensions, as texts.
pub open spec fn cover_extension_texts() -> Seq<Seq<char>> {
    seq![
        "jpg"@,
        "jpeg"@,
        "png"@,
        "webp"@,
        "bmp"@,
        "gif"@,
        "tif"@,
        "tiff"@,
        "avif"@,
        "heic"@,
        "heif"@,
    ]
}

/// What a file beside the audio file is to the library screen.
#[derive(Clone, Copy, Debug, PartialEq, Eq, Structural)]
pub enum SiblingKind {
    Lyrics,
    Cover,
}

/// What a sibling file is: lyrics or a cover when its stem equals the audio
/// file's stem (ASCII letters in either case) and its extension is one of
/// the lyric or, failing that, the cover extensions.
pub open spec fn sibling_kind_of(
    audio_stem: Seq<char>,
    stem: Seq<char>,
    extension: Seq<char>,
) -> Option<SiblingKind> {
    if !eq_ignore_ascii_case(audio_stem, stem) {
        None
    } else if exists|i: int|
        0 <= i < 4 && eq_ignore_ascii_case(extension, #[trigger] lyric_extension_texts()[i]) {
        Some(SiblingKind::Lyrics)
    } else if exists|i: int|
        0 <= i < 11 && eq_ignore_ascii_case(
            extension,
            #[trigger] cover_extension_texts()[i],
        ) {
        Some(SiblingKind::Cover)
    } else {
        None
    }
}

/// Classifies a file that sits beside the audio file.
pub fn sibling_kind(audio_stem: &str, stem: &str, extension: &str) -> (r: Option<SiblingKind>)
    ensures
        r == sibling_kind_of(audio_stem@, stem@, extension@),
{
    if !equal_ignoring_ascii_case(audio_stem, stem) {
        return None;
    }
    let lyric = lyric_extensions();
    let cover = cover_extensions();
    assert(lyric@.map_values(|s: &str| s@) =~= lyric_extension_texts());
    assert(cover@.map_values(|s: &str| s@) =~= cover_extension_texts());
    if has_extension(extension, &lyric) {
        proof {
            let i = choose|i: int|
                0 <= i < lyric@.len() && eq_ignore_ascii_case(extension@, #[trigger] lyric@[i]@);
            assert(lyric@.map_values(|s: &str| s@)[i] == lyric@[i]@);
        }
        Some(SiblingKind::Lyrics)
    } else if has_extension(extension, &cover) {
        proof {
            let i = choose|i: int|
                0 <= i < cover@.len() && eq_ignore_ascii_case(extension@, #[trigger] cover@[i]@);
            assert(cover@.map_values(|s: &str| s@)[i] == cover@[i]@);
            assert forall|k: int| 0 <= k < 4 implies !eq_ignore_ascii_case(
                extension@,
                #[trigger] lyric_extension_texts()[k],
            ) by {
                assert(lyric@.map_values(|s: &str| s@)[k] == lyric@[k]@);
            }
        }
        Some(SiblingKind::Cover)
    } else {
        proof {
            assert forall|k: int| 0 <= k < 4 implies !eq_ignore_ascii_case(
                extension@,
                #[trigger] lyric_extension_texts()[k],
            ) by {
                assert(lyric@.map_values(|s: &str| s@)[k] == lyric@[k]@);
            }
            assert forall|k: int| 0 <= k < 11 implies !eq_ignore_ascii_case(
                extension@,
                #[trigger] cover_extension_texts()[k],
            ) by {
                assert(cover@.map_values(|s: &str| s@)[k] == cover@[k]@);
            }
        }
        None
    }
}

/// The file name of a sample render that starts at `start_ms`:
/// `{stem}.sample-{start_ms}ms.{extension}`, the extension `mp4` by default.
pub open spec fn sample_file_name_of(stem: Seq<char>, extension: Option<Seq<char>>, start_ms: nat) -> Seq<
    char,
> {
    stem + ".sample-"@ + decimal(start_ms) + "ms."@ + match extension {
        Some(e) => e,
        None => "mp4"@,
    }
}

/// Names the output file of a sample render after the full render's output.
pub fn sample_file_name(stem: &str, extension: Option<&str>, start_ms: u64) -> (r: String)
    ensures
        r@ == sample_file_name_of(
            stem@,
            match extension {
                Some(e) => Some(e@),
                None => None,
            },
            start_ms as nat,
        ),
{
    let mut out = chars_of(stem);
    crate::text::push_all(&mut out, &chars_of(".sample-"));
    push_decimal(&mut out, start_ms);
    crate::text::push_all(&mut out, &chars_of("ms."));
    let ext = match extension {
        Some(e) => e,
        None => "mp4",
    };
    crate::text::push_all(&mut out, &chars_of(ext));
    string_from_chars(&out)
}

/// Words joined by single spaces.
pub open spec fn join_words(words: Seq<Seq<char>>) -> Seq<char>
    decreases words.len(),
{
    if words.len() == 0 {
        Seq::empty()
    } else if words.len() == 1 {
        words[0]
    } else {
        join_words(words.drop_last()) + seq![' '] + words.last()
    }
}

/// The stage message that a worker output line announces: after the word
/// `GOOSY_STAGE` and a stage key, the remaining words joined by single
/// spaces, when there are any.
pub open spec fn stage_message_of(line: Seq<char>) -> Option<Seq<char>> {
    let f = split_whitespace(line);
    if f.len() > 2 && f[0] == "GOOSY_STAGE"@ {
        Some(join_words(f.subrange(2, f.len() as int)))
    } else {
        None
    }
}

/// Reads a stage announcement from a line of the render worker's output.
pub fn parse_stage_message(line: &str) -> (r: Option<String>)
    ensures
        match r {
            Some(m) => stage_message_of(line@) == Some(m@),
            None => stage_message_of(line@) is None,
        },
{
    let s = chars_of(line);
    let ghost f = split_whitespace(s@);
    let (a0, b0) = match next_field(&s, 0) {
        Some(p) => p,
        None => return None,
    };
    if !crate::text::chars_equal_str(&sub_chars(&s, a0, b0), "GOOSY_STAGE") {
        return None;
    }
    let (a1, b1) = match next_field(&s, b0) {
        Some(p) => p,
        None => return None,
    };
    let (a2, b2) = match next_field(&s, b1) {
        Some(p) => p,
        None => {
            assert(f =~= seq![s@.subrange(a0 as int, b0 as int)] + seq![
                s@.subrange(a1 as int, b1 as int),
            ]);
            return None;
        },
    };
    let ghost rest_at_start = fields_from(s@, b1 as int);
    assert(f =~= seq![s@.subrange(a0 as int, b0 as int), s@.subrange(a1 as int, b1 as int)]
        + rest_at_start);
    let mut message = sub_chars(&s, a2, b2);
    let mut cursor: usize = b2;
    let ghost mut taken: Seq<Seq<char>> = seq![s@.subrange(a2 as int, b2 as int)];
    assert(rest_at_start == taken + fields_from(s@, cursor as int));
    loop
        invariant
            cursor <= s.len(),
            taken.len() >= 1,
            rest_at_start == taken + fields_from(s@, cursor as int),
            message@ == join_words(taken),
        ensures
            rest_at_start == taken,
            message@ == join_words(taken),
        decreases s.len() - cursor,
    {
        match next_field(&s, cursor) {
            None => {
                assert(rest_at_start =~= taken);
                break;
            },
            Some((a, b)) => {
                let word = sub_chars(&s, a, b);
                message.push(' ');
                crate::text::push_all(&mut message, &word);
                proof {
                    let next = taken.push(s@.subrange(a as int, b as int));
                    assert(next.drop_last() =~= taken);
                    assert(rest_at_start =~= next + fields_from(s@, b as int));
                    taken = next;
                }
                cursor = b;
            },
        }
    }
    assert(f.subrange(2, f.len() as int) =~= rest_at_start);
    Some(string_from_chars(&message))
}

} // verus!
