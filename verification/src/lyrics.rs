//! The lyric data model that every parser produces, its mathematical view,
//! and the order that the parsers put their lines in.
use vstd::prelude::*;

verus! {

/// One timed word (or syllable) of a lyric line.
#[derive(Debug, Clone, PartialEq, Eq)]
pub struct LyricWord {
    pub start_ms: u64,
    pub end_ms: u64,
    pub text: String,
}

/// A background vocal sung alongside a main line.
#[derive(Debug, Clone, PartialEq, Eq)]
pub struct BackgroundVocal {
    pub start_ms: u64,
    pub end_ms: u64,
    pub text: String,
    pub translation: Option<String>,
    pub words: Vec<LyricWord>,
}

/// One line of lyrics with its timing.
#[derive(Debug, Clone, PartialEq, Eq)]
pub struct LyricLine {
    pub start_ms: u64,
    pub end_ms: u64,
    pub text: String,
    pub translation: Option<String>,
    pub agent_id: Option<String>,
    pub is_duet: bool,
    pub is_background: bool,
    pub background_vocal: Option<BackgroundVocal>,
    pub words: Vec<LyricWord>,
}

/// Why a lyric text yields no lines.
#[derive(Debug, Clone, Copy, PartialEq, Eq)]
pub enum LyricsError {
    /// An LRC text holds no line with a valid timestamp.
    NoLyricLines,
    /// A YRC text holds no line with a header and text.
    NoYrcLyricLines,
    /// A TTML text is empty or white space only.
    NoTtmlContent,
    /// A TTML document holds no paragraph with text.
    NoTtmlLyricLines,
    /// A TTML document is no well-formed XML.
    UnreadableTtmlXml,
    /// A TTML document holds text whose escapes do not resolve.
    UndecodableTtmlText,
    /// The times of a TTML document leave the millisecond range.
    TtmlTimesOverflow,
}

/// The message that describes an error.
pub open spec fn lyrics_error_text(e: LyricsError) -> Seq<char> {
    match e {
        LyricsError::NoLyricLines => "no lyric lines"@,
        LyricsError::NoYrcLyricLines => "no YRC lyric lines"@,
        LyricsError::NoTtmlContent => "no TTML content"@,
        LyricsError::NoTtmlLyricLines => "no TTML lyric lines"@,
        LyricsError::UnreadableTtmlXml => "read TTML XML event"@,
        LyricsError::UndecodableTtmlText => "decode TTML text"@,
        LyricsError::TtmlTimesOverflow => "TTML times overflow the millisecond range"@,
    }
}

impl LyricsError {
    /// The message that describes the error.
    pub fn message(&self) -> (m: &'static str)
        ensures
            m@ == lyrics_error_text(*self),
    {
        match self {
            LyricsError::NoLyricLines => "no lyric lines",
            LyricsError::NoYrcLyricLines => "no YRC lyric lines",
            LyricsError::NoTtmlContent => "no TTML content",
            LyricsError::NoTtmlLyricLines => "no TTML lyric lines",
            LyricsError::UnreadableTtmlXml => "read TTML XML event",
            LyricsError::UndecodableTtmlText => "decode TTML text",
            LyricsError::TtmlTimesOverflow => "TTML times overflow the millisecond range",
        }
    }
}

/// The mathematical value of a word.
pub struct WordModel {
    pub start_ms: int,
    pub end_ms: int,
    pub text: Seq<char>,
}

/// The mathematical value of a background vocal.
pub struct BackgroundModel {
    pub start_ms: int,
    pub end_ms: int,
    pub text: Seq<char>,
    pub translation: Option<Seq<char>>,
    pub words: Seq<WordModel>,
}

/// The mathematical value of a lyric line.
pub struct LineModel {
    pub start_ms: int,
    pub end_ms: int,
    pub text: Seq<char>,
    pub translation: Option<Seq<char>>,
    pub agent_id: Option<Seq<char>>,
    pub is_duet: bool,
    pub is_background: bool,
    pub background_vocal: Option<BackgroundModel>,
    pub words: Seq<WordModel>,
}

/// The characters of an optional string.
pub open spec fn opt_text(o: Option<String>) -> Option<Seq<char>> {
    match o {
        Some(s) => Some(s@),
        None => None,
    }
}

impl View for LyricWord {
    type V = WordModel;

    open spec fn view(&self) -> WordModel {
        WordModel { start_ms: self.start_ms as int, end_ms: self.end_ms as int, text: self.text@ }
    }
}

/// The mathematical values of words.
pub open spec fn words_view(words: Seq<LyricWord>) -> Seq<WordModel> {
    words.map_values(|w: LyricWord| w@)
}

impl View for BackgroundVocal {
    type V = BackgroundModel;

    open spec fn view(&self) -> BackgroundModel {
        BackgroundModel {
            start_ms: self.start_ms as int,
            end_ms: self.end_ms as int,
            text: self.text@,
            translation: opt_text(self.translation),
            words: words_view(self.words@),
        }
    }
}

/// The mathematical value of an optional background vocal.
pub open spec fn opt_background(o: Option<BackgroundVocal>) -> Option<BackgroundModel> {
    match o {
        Some(b) => Some(b@),
        None => None,
    }
}

impl View for LyricLine {
    type V = LineModel;

    open spec fn view(&self) -> LineModel {
        LineModel {
            start_ms: self.start_ms as int,
            end_ms: self.end_ms as int,
            text: self.text@,
            translation: opt_text(self.translation),
            agent_id: opt_text(self.agent_id),
            is_duet: self.is_duet,
            is_background: self.is_background,
            background_vocal: opt_background(self.background_vocal),
            words: words_view(self.words@),
        }
    }
}

/// The mathematical values of lines.
pub open spec fn lines_view(lines: Seq<LyricLine>) -> Seq<LineModel> {
    lines.map_values(|l: LyricLine| l@)
}

/// The larger of two integers.
pub open spec fn max_int(a: int, b: int) -> int {
    if a >= b {
        a
    } else {
        b
    }
}

/// The smaller of two integers.
pub open spec fn min_int(a: int, b: int) -> int {
    if a <= b {
        a
    } else {
        b
    }
}

/// `a.saturating_add(b)` on `u64` values.
pub open spec fn sat_add(a: int, b: int) -> int {
    if a + b > u64::MAX {
        u64::MAX as int
    } else {
        a + b
    }
}

/// `a.saturating_sub(b)`.
pub open spec fn sat_sub(a: int, b: int) -> int {
    if a >= b {
        a - b
    } else {
        0
    }
}

/// Whether the lines' start times never decrease.
pub open spec fn sorted_by_start(lines: Seq<LineModel>) -> bool {
    forall|i: int, j: int| 0 <= i <= j < lines.len() ==> lines[i].start_ms <= lines[j].start_ms
}

/// Where a line with start time `key` goes in `lines` so that it comes after
/// every line that does not start later than it: the first later start, from `from` on.
pub open spec fn insert_pos_from(lines: Seq<LineModel>, key: int, from: int) -> int
    decreases lines.len() - from,
{
    if from < 0 || from >= lines.len() {
        lines.len() as int
    } else if lines[from].start_ms > key {
        from
    } else {
        insert_pos_from(lines, key, from + 1)
    }
}

/// `lines` with `line` inserted after every line that does not start later.
pub open spec fn insert_by_start(lines: Seq<LineModel>, line: LineModel) -> Seq<LineModel> {
    lines.insert(insert_pos_from(lines, line.start_ms, 0), line)
}

/// The lines in the order that a stable sort by start time gives.
pub open spec fn sort_by_start(lines: Seq<LineModel>) -> Seq<LineModel>
    decreases lines.len(),
{
    if lines.len() == 0 {
        lines
    } else {
        insert_by_start(sort_by_start(lines.drop_last()), lines.last())
    }
}

/// A copy of a string.
pub fn copy_text(s: &String) -> (r: String)
    ensures
        r@ == s@,
{
    s.clone()
}

/// A copy of an optional string.
pub fn copy_opt_text(s: &Option<String>) -> (r: Option<String>)
    ensures
        opt_text(r) == opt_text(*s),
{
    match s {
        Some(t) => Some(t.clone()),
        None => None,
    }
}

/// A copy of a word.
pub fn copy_word(w: &LyricWord) -> (r: LyricWord)
    ensures
        r@ == w@,
{
    LyricWord { start_ms: w.start_ms, end_ms: w.end_ms, text: w.text.clone() }
}

/// A copy of a word.
pub fn copy_words(words: &Vec<LyricWord>) -> (r: Vec<LyricWord>)
    ensures
        words_view(r@) == words_view(words@),
{
    let mut r: Vec<LyricWord> = Vec::new();
    let mut i: usize = 0;
    while i < words.len()
        invariant
            i <= words.len(),
            words_view(r@) == words_view(words@.take(i as int)),
        decreases words.len() - i,
    {
        let w = copy_word(&words[i]);
        let ghost prev = r@;
        r.push(w);
        assert(words@.take(i + 1) == words@.take(i as int).push(words@[i as int]));
        assert(words_view(r@) =~= words_view(prev).push(words@[i as int]@));
        assert(words_view(words@.take(i + 1)) =~= words_view(words@.take(i as int)).push(
            words@[i as int]@,
        ));
        i = i + 1;
    }
    assert(words@.take(words.len() as int) == words@);
    r
}

/// A copy of a background vocal.
pub fn copy_background(b: &BackgroundVocal) -> (r: BackgroundVocal)
    ensures
        r@ == b@,
{
    BackgroundVocal {
        start_ms: b.start_ms,
        end_ms: b.end_ms,
        text: b.text.clone(),
        translation: copy_opt_text(&b.translation),
        words: copy_words(&b.words),
    }
}

/// A copy of a line.
pub fn copy_line(l: &LyricLine) -> (r: LyricLine)
    ensures
        r@ == l@,
{
    let background_vocal = match &l.background_vocal {
        Some(b) => Some(copy_background(b)),
        None => None,
    };
    LyricLine {
        start_ms: l.start_ms,
        end_ms: l.end_ms,
        text: l.text.clone(),
        translation: copy_opt_text(&l.translation),
        agent_id: copy_opt_text(&l.agent_id),
        is_duet: l.is_duet,
        is_background: l.is_background,
        background_vocal,
        words: copy_words(&l.words),
    }
}

fn insert_position(sorted: &Vec<LyricLine>, key: u64) -> (p: usize)
    ensures
        p as int == insert_pos_from(lines_view(sorted@), key as int, 0),
        p <= sorted.len(),
{
    let mut i: usize = 0;
    while i < sorted.len()
        invariant
            i <= sorted.len(),
            insert_pos_from(lines_view(sorted@), key as int, 0) == insert_pos_from(
                lines_view(sorted@),
                key as int,
                i as int,
            ),
        decreases sorted.len() - i,
    {
        if sorted[i].start_ms > key {
            return i;
        }
        i = i + 1;
    }
    i
}

/// Sorts the lines by start time, keeping the input order of lines that start
/// together (what a stable `sort_by_key` on the start time gives).
pub fn sort_lines_by_start(lines: Vec<LyricLine>) -> (sorted: Vec<LyricLine>)
    ensures
        lines_view(sorted@) == sort_by_start(lines_view(lines@)),
{
    let mut sorted: Vec<LyricLine> = Vec::new();
    let mut i: usize = 0;
    while i < lines.len()
        invariant
            i <= lines.len(),
            lines_view(sorted@) == sort_by_start(lines_view(lines@.take(i as int))),
        decreases lines.len() - i,
    {
        let line = copy_line(&lines[i]);
        let p = insert_position(&sorted, line.start_ms);
        let ghost before = lines_view(sorted@);
        let ghost x = line@;
        sorted.insert(p, line);
        assert(lines_view(sorted@) =~= before.insert(p as int, x));
        assert(lines_view(lines@.take(i + 1)).drop_last() =~= lines_view(lines@.take(i as int)));
        assert(lines_view(lines@.take(i + 1)).last() == x);
        i = i + 1;
    }
    assert(lines@.take(lines.len() as int) == lines@);
    sorted
}

pub proof fn lemma_insert_pos_bounds(lines: Seq<LineModel>, key: int, from: int)
    requires
        0 <= from <= lines.len(),
    ensures
        from <= insert_pos_from(lines, key, from) <= lines.len(),
        forall|k: int|
            from <= k < insert_pos_from(lines, key, from) ==> lines[k].start_ms <= key,
        insert_pos_from(lines, key, from) < lines.len() ==> lines[insert_pos_from(
            lines,
            key,
            from,
        )].start_ms > key,
    decreases lines.len() - from,
{
    if from < lines.len() && lines[from].start_ms <= key {
        lemma_insert_pos_bounds(lines, key, from + 1);
    }
}

/// The stable sort by start time leaves the lines in nondecreasing start order.
pub proof fn lemma_sort_by_start_sorted(lines: Seq<LineModel>)
    ensures
        sorted_by_start(sort_by_start(lines)),
        sort_by_start(lines).len() == lines.len(),
    decreases lines.len(),
{
    if lines.len() > 0 {
        let rest = sort_by_start(lines.drop_last());
        lemma_sort_by_start_sorted(lines.drop_last());
        let x = lines.last();
        let p = insert_pos_from(rest, x.start_ms, 0);
        lemma_insert_pos_bounds(rest, x.start_ms, 0);
        let out = rest.insert(p, x);
        rest.insert_ensures(p, x);
        assert forall|i: int, j: int| 0 <= i <= j < out.len() implies out[i].start_ms
            <= out[j].start_ms by {
            if i < p && j < p {
            } else if i < p && j == p {
            } else if i < p {
                assert(out[j] == rest[j - 1]);
            } else if i == p && j == p {
            } else if i == p {
                assert(out[j] == rest[j - 1]);
                if p < rest.len() {
                    assert(rest[p].start_ms <= rest[j - 1].start_ms);
                }
            } else {
                assert(out[j] == rest[j - 1]);
                assert(out[i] == rest[i - 1]);
            }
        }
    }
}

/// Sorting keeps every property that all lines have.
pub proof fn lemma_sort_keeps(lines: Seq<LineModel>, p: spec_fn(LineModel) -> bool)
    requires
        forall|i: int| 0 <= i < lines.len() ==> p(#[trigger] lines[i]),
    ensures
        forall|i: int| 0 <= i < sort_by_start(lines).len() ==> p(#[trigger] sort_by_start(lines)[i]),
    decreases lines.len(),
{
    if lines.len() > 0 {
        let rest = sort_by_start(lines.drop_last());
        lemma_sort_keeps(lines.drop_last(), p);
        let x = lines.last();
        let pos = insert_pos_from(rest, x.start_ms, 0);
        lemma_insert_pos_bounds(rest, x.start_ms, 0);
        rest.insert_ensures(pos, x);
        let out = rest.insert(pos, x);
        assert forall|i: int| 0 <= i < out.len() implies p(#[trigger] out[i]) by {
            if i < pos {
            } else if i > pos {
                assert(out[i] == rest[i - 1]);
            }
        }
    }
}

} // verus!
