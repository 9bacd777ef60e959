//! YRC lyrics: `[start,duration]` line headers followed by
//! `(start,duration,0)word` tags with absolute word times.
use vstd::prelude::*;

use crate::lyrics::{
    lines_view, max_int, sat_add, sort_by_start, sort_lines_by_start, words_view, LineModel,
    LyricLine, LyricWord, LyricsError, WordModel,
};
use crate::text::{
    chars_of, find_char, find_char_from, find_char_from_exec, lemma_find_char_from_bounds,
    parse_u64, parse_u64_exec, push_all, push_range, split_lines, split_lines_exec,
    string_from_chars, sub_chars, trim, trim_end_cr, trim_start, trimmed, trimmed_end_cr,
    trimmed_start,
};

verus! {

/// The second field of a comma-separated list whose first field ends before `rest`.
pub open spec fn second_field(rest: Seq<char>) -> Seq<char> {
    match find_char(rest, ',') {
        None => rest,
        Some(d) => rest.subrange(0, d),
    }
}

/// The first two comma-separated numbers of `value`, each with white space
/// around it allowed; further fields are ignored.
pub open spec fn pair_value(value: Seq<char>) -> Option<(int, int)> {
    match find_char(value, ',') {
        None => None,
        Some(c) => {
            let first = value.subrange(0, c);
            let second = second_field(value.subrange(c + 1, value.len() as int));
            match (parse_u64(trim(first)), parse_u64(trim(second))) {
                (Some(a), Some(b)) => Some((a, b)),
                _ => None,
            }
        },
    }
}

/// The `[start,duration]` header of a line (after leading white space) and the text after it.
pub open spec fn header_value(line: Seq<char>) -> Option<(int, int, Seq<char>)> {
    let l = trim_start(line);
    if l.len() > 0 && l[0] == '[' {
        match find_char_from(l, ']', 1) {
            None => None,
            Some(close) => match pair_value(l.subrange(1, close)) {
                None => None,
                Some(p) => Some((p.0, p.1, l.subrange(close + 1, l.len() as int))),
            },
        }
    } else {
        None
    }
}

/// The word tag `(start,duration,...)` that opens at `open`: where it closes and its numbers.
pub open spec fn word_tag_value(text: Seq<char>, open: int) -> Option<(int, int, int)> {
    match find_char_from(text, ')', open + 1) {
        None => None,
        Some(close) => match pair_value(text.subrange(open + 1, close)) {
            None => None,
            Some(p) => Some((close, p.0, p.1)),
        },
    }
}

/// The first word tag at or after `from`: where it opens and closes, and its numbers.
pub open spec fn next_word_tag_value(text: Seq<char>, from: int) -> Option<(int, int, int, int)>
    decreases text.len() - from,
{
    if from < 0 || from >= text.len() {
        None
    } else {
        match find_char_from(text, '(', from) {
            None => None,
            Some(open) => {
                proof {
                    lemma_find_char_from_bounds(text, '(', from);
                }
                match word_tag_value(text, open) {
                    Some(t) => Some((open, t.0, t.1, t.2)),
                    None => next_word_tag_value(text, open + 1),
                }
            },
        }
    }
}

pub proof fn lemma_next_word_tag_bounds(text: Seq<char>, from: int)
    ensures
        next_word_tag_value(text, from) matches Some(t) ==> from <= t.0 < t.1 < text.len() && text[t.0]
            == '(' && word_tag_value(text, t.0) == Some((t.1, t.2, t.3)),
    decreases text.len() - from,
{
    if from < 0 || from >= text.len() {
    } else {
        lemma_find_char_from_bounds(text, '(', from);
        match find_char_from(text, '(', from) {
            None => {},
            Some(open) => {
                lemma_find_char_from_bounds(text, ')', open + 1);
                match word_tag_value(text, open) {
                    Some(t) => {},
                    None => lemma_next_word_tag_bounds(text, open + 1),
                }
            },
        }
    }
}

/// Where the text of a word that starts at `content_start` ends: at the next word tag, or the end.
pub open spec fn word_text_end(text: Seq<char>, content_start: int) -> int {
    match next_word_tag_value(text, content_start) {
        Some(t) => t.0,
        None => text.len() as int,
    }
}

/// The end of a word: its start plus its duration, and at least one millisecond
/// after its start (both additions saturating).
pub open spec fn yrc_word_end(start: int, duration: int) -> int {
    max_int(sat_add(start, duration), sat_add(start, 1))
}

/// The plain text and the words of YRC line content from `cursor` on. The
/// text between tags belongs to the tag before it; text before the first tag
/// stays in the plain text only; empty words are dropped.
pub open spec fn yrc_words_from(text: Seq<char>, cursor: int) -> (Seq<char>, Seq<WordModel>)
    decreases text.len() - cursor,
{
    if cursor < 0 || cursor > text.len() {
        (Seq::<char>::empty(), Seq::<WordModel>::empty())
    } else {
        proof {
            lemma_next_word_tag_bounds(text, cursor);
        }
        match next_word_tag_value(text, cursor) {
            None => (text.subrange(cursor, text.len() as int), Seq::<WordModel>::empty()),
            Some(t) => {
                let content_start = t.1 + 1;
                proof {
                    lemma_next_word_tag_bounds(text, content_start);
                }
                let next_open = word_text_end(text, content_start);
                let word = text.subrange(content_start, next_open);
                let rest = yrc_words_from(text, next_open);
                (
                    text.subrange(cursor, t.0) + word + rest.0,
                    if word.len() > 0 {
                        seq![
                            WordModel {
                                start_ms: t.2,
                                end_ms: yrc_word_end(t.2, t.3),
                                text: word,
                            },
                        ] + rest.1
                    } else {
                        rest.1
                    },
                )
            },
        }
    }
}

/// Whether a line (trimmed) has a YRC header followed by some text.
pub open spec fn has_yrc_header_with_text(line: Seq<char>) -> bool {
    match header_value(line) {
        Some(h) => h.2.len() > 0,
        None => false,
    }
}

/// Whether some line of the text looks like a YRC line.
pub open spec fn looks_like_yrc_spec(input: Seq<char>) -> bool {
    exists|k: int|
        0 <= k < split_lines(input).len() && has_yrc_header_with_text(
            trim(#[trigger] split_lines(input)[k]),
        )
}

/// The latest end among the words, or `fallback` without words.
pub open spec fn words_end_or(words: Seq<WordModel>, fallback: int) -> int
    decreases words.len(),
{
    if words.len() == 0 {
        fallback
    } else {
        let earlier = words_end_or(words.drop_last(), fallback);
        if words.len() == 1 {
            words.last().end_ms
        } else {
            max_int(earlier, words.last().end_ms)
        }
    }
}

/// The line that one input line gives, if any.
pub open spec fn yrc_entry(segment: Seq<char>) -> Option<LineModel> {
    match header_value(trim_end_cr(segment)) {
        None => None,
        Some(h) => {
            let (text, words) = yrc_words_from(h.2, 0);
            if text.len() == 0 {
                None
            } else {
                let end = max_int(
                    max_int(sat_add(h.0, h.1), words_end_or(words, h.0)),
                    sat_add(h.0, 1),
                );
                Some(
                    LineModel {
                        start_ms: h.0,
                        end_ms: end,
                        text,
                        translation: None,
                        agent_id: None,
                        is_duet: false,
                        is_background: false,
                        background_vocal: None,
                        words,
                    },
                )
            }
        },
    }
}

/// The lines of all input lines that have a header and text, in input order.
pub open spec fn yrc_entries(segments: Seq<Seq<char>>) -> Seq<LineModel>
    decreases segments.len(),
{
    if segments.len() == 0 {
        Seq::<LineModel>::empty()
    } else {
        match yrc_entry(segments.last()) {
            Some(l) => yrc_entries(segments.drop_last()).push(l),
            None => yrc_entries(segments.drop_last()),
        }
    }
}

/// The lines of a YRC text in start order; `None` where no line has a header and text.
pub open spec fn yrc_lines(input: Seq<char>) -> Option<Seq<LineModel>> {
    let entries = yrc_entries(split_lines(input));
    if entries.len() == 0 {
        None
    } else {
        Some(sort_by_start(entries))
    }
}

/// An optional pair of `u64` values as mathematical integers.
pub open spec fn opt_pair(o: Option<(u64, u64)>) -> Option<(int, int)> {
    match o {
        Some(p) => Some((p.0 as int, p.1 as int)),
        None => None,
    }
}

/// Reads `start,duration` (more fields are ignored, each number trimmed).
pub fn parse_pair(value: &Vec<char>) -> (r: Option<(u64, u64)>)
    ensures
        opt_pair(r) == pair_value(value@),
{
    proof {
        lemma_find_char_from_bounds(value@, ',', 0);
    }
    let c = match find_char_from_exec(value, ',', 0) {
        None => return None,
        Some(c) => c,
    };
    assert(c < value.len());
    let first = sub_chars(value, 0, c);
    let rest = sub_chars(value, c + 1, value.len());
    proof {
        lemma_find_char_from_bounds(rest@, ',', 0);
    }
    let second = match find_char_from_exec(&rest, ',', 0) {
        None => sub_chars(&rest, 0, rest.len()),
        Some(d) => sub_chars(&rest, 0, d),
    };
    assert(rest@.subrange(0, rest@.len() as int) == rest@);
    assert(second@ == second_field(rest@));
    let a = match parse_u64_exec(&trimmed(&first)) {
        None => return None,
        Some(a) => a,
    };
    let b = match parse_u64_exec(&trimmed(&second)) {
        None => return None,
        Some(b) => b,
    };
    Some((a, b))
}

/// Reads the `[start,duration]` header of a line and gives the text after it.
pub fn line_header(line: &Vec<char>) -> (r: Option<(u64, u64, Vec<char>)>)
    ensures
        match r {
            Some(h) => header_value(line@) == Some((h.0 as int, h.1 as int, h.2@)),
            None => header_value(line@) is None,
        },
{
    let l = trimmed_start(line);
    if !(l.len() > 0 && l[0] == '[') {
        return None;
    }
    proof {
        lemma_find_char_from_bounds(l@, ']', 1);
    }
    let close = match find_char_from_exec(&l, ']', 1) {
        None => return None,
        Some(c) => c,
    };
    assert(1 <= close < l.len());
    let inside = sub_chars(&l, 1, close);
    match parse_pair(&inside) {
        None => None,
        Some(p) => Some((p.0, p.1, sub_chars(&l, close + 1, l.len()))),
    }
}

/// Reads the `(start,duration,...)` word tag that opens at `open`.
pub fn word_tag_at(text: &Vec<char>, open: usize) -> (r: Option<(usize, u64, u64)>)
    requires
        open < text.len(),
    ensures
        match r {
            Some(t) => word_tag_value(text@, open as int) == Some((t.0 as int, t.1 as int, t.2 as int)),
            None => word_tag_value(text@, open as int) is None,
        },
{
    proof {
        lemma_find_char_from_bounds(text@, ')', open + 1);
    }
    let close = match find_char_from_exec(text, ')', open + 1) {
        None => return None,
        Some(c) => c,
    };
    assert(open + 1 <= close < text.len());
    let inside = sub_chars(text, open + 1, close);
    match parse_pair(&inside) {
        None => None,
        Some(p) => Some((close, p.0, p.1)),
    }
}

/// The first word tag at or after `from`.
pub fn next_word_tag(text: &Vec<char>, from: usize) -> (r: Option<(usize, usize, u64, u64)>)
    ensures
        match r {
            Some(t) => next_word_tag_value(text@, from as int) == Some(
                (t.0 as int, t.1 as int, t.2 as int, t.3 as int),
            ),
            None => next_word_tag_value(text@, from as int) is None,
        },
{
    let mut i: usize = from;
    while i < text.len()
        invariant
            from <= i,
            next_word_tag_value(text@, from as int) == next_word_tag_value(text@, i as int),
        decreases text.len() - i,
    {
        proof {
            lemma_find_char_from_bounds(text@, '(', i as int);
        }
        let open = match find_char_from_exec(text, '(', i) {
            None => return None,
            Some(o) => o,
        };
        match word_tag_at(text, open) {
            Some(t) => return Some((open, t.0, t.1, t.2)),
            None => {
                i = open + 1;
            },
        }
    }
    None
}

fn yrc_word_end_exec(start: u64, duration: u64) -> (r: u64)
    ensures
        r as int == yrc_word_end(start as int, duration as int),
{
    let a = start.saturating_add(duration);
    let b = start.saturating_add(1);
    if a >= b {
        a
    } else {
        b
    }
}

/// Reads the content of a YRC line into its plain text and its words.
pub fn parse_words(text: &Vec<char>) -> (r: (Vec<char>, Vec<LyricWord>))
    ensures
        r.0@ == yrc_words_from(text@, 0).0,
        words_view(r.1@) == yrc_words_from(text@, 0).1,
{
    let mut plain: Vec<char> = Vec::new();
    let mut words: Vec<LyricWord> = Vec::new();
    let mut cursor: usize = 0;
    loop
        invariant
            cursor <= text.len(),
            yrc_words_from(text@, 0).0 == plain@ + yrc_words_from(text@, cursor as int).0,
            yrc_words_from(text@, 0).1 == words_view(words@) + yrc_words_from(
                text@,
                cursor as int,
            ).1,
        decreases text.len() - cursor,
    {
        proof {
            lemma_next_word_tag_bounds(text@, cursor as int);
        }
        let ghost p0 = plain@;
        let ghost w0 = words_view(words@);
        match next_word_tag(text, cursor) {
            None => {
                push_range(&mut plain, text, cursor, text.len());
                assert(plain@ =~= p0 + yrc_words_from(text@, cursor as int).0);
                assert(words_view(words@) =~= w0 + yrc_words_from(text@, cursor as int).1);
                return (plain, words);
            },
            Some(t) => {
                let (open, close, start, duration) = t;
                let content_start = close + 1;
                proof {
                    lemma_next_word_tag_bounds(text@, content_start as int);
                }
                let next_open = match next_word_tag(text, content_start) {
                    Some(n) => n.0,
                    None => text.len(),
                };
                assert(next_open as int == word_text_end(text@, content_start as int));
                let word = sub_chars(text, content_start, next_open);
                push_range(&mut plain, text, cursor, open);
                push_all(&mut plain, &word);
                let ghost rest = yrc_words_from(text@, next_open as int);
                assert(p0 + (text@.subrange(cursor as int, open as int) + word@ + rest.0)
                    =~= plain@ + rest.0);
                if word.len() > 0 {
                    let w = LyricWord {
                        start_ms: start,
                        end_ms: yrc_word_end_exec(start, duration),
                        text: string_from_chars(&word),
                    };
                    let ghost wm = w@;
                    words.push(w);
                    assert(words_view(words@) =~= w0.push(wm));
                    assert(w0 + (seq![wm] + rest.1) =~= w0.push(wm) + rest.1);
                }
                cursor = next_open;
            },
        }
    }
}

/// Whether the input looks like YRC: some line, trimmed, starts with a
/// `[start,duration]` header followed by text.
pub fn looks_like_yrc(input: &str) -> (b: bool)
    ensures
        b == looks_like_yrc_spec(input@),
{
    let chars = chars_of(input);
    let segments = split_lines_exec(&chars);
    let ghost segs = split_lines(input@);
    let mut i: usize = 0;
    while i < segments.len()
        invariant
            i <= segments.len(),
            segs == split_lines(input@),
            segments@.map_values(|l: Vec<char>| l@) == segs,
            forall|j: int| 0 <= j < i ==> !has_yrc_header_with_text(trim(#[trigger] segs[j])),
        decreases segments.len() - i,
    {
        assert(segments[i as int]@ == segs[i as int]);
        let line = trimmed(&segments[i]);
        match line_header(&line) {
            Some(h) => {
                if h.2.len() > 0 {
                    assert(has_yrc_header_with_text(trim(segs[i as int])));
                    return true;
                }
            },
            None => {},
        }
        i = i + 1;
    }
    false
}

fn yrc_entry_exec(segment: &Vec<char>) -> (r: Option<LyricLine>)
    ensures
        match r {
            Some(l) => yrc_entry(segment@) == Some(l@),
            None => yrc_entry(segment@) is None,
        },
{
    let line = trimmed_end_cr(segment);
    let (start, duration, content) = match line_header(&line) {
        None => return None,
        Some(h) => h,
    };
    let (text, words) = parse_words(&content);
    if text.len() == 0 {
        return None;
    }
    let ghost wv = words_view(words@);
    let mut word_end: u64 = start;
    let mut i: usize = 0;
    while i < words.len()
        invariant
            i <= words.len(),
            wv == words_view(words@),
            word_end as int == words_end_or(wv.take(i as int), start as int),
        decreases words.len() - i,
    {
        assert(wv.take(i + 1).drop_last() =~= wv.take(i as int));
        assert(wv.take(i + 1).last() == words@[i as int]@);
        if i == 0 || words[i].end_ms > word_end {
            word_end = words[i].end_ms;
        }
        i = i + 1;
    }
    assert(wv.take(words.len() as int) =~= wv);
    let declared = start.saturating_add(duration);
    let a = if declared >= word_end {
        declared
    } else {
        word_end
    };
    let b = start.saturating_add(1);
    let end = if a >= b {
        a
    } else {
        b
    };
    Some(
        LyricLine {
            start_ms: start,
            end_ms: end,
            text: string_from_chars(&text),
            translation: None,
            agent_id: None,
            is_duet: false,
            is_background: false,
            background_vocal: None,
            words,
        },
    )
}

/// Reads YRC lyrics. Each line with a `[start,duration]` header and some text
/// becomes a line; `(start,duration,0)` tags become words that carry the text
/// up to the next tag (empty ones are dropped); a line ends at the latest of its
/// declared end, its last word end and one millisecond after its start. The lines
/// come in start order. Fails when no line qualifies.
pub fn parse_yrc(input: &str) -> (r: Result<Vec<LyricLine>, LyricsError>)
    ensures
        match r {
            Ok(lines) => yrc_lines(input@) == Some(lines_view(lines@)),
            Err(e) => yrc_lines(input@) is None && e == LyricsError::NoYrcLyricLines,
        },
{
    let chars = chars_of(input);
    let segments = split_lines_exec(&chars);
    let ghost segs = split_lines(input@);
    let mut entries: Vec<LyricLine> = Vec::new();
    let mut i: usize = 0;
    while i < segments.len()
        invariant
            i <= segments.len(),
            segs == split_lines(input@),
            segments@.map_values(|l: Vec<char>| l@) == segs,
            lines_view(entries@) == yrc_entries(segs.take(i as int)),
        decreases segments.len() - i,
    {
        assert(segments[i as int]@ == segs[i as int]);
        assert(segs.take(i + 1).drop_last() =~= segs.take(i as int));
        assert(segs.take(i + 1).last() == segs[i as int]);
        match yrc_entry_exec(&segments[i]) {
            Some(l) => {
                let ghost prev = lines_view(entries@);
                let ghost lm = l@;
                entries.push(l);
                assert(lines_view(entries@) =~= prev.push(lm));
            },
            None => {},
        }
        i = i + 1;
    }
    assert(segs.take(segments.len() as int) =~= segs);
    if entries.len() == 0 {
        return Err(LyricsError::NoYrcLyricLines);
    }
    Ok(sort_lines_by_start(entries))
}

/// Whether a line lasts at least a millisecond (unless it starts at the last
/// representable time) and covers all of its words.
pub open spec fn covers_its_words(l: LineModel) -> bool {
    &&& l.end_ms >= sat_add(l.start_ms, 1)
    &&& forall|k: int| 0 <= k < l.words.len() ==> (#[trigger] l.words[k]).end_ms <= l.end_ms
}

proof fn lemma_words_end_covers(words: Seq<WordModel>, fallback: int)
    ensures
        forall|k: int| 0 <= k < words.len() ==> (#[trigger] words[k]).end_ms <= words_end_or(
            words,
            fallback,
        ),
    decreases words.len(),
{
    if words.len() > 0 {
        lemma_words_end_covers(words.drop_last(), fallback);
        assert forall|k: int| 0 <= k < words.len() implies (#[trigger] words[k]).end_ms
            <= words_end_or(words, fallback) by {
            if k < words.len() - 1 {
                assert(words[k] == words.drop_last()[k]);
            }
        }
    }
}

proof fn lemma_entries_cover_words(segments: Seq<Seq<char>>)
    ensures
        forall|i: int|
            0 <= i < yrc_entries(segments).len() ==> covers_its_words(
                #[trigger] yrc_entries(segments)[i],
            ),
    decreases segments.len(),
{
    if segments.len() > 0 {
        lemma_entries_cover_words(segments.drop_last());
        let before = yrc_entries(segments.drop_last());
        match header_value(trim_end_cr(segments.last())) {
            None => {},
            Some(h) => {
                let (text, words) = yrc_words_from(h.2, 0);
                lemma_words_end_covers(words, h.0);
                match yrc_entry(segments.last()) {
                    None => {},
                    Some(l) => {
                        assert(l.words == words);
                        assert(covers_its_words(l));
                        let after = yrc_entries(segments);
                        assert(after == before.push(l));
                        assert forall|i: int| 0 <= i < after.len() implies covers_its_words(
                            #[trigger] after[i],
                        ) by {
                            if i < before.len() {
                                assert(after[i] == before[i]);
                            }
                        }
                    },
                }
            },
        }
    }
}

/// The lines that reading YRC gives come in start order; each lasts at least
/// a millisecond (unless it starts at the last representable time) and ends
/// no earlier than any of its words.
pub proof fn law_yrc_lines_ordered(input: Seq<char>)
    ensures
        yrc_lines(input) matches Some(ls) ==> {
            &&& crate::lyrics::sorted_by_start(ls)
            &&& forall|i: int| 0 <= i < ls.len() ==> covers_its_words(#[trigger] ls[i])
        },
{
    let entries = yrc_entries(split_lines(input));
    if entries.len() > 0 {
        crate::lyrics::lemma_sort_by_start_sorted(entries);
        lemma_entries_cover_words(split_lines(input));
        crate::lyrics::lemma_sort_keeps(entries, |l: LineModel| covers_its_words(l));
    }
}


/// The next word tag from a position is the first `(` at or after it that
/// opens a valid `(start,duration)` tag: every `(` before it opens none, and
/// where none is found, no `(` from the position on opens one.
pub proof fn law_next_word_tag_is_first_valid(text: Seq<char>, from: int)
    requires
        0 <= from,
    ensures
        match next_word_tag_value(text, from) {
            Some(t) => {
                &&& from <= t.0 < text.len()
                &&& text[t.0] == '('
                &&& word_tag_value(text, t.0) == Some((t.1, t.2, t.3))
                &&& forall|j: int|
                    from <= j < t.0 && text[j] == '(' ==> #[trigger] word_tag_value(text, j) is None
            },
            None => forall|j: int|
                from <= j < text.len() && text[j] == '(' ==> #[trigger] word_tag_value(text, j) is None,
        },
    decreases text.len() - from,
{
    if from < text.len() {
        lemma_find_char_from_bounds(text, '(', from);
        match find_char_from(text, '(', from) {
            None => {},
            Some(open) => {
                match word_tag_value(text, open) {
                    Some(t) => {},
                    None => {
                        law_next_word_tag_is_first_valid(text, open + 1);
                    },
                }
            },
        }
    }
}

} // verus!
