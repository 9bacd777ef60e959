//! LRC lyrics: `[mm:ss.xx]` line timestamps, optionally with enhanced
//! `<mm:ss.xx>word</mm:ss.xx>` word timing.
use vstd::prelude::*;

use crate::lyrics::{
    copy_text, copy_word, copy_words, lines_view, max_int, min_int, sat_sub, sort_by_start, sort_lines_by_start, words_view, LineModel,
    LyricLine, LyricWord, LyricsError, WordModel,
};
use crate::text::{
    all_ascii_digits, all_digits, chars_of, digits_value, find_char, find_char_from, find_char_from_exec,
    find_seq_from, find_seq_from_exec, is_ascii_digit, lemma_digits_value_nonneg,
    lemma_find_char_from_bounds, lemma_find_seq_from_bounds, parse_u64, parse_u64_exec, push_all,
    push_range, split_lines, split_lines_exec, string_from_chars, sub_chars, trim_end_cr,
    trimmed_end_cr, unsigned_digits,
};

verus! {

/// Milliseconds in the fraction part of a timestamp: tenths, hundredths or thousandths.
pub open spec fn fraction_ms(fraction: Seq<char>) -> int {
    if fraction.len() == 0 {
        0
    } else if fraction.len() == 1 {
        digits_value(fraction) * 100
    } else if fraction.len() == 2 {
        digits_value(fraction) * 10
    } else {
        digits_value(fraction)
    }
}

/// The seconds field and the fraction field after the colon of a timestamp.
pub open spec fn seconds_and_fraction(rest: Seq<char>) -> (Seq<char>, Seq<char>) {
    match find_char(rest, '.') {
        None => (rest, Seq::<char>::empty()),
        Some(dot) => (rest.subrange(0, dot), rest.subrange(dot + 1, rest.len() as int)),
    }
}

/// The time that an LRC timestamp `mm:ss`, `mm:ss.f`, `mm:ss.ff` or `mm:ss.fff`
/// stands for, in milliseconds; `None` where the text is no such timestamp.
pub open spec fn timestamp_ms(value: Seq<char>) -> Option<int> {
    match find_char(value, ':') {
        None => None,
        Some(colon) => {
            let minutes = value.subrange(0, colon);
            let (seconds, fraction) = seconds_and_fraction(
                value.subrange(colon + 1, value.len() as int),
            );
            match (parse_u64(minutes), parse_u64(seconds)) {
                (Some(m), Some(s)) => {
                    if s >= 60 || fraction.len() > 3 || !all_ascii_digits(fraction) {
                        None
                    } else {
                        Some(m * 60000 + s * 1000 + fraction_ms(fraction))
                    }
                },
                _ => None,
            }
        },
    }
}

/// The leading `[timestamp]` tags of a line from index `i` on, and the index
/// where the text after them starts.
pub open spec fn line_tags_from(line: Seq<char>, i: int) -> (Seq<int>, int)
    decreases line.len() - i,
{
    if 0 <= i < line.len() && line[i] == '[' {
        match find_char_from(line, ']', i) {
            None => (Seq::<int>::empty(), i),
            Some(close) => {
                proof {
                    lemma_find_char_from_bounds(line, ']', i);
                }
                match timestamp_ms(line.subrange(i + 1, close)) {
                    None => (Seq::<int>::empty(), i),
                    Some(t) => {
                        let rest = line_tags_from(line, close + 1);
                        (seq![t] + rest.0, rest.1)
                    },
                }
            },
        }
    } else {
        (Seq::<int>::empty(), i)
    }
}

/// The leading timestamps of a line and where its text starts.
pub open spec fn line_tags(line: Seq<char>) -> (Seq<int>, int) {
    line_tags_from(line, 0)
}

/// The closing tag `</tag>` of an enhanced word.
pub open spec fn closing_tag(tag: Seq<char>) -> Seq<char> {
    seq!['<', '/'] + tag + seq!['>']
}

/// The plain text and the timed words of enhanced LRC text from `cursor` on.
/// Each word starts and ends at its tag's time.
pub open spec fn enhanced_from(text: Seq<char>, cursor: int) -> (Seq<char>, Seq<WordModel>)
    decreases text.len() - cursor,
{
    if cursor < 0 || cursor >= text.len() {
        (Seq::<char>::empty(), Seq::<WordModel>::empty())
    } else {
        proof {
            lemma_find_char_from_bounds(text, '<', cursor);
        }
        match find_char_from(text, '<', cursor) {
            None => (text.subrange(cursor, text.len() as int), Seq::<WordModel>::empty()),
            Some(open) => {
                proof {
                    lemma_find_char_from_bounds(text, '>', open);
                }
                match find_char_from(text, '>', open) {
                    None => (text.subrange(cursor, text.len() as int), Seq::<WordModel>::empty()),
                    Some(open_end) => {
                        let tag = text.subrange(open + 1, open_end);
                        match timestamp_ms(tag) {
                            None => {
                                let rest = enhanced_from(text, open_end + 1);
                                (text.subrange(cursor, open_end + 1) + rest.0, rest.1)
                            },
                            Some(t) => {
                                let close = closing_tag(tag);
                                proof {
                                    lemma_find_seq_from_bounds(text, close, open_end + 1);
                                }
                                match find_seq_from(text, close, open_end + 1) {
                                    None => (
                                        text.subrange(cursor, text.len() as int),
                                        Seq::<WordModel>::empty(),
                                    ),
                                    Some(content_end) => {
                                        let word = text.subrange(open_end + 1, content_end);
                                        let rest = enhanced_from(
                                            text,
                                            content_end + close.len(),
                                        );
                                        (
                                            text.subrange(cursor, open) + word + rest.0,
                                            seq![WordModel { start_ms: t, end_ms: t, text: word }]
                                                + rest.1,
                                        )
                                    },
                                }
                            },
                        }
                    },
                }
            },
        }
    }
}

/// Whether every timestamp that reading enhanced text computes fits in a `u64`,
/// and every word start leaves room for one more millisecond.
pub open spec fn enhanced_fits_from(text: Seq<char>, cursor: int) -> bool
    decreases text.len() - cursor,
{
    if cursor < 0 || cursor >= text.len() {
        true
    } else {
        proof {
            lemma_find_char_from_bounds(text, '<', cursor);
        }
        match find_char_from(text, '<', cursor) {
            None => true,
            Some(open) => {
                proof {
                    lemma_find_char_from_bounds(text, '>', open);
                }
                match find_char_from(text, '>', open) {
                    None => true,
                    Some(open_end) => {
                        let tag = text.subrange(open + 1, open_end);
                        match timestamp_ms(tag) {
                            None => enhanced_fits_from(text, open_end + 1),
                            Some(t) => {
                                let close = closing_tag(tag);
                                proof {
                                    lemma_find_seq_from_bounds(text, close, open_end + 1);
                                }
                                match find_seq_from(text, close, open_end + 1) {
                                    None => t <= u64::MAX,
                                    Some(content_end) => t < u64::MAX && enhanced_fits_from(
                                        text,
                                        content_end + close.len(),
                                    ),
                                }
                            },
                        }
                    },
                }
            },
        }
    }
}

/// The line entries that one input line gives: one per leading timestamp, all
/// with the same text and words, their end times still open (0).
pub open spec fn segment_entries(segment: Seq<char>) -> Seq<LineModel> {
    let line = trim_end_cr(segment);
    let (stamps, text_start) = line_tags(line);
    if stamps.len() == 0 {
        Seq::<LineModel>::empty()
    } else {
        let (plain, words) = enhanced_from(line.subrange(text_start, line.len() as int), 0);
        Seq::new(
            stamps.len(),
            |k: int|
                LineModel {
                    start_ms: stamps[k],
                    end_ms: 0,
                    text: plain,
                    translation: None,
                    agent_id: None,
                    is_duet: false,
                    is_background: false,
                    background_vocal: None,
                    words,
                },
        )
    }
}

/// Whether the timestamps of one input line fit in the `u64` arithmetic that
/// reading it performs.
pub open spec fn segment_fits(segment: Seq<char>) -> bool {
    let line = trim_end_cr(segment);
    let (stamps, text_start) = line_tags(line);
    (forall|k: int| 0 <= k < stamps.len() ==> #[trigger] stamps[k] + 5000 <= u64::MAX) && (
    stamps.len() > 0 ==> enhanced_fits_from(line.subrange(text_start, line.len() as int), 0))
}

/// The line entries of all input lines, in input order.
pub open spec fn lrc_entries(segments: Seq<Seq<char>>) -> Seq<LineModel>
    decreases segments.len(),
{
    if segments.len() == 0 {
        Seq::<LineModel>::empty()
    } else {
        lrc_entries(segments.drop_last()) + segment_entries(segments.last())
    }
}

/// Whether an LRC text can be read without overflowing its millisecond arithmetic.
pub open spec fn lrc_fits(input: Seq<char>) -> bool {
    forall|k: int| 0 <= k < split_lines(input).len() ==> segment_fits(#[trigger] split_lines(input)[k])
}

/// Gives every word that has no length yet an end: the start of the word after
/// it, or `next` for the last word, and at least one millisecond after its start.
pub open spec fn fill_word_ends(words: Seq<WordModel>, next: int) -> Seq<WordModel>
    decreases words.len(),
{
    if words.len() == 0 {
        words
    } else {
        let w = words.last();
        let filled = if w.end_ms <= w.start_ms {
            WordModel { start_ms: w.start_ms, end_ms: max_int(next, w.start_ms + 1), text: w.text }
        } else {
            w
        };
        fill_word_ends(words.drop_last(), w.start_ms).push(filled)
    }
}

/// The end that a line falls back on: the next line's start, or five seconds after its own.
pub open spec fn lrc_fallback_end(lines: Seq<LineModel>, i: int) -> int {
    if i + 1 < lines.len() {
        lines[i + 1].start_ms
    } else {
        lines[i].start_ms + 5000
    }
}

/// A line with its words and its own end filled in from `fallback`.
pub open spec fn fill_lrc_line(line: LineModel, fallback: int) -> LineModel {
    let words = fill_word_ends(line.words, fallback);
    let end = if words.len() > 0 {
        words.last().end_ms
    } else {
        fallback
    };
    LineModel {
        start_ms: line.start_ms,
        end_ms: max_int(end, line.start_ms + 1),
        text: line.text,
        translation: line.translation,
        agent_id: line.agent_id,
        is_duet: line.is_duet,
        is_background: line.is_background,
        background_vocal: line.background_vocal,
        words,
    }
}

/// The lines with their ends filled in, each falling back on the next start.
pub open spec fn fill_lrc_ends(lines: Seq<LineModel>) -> Seq<LineModel> {
    Seq::new(lines.len(), |i: int| fill_lrc_line(lines[i], lrc_fallback_end(lines, i)))
}

/// The lines of an LRC text: every timestamped line once per timestamp, in
/// start order, each ending where the next begins; `None` where there is none.
pub open spec fn lrc_lines(input: Seq<char>) -> Option<Seq<LineModel>> {
    let entries = lrc_entries(split_lines(input));
    if entries.len() == 0 {
        None
    } else {
        Some(fill_lrc_ends(sort_by_start(entries)))
    }
}

/// A wide optional integer as a mathematical one.
pub open spec fn opt_wide(o: Option<u128>) -> Option<int> {
    match o {
        Some(v) => Some(v as int),
        None => None,
    }
}

proof fn lemma_fraction_small(fraction: Seq<char>)
    requires
        fraction.len() <= 3,
        all_ascii_digits(fraction),
    ensures
        0 <= fraction_ms(fraction) < 1000,
{
    lemma_digits_value_nonneg(fraction);
    if fraction.len() >= 1 {
        let f1 = fraction.take(1);
        assert(f1.drop_last() =~= Seq::<char>::empty());
        assert(digits_value(f1.drop_last()) == 0);
        assert(f1.last() == fraction[0]);
        assert(is_ascii_digit(fraction[0]));
        assert(digits_value(f1) < 10);
        if fraction.len() >= 2 {
            let f2 = fraction.take(2);
            assert(f2.drop_last() == f1);
            assert(f2.last() == fraction[1]);
            assert(is_ascii_digit(fraction[1]));
            assert(digits_value(f2) < 100);
            if fraction.len() == 3 {
                assert(fraction.drop_last() == f2);
                assert(fraction.last() == fraction[2]);
                assert(is_ascii_digit(fraction[2]));
            } else {
                assert(fraction == f2);
            }
        } else {
            assert(fraction == f1);
        }
    }
}

/// Reads an LRC timestamp; the value is exact, however large.
pub fn parse_timestamp(value: &Vec<char>) -> (r: Option<u128>)
    ensures
        opt_wide(r) == timestamp_ms(value@),
{
    proof {
        lemma_find_char_from_bounds(value@, ':', 0);
    }
    let colon = match find_char_from_exec(value, ':', 0) {
        Some(c) => c,
        None => return None,
    };
    assert(colon < value.len());
    let minutes = sub_chars(value, 0, colon);
    let rest = sub_chars(value, colon + 1, value.len());
    proof {
        lemma_find_char_from_bounds(rest@, '.', 0);
    }
    let (seconds, fraction) = match find_char_from_exec(&rest, '.', 0) {
        None => (sub_chars(&rest, 0, rest.len()), Vec::new()),
        Some(dot) => (sub_chars(&rest, 0, dot), sub_chars(&rest, dot + 1, rest.len())),
    };
    assert(rest@.subrange(0, rest@.len() as int) == rest@);
    assert((seconds@, fraction@) == seconds_and_fraction(rest@));
    let m = match parse_u64_exec(&minutes) {
        Some(m) => m,
        None => return None,
    };
    let s = match parse_u64_exec(&seconds) {
        Some(s) => s,
        None => return None,
    };
    if s >= 60 || fraction.len() > 3 {
        return None;
    }
    if !all_digits(&fraction) {
        return None;
    }
    proof {
        lemma_fraction_small(fraction@);
    }
    let f: u128 = if fraction.len() == 0 {
        0
    } else {
        let v = parse_u64_exec(&fraction);
        assert(unsigned_digits(fraction@) == fraction@);
        proof {
            lemma_digits_value_nonneg(fraction@);
        }
        let v: u64 = match v {
            Some(v) => v,
            None => {
                assert(false);
                0
            },
        };
        if fraction.len() == 1 {
            (v as u128) * 100
        } else if fraction.len() == 2 {
            (v as u128) * 10
        } else {
            v as u128
        }
    };
    assert(f as int == fraction_ms(fraction@));
    let total: u128 = (m as u128) * 60000 + (s as u128) * 1000 + f;
    Some(total)
}

/// Reads the leading `[timestamp]` tags of a line.
pub fn parse_line_tags(line: &Vec<char>) -> (r: (Vec<u128>, usize))
    ensures
        r.0@.map_values(|t: u128| t as int) == line_tags(line@).0,
        r.1 as int == line_tags(line@).1,
        r.1 <= line.len(),
{
    let mut stamps: Vec<u128> = Vec::new();
    let mut i: usize = 0;
    loop
        invariant
            i <= line.len(),
            line_tags(line@).0 == stamps@.map_values(|t: u128| t as int) + line_tags_from(
                line@,
                i as int,
            ).0,
            line_tags(line@).1 == line_tags_from(line@, i as int).1,
        decreases line.len() - i,
    {
        if i >= line.len() || line[i] != '[' {
            return (stamps, i);
        }
        proof {
            lemma_find_char_from_bounds(line@, ']', i as int);
        }
        let close = match find_char_from_exec(line, ']', i) {
            Some(c) => c,
            None => return (stamps, i),
        };
        let tag = sub_chars(line, i + 1, close);
        match parse_timestamp(&tag) {
            None => return (stamps, i),
            Some(t) => {
                let ghost before = stamps@.map_values(|t: u128| t as int);
                stamps.push(t);
                assert(stamps@.map_values(|t: u128| t as int) =~= before.push(t as int));
                assert(before.push(t as int) + line_tags_from(line@, close + 1).0 =~= before + (
                seq![t as int] + line_tags_from(line@, close + 1).0));
                i = close + 1;
            },
        }
    }
}

/// Enhanced words as read: each word's tag time and text.
pub open spec fn stamped_words(words: Seq<(u128, Vec<char>)>) -> Seq<WordModel> {
    words.map_values(
        |w: (u128, Vec<char>)| WordModel { start_ms: w.0 as int, end_ms: w.0 as int, text: w.1@ },
    )
}

/// Reads enhanced LRC text: the plain text, the timed words, and whether every
/// timestamp read fits the arithmetic that follows.
pub fn parse_enhanced(text: &Vec<char>) -> (r: (Vec<char>, Vec<(u128, Vec<char>)>, bool))
    ensures
        r.0@ == enhanced_from(text@, 0).0,
        stamped_words(r.1@) == enhanced_from(text@, 0).1,
        r.2 == enhanced_fits_from(text@, 0),
{
    let mut plain: Vec<char> = Vec::new();
    let mut words: Vec<(u128, Vec<char>)> = Vec::new();
    let mut fits = true;
    let mut cursor: usize = 0;
    while cursor < text.len()
        invariant
            cursor <= text.len(),
            enhanced_from(text@, 0).0 == plain@ + enhanced_from(text@, cursor as int).0,
            enhanced_from(text@, 0).1 == stamped_words(words@) + enhanced_from(
                text@,
                cursor as int,
            ).1,
            enhanced_fits_from(text@, 0) == (fits && enhanced_fits_from(text@, cursor as int)),
        decreases text.len() - cursor,
    {
        let ghost c0 = cursor as int;
        let ghost p0 = plain@;
        let ghost w0 = stamped_words(words@);
        proof {
            lemma_find_char_from_bounds(text@, '<', cursor as int);
        }
        let open = match find_char_from_exec(text, '<', cursor) {
            Some(o) => o,
            None => {
                push_range(&mut plain, text, cursor, text.len());
                assert(enhanced_from(text@, text.len() as int).0.len() == 0);
                assert(plain@ + enhanced_from(text@, text.len() as int).0 =~= plain@);
                assert(stamped_words(words@) + Seq::<WordModel>::empty() =~= stamped_words(words@));
                cursor = text.len();
                continue;
            },
        };
        proof {
            lemma_find_char_from_bounds(text@, '>', open as int);
        }
        let open_end = match find_char_from_exec(text, '>', open) {
            Some(e) => e,
            None => {
                push_range(&mut plain, text, cursor, text.len());
                assert(plain@ + enhanced_from(text@, text.len() as int).0 =~= plain@);
                assert(stamped_words(words@) + Seq::<WordModel>::empty() =~= stamped_words(words@));
                cursor = text.len();
                continue;
            },
        };
        let tag = sub_chars(text, open + 1, open_end);
        match parse_timestamp(&tag) {
            None => {
                push_range(&mut plain, text, cursor, open_end + 1);
                assert(p0 + (text@.subrange(c0, open_end + 1) + enhanced_from(
                    text@,
                    open_end + 1,
                ).0) =~= plain@ + enhanced_from(text@, open_end + 1).0);
                cursor = open_end + 1;
            },
            Some(t) => {
                let mut close: Vec<char> = Vec::new();
                close.push('<');
                close.push('/');
                push_all(&mut close, &tag);
                close.push('>');
                assert(close@ =~= closing_tag(tag@));
                proof {
                    lemma_find_seq_from_bounds(text@, close@, open_end + 1);
                }
                match find_seq_from_exec(text, &close, open_end + 1) {
                    None => {
                        if t > u64::MAX as u128 {
                            fits = false;
                        }
                        push_range(&mut plain, text, cursor, text.len());
                        assert(plain@ + enhanced_from(text@, text.len() as int).0 =~= plain@);
                        assert(stamped_words(words@) + Seq::<WordModel>::empty()
                            =~= stamped_words(words@));
                        cursor = text.len();
                    },
                    Some(content_end) => {
                        if t >= u64::MAX as u128 {
                            fits = false;
                        }
                        let word = sub_chars(text, open_end + 1, content_end);
                        push_range(&mut plain, text, cursor, open);
                        push_all(&mut plain, &word);
                        let ghost wm = WordModel { start_ms: t as int, end_ms: t as int, text: word@ };
                        words.push((t, word));
                        assert(stamped_words(words@) =~= w0.push(wm));
                        let next = content_end + close.len();
                        assert(p0 + (text@.subrange(c0, open as int) + text@.subrange(
                            open_end + 1,
                            content_end as int,
                        ) + enhanced_from(text@, next as int).0) =~= plain@ + enhanced_from(
                            text@,
                            next as int,
                        ).0);
                        assert(w0 + (seq![wm] + enhanced_from(text@, next as int).1) =~= w0.push(wm)
                            + enhanced_from(text@, next as int).1);
                        cursor = next;
                    },
                }
            },
        }
    }
    assert(plain@ + enhanced_from(text@, cursor as int).0 =~= plain@);
    assert(stamped_words(words@) + enhanced_from(text@, cursor as int).1 =~= stamped_words(words@));
    (plain, words, fits)
}

} // verus!

verus! {

/// The words of one line as read, and each line entry they belong to.
fn segment_parts(segment: &Vec<char>) -> (r: (Vec<u128>, Vec<char>, Vec<(u128, Vec<char>)>, bool))
    ensures
        ({
            let line = trim_end_cr(segment@);
            let (stamps, text_start) = line_tags(line);
            &&& r.0@.map_values(|t: u128| t as int) == stamps
            &&& stamps.len() > 0 ==> r.1@ == enhanced_from(
                line.subrange(text_start, line.len() as int),
                0,
            ).0
            &&& stamps.len() > 0 ==> stamped_words(r.2@) == enhanced_from(
                line.subrange(text_start, line.len() as int),
                0,
            ).1
            &&& r.3 == segment_fits(segment@)
        }),
{
    let line = trimmed_end_cr(segment);
    let (stamps, text_start) = parse_line_tags(&line);
    let ghost sv = stamps@.map_values(|t: u128| t as int);
    let mut stamps_fit = true;
    let mut k: usize = 0;
    while k < stamps.len()
        invariant
            k <= stamps.len(),
            sv == stamps@.map_values(|t: u128| t as int),
            stamps_fit == (forall|j: int| 0 <= j < k ==> #[trigger] sv[j] + 5000 <= u64::MAX),
        decreases stamps.len() - k,
    {
        if stamps[k] > (u64::MAX - 5000) as u128 {
            stamps_fit = false;
        }
        assert(sv[k as int] == stamps@[k as int] as int);
        k = k + 1;
    }
    if stamps.len() == 0 {
        return (stamps, Vec::new(), Vec::new(), stamps_fit);
    }
    let text = sub_chars(&line, text_start, line.len());
    let (plain, words, words_fit) = parse_enhanced(&text);
    (stamps, plain, words, stamps_fit && words_fit)
}

/// The words that enhanced text gives, ready for a line.
fn make_words(words: &Vec<(u128, Vec<char>)>) -> (r: Vec<LyricWord>)
    requires
        forall|k: int| 0 <= k < words@.len() ==> #[trigger] words@[k].0 < u64::MAX,
    ensures
        words_view(r@) == stamped_words(words@),
{
    let mut r: Vec<LyricWord> = Vec::new();
    let mut i: usize = 0;
    while i < words.len()
        invariant
            i <= words.len(),
            forall|k: int| 0 <= k < words@.len() ==> #[trigger] words@[k].0 < u64::MAX,
            words_view(r@) == stamped_words(words@.take(i as int)),
        decreases words.len() - i,
    {
        let t: u64 = words[i].0 as u64;
        let w = LyricWord { start_ms: t, end_ms: t, text: string_from_chars(&words[i].1) };
        let ghost prev = r@;
        r.push(w);
        assert(words_view(r@) =~= words_view(prev).push(w@));
        assert(words@.take(i + 1) == words@.take(i as int).push(words@[i as int]));
        assert(stamped_words(words@.take(i + 1)) =~= stamped_words(words@.take(i as int)).push(
            w@,
        ));
        i = i + 1;
    }
    assert(words@.take(words.len() as int) == words@);
    r
}

/// Every word start in enhanced text, read in full, is below `u64::MAX`.
proof fn lemma_enhanced_word_bounds(text: Seq<char>, cursor: int)
    requires
        enhanced_fits_from(text, cursor),
    ensures
        forall|k: int|
            0 <= k < enhanced_from(text, cursor).1.len() ==> #[trigger] enhanced_from(
                text,
                cursor,
            ).1[k].start_ms < u64::MAX,
        forall|k: int|
            0 <= k < enhanced_from(text, cursor).1.len() ==> #[trigger] enhanced_from(
                text,
                cursor,
            ).1[k].end_ms == enhanced_from(text, cursor).1[k].start_ms,
        forall|k: int|
            0 <= k < enhanced_from(text, cursor).1.len() ==> #[trigger] enhanced_from(
                text,
                cursor,
            ).1[k].start_ms >= 0,
    decreases text.len() - cursor,
{
    if cursor < 0 || cursor >= text.len() {
    } else {
        lemma_find_char_from_bounds(text, '<', cursor);
        match find_char_from(text, '<', cursor) {
            None => {},
            Some(open) => {
                lemma_find_char_from_bounds(text, '>', open);
                match find_char_from(text, '>', open) {
                    None => {},
                    Some(open_end) => {
                        let tag = text.subrange(open + 1, open_end);
                        lemma_timestamp_nonneg(tag);
                        match timestamp_ms(tag) {
                            None => {
                                lemma_enhanced_word_bounds(text, open_end + 1);
                                assert(enhanced_from(text, cursor).1 == enhanced_from(
                                    text,
                                    open_end + 1,
                                ).1);
                            },
                            Some(t) => {
                                let close = closing_tag(tag);
                                lemma_find_seq_from_bounds(text, close, open_end + 1);
                                match find_seq_from(text, close, open_end + 1) {
                                    None => {},
                                    Some(content_end) => {
                                        lemma_enhanced_word_bounds(
                                            text,
                                            content_end + close.len(),
                                        );
                                        let rest = enhanced_from(text, content_end + close.len()).1;
                                        let all = enhanced_from(text, cursor).1;
                                        assert forall|k: int| 0 <= k < all.len() implies #[trigger] all[k].start_ms
                                            < u64::MAX && all[k].end_ms == all[k].start_ms
                                            && all[k].start_ms >= 0 by {
                                            if k > 0 {
                                                assert(all[k] == rest[k - 1]);
                                            }
                                        }
                                    },
                                }
                            },
                        }
                    },
                }
            },
        }
    }
}

proof fn lemma_timestamp_nonneg(value: Seq<char>)
    ensures
        timestamp_ms(value) matches Some(t) ==> t >= 0,
{
    if let Some(colon) = find_char(value, ':') {
        let minutes = value.subrange(0, colon);
        let (seconds, fraction) = seconds_and_fraction(
            value.subrange(colon + 1, value.len() as int),
        );
        if let (Some(m), Some(s)) = (parse_u64(minutes), parse_u64(seconds)) {
            if !(s >= 60 || fraction.len() > 3 || !all_ascii_digits(fraction)) {
                lemma_digits_value_nonneg(unsigned_digits(minutes));
                lemma_digits_value_nonneg(unsigned_digits(seconds));
                lemma_fraction_small(fraction);
            }
        }
    }
}

proof fn lemma_line_tags_nonneg(line: Seq<char>, i: int)
    ensures
        forall|k: int| 0 <= k < line_tags_from(line, i).0.len() ==> #[trigger] line_tags_from(line, i).0[k] >= 0,
    decreases line.len() - i,
{
    if 0 <= i < line.len() && line[i] == '[' {
        lemma_find_char_from_bounds(line, ']', i);
        match find_char_from(line, ']', i) {
            None => {},
            Some(close) => {
                lemma_timestamp_nonneg(line.subrange(i + 1, close));
                match timestamp_ms(line.subrange(i + 1, close)) {
                    None => {},
                    Some(t) => {
                        lemma_line_tags_nonneg(line, close + 1);
                        let all = line_tags_from(line, i).0;
                        let rest = line_tags_from(line, close + 1).0;
                        assert forall|k: int| 0 <= k < all.len() implies #[trigger] all[k] >= 0 by {
                            if k > 0 {
                                assert(all[k] == rest[k - 1]);
                            }
                        }
                    },
                }
            },
        }
    }
}

/// The bounds that filling in end times needs: room for five more seconds
/// after each line start and one more millisecond after each word start.
pub open spec fn fill_fits(line: LineModel) -> bool {
    &&& 0 <= line.start_ms
    &&& line.start_ms + 5000 <= u64::MAX
    &&& forall|k: int|
        0 <= k < line.words.len() ==> 0 <= #[trigger] line.words[k].start_ms < u64::MAX && 0
            <= line.words[k].end_ms <= u64::MAX
}

fn fill_word_ends_exec(words: &Vec<LyricWord>, next: u64) -> (r: Vec<LyricWord>)
    requires
        forall|k: int| 0 <= k < words@.len() ==> #[trigger] words@[k].start_ms < u64::MAX,
    ensures
        words_view(r@) == fill_word_ends(words_view(words@), next as int),
{
    let ghost wv = words_view(words@);
    let mut r = copy_words(words);
    let mut k: usize = words.len();
    let mut next_start: u64 = next;
    let ghost mut done: Seq<WordModel> = Seq::empty();
    assert(wv.take(wv.len() as int) == wv);
    assert(words_view(r@) =~= wv.take(k as int) + done);
    while k > 0
        invariant
            k <= words.len(),
            r@.len() == words@.len(),
            wv == words_view(words@),
            forall|j: int| 0 <= j < words@.len() ==> #[trigger] words@[j].start_ms < u64::MAX,
            words_view(r@) == wv.take(k as int) + done,
            fill_word_ends(wv, next as int) == fill_word_ends(wv.take(k as int), next_start as int)
                + done,
        decreases k,
    {
        k = k - 1;
        let ghost before_view = words_view(r@);
        assert(before_view == wv.take(k + 1) + done);
        assert(before_view[k as int] == r@[k as int]@);
        let w = copy_word(&r[k]);
        assert(w@ == wv[k as int]);
        let ghost taken = wv.take(k + 1);
        assert(taken.drop_last() == wv.take(k as int));
        assert(taken.last() == wv[k as int]);
        let start = w.start_ms;
        let filled = if w.end_ms <= w.start_ms {
            let end = if next_start > w.start_ms + 1 {
                next_start
            } else {
                w.start_ms + 1
            };
            LyricWord { start_ms: w.start_ms, end_ms: end, text: w.text }
        } else {
            w
        };
        let ghost fm = filled@;
        let ghost prev = r@;
        r.set(k, filled);
        proof {
            assert(fill_word_ends(taken, next_start as int) == fill_word_ends(
                wv.take(k as int),
                start as int,
            ).push(fm));
            assert(fill_word_ends(wv.take(k as int), start as int).push(fm) + done
                =~= fill_word_ends(wv.take(k as int), start as int) + (seq![fm] + done));
            assert(r@ == prev.update(k as int, filled));
            assert(words_view(r@) =~= before_view.update(k as int, fm));
            assert(words_view(r@) =~= wv.take(k as int) + (seq![fm] + done));
            done = seq![fm] + done;
        }
        next_start = start;
    }
    assert(wv.take(0) =~= Seq::<WordModel>::empty());
    assert(done =~= Seq::<WordModel>::empty() + done);
    r
}

fn fill_lrc_ends_exec(lines: &Vec<LyricLine>) -> (r: Vec<LyricLine>)
    requires
        forall|i: int| 0 <= i < lines@.len() ==> fill_fits(#[trigger] lines_view(lines@)[i]),
    ensures
        lines_view(r@) == fill_lrc_ends(lines_view(lines@)),
{
    let ghost lv = lines_view(lines@);
    let mut r: Vec<LyricLine> = Vec::new();
    let mut i: usize = 0;
    while i < lines.len()
        invariant
            i <= lines.len(),
            lv == lines_view(lines@),
            forall|j: int| 0 <= j < lines@.len() ==> fill_fits(#[trigger] lv[j]),
            lines_view(r@) == fill_lrc_ends(lv).take(i as int),
        decreases lines.len() - i,
    {
        let line = &lines[i];
        assert(line@ == lv[i as int]);
        assert(fill_fits(lv[i as int]));
        let fallback: u64 = if i + 1 < lines.len() {
            lines[i + 1].start_ms
        } else {
            line.start_ms + 5000
        };
        assert(fallback as int == lrc_fallback_end(lv, i as int));
        assert forall|k: int| 0 <= k < line.words@.len() implies #[trigger] line.words@[k].start_ms
            < u64::MAX by {
            assert(words_view(line.words@)[k] == line.words@[k]@);
            assert(lv[i as int].words[k] == line.words@[k]@);
            assert(lv[i as int].words[k].start_ms < u64::MAX);
        }
        let words = fill_word_ends_exec(&line.words, fallback);
        let end: u64 = if words.len() > 0 {
            words[words.len() - 1].end_ms
        } else {
            fallback
        };
        assert(end as int == (if words_view(words@).len() > 0 {
            words_view(words@).last().end_ms
        } else {
            fallback as int
        }));
        let end = if end > line.start_ms + 1 {
            end
        } else {
            line.start_ms + 1
        };
        let filled = LyricLine {
            start_ms: line.start_ms,
            end_ms: end,
            text: copy_text(&line.text),
            translation: crate::lyrics::copy_opt_text(&line.translation),
            agent_id: crate::lyrics::copy_opt_text(&line.agent_id),
            is_duet: line.is_duet,
            is_background: line.is_background,
            background_vocal: match &line.background_vocal {
                Some(b) => Some(crate::lyrics::copy_background(b)),
                None => None,
            },
            words,
        };
        assert(filled@ == fill_lrc_line(lv[i as int], fallback as int));
        let ghost prev = lines_view(r@);
        r.push(filled);
        assert(lines_view(r@) =~= prev.push(filled@));
        assert(fill_lrc_ends(lv).take(i + 1) =~= fill_lrc_ends(lv).take(i as int).push(
            fill_lrc_ends(lv)[i as int],
        ));
        i = i + 1;
    }
    assert(fill_lrc_ends(lv).take(lines.len() as int) =~= fill_lrc_ends(lv));
    r
}

} // verus!

verus! {

/// Reads LRC lyrics. Every line that starts with one or more `[mm:ss.xx]`
/// timestamps becomes one line per timestamp; the lines come in start order
/// (lines that start together keep their input order); a line ends where the
/// next begins, the last five seconds after its start; enhanced
/// `<mm:ss.xx>word</mm:ss.xx>` tags become words that run until the next word.
/// Fails when no line has a valid timestamp.
pub fn parse_lrc(input: &str) -> (r: Result<Vec<LyricLine>, LyricsError>)
    requires
        lrc_fits(input@),
    ensures
        match r {
            Ok(lines) => lrc_lines(input@) == Some(lines_view(lines@)),
            Err(e) => lrc_lines(input@) is None && e == LyricsError::NoLyricLines,
        },
{
    let chars = chars_of(input);
    let segments = split_lines_exec(&chars);
    let ghost segs = split_lines(input@);
    assert(segments@.map_values(|l: Vec<char>| l@) == segs);
    let mut entries: Vec<LyricLine> = Vec::new();
    let mut i: usize = 0;
    while i < segments.len()
        invariant
            i <= segments.len(),
            segs == split_lines(input@),
            segments@.map_values(|l: Vec<char>| l@) == segs,
            lrc_fits(input@),
            lines_view(entries@) == lrc_entries(segs.take(i as int)),
            forall|j: int| 0 <= j < entries@.len() ==> fill_fits(#[trigger] lines_view(entries@)[j]),
        decreases segments.len() - i,
    {
        let segment = &segments[i];
        assert(segment@ == segs[i as int]);
        assert(segment_fits(segs[i as int]));
        let (stamps, plain, words, fits) = segment_parts(segment);
        let ghost line = trim_end_cr(segment@);
        let ghost sv = stamps@.map_values(|t: u128| t as int);
        proof {
            lemma_line_tags_nonneg(line, 0);
        }
        let ghost before = lines_view(entries@);
        let ghost first = entries@.len();
        if stamps.len() > 0 {
            let ghost text_start = line_tags(line).1;
            let ghost rest_text = line.subrange(text_start, line.len() as int);
            proof {
                lemma_enhanced_word_bounds(rest_text, 0);
            }
            assert forall|k: int| 0 <= k < words@.len() implies #[trigger] words@[k].0 < u64::MAX by {
                assert(stamped_words(words@)[k].start_ms == words@[k].0 as int);
            }
            let line_words = make_words(&words);
            let text = string_from_chars(&plain);
            let mut k: usize = 0;
            while k < stamps.len()
                invariant
                    k <= stamps.len(),
                    sv == stamps@.map_values(|t: u128| t as int),
                    sv == line_tags(line).0,
                    forall|j: int| 0 <= j < sv.len() ==> #[trigger] sv[j] + 5000 <= u64::MAX,
                    forall|j: int| 0 <= j < sv.len() ==> #[trigger] sv[j] >= 0,
                    stamps.len() > 0,
                    first == before.len(),
                    entries@.len() == first + k,
                    lines_view(entries@) == before + segment_entries(segment@).take(k as int),
                    text@ == enhanced_from(rest_text, 0).0,
                    words_view(line_words@) == enhanced_from(rest_text, 0).1,
                    rest_text == line.subrange(line_tags(line).1, line.len() as int),
                    line == trim_end_cr(segment@),
                    forall|j: int| 0 <= j < first ==> fill_fits(#[trigger] lines_view(entries@)[j]),
                    forall|j: int| 0 <= j < enhanced_from(rest_text, 0).1.len() ==> #[trigger] enhanced_from(rest_text, 0).1[j].start_ms < u64::MAX && enhanced_from(rest_text, 0).1[j].end_ms == enhanced_from(rest_text, 0).1[j].start_ms && enhanced_from(rest_text, 0).1[j].start_ms >= 0,
                    forall|j: int| first <= j < entries@.len() ==> fill_fits(#[trigger] lines_view(entries@)[j]),
                decreases stamps.len() - k,
            {
                assert(sv[k as int] == stamps@[k as int] as int);
                let start: u64 = stamps[k] as u64;
                let entry = LyricLine {
                    start_ms: start,
                    end_ms: 0,
                    text: copy_text(&text),
                    translation: None,
                    agent_id: None,
                    is_duet: false,
                    is_background: false,
                    background_vocal: None,
                    words: copy_words(&line_words),
                };
                let ghost prev = lines_view(entries@);
                entries.push(entry);
                assert(entry@ == segment_entries(segment@)[k as int]);
                assert(lines_view(entries@) =~= prev.push(entry@));
                assert(segment_entries(segment@).take(k + 1) =~= segment_entries(segment@).take(
                    k as int,
                ).push(entry@));
                assert(fill_fits(entry@));
                k = k + 1;
            }
            assert(segment_entries(segment@).take(stamps.len() as int) =~= segment_entries(
                segment@,
            ));
        } else {
            assert(segment_entries(segment@) =~= Seq::<LineModel>::empty());
            assert(before + segment_entries(segment@) =~= before);
        }
        assert(segs.take(i + 1).drop_last() =~= segs.take(i as int));
        assert(segs.take(i + 1).last() == segs[i as int]);
        i = i + 1;
    }
    assert(segs.take(segments.len() as int) =~= segs);
    if entries.len() == 0 {
        return Err(LyricsError::NoLyricLines);
    }
    let ghost ev = lines_view(entries@);
    let sorted = sort_lines_by_start(entries);
    proof {
        crate::lyrics::lemma_sort_keeps(ev, |l: LineModel| fill_fits(l));
    }
    let filled = fill_lrc_ends_exec(&sorted);
    Ok(filled)
}

/// Whether `parse_lrc` can read an LRC text: every timestamp it computes fits
/// in a `u64` with room for the end times that it derives.
pub fn lrc_timestamps_fit(input: &str) -> (b: bool)
    ensures
        b == lrc_fits(input@),
{
    let chars = chars_of(input);
    let segments = split_lines_exec(&chars);
    let ghost segs = split_lines(input@);
    let mut i: usize = 0;
    while i < segments.len()
        invariant
            i <= segments.len(),
            segs == split_lines(input@),
            segments@.map_values(|l: Vec<char>| l@) == segs,
            forall|j: int| 0 <= j < i ==> segment_fits(#[trigger] segs[j]),
        decreases segments.len() - i,
    {
        let (_, _, _, fits) = segment_parts(&segments[i]);
        assert(segments[i as int]@ == segs[i as int]);
        if !fits {
            return false;
        }
        i = i + 1;
    }
    true
}

} // verus!

verus! {

/// The latest end among the words, or `None` without words.
pub open spec fn max_word_end(words: Seq<WordModel>) -> Option<int>
    decreases words.len(),
{
    if words.len() == 0 {
        None
    } else {
        match max_word_end(words.drop_last()) {
            None => Some(words.last().end_ms),
            Some(m) => Some(max_int(m, words.last().end_ms)),
        }
    }
}

/// `x.clamp(lo, hi)`.
pub open spec fn clamp_int(x: int, lo: int, hi: int) -> int {
    if x < lo {
        lo
    } else if x > hi {
        hi
    } else {
        x
    }
}

/// When the highlight of a line finishes sweeping: with words, at the last
/// word end; without, a lead of an eighth of the line (120 to 400 ms, and less
/// than the line) before its nominal end; never before one millisecond after its start.
pub open spec fn scan_end(line: LineModel) -> int {
    match max_word_end(line.words) {
        Some(end) => max_int(end, line.start_ms + 1),
        None => {
            let duration = sat_sub(line.end_ms, line.start_ms);
            let lead = min_int(clamp_int(duration / 8, 120, 400), sat_sub(duration, 1));
            max_int(sat_sub(line.end_ms, lead), line.start_ms + 1)
        },
    }
}

/// The visual scan completion moment used to coordinate pre-roll scrolling.
/// Untimed line-level karaoke finishes slightly before the nominal line end,
/// leaving a short handoff window before the next line.
pub fn scan_end_ms(line: &LyricLine) -> (r: u64)
    requires
        line.start_ms < u64::MAX,
    ensures
        r as int == scan_end(line@),
{
    let ghost wv = words_view(line.words@);
    if line.words.len() > 0 {
        let mut best: u64 = line.words[0].end_ms;
        let mut i: usize = 1;
        assert(wv.take(1).drop_last() =~= Seq::<WordModel>::empty());
        assert(wv.take(1).last() == line.words@[0]@);
        assert(max_word_end(wv.take(1).drop_last()) is None);
        assert(max_word_end(wv.take(1)) == Some(best as int));
        while i < line.words.len()
            invariant
                1 <= i <= line.words.len(),
                wv == words_view(line.words@),
                max_word_end(wv.take(i as int)) == Some(best as int),
            decreases line.words.len() - i,
        {
            assert(wv.take(i + 1).drop_last() =~= wv.take(i as int));
            assert(wv.take(i + 1).last() == line.words@[i as int]@);
            if line.words[i].end_ms > best {
                best = line.words[i].end_ms;
            }
            i = i + 1;
        }
        assert(wv.take(line.words.len() as int) =~= wv);
        return if best > line.start_ms + 1 {
            best
        } else {
            line.start_ms + 1
        };
    }
    assert(wv.len() == 0);
    let duration = line.end_ms.saturating_sub(line.start_ms);
    let eighth = duration / 8;
    let clamped = if eighth < 120 {
        120
    } else if eighth > 400 {
        400
    } else {
        eighth
    };
    let lead = if clamped < duration.saturating_sub(1) {
        clamped
    } else {
        duration.saturating_sub(1)
    };
    let end = line.end_ms.saturating_sub(lead);
    if end > line.start_ms + 1 {
        end
    } else {
        line.start_ms + 1
    }
}

/// Whether a line's first bracket holds an LRC metadata tag (`ti:`, `ar:`, `al:`).
pub open spec fn is_metadata(line: Seq<char>) -> bool {
    match find_char(line, ']') {
        None => false,
        Some(end) => {
            let inner = line.subrange(1, end);
            inner.len() >= 3 && (inner.subrange(0, 3) == seq!['t', 'i', ':'] || inner.subrange(0, 3)
                == seq!['a', 'r', ':'] || inner.subrange(0, 3) == seq!['a', 'l', ':'])
        },
    }
}

/// The lines of an LRC text that look like a timestamp line (they start with
/// `[`) but have no valid timestamp and are no metadata tag: the lines that a
/// reader warns about and skips.
pub open spec fn lrc_skipped_lines(segments: Seq<Seq<char>>) -> Seq<Seq<char>>
    decreases segments.len(),
{
    if segments.len() == 0 {
        Seq::<Seq<char>>::empty()
    } else {
        let line = trim_end_cr(segments.last());
        let earlier = lrc_skipped_lines(segments.drop_last());
        if line_tags(line).0.len() == 0 && line.len() > 0 && line[0] == '[' && !is_metadata(
            line,
        ) {
            earlier.push(line)
        } else {
            earlier
        }
    }
}

/// Whether a line is an `[ti:]`, `[ar:]` or `[al:]` metadata tag.
pub fn is_metadata_line(line: &Vec<char>) -> (b: bool)
    requires
        line.len() > 0,
        line@[0] == '[',
    ensures
        b == is_metadata(line@),
{
    proof {
        lemma_find_char_from_bounds(line@, ']', 0);
    }
    let end = match find_char_from_exec(line, ']', 0) {
        None => return false,
        Some(e) => e,
    };
    assert(end >= 1);
    let inner = sub_chars(line, 1, end);
    if inner.len() < 3 {
        return false;
    }
    let head = sub_chars(&inner, 0, 3);
    let a = inner[0];
    let b = inner[1];
    let c = inner[2];
    assert(head@ =~= seq![a, b, c]);
    (a == 't' && b == 'i' && c == ':') || (a == 'a' && b == 'r' && c == ':') || (a == 'a' && b
        == 'l' && c == ':')
}

/// The lines of an LRC text that `parse_lrc` skips although they start with
/// `[`: neither a valid timestamp nor a metadata tag. A reader warns about them.
pub fn lrc_invalid_timestamp_lines(input: &str) -> (r: Vec<String>)
    ensures
        r@.map_values(|s: String| s@) == lrc_skipped_lines(split_lines(input@)),
{
    let chars = chars_of(input);
    let segments = split_lines_exec(&chars);
    let ghost segs = split_lines(input@);
    let mut out: Vec<String> = Vec::new();
    let mut i: usize = 0;
    while i < segments.len()
        invariant
            i <= segments.len(),
            segs == split_lines(input@),
            segments@.map_values(|l: Vec<char>| l@) == segs,
            out@.map_values(|s: String| s@) == lrc_skipped_lines(segs.take(i as int)),
        decreases segments.len() - i,
    {
        assert(segments[i as int]@ == segs[i as int]);
        let line = trimmed_end_cr(&segments[i]);
        let (stamps, _) = parse_line_tags(&line);
        assert(segs.take(i + 1).drop_last() =~= segs.take(i as int));
        assert(segs.take(i + 1).last() == segs[i as int]);
        if stamps.len() == 0 && line.len() > 0 && line[0] == '[' && !is_metadata_line(&line) {
            let ghost prev = out@.map_values(|s: String| s@);
            let s = string_from_chars(&line);
            out.push(s);
            assert(out@.map_values(|s: String| s@) =~= prev.push(line@));
        }
        i = i + 1;
    }
    assert(segs.take(segments.len() as int) =~= segs);
    out
}

/// The lines that reading LRC gives come in start order, one for each
/// timestamp of the text, and each ends after it starts.
pub proof fn law_lrc_lines_ordered(input: Seq<char>)
    ensures
        lrc_lines(input) matches Some(ls) ==> {
            &&& crate::lyrics::sorted_by_start(ls)
            &&& ls.len() == lrc_entries(split_lines(input)).len()
            &&& forall|i: int| 0 <= i < ls.len() ==> #[trigger] ls[i].end_ms > ls[i].start_ms
        },
{
    let entries = lrc_entries(split_lines(input));
    if entries.len() > 0 {
        crate::lyrics::lemma_sort_by_start_sorted(entries);
        let sorted = sort_by_start(entries);
        let ls = fill_lrc_ends(sorted);
        assert forall|i: int, j: int| 0 <= i <= j < ls.len() implies ls[i].start_ms
            <= ls[j].start_ms by {
            assert(ls[i].start_ms == sorted[i].start_ms);
            assert(ls[j].start_ms == sorted[j].start_ms);
        }
    }
}

/// A line without timed words finishes its highlight sweep after it starts
/// and, when it lasts two milliseconds or more, before its nominal end.
pub proof fn law_untimed_scan_finishes_before_line_end(line: LineModel)
    requires
        line.words.len() == 0,
        0 <= line.start_ms,
        line.start_ms + 2 <= line.end_ms,
    ensures
        line.start_ms < scan_end(line) < line.end_ms,
{
}

proof fn lemma_fill_word_ends_len(words: Seq<WordModel>, next: int)
    ensures
        fill_word_ends(words, next).len() == words.len(),
    decreases words.len(),
{
    if words.len() > 0 {
        lemma_fill_word_ends_len(words.drop_last(), words.last().start_ms);
    }
}

/// A line without words ends where the next line begins (at least one
/// millisecond after its own start); the last line ends five seconds after
/// it starts.
pub proof fn law_lrc_line_ends(input: Seq<char>)
    ensures
        lrc_lines(input) matches Some(ls) ==> forall|i: int|
            0 <= i < ls.len() && (#[trigger] ls[i]).words.len() == 0 ==> ls[i].end_ms == if i + 1
                < ls.len() {
                max_int(ls[i + 1].start_ms, ls[i].start_ms + 1)
            } else {
                ls[i].start_ms + 5000
            },
{
    let entries = lrc_entries(split_lines(input));
    if entries.len() > 0 {
        let sorted = sort_by_start(entries);
        let ls = fill_lrc_ends(sorted);
        assert forall|i: int| 0 <= i < ls.len() && (#[trigger] ls[i]).words.len() == 0 implies ls[i].end_ms
            == if i + 1 < ls.len() {
            max_int(ls[i + 1].start_ms, ls[i].start_ms + 1)
        } else {
            ls[i].start_ms + 5000
        } by {
            lemma_fill_word_ends_len(sorted[i].words, lrc_fallback_end(sorted, i));
            if i + 1 < ls.len() {
                assert(ls[i + 1].start_ms == sorted[i + 1].start_ms);
            }
        }
    }
}


/// In the lines of an LRC text, the last word of a line that another line
/// follows, when the text gives it no length of its own, ends where the next
/// line starts (at least one millisecond after the word starts); and a line
/// with words ends where its last word ends (at least one millisecond after
/// the line starts).
pub proof fn law_lrc_last_word_ends_at_next_line(input: Seq<char>)
    ensures
        lrc_lines(input) matches Some(ls) ==> forall|i: int|
            0 <= i && i + 1 < ls.len() && (#[trigger] ls[i]).words.len() > 0 ==> {
                let raw = sort_by_start(lrc_entries(split_lines(input)))[i].words;
                let last = ls[i].words.last();
                &&& raw.len() == ls[i].words.len()
                &&& last.start_ms == raw.last().start_ms
                &&& raw.last().end_ms <= raw.last().start_ms ==> last.end_ms == max_int(
                    ls[i + 1].start_ms,
                    last.start_ms + 1,
                )
                &&& ls[i].end_ms == max_int(last.end_ms, ls[i].start_ms + 1)
            },
{
    let entries = lrc_entries(split_lines(input));
    if entries.len() > 0 {
        let sorted = sort_by_start(entries);
        let ls = fill_lrc_ends(sorted);
        assert forall|i: int| 0 <= i && i + 1 < ls.len() && (#[trigger] ls[i]).words.len() > 0 implies {
            let raw = sorted[i].words;
            let last = ls[i].words.last();
            &&& raw.len() == ls[i].words.len()
            &&& last.start_ms == raw.last().start_ms
            &&& raw.last().end_ms <= raw.last().start_ms ==> last.end_ms == max_int(
                ls[i + 1].start_ms,
                last.start_ms + 1,
            )
            &&& ls[i].end_ms == max_int(last.end_ms, ls[i].start_ms + 1)
        } by {
            let raw = sorted[i].words;
            lemma_fill_word_ends_len(raw, sorted[i + 1].start_ms);
            assert(ls[i] == fill_lrc_line(sorted[i], sorted[i + 1].start_ms));
            assert(ls[i + 1].start_ms == sorted[i + 1].start_ms);
            assert(fill_word_ends(raw, sorted[i + 1].start_ms) == fill_word_ends(
                raw.drop_last(),
                raw.last().start_ms,
            ).push(
                if raw.last().end_ms <= raw.last().start_ms {
                    WordModel {
                        start_ms: raw.last().start_ms,
                        end_ms: max_int(sorted[i + 1].start_ms, raw.last().start_ms + 1),
                        text: raw.last().text,
                    }
                } else {
                    raw.last()
                },
            ));
        }
    }
}

} // verus!
