//! Where a sung word sits in the text of its line, in the UTF-16 offsets that
//! the text layout measures ranges in.
use vstd::prelude::*;

use crate::text::{chars_of, find_seq_from, find_seq_from_exec, lemma_find_seq_from_bounds};
use crate::ttml::{text_bytes, utf8_len, utf8_len_exec};

verus! {

/// How many UTF-16 code units encode `c`.
pub open spec fn utf16_len(c: char) -> int {
    if (c as u32) < 0x10000 {
        1
    } else {
        2
    }
}

/// How many UTF-16 code units encode `s`.
pub open spec fn utf16_units(s: Seq<char>) -> int
    decreases s.len(),
{
    if s.len() == 0 {
        0
    } else {
        utf16_units(s.drop_last()) + utf16_len(s.last())
    }
}

/// Whether byte offset `b` of the UTF-8 text `text` falls before its character `k`.
pub open spec fn byte_boundary(text: Seq<char>, b: int, k: int) -> bool {
    0 <= k <= text.len() && text_bytes(text.take(k)) == b
}

/// The first occurrence of `word` in `text` at or after byte offset
/// `search_from`: its start and end in UTF-16 code units, and the byte offset
/// just after it. `None` for an empty word, for an offset that is no character
/// boundary of the text, and where the word does not occur after it.
pub open spec fn word_utf16_range(text: Seq<char>, word: Seq<char>, search_from: int) -> Option<
    (int, int, int),
> {
    if word.len() == 0 || !(exists|k: int| byte_boundary(text, search_from, k)) {
        None
    } else {
        let k = choose|k: int| byte_boundary(text, search_from, k);
        match find_seq_from(text, word, k) {
            None => None,
            Some(j) => {
                let start = utf16_units(text.take(j));
                Some((start, start + utf16_units(word), text_bytes(text.take(j)) + text_bytes(word)))
            },
        }
    }
}

proof fn lemma_bytes_concat(a: Seq<char>, b: Seq<char>)
    ensures
        text_bytes(a + b) == text_bytes(a) + text_bytes(b),
        utf16_units(a + b) == utf16_units(a) + utf16_units(b),
    decreases b.len(),
{
    if b.len() == 0 {
        assert(a + b =~= a);
    } else {
        lemma_bytes_concat(a, b.drop_last());
        assert((a + b).drop_last() =~= a + b.drop_last());
        assert((a + b).last() == b.last());
    }
}

proof fn lemma_units_within_bytes(s: Seq<char>)
    ensures
        s.len() <= utf16_units(s) <= text_bytes(s),
        s.len() <= text_bytes(s),
    decreases s.len(),
{
    if s.len() > 0 {
        lemma_units_within_bytes(s.drop_last());
    }
}

proof fn lemma_bytes_first(s: Seq<char>)
    requires
        s.len() > 0,
    ensures
        text_bytes(s) == utf8_len(s[0]) + text_bytes(s.drop_first()),
{
    lemma_bytes_concat(seq![s[0]], s.drop_first());
    assert(seq![s[0]] + s.drop_first() =~= s);
    assert(seq![s[0]].drop_last() =~= Seq::<char>::empty());
    assert(text_bytes(Seq::<char>::empty()) == 0);
    assert(text_bytes(seq![s[0]]) == utf8_len(s[0]));
}

/// The UTF-8 encoding of `s` is `text_bytes(s)` bytes long.
proof fn lemma_encoded_len(s: Seq<char>)
    ensures
        vstd::utf8::encode_utf8(s).len() == text_bytes(s),
    decreases s.len(),
{
    if s.len() > 0 {
        lemma_encoded_len(s.drop_first());
        lemma_bytes_first(s);
        vstd::utf8::char_is_scalar(s[0]);
        assert(vstd::utf8::encode_scalar(s[0] as u32).len() == utf8_len(s[0]));
    }
}

proof fn lemma_prefix_bytes_grow(s: Seq<char>, i: int, k: int)
    requires
        0 <= i <= k <= s.len(),
    ensures
        text_bytes(s.take(i)) + (k - i) <= text_bytes(s.take(k)),
        utf16_units(s.take(i)) <= utf16_units(s.take(k)),
        text_bytes(s.take(k)) <= text_bytes(s),
{
    lemma_bytes_concat(s.take(i), s.subrange(i, k));
    assert(s.take(i) + s.subrange(i, k) =~= s.take(k));
    lemma_units_within_bytes(s.subrange(i, k));
    lemma_bytes_concat(s.take(k), s.subrange(k, s.len() as int));
    assert(s.take(k) + s.subrange(k, s.len() as int) =~= s);
    lemma_units_within_bytes(s.subrange(k, s.len() as int));
}

/// Byte offsets of character boundaries grow with the character index, so a
/// boundary names one character index.
proof fn lemma_boundary_unique(s: Seq<char>, b: int, k: int)
    requires
        byte_boundary(s, b, k),
    ensures
        (choose|j: int| byte_boundary(s, b, j)) == k,
{
    let j = choose|j: int| byte_boundary(s, b, j);
    assert(byte_boundary(s, b, j));
    if j < k {
        lemma_prefix_bytes_grow(s, j, k);
    } else if k < j {
        lemma_prefix_bytes_grow(s, k, j);
    }
}

/// Sums the UTF-8 bytes and UTF-16 units of `s[..end]`.
fn prefix_sizes(s: &Vec<char>, end: usize, Ghost(total): Ghost<int>) -> (r: (usize, usize))
    requires
        end <= s.len(),
        text_bytes(s@) == total,
        total <= usize::MAX,
    ensures
        r.0 as int == text_bytes(s@.take(end as int)),
        r.1 as int == utf16_units(s@.take(end as int)),
{
    let mut bytes: usize = 0;
    let mut units: usize = 0;
    let mut i: usize = 0;
    while i < end
        invariant
            i <= end <= s.len(),
            text_bytes(s@) == total,
            total <= usize::MAX,
            bytes as int == text_bytes(s@.take(i as int)),
            units as int == utf16_units(s@.take(i as int)),
        decreases end - i,
    {
        proof {
            assert(s@.take(i + 1).drop_last() =~= s@.take(i as int));
            lemma_prefix_bytes_grow(s@, i as int + 1, s@.len() as int);
            lemma_units_within_bytes(s@.take(i + 1));
        }
        bytes = bytes + utf8_len_exec(s[i]);
        units = units + if (s[i] as u32) < 0x10000 {
            1
        } else {
            2
        };
        i = i + 1;
    }
    (bytes, units)
}

/// Finds `word` in `text` at or after byte offset `search_from` and returns
/// its start and end in UTF-16 code units and the byte offset just after it.
pub fn find_word_utf16_range(text: &str, word: &str, search_from: usize) -> (r: Option<
    (usize, usize, usize),
>)
    ensures
        match r {
            None => word_utf16_range(text@, word@, search_from as int) is None,
            Some((a, b, c)) => word_utf16_range(text@, word@, search_from as int) == Some(
                (a as int, b as int, c as int),
            ),
        },
{
    if word.is_empty() {
        return None;
    }
    let tc = chars_of(text);
    let wc = chars_of(word);
    let ghost t = tc@;
    let ghost total = text_bytes(t);
    proof {
        lemma_encoded_len(t);
        lemma_encoded_len(wc@);
    }
    let text_len = text.as_bytes().len();
    let word_len = word.as_bytes().len();
    assert(total == text_len);
    assert(text_bytes(wc@) == word_len);
    let mut k: usize = 0;
    let mut bytes: usize = 0;
    while k < tc.len() && bytes < search_from
        invariant
            k <= tc.len(),
            t == tc@,
            total == text_bytes(t),
            total <= usize::MAX,
            bytes as int == text_bytes(t.take(k as int)),
            forall|j: int| 0 <= j < k ==> text_bytes(t.take(j)) < search_from,
        decreases tc.len() - k,
    {
        proof {
            assert(t.take(k + 1).drop_last() =~= t.take(k as int));
            lemma_prefix_bytes_grow(t, k as int + 1, t.len() as int);
        }
        bytes = bytes + utf8_len_exec(tc[k]);
        k = k + 1;
    }
    if bytes != search_from {
        proof {
            assert forall|j: int| !byte_boundary(t, search_from as int, j) by {
                if 0 <= j <= t.len() && k < j {
                    lemma_prefix_bytes_grow(t, k as int, j);
                }
            }
        }
        return None;
    }
    proof {
        assert(byte_boundary(t, search_from as int, k as int));
        lemma_boundary_unique(t, search_from as int, k as int);
    }
    match find_seq_from_exec(&tc, &wc, k) {
        None => None,
        Some(j) => {
            proof {
                lemma_find_seq_from_bounds(t, wc@, k as int);
                let end = j + wc@.len();
                assert(t.take(end) =~= t.take(j as int) + wc@);
                lemma_bytes_concat(t.take(j as int), wc@);
                lemma_prefix_bytes_grow(t, end, t.len() as int);
                lemma_units_within_bytes(t.take(end));
            }
            let (start_bytes, start_units) = prefix_sizes(&tc, j, Ghost(total));
            let (word_bytes, word_units) = prefix_sizes(&wc, wc.len(), Ghost(text_bytes(wc@)));
            proof {
                assert(wc@.take(wc@.len() as int) =~= wc@);
            }
            Some((start_units, start_units + word_units, start_bytes + word_bytes))
        },
    }
}

/// A found word spans at least one UTF-16 unit, exactly as many as it
/// takes, and the next search starts after the offset this one started from,
/// still within the text.
pub proof fn law_word_range_advances(text: Seq<char>, word: Seq<char>, search_from: int)
    ensures
        word_utf16_range(text, word, search_from) matches Some(r) ==> {
            &&& r.0 < r.1
            &&& r.1 - r.0 == utf16_units(word)
            &&& search_from < r.2 <= text_bytes(text)
        },
{
    if word.len() > 0 && exists|k: int| byte_boundary(text, search_from, k) {
        let k = choose|k: int| byte_boundary(text, search_from, k);
        lemma_find_seq_from_bounds(text, word, k);
        match find_seq_from(text, word, k) {
            None => {},
            Some(j) => {
                lemma_units_within_bytes(word);
                let end = j + word.len();
                assert(text.take(end) =~= text.take(j) + word);
                lemma_bytes_concat(text.take(j), word);
                lemma_prefix_bytes_grow(text, k, j);
                lemma_prefix_bytes_grow(text, end, text.len() as int);
            },
        }
    }
}

} // verus!
