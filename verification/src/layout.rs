//! Which lyric line is active, focused or preceded by an instrumental
//! interlude at a given time.
use vstd::prelude::*;

use crate::lrc::{clamp_int, scan_end, scan_end_ms};
use crate::lyrics::{lines_view, max_int, min_int, sat_add, sat_sub, LineModel, LyricLine};

verus! {

/// Interludes are gaps of at least this many milliseconds.
pub const MIN_INTERLUDE_MS: u64 = 4000;

/// An interlude ends this long before the next line starts.
pub const INTERLUDE_END_LEAD_MS: u64 = 250;

/// After an interlude the next line floats in this long after the interlude ends.
pub const INTERLUDE_FLOAT_DELAY_MS: u64 = 70;

/// The shortest and the longest lead with which focus moves to the next line.
pub const MIN_ANTICIPATION_MS: u64 = 180;

/// The longest lead with which focus moves to the next line.
pub const MAX_ANTICIPATION_MS: u64 = 700;

/// An instrumental gap before line `next_idx`.
#[derive(Debug, Clone, Copy, PartialEq, Eq)]
pub struct Interlude {
    pub next_idx: usize,
    pub start_ms: u64,
    pub end_ms: u64,
}

/// The interlude before line `next_idx`: from the previous line's end (or 0)
/// to 250 ms before the line starts, when that gap lasts at least four seconds.
pub open spec fn interlude_between_spec(lines: Seq<LineModel>, next_idx: int) -> Option<(int, int)> {
    if 0 <= next_idx < lines.len() {
        let start = if next_idx >= 1 {
            lines[next_idx - 1].end_ms
        } else {
            0
        };
        let end = sat_sub(lines[next_idx].start_ms, INTERLUDE_END_LEAD_MS as int);
        if sat_sub(end, start) >= MIN_INTERLUDE_MS {
            Some((start, end))
        } else {
            None
        }
    } else {
        None
    }
}

/// The first interlude, looking at lines from `from` on, that is under way at `t_ms`.
pub open spec fn interlude_for_from(lines: Seq<LineModel>, t_ms: int, from: int) -> Option<
    (int, int, int),
>
    decreases lines.len() - from,
{
    if from < 0 || from >= lines.len() {
        None
    } else {
        match interlude_between_spec(lines, from) {
            Some(g) => if g.0 <= t_ms && t_ms < g.1 {
                Some((from, g.0, g.1))
            } else {
                interlude_for_from(lines, t_ms, from + 1)
            },
            None => interlude_for_from(lines, t_ms, from + 1),
        }
    }
}

/// An interlude as a triple of its next line, start and end.
pub open spec fn interlude_model(i: Option<Interlude>) -> Option<(int, int, int)> {
    match i {
        Some(g) => Some((g.next_idx as int, g.start_ms as int, g.end_ms as int)),
        None => None,
    }
}

/// The interlude before line `next_idx`, if the gap before it is long enough.
pub fn interlude_between(lines: &[LyricLine], next_idx: usize) -> (r: Option<Interlude>)
    ensures
        match r {
            Some(g) => g.next_idx == next_idx && interlude_between_spec(
                lines_view(lines@),
                next_idx as int,
            ) == Some((g.start_ms as int, g.end_ms as int)),
            None => interlude_between_spec(lines_view(lines@), next_idx as int) is None,
        },
{
    if next_idx >= lines.len() {
        return None;
    }
    let start_ms: u64 = if next_idx >= 1 {
        lines[next_idx - 1].end_ms
    } else {
        0
    };
    let end_ms = lines[next_idx].start_ms.saturating_sub(INTERLUDE_END_LEAD_MS);
    if end_ms.saturating_sub(start_ms) >= MIN_INTERLUDE_MS {
        Some(Interlude { next_idx, start_ms, end_ms })
    } else {
        None
    }
}

/// The interlude under way at `t_ms`, if any: the first line whose preceding
/// gap of at least four seconds contains `t_ms`.
pub fn interlude_for(lines: &[LyricLine], t_ms: u64) -> (r: Option<Interlude>)
    ensures
        interlude_model(r) == interlude_for_from(lines_view(lines@), t_ms as int, 0),
{
    let mut i: usize = 0;
    while i < lines.len()
        invariant
            i <= lines.len(),
            interlude_for_from(lines_view(lines@), t_ms as int, 0) == interlude_for_from(
                lines_view(lines@),
                t_ms as int,
                i as int,
            ),
        decreases lines.len() - i,
    {
        match interlude_between(lines, i) {
            Some(g) => {
                if g.start_ms <= t_ms && t_ms < g.end_ms {
                    return Some(g);
                }
            },
            None => {},
        }
        i = i + 1;
    }
    None
}

/// The first line that contains `t_ms`, from `from` on.
pub open spec fn first_containing(lines: Seq<LineModel>, t_ms: int, from: int) -> Option<int>
    decreases lines.len() - from,
{
    if from < 0 || from >= lines.len() {
        None
    } else if lines[from].start_ms <= t_ms && t_ms < lines[from].end_ms {
        Some(from)
    } else {
        first_containing(lines, t_ms, from + 1)
    }
}

/// The last line among the first `n` that has started by `t_ms`.
pub open spec fn last_started(lines: Seq<LineModel>, t_ms: int, n: int) -> Option<int>
    decreases n,
{
    if n <= 0 {
        None
    } else if lines[n - 1].start_ms <= t_ms {
        Some(n - 1)
    } else {
        last_started(lines, t_ms, n - 1)
    }
}

/// The active line at `t_ms`: the first line that contains it, else the last
/// line that has started, else the first line.
pub open spec fn active_index_spec(lines: Seq<LineModel>, t_ms: int) -> int {
    match first_containing(lines, t_ms, 0) {
        Some(i) => i,
        None => match last_started(lines, t_ms, lines.len() as int) {
            Some(i) => i,
            None => 0,
        },
    }
}

/// The index of the line that is active (highlighted) at `t_ms`.
pub fn active_index(lines: &[LyricLine], t_ms: u64) -> (r: usize)
    ensures
        r as int == active_index_spec(lines_view(lines@), t_ms as int),
{
    let ghost lv = lines_view(lines@);
    let mut i: usize = 0;
    while i < lines.len()
        invariant
            i <= lines.len(),
            lv == lines_view(lines@),
            first_containing(lv, t_ms as int, 0) == first_containing(lv, t_ms as int, i as int),
        decreases lines.len() - i,
    {
        if lines[i].start_ms <= t_ms && t_ms < lines[i].end_ms {
            return i;
        }
        i = i + 1;
    }
    let mut n: usize = lines.len();
    while n > 0
        invariant
            n <= lines.len(),
            lv == lines_view(lines@),
            first_containing(lv, t_ms as int, 0) is None,
            last_started(lv, t_ms as int, lines.len() as int) == last_started(
                lv,
                t_ms as int,
                n as int,
            ),
        decreases n,
    {
        if lines[n - 1].start_ms <= t_ms {
            return n - 1;
        }
        n = n - 1;
    }
    0
}

pub proof fn lemma_first_containing(lines: Seq<LineModel>, t_ms: int, from: int)
    ensures
        first_containing(lines, t_ms, from) matches Some(i) ==> from <= i < lines.len()
            && lines[i].start_ms <= t_ms && t_ms < lines[i].end_ms,
    decreases lines.len() - from,
{
    if from >= 0 && from < lines.len() && !(lines[from].start_ms <= t_ms && t_ms
        < lines[from].end_ms) {
        lemma_first_containing(lines, t_ms, from + 1);
    }
}

pub proof fn lemma_last_started(lines: Seq<LineModel>, t_ms: int, n: int)
    requires
        n <= lines.len(),
    ensures
        last_started(lines, t_ms, n) matches Some(i) ==> 0 <= i < n,
    decreases n,
{
    if n > 0 && !(lines[n - 1].start_ms <= t_ms) {
        lemma_last_started(lines, t_ms, n - 1);
    }
}

/// The line that the view focuses at `t_ms` when line `current` is active:
/// after an interlude, the next line once the interlude has ended (70 ms
/// later, and not after the line starts); otherwise the next line a third of
/// the gap between the two starts (180 to 700 ms) before it starts, but not
/// before the current line has been sung through, nor before it started.
pub open spec fn anticipatory_index_spec(lines: Seq<LineModel>, t_ms: int, current: int) -> int {
    if current + 1 >= lines.len() {
        current
    } else {
        let next = lines[current + 1];
        match interlude_between_spec(lines, current + 1) {
            Some(g) => {
                let float_at = min_int(
                    sat_add(g.1, INTERLUDE_FLOAT_DELAY_MS as int),
                    sat_sub(next.start_ms, 1),
                );
                if t_ms >= float_at {
                    current + 1
                } else {
                    current
                }
            },
            None => {
                let current_start = lines[current].start_ms;
                let interval = sat_sub(next.start_ms, current_start);
                let anticipation = clamp_int(
                    interval / 3,
                    MIN_ANTICIPATION_MS as int,
                    MAX_ANTICIPATION_MS as int,
                );
                let scan = min_int(scan_end(lines[current]), next.start_ms);
                let transition_at = max_int(
                    max_int(sat_sub(next.start_ms, anticipation), scan),
                    current_start,
                );
                if t_ms >= transition_at {
                    current + 1
                } else {
                    current
                }
            },
        }
    }
}

/// The index of the line that the view focuses at `t_ms` while line `current` is active.
pub fn anticipatory_index(lines: &[LyricLine], t_ms: u64, current: usize) -> (r: usize)
    requires
        current < usize::MAX,
        current + 1 < lines@.len() && interlude_between_spec(
            lines_view(lines@),
            current + 1,
        ) is None ==> lines@[current as int].start_ms < u64::MAX,
    ensures
        r as int == anticipatory_index_spec(lines_view(lines@), t_ms as int, current as int),
        r == current || r == current + 1,
{
    if current + 1 >= lines.len() {
        return current;
    }
    let next_start = lines[current + 1].start_ms;
    match interlude_between(lines, current + 1) {
        Some(g) => {
            let a = g.end_ms.saturating_add(INTERLUDE_FLOAT_DELAY_MS);
            let b = next_start.saturating_sub(1);
            let float_at = if a <= b {
                a
            } else {
                b
            };
            if t_ms >= float_at {
                current + 1
            } else {
                current
            }
        },
        None => {
            let current_start = lines[current].start_ms;
            let interval = next_start.saturating_sub(current_start);
            let third = interval / 3;
            let anticipation = if third < MIN_ANTICIPATION_MS {
                MIN_ANTICIPATION_MS
            } else if third > MAX_ANTICIPATION_MS {
                MAX_ANTICIPATION_MS
            } else {
                third
            };
            let scan_full = scan_end_ms(&lines[current]);
            let scan = if scan_full <= next_start {
                scan_full
            } else {
                next_start
            };
            let lead_start = next_start.saturating_sub(anticipation);
            let mut transition_at = if lead_start >= scan {
                lead_start
            } else {
                scan
            };
            if current_start > transition_at {
                transition_at = current_start;
            }
            if t_ms >= transition_at {
                current + 1
            } else {
                current
            }
        },
    }
}

/// Whether every line's times are in the `u64` range, as they are for lines
/// that are read from text.
pub open spec fn times_valid(lines: Seq<LineModel>) -> bool {
    forall|i: int|
        0 <= i < lines.len() ==> 0 <= (#[trigger] lines[i]).start_ms <= u64::MAX && 0
            <= lines[i].end_ms <= u64::MAX
}

proof fn lemma_interlude_for_from(lines: Seq<LineModel>, t_ms: int, from: int)
    requires
        times_valid(lines),
    ensures
        interlude_for_from(lines, t_ms, from) matches Some(g) ==> {
            &&& from <= g.0 < lines.len()
            &&& g.1 <= t_ms < g.2
            &&& g.2 - g.1 >= MIN_INTERLUDE_MS
            &&& g.2 + INTERLUDE_END_LEAD_MS == lines[g.0].start_ms
            &&& g.1 == if g.0 >= 1 {
                lines[g.0 - 1].end_ms
            } else {
                0
            }
        },
    decreases lines.len() - from,
{
    if 0 <= from < lines.len() {
        assert(lines[from].start_ms >= 0);
        if from >= 1 {
            assert(lines[from - 1].end_ms >= 0);
        }
        lemma_interlude_for_from(lines, t_ms, from + 1);
    }
}

/// An interlude under way at a time contains it, lasts at least four seconds,
/// runs from the end of the line before it (or from the start of the song)
/// and ends 250 ms before the line after it starts.
pub proof fn law_interlude_bounds(lines: Seq<LineModel>, t_ms: int)
    requires
        times_valid(lines),
    ensures
        interlude_for_from(lines, t_ms, 0) matches Some(g) ==> {
            &&& 0 <= g.0 < lines.len()
            &&& g.1 <= t_ms < g.2
            &&& g.2 - g.1 >= MIN_INTERLUDE_MS
            &&& g.2 + INTERLUDE_END_LEAD_MS == lines[g.0].start_ms
            &&& g.1 == if g.0 >= 1 {
                lines[g.0 - 1].end_ms
            } else {
                0
            }
        },
{
    lemma_interlude_for_from(lines, t_ms, 0);
}

/// The active line is a line of the song, and where some line is being sung
/// at a time, the active line is one that is.
pub proof fn law_active_line_contains_time(lines: Seq<LineModel>, t_ms: int)
    requires
        lines.len() > 0,
    ensures
        0 <= active_index_spec(lines, t_ms) < lines.len(),
        (exists|i: int| 0 <= i < lines.len() && lines[i].start_ms <= t_ms && t_ms < #[trigger] lines[i].end_ms)
            ==> lines[active_index_spec(lines, t_ms)].start_ms <= t_ms && t_ms < lines[active_index_spec(
            lines,
            t_ms,
        )].end_ms,
{
    lemma_first_containing(lines, t_ms, 0);
    lemma_last_started(lines, t_ms, lines.len() as int);
    if exists|i: int| 0 <= i < lines.len() && lines[i].start_ms <= t_ms && t_ms < #[trigger] lines[i].end_ms {
        let i = choose|i: int| 0 <= i < lines.len() && lines[i].start_ms <= t_ms && t_ms < #[trigger] lines[i].end_ms;
        lemma_first_containing_finds(lines, t_ms, 0, i);
    }
}

proof fn lemma_first_containing_finds(lines: Seq<LineModel>, t_ms: int, from: int, i: int)
    requires
        0 <= from <= i < lines.len(),
        lines[i].start_ms <= t_ms && t_ms < lines[i].end_ms,
    ensures
        first_containing(lines, t_ms, from) is Some,
    decreases i - from,
{
    if from < i && !(lines[from].start_ms <= t_ms && t_ms < lines[from].end_ms) {
        lemma_first_containing_finds(lines, t_ms, from + 1, i);
    }
}

/// The view focuses the next line no later than the moment it starts, and
/// not while the current line has not started yet.
pub proof fn law_focus_moves_between_line_starts(lines: Seq<LineModel>, t_ms: int, current: int)
    requires
        times_valid(lines),
        0 <= current,
        current + 1 < lines.len(),
        lines[current].start_ms <= lines[current + 1].start_ms,
        lines[current].start_ms <= lines[current].end_ms,
    ensures
        t_ms >= lines[current + 1].start_ms ==> anticipatory_index_spec(lines, t_ms, current)
            == current + 1,
        t_ms < lines[current].start_ms ==> anticipatory_index_spec(lines, t_ms, current)
            == current,
{
    assert(lines[current].start_ms >= 0 && lines[current + 1].start_ms >= 0);
}


proof fn lemma_interlude_found_from(lines: Seq<LineModel>, t_ms: int, from: int, i: int)
    requires
        0 <= from <= i < lines.len(),
        interlude_between_spec(lines, i) matches Some(g) && g.0 <= t_ms < g.1,
    ensures
        interlude_for_from(lines, t_ms, from) is Some,
    decreases i - from,
{
    if from < i {
        match interlude_between_spec(lines, from) {
            Some(g) => if !(g.0 <= t_ms && t_ms < g.1) {
                lemma_interlude_found_from(lines, t_ms, from + 1, i);
            },
            None => lemma_interlude_found_from(lines, t_ms, from + 1, i),
        }
    }
}

/// Wherever an interlude runs, one is found: when the gap before some line,
/// from the end of the line before it (or from the start of the song) to
/// 250 ms before the line starts, lasts at least four seconds and contains
/// `t_ms`, an interlude is under way at `t_ms`.
pub proof fn law_interlude_found_wherever_one_runs(lines: Seq<LineModel>, t_ms: int, i: int)
    requires
        times_valid(lines),
        0 <= i < lines.len(),
        (if i >= 1 {
            lines[i - 1].end_ms
        } else {
            0
        }) <= t_ms,
        t_ms < lines[i].start_ms - INTERLUDE_END_LEAD_MS,
        lines[i].start_ms - INTERLUDE_END_LEAD_MS - (if i >= 1 {
            lines[i - 1].end_ms
        } else {
            0
        }) >= MIN_INTERLUDE_MS,
    ensures
        interlude_for_from(lines, t_ms, 0) is Some,
{
    if i >= 1 {
        assert(lines[i - 1].end_ms >= 0);
    }
    lemma_interlude_found_from(lines, t_ms, 0, i);
}

/// When no interlude comes before the next line, the view keeps the current
/// line in focus until a third of the gap between the two starts (at least
/// 180 ms, at most 700 ms) before the next line starts.
pub proof fn law_focus_waits_for_anticipation(lines: Seq<LineModel>, t_ms: int, current: int)
    requires
        times_valid(lines),
        0 <= current,
        current + 1 < lines.len(),
        interlude_between_spec(lines, current + 1) is None,
        lines[current].start_ms <= lines[current + 1].start_ms,
        t_ms + (if (lines[current + 1].start_ms - lines[current].start_ms) / 3 < 180 {
            180
        } else if (lines[current + 1].start_ms - lines[current].start_ms) / 3 > 700 {
            700
        } else {
            (lines[current + 1].start_ms - lines[current].start_ms) / 3
        }) < lines[current + 1].start_ms,
    ensures
        anticipatory_index_spec(lines, t_ms, current) == current,
{
    assert(lines[current].start_ms >= 0 && lines[current + 1].start_ms >= 0);
}


/// When no interlude comes before the next line, the view focuses the next
/// line once the current line has started and been sung through (or the next
/// line has started) and the moment a third of the gap between the two
/// starts (at least 180 ms, at most 700 ms) before the next line has come.
pub proof fn law_focus_moves_after_anticipation(lines: Seq<LineModel>, t_ms: int, current: int)
    requires
        times_valid(lines),
        0 <= current,
        current + 1 < lines.len(),
        interlude_between_spec(lines, current + 1) is None,
        lines[current].start_ms <= lines[current + 1].start_ms,
        lines[current].start_ms <= t_ms,
        scan_end(lines[current]) <= t_ms || lines[current + 1].start_ms <= t_ms,
        t_ms + (if (lines[current + 1].start_ms - lines[current].start_ms) / 3 < 180 {
            180
        } else if (lines[current + 1].start_ms - lines[current].start_ms) / 3 > 700 {
            700
        } else {
            (lines[current + 1].start_ms - lines[current].start_ms) / 3
        }) >= lines[current + 1].start_ms,
    ensures
        anticipatory_index_spec(lines, t_ms, current) == current + 1,
{
    assert(lines[current].start_ms >= 0 && lines[current + 1].start_ms >= 0);
}

} // verus!
