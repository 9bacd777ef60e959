//! The frame loop of a render: which lines the scene shows, at which time
//! each frame is drawn, and when progress is reported.
use vstd::prelude::*;

use crate::lyrics::{lines_view, LineModel, LyricLine};

verus! {

/// The lines that a scene shows: those whose index is not excluded, in order.
pub open spec fn kept_lines(lines: Seq<LineModel>, excluded: Seq<usize>) -> Seq<LineModel>
    decreases lines.len(),
{
    if lines.len() == 0 {
        Seq::empty()
    } else {
        let before = kept_lines(lines.drop_last(), excluded);
        let i = lines.len() - 1;
        if excluded.contains(i as usize) {
            before
        } else {
            before.push(lines[i])
        }
    }
}

/// Removes the lines whose index is excluded; the others keep their order and
/// their timing.
pub fn drop_excluded_lines(lines: Vec<LyricLine>, excluded: &[usize]) -> (r: Vec<LyricLine>)
    ensures
        lines_view(r@) == kept_lines(lines_view(lines@), excluded@),
{
    if excluded.len() == 0 {
        proof {
            lemma_nothing_excluded(lines_view(lines@), excluded@);
        }
        return lines;
    }
    let ghost lv = lines_view(lines@);
    let n = lines.len();
    let mut out: Vec<LyricLine> = Vec::new();
    let mut i: usize = 0;
    while i < n
        invariant
            i <= n,
            n == lines@.len(),
            lv == lines_view(lines@),
            lines_view(out@) == kept_lines(lv.take(i as int), excluded@),
        decreases n - i,
    {
        proof {
            assert(lv.take(i + 1).drop_last() =~= lv.take(i as int));
            assert(lv.take(i + 1)[i as int] == lines@[i as int]@);
        }
        let mut skip = false;
        let mut k: usize = 0;
        while k < excluded.len()
            invariant
                k <= excluded.len(),
                skip == exists|j: int| 0 <= j < k && excluded@[j] == i,
            decreases excluded.len() - k,
        {
            if excluded[k] == i {
                skip = true;
            }
            k = k + 1;
        }
        proof {
            if skip {
                let j = choose|j: int| 0 <= j < excluded@.len() && excluded@[j] == i;
                assert(excluded@.contains(i));
            } else {
                assert(!excluded@.contains(i));
            }
        }
        if !skip {
            let ghost before = out@;
            out.push(crate::lyrics::copy_line(&lines[i]));
            proof {
                assert(lines_view(out@) =~= lines_view(before).push(lines@[i as int]@));
            }
        }
        i = i + 1;
    }
    proof {
        assert(lv.take(n as int) =~= lv);
    }
    out
}

proof fn lemma_nothing_excluded(lines: Seq<LineModel>, excluded: Seq<usize>)
    requires
        excluded.len() == 0,
    ensures
        kept_lines(lines, excluded) == lines,
    decreases lines.len(),
{
    if lines.len() > 0 {
        lemma_nothing_excluded(lines.drop_last(), excluded);
        assert(lines.drop_last().push(lines.last()) =~= lines);
    }
}

/// The lines that a scene keeps come from its input, in order: each kept
/// line is an input line whose index is not excluded, unchanged.
pub proof fn law_kept_lines_are_unchanged_input_lines(lines: Seq<LineModel>, excluded: Seq<usize>)
    ensures
        kept_lines(lines, excluded).len() <= lines.len(),
        forall|k: int|
            0 <= k < kept_lines(lines, excluded).len() ==> exists|i: int|
                0 <= i < lines.len() && !excluded.contains(i as usize) && #[trigger] kept_lines(
                    lines,
                    excluded,
                )[k] == lines[i],
        forall|i: int|
            0 <= i < lines.len() && !excluded.contains(i as usize) ==> kept_lines(
                lines,
                excluded,
            ).contains(#[trigger] lines[i]),
    decreases lines.len(),
{
    if lines.len() > 0 {
        let d = lines.drop_last();
        law_kept_lines_are_unchanged_input_lines(d, excluded);
        let before = kept_lines(d, excluded);
        let after = kept_lines(lines, excluded);
        assert forall|k: int| 0 <= k < after.len() implies exists|i: int|
            0 <= i < lines.len() && !excluded.contains(i as usize) && #[trigger] after[k]
                == lines[i] by {
            if k < before.len() {
                let i = choose|i: int|
                    0 <= i < d.len() && !excluded.contains(i as usize) && before[k] == d[i];
                assert(after[k] == lines[i]);
            } else {
                assert(after[k] == lines[lines.len() - 1]);
            }
        }
        assert forall|i: int|
            0 <= i < lines.len() && !excluded.contains(i as usize) implies after.contains(
            #[trigger] lines[i],
        ) by {
            if i < d.len() {
                assert(before.contains(d[i]));
                let k = choose|k: int| 0 <= k < before.len() && before[k] == d[i];
                assert(after[k] == lines[i]);
            } else {
                assert(after[after.len() - 1] == lines[i]);
            }
        }
    }
}

/// The time, in milliseconds, at which frame `frame` of a video at `fps`
/// frames per second is drawn.
pub fn frame_time_ms(frame: u64, fps: u32) -> (t: u64)
    requires
        fps >= 1,
        frame as int * 1000 <= u64::MAX,
    ensures
        t as int == frame as int * 1000 / fps as int,
{
    frame * 1000 / (fps as u64)
}

/// How many frames pass between two progress reports: a tenth of the frame
/// rate, at least one.
pub fn progress_interval(fps: u32) -> (n: u64)
    ensures
        n as int == if fps as int / 10 >= 1 {
            fps as int / 10
        } else {
            1
        },
{
    let tenth = (fps as u64) / 10;
    if tenth >= 1 {
        tenth
    } else {
        1
    }
}

/// Whether finishing frame `done` of `total` is reported: every
/// `interval`-th frame and the last.
pub fn progress_due(done: u64, total: u64, interval: u64) -> (b: bool)
    requires
        interval >= 1,
    ensures
        b == (done as int % interval as int == 0 || done == total),
{
    done % interval == 0 || done == total
}

/// Whether a scene's size and frame rate can be rendered: all above zero.
pub fn scene_size_valid(width: u32, height: u32, fps: u32) -> (b: bool)
    ensures
        b == (width > 0 && height > 0 && fps > 0),
{
    width > 0 && height > 0 && fps > 0
}

/// Whether a render goes on after a frame.
#[derive(Clone, Copy, Debug, PartialEq, Eq, Structural)]
pub enum RenderControl {
    Continue,
    Stop,
}

/// What the control channel of a render worker gave: a command line, nothing
/// yet, or the end of the channel.
#[derive(Clone, Debug, PartialEq, Eq)]
pub enum ControlInput {
    Command(String),
    Empty,
    Disconnected,
}

/// The worker's answer to one control input, given whether it is paused: the
/// new paused state and the decision, if it is made (else it reads the next
/// input, waiting for one while paused). `pause` pauses, `resume` resumes,
/// `stop` stops; a paused worker stops when the channel ends, a running one
/// goes on without waiting.
pub open spec fn control_step_spec(paused: bool, input: ControlInput) -> (bool, Option<RenderControl>) {
    match input {
        ControlInput::Command(c) => if c@ == "stop"@ {
            (paused, Some(RenderControl::Stop))
        } else if paused {
            if c@ == "resume"@ {
                (false, None)
            } else {
                (true, None)
            }
        } else if c@ == "pause"@ {
            (true, None)
        } else {
            (false, Some(RenderControl::Continue))
        },
        ControlInput::Empty => if paused {
            (true, None)
        } else {
            (false, Some(RenderControl::Continue))
        },
        ControlInput::Disconnected => if paused {
            (true, Some(RenderControl::Stop))
        } else {
            (false, Some(RenderControl::Continue))
        },
    }
}

/// Handles one control input of a render worker.
pub fn control_step(paused: bool, input: &ControlInput) -> (r: (bool, Option<RenderControl>))
    ensures
        r == control_step_spec(paused, *input),
{
    match input {
        ControlInput::Command(c) => {
            let chars = crate::text::chars_of(c.as_str());
            if crate::text::chars_equal_str(&chars, "stop") {
                (paused, Some(RenderControl::Stop))
            } else if paused {
                if crate::text::chars_equal_str(&chars, "resume") {
                    (false, None)
                } else {
                    (true, None)
                }
            } else if crate::text::chars_equal_str(&chars, "pause") {
                (true, None)
            } else {
                (false, Some(RenderControl::Continue))
            }
        },
        ControlInput::Empty => {
            if paused {
                (true, None)
            } else {
                (false, Some(RenderControl::Continue))
            }
        },
        ControlInput::Disconnected => {
            if paused {
                (true, Some(RenderControl::Stop))
            } else {
                (false, Some(RenderControl::Continue))
            }
        },
    }
}

/// A `stop` command stops the render whether or not it is paused, and a
/// running render never waits for input.
pub proof fn law_stop_always_stops_and_running_never_waits(paused: bool, input: ControlInput)
    ensures
        input matches ControlInput::Command(c) && c@ == "stop"@ ==> control_step_spec(paused, input).1
            == Some(RenderControl::Stop),
        !paused && control_step_spec(paused, input).1 is None ==> control_step_spec(paused, input).0,
{
}

} // verus!
