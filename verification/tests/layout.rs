use goosy::layout::{active_index, anticipatory_index, interlude_for, Interlude};
use goosy::lyrics::LyricLine;

fn timed(text: &str, start_ms: u64, end_ms: u64) -> LyricLine {
    LyricLine {
        start_ms,
        end_ms,
        text: text.to_owned(),
        translation: None,
        agent_id: None,
        is_duet: false,
        is_background: false,
        background_vocal: None,
        words: Vec::new(),
    }
}

#[test]
fn interlude_ends_before_next_line() {
    let lines = vec![timed("First", 0, 1_000), timed("Second", 6_000, 7_000)];
    let interlude = interlude_for(&lines, 2_000).unwrap();
    assert_eq!(interlude.start_ms, 1_000);
    assert_eq!(interlude.end_ms, 5_750);
    assert_eq!(interlude.next_idx, 1);
    assert_eq!(interlude_for(&lines, 5_800), None);
    assert_eq!(interlude_for(&lines, 500), None);
}

#[test]
fn opening_silence_is_an_interlude() {
    let lines = vec![timed("First", 10_000, 11_000)];
    assert_eq!(
        interlude_for(&lines, 0),
        Some(Interlude {
            next_idx: 0,
            start_ms: 0,
            end_ms: 9_750,
        })
    );
}

#[test]
fn short_gaps_are_no_interlude() {
    let lines = vec![timed("a", 0, 1_000), timed("b", 5_000, 6_000)];
    assert_eq!(interlude_for(&lines, 2_000), None);
}

#[test]
fn active_line_is_the_one_being_sung() {
    let lines = vec![
        timed("a", 0, 2_000),
        timed("b", 2_000, 4_000),
        timed("c", 6_000, 8_000),
    ];
    assert_eq!(active_index(&lines, 1_999), 0);
    assert_eq!(active_index(&lines, 2_000), 1);
    assert_eq!(active_index(&lines, 5_000), 1);
    assert_eq!(active_index(&lines, 9_000), 2);
    assert_eq!(active_index(&[], 9_000), 0);
}

#[test]
fn focus_moves_before_the_next_line_starts() {
    let lines = vec![
        timed("a", 0, 2_000),
        timed("b", 2_000, 4_000),
        timed("c", 4_000, 6_000),
    ];
    assert_eq!(anticipatory_index(&lines, 0, 0), 0);
    assert_eq!(anticipatory_index(&lines, 1_500, 0), 0);
    assert_eq!(anticipatory_index(&lines, 1_800, 0), 1);
    assert_eq!(anticipatory_index(&lines, 2_000, 0), 1);
    assert_eq!(anticipatory_index(&lines, 5_000, 2), 2);
}

#[test]
fn focus_after_an_interlude_waits_for_its_end() {
    let lines = vec![timed("First", 0, 1_000), timed("Second", 6_000, 7_000)];
    assert_eq!(anticipatory_index(&lines, 5_000, 0), 0);
    assert_eq!(anticipatory_index(&lines, 5_819, 0), 0);
    assert_eq!(anticipatory_index(&lines, 5_820, 0), 1);
}
