use goosy::lyrics::LyricLine;
use goosy::scene::{
    control_step, drop_excluded_lines, frame_time_ms, progress_due, progress_interval,
    scene_size_valid, ControlInput, RenderControl,
};

fn timed(text: &str, start_ms: u64, end_ms: u64) -> LyricLine {
    LyricLine {
        start_ms,
        end_ms,
        text: text.to_owned(),
        translation: None,
        agent_id: None,
        is_duet: false,
        is_background: false,
        background_vocal: None,
        words: Vec::new(),
    }
}

#[test]
fn excluded_lines_are_removed_without_retiming_remaining_lines() {
    let lines = vec![timed("Excluded", 0, 1_000), timed("Visible", 1_000, 2_000)];
    let kept = drop_excluded_lines(lines, &[0]);
    assert_eq!(kept.len(), 1);
    assert_eq!(kept[0].text, "Visible");
    assert_eq!(kept[0].start_ms, 1_000);
}

#[test]
fn nothing_excluded_keeps_every_line() {
    let lines = vec![timed("a", 0, 1), timed("b", 1, 2)];
    assert_eq!(drop_excluded_lines(lines.clone(), &[]), lines);
    assert_eq!(drop_excluded_lines(lines.clone(), &[7, 1, 1]), vec![lines[0].clone()]);
}

#[test]
fn frames_are_timed_by_the_frame_rate() {
    assert_eq!(frame_time_ms(0, 30), 0);
    assert_eq!(frame_time_ms(1, 30), 33);
    assert_eq!(frame_time_ms(45, 30), 1_500);
}

#[test]
fn progress_is_reported_ten_times_a_second_and_at_the_end() {
    assert_eq!(progress_interval(30), 3);
    assert_eq!(progress_interval(5), 1);
    assert!(progress_due(3, 10, 3));
    assert!(!progress_due(4, 10, 3));
    assert!(progress_due(10, 10, 3));
}

#[test]
fn scenes_need_a_positive_size_and_rate() {
    assert!(scene_size_valid(1, 1, 1));
    assert!(!scene_size_valid(0, 1, 1));
    assert!(!scene_size_valid(1, 1, 0));
}

#[test]
fn workers_pause_resume_and_stop_on_command() {
    let command = |text: &str| ControlInput::Command(text.to_owned());
    assert_eq!(control_step(false, &ControlInput::Empty), (false, Some(RenderControl::Continue)));
    assert_eq!(control_step(false, &command("pause")), (true, None));
    assert_eq!(control_step(true, &command("other")), (true, None));
    assert_eq!(control_step(true, &command("resume")), (false, None));
    assert_eq!(control_step(true, &command("stop")), (true, Some(RenderControl::Stop)));
    assert_eq!(control_step(false, &command("stop")), (false, Some(RenderControl::Stop)));
    assert_eq!(control_step(true, &ControlInput::Disconnected), (true, Some(RenderControl::Stop)));
    assert_eq!(
        control_step(false, &ControlInput::Disconnected),
        (false, Some(RenderControl::Continue))
    );
    assert_eq!(control_step(false, &command("resume")), (false, Some(RenderControl::Continue)));
}
