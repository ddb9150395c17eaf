use riscbot::exec_status::{
    first_word, throttle_secs_after, throttle_threshold, ExecStatus, ExitStatus, NANOS_PER_SEC,
    OUTPUT_TRUNCATE,
};

const START: u64 = 1_000 * NANOS_PER_SEC;

#[test]
fn fresh_tracker_shows_placeholder() {
    let status = ExecStatus::new(START);
    assert!(!status.completed());
    assert!(!status.changed());
    assert_eq!(status.build_status_msg(), "<i>Executing command...</i>");
}

#[test]
fn append_marks_changed_only_when_non_empty() {
    let mut status = ExecStatus::new(START);
    status.append("");
    assert!(!status.changed());
    status.append("hi");
    assert!(status.changed());
    assert_eq!(status.output(), "hi");
}

#[test]
fn append_line_separates_lines() {
    let mut status = ExecStatus::new(START);
    status.append_line("one");
    status.append_line("two");
    assert_eq!(status.output(), "one\ntwo");
}

#[test]
fn overlong_output_keeps_the_last_characters() {
    let mut status = ExecStatus::new(START);
    let mut input = String::new();
    for i in 0..(OUTPUT_TRUNCATE + 10) {
        input.push(if i < 10 { 'x' } else { 'a' });
    }
    status.append(&input);
    let out = status.output();
    assert_eq!(out.chars().count(), OUTPUT_TRUNCATE);
    let tail: String = input.chars().skip(10).collect();
    assert_eq!(out, tail);
    assert!(status.build_status_msg().contains("[truncated] "));
    assert!(status.build_status_msg().contains("(truncating)"));
}

#[test]
fn truncation_holds_over_many_appends() {
    let mut status = ExecStatus::new(START);
    let mut all = String::new();
    for i in 0..2000 {
        let line = format!("line {}", i);
        if !all.is_empty() {
            all.push('\n');
        }
        all.push_str(&line);
        status.append_line(&line);
        let out = status.output();
        assert!(out.chars().count() <= OUTPUT_TRUNCATE);
        assert!(all.ends_with(&out));
    }
}

#[test]
fn multibyte_output_is_cut_by_characters() {
    let mut status = ExecStatus::new(START);
    let input: String = std::iter::repeat('é').take(OUTPUT_TRUNCATE + 1).collect();
    status.append(&input);
    assert_eq!(status.output().chars().count(), OUTPUT_TRUNCATE);
}

#[test]
fn timeout_exit_code_after_the_limit_is_timed_out() {
    let mut status = ExecStatus::new(START);
    status.append_line("working");
    status.set_status(ExitStatus::Code(124), START + 299 * NANOS_PER_SEC);
    assert!(status.timed_out());
    let text = status.build_status_msg();
    assert!(text.contains("timed out"));
    assert!(text.contains("Exit code <code>124</code>"));
    assert!(text.contains("❌"));
}

#[test]
fn timeout_exit_code_well_before_the_limit_is_not_timed_out() {
    let mut status = ExecStatus::new(START);
    status.append_line("working");
    status.set_status(ExitStatus::Code(124), START + 10 * NANOS_PER_SEC);
    assert!(!status.timed_out());
    assert!(!status.build_status_msg().contains("timed out"));
}

#[test]
fn repeated_render_after_completion_is_identical() {
    let mut status = ExecStatus::new(START);
    status.append_line("done");
    status.set_status(ExitStatus::Code(0), START + 2 * NANOS_PER_SEC);
    let first = status.build_status_msg();
    let second = status.build_status_msg();
    assert_eq!(first, second);
    let flushed = status.update_status_msg(START + 3 * NANOS_PER_SEC);
    assert_eq!(flushed, first);
    assert_eq!(status.build_status_msg(), first);
}

#[test]
fn successful_run_renders_exactly() {
    let mut status = ExecStatus::new(START);
    status.append_line("a < b & c");
    status.set_status(ExitStatus::Code(0), START + 2 * NANOS_PER_SEC);
    assert_eq!(
        status.build_status_msg(),
        "<b>Output:</b>\n<code>a &lt; b &amp; c</code>\n\n✅   (took 2s)"
    );
}

#[test]
fn killed_run_shows_unknown_exit_code() {
    let mut status = ExecStatus::new(START);
    status.set_status(ExitStatus::Signal(9), START + NANOS_PER_SEC / 2);
    assert_eq!(
        status.build_status_msg(),
        "<i>No output</i>\n\n❌   Exit code <code>?</code> (took 500ms)"
    );
}

#[test]
fn negative_exit_code_is_printed_with_sign() {
    let mut status = ExecStatus::new(START);
    status.set_status(ExitStatus::Code(-3), START + 5 * NANOS_PER_SEC);
    assert!(status.build_status_msg().contains("Exit code <code>-3</code>"));
}

#[test]
fn running_output_shows_throttling_after_updates() {
    let mut status = ExecStatus::new(START);
    status.append_line("x");
    assert_eq!(status.build_status_msg(), "<b>Output:</b>\n<code>x</code>\n\n⏳  ");
    let now = START + 2 * NANOS_PER_SEC;
    assert!(status.update_throttled(now).is_some());
    assert_eq!(status.updated_count(), 1);
    assert!(status.build_status_msg().contains("(throttling 3s)"));
}

#[test]
fn status_msg_with_uses_given_duration() {
    let mut status = ExecStatus::new(START);
    status.append_line("x");
    status.set_status(ExitStatus::Code(1), START + 3 * NANOS_PER_SEC);
    assert_eq!(
        status.status_msg_with(Some("3s")),
        "<b>Output:</b>\n<code>x</code>\n\n❌   Exit code <code>1</code> (took 3s)"
    );
    assert!(status.status_msg_with(None).contains("(took ?)"));
}

#[test]
fn duration_formats() {
    let mut status = ExecStatus::new(START);
    status.set_status(ExitStatus::Code(0), START + 61 * NANOS_PER_SEC + 5);
    assert_eq!(status.format_duration(), Some("1m 1s".to_string()));
    let mut quick = ExecStatus::new(START);
    quick.set_status(ExitStatus::Code(0), START + 123_456_789);
    assert_eq!(quick.format_duration(), Some("123ms".to_string()));
    assert_eq!(ExecStatus::new(START).format_duration(), None);
}

#[test]
fn first_word_stops_at_space() {
    assert_eq!(first_word("123ms 456us"), "123ms");
    assert_eq!(first_word("7ns"), "7ns");
    assert_eq!(first_word(""), "");
}

#[test]
fn clock_going_back_leaves_duration_unknown() {
    let mut status = ExecStatus::new(START);
    status.set_status(ExitStatus::Code(0), START - 1);
    assert_eq!(status.format_duration(), None);
    assert!(!status.build_status_msg().contains("took"));
}

#[test]
fn set_status_changes_only_on_a_different_status() {
    let mut status = ExecStatus::new(START);
    status.set_status(ExitStatus::Code(0), START + 1);
    assert!(status.changed());
    assert!(status.update(START + 2).is_some());
    assert!(!status.changed());
    status.set_status(ExitStatus::Code(0), START + 3);
    assert!(!status.changed());
    status.set_status(ExitStatus::Code(2), START + 4);
    assert!(status.changed());
}

#[test]
fn update_without_change_sends_nothing() {
    let mut status = ExecStatus::new(START);
    assert_eq!(status.update(START + 5 * NANOS_PER_SEC), None);
    assert_eq!(status.updated_count(), 0);
}

#[test]
fn throttled_update_waits_for_the_interval() {
    let mut status = ExecStatus::new(START);
    status.append_line("a");
    assert_eq!(status.update_throttled(START + NANOS_PER_SEC / 2), None);
    let first = START + NANOS_PER_SEC;
    assert!(status.update_throttled(first).is_some());
    status.append_line("b");
    assert!(status.update_throttled(first + 900_000_000).is_none());
    let second = first + 950_000_000;
    assert!(status.update_throttled(second).is_some());
    assert_eq!(status.updated_count(), 2);
    status.append_line("c");
    assert!(status.update_throttled(second + 2 * NANOS_PER_SEC).is_none());
    assert!(status.update_throttled(second - 1).is_none());
    assert!(status.update_throttled(second + 2_950_000_000).is_some());
    assert_eq!(status.updated_count(), 3);
}

#[test]
fn throttle_interval_grows_with_updates() {
    let secs: Vec<u64> = (0..12).map(throttle_secs_after).collect();
    assert_eq!(secs, vec![1, 1, 3, 3, 3, 5, 5, 5, 10, 10, 10, 10]);
    assert_eq!(throttle_threshold(0), 950_000_000);
    assert_eq!(throttle_threshold(8), 9_950_000_000);
    for n in 0..20 {
        assert!(throttle_threshold(n) <= throttle_threshold(n + 1));
    }
    assert_eq!(throttle_threshold(usize::MAX), 9_950_000_000);
}

#[test]
fn exit_status_queries() {
    assert!(ExitStatus::Code(0).success());
    assert!(!ExitStatus::Code(1).success());
    assert!(!ExitStatus::Signal(15).success());
    assert_eq!(ExitStatus::Code(3).code(), Some(3));
    assert_eq!(ExitStatus::Signal(15).code(), None);
}

#[test]
fn timeout_exit_code_with_unknown_run_time_is_not_timed_out() {
    let mut status = ExecStatus::new(START);
    status.set_status(ExitStatus::Code(124), START - 1);
    assert!(!status.timed_out());
    assert!(!status.build_status_msg().contains("timed out"));
}
