use mirror_sync::report::dec_string;
use mirror_sync::report::render_checking_line;
use mirror_sync::report::render_failure_line;
use mirror_sync::report::render_outcome_line;
use mirror_sync::report::render_progress_line;
use mirror_sync::report::TaskStatus;
use mirror_sync::report::render_synchronizing_line;
use mirror_sync::report::render_usage_line;
use mirror_sync::run::Progress;
use mirror_sync::run::RunMode;
use mirror_sync::run::plan_invocation;

#[test]
fn decimal_rendering_is_exact() {
    assert_eq!(dec_string(0), "0");
    assert_eq!(dec_string(7), "7");
    assert_eq!(dec_string(42), "42");
    assert_eq!(dec_string(1000), "1000");
    assert_eq!(dec_string(u64::MAX), "18446744073709551615");
}

#[test]
fn phase_lines_are_exact() {
    assert_eq!(render_checking_line(), "[Info ] Checking updates...");
    assert_eq!(render_synchronizing_line(2), "[Info ] Synchronizing 2 files...");
    assert_eq!(render_synchronizing_line(0), "[Info ] Synchronizing 0 files...");
}

#[test]
fn progress_lines_pad_the_position() {
    assert_eq!(render_progress_line(1, 2, true, "a/b.txt"), "[Info ] [  1 / 2] Downloaded: a/b.txt.");
    assert_eq!(render_progress_line(2, 2, false, "a/c/d.txt"), "[Info ] [  2 / 2] Up to date: a/c/d.txt.");
    assert_eq!(render_progress_line(12, 100, false, "x"), "[Info ] [ 12 / 100] Up to date: x.");
    assert_eq!(render_progress_line(123, 200, true, "x"), "[Info ] [123 / 200] Downloaded: x.");
    assert_eq!(render_progress_line(1234, 2000, true, "x"), "[Info ] [1234 / 2000] Downloaded: x.");
}

#[test]
fn failure_line_is_exact() {
    assert_eq!(
        render_failure_line(1, 2, "permission denied", "a/b.txt"),
        "[Error] [  1 / 2] Failed to download (permission denied): a/b.txt."
    );
}

#[test]
fn outcome_line_dispatches_on_status() {
    assert_eq!(
        render_outcome_line(1, 2, "a/b.txt", &TaskStatus::Copied),
        "[Info ] [  1 / 2] Downloaded: a/b.txt."
    );
    assert_eq!(
        render_outcome_line(2, 2, "a/b.txt", &TaskStatus::UpToDate),
        "[Info ] [  2 / 2] Up to date: a/b.txt."
    );
    assert_eq!(
        render_outcome_line(1, 2, "a/b.txt", &TaskStatus::Failed(String::from("timed out"))),
        "[Error] [  1 / 2] Failed to download (timed out): a/b.txt."
    );
}

#[test]
fn usage_line_names_the_program() {
    assert_eq!(render_usage_line("mirror_sync"), "Usage: mirror_sync <TARGET_DIR>");
}

#[test]
fn missing_target_argument_means_usage_only() {
    assert!(matches!(plan_invocation(None), RunMode::Usage));
    match plan_invocation(Some(String::from("backup"))) {
        RunMode::Sync(dir) => assert_eq!(dir, "backup"),
        RunMode::Usage => panic!("a given target directory must start a run"),
    }
}

#[test]
fn progress_counts_up_to_the_total() {
    let mut p = Progress::new(2);
    assert_eq!(p.total, 2);
    assert_eq!(p.completed, 0);
    p.record();
    assert_eq!(p.completed, 1);
    p.record();
    assert_eq!(p.completed, 2);
    assert_eq!(p.total, 2);
}
