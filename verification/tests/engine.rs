use mirror_sync::meta::FileMeta;
use mirror_sync::meta::Timestamp;
use mirror_sync::meta::needs_update;
use mirror_sync::model::TargetModel;
use mirror_sync::model::run_sync;
use mirror_sync::paths::join_path;
use mirror_sync::report::TaskStatus;
use mirror_sync::report::render_outcome_line;
use mirror_sync::report::render_synchronizing_line;
use mirror_sync::run::Progress;
use mirror_sync::sync::Decision;
use mirror_sync::sync::Probe;
use mirror_sync::sync::decide;
use mirror_sync::sync::plan_task;
use mirror_sync::tree::Node;
use mirror_sync::tree::SourceEntry;
use mirror_sync::tree::discover;

fn ts(secs: i64) -> Timestamp {
    Timestamp { secs, nanos: 0 }
}

fn meta(len: u64, secs: i64) -> FileMeta {
    FileMeta { len, mtime: Some(ts(secs)) }
}

fn meta_eq(a: &FileMeta, b: &FileMeta) -> bool {
    a.len == b.len && a.mtime == b.mtime
}

#[test]
fn absent_target_is_stale() {
    assert!(needs_update(&meta(10, 100), None));
}

#[test]
fn matching_target_is_up_to_date() {
    let s = meta(10, 100);
    let t = meta(10, 100);
    assert!(!needs_update(&s, Some(&t)));
}

#[test]
fn length_mismatch_is_stale_despite_equal_mtime() {
    let s = meta(10, 100);
    let t = meta(11, 100);
    assert!(needs_update(&s, Some(&t)));
}

#[test]
fn mtime_mismatch_is_stale_despite_equal_length() {
    let s = meta(10, 100);
    let t = meta(10, 101);
    assert!(needs_update(&s, Some(&t)));
    let older = meta(10, 99);
    assert!(needs_update(&s, Some(&older)));
    let nanos_differ = FileMeta { len: 10, mtime: Some(Timestamp { secs: 100, nanos: 1 }) };
    assert!(needs_update(&s, Some(&nanos_differ)));
}

#[test]
fn unavailable_mtime_is_stale() {
    let no_time = FileMeta { len: 10, mtime: None };
    let with_time = meta(10, 100);
    assert!(needs_update(&no_time, Some(&with_time)));
    assert!(needs_update(&with_time, Some(&no_time)));
    assert!(needs_update(&no_time, Some(&no_time)));
}

#[test]
fn decide_covers_every_probe() {
    let s = meta(10, 100);
    assert!(decide(&s, &Probe::Failed) == Decision::Fail);
    assert!(decide(&s, &Probe::Absent) == Decision::Copy);
    assert!(decide(&s, &Probe::Found(meta(10, 100))) == Decision::Skip);
    assert!(decide(&s, &Probe::Found(meta(9, 100))) == Decision::Copy);
}

#[test]
fn join_path_mirrors_components() {
    assert_eq!(join_path("", "a"), "a");
    assert_eq!(join_path("a", "b.txt"), "a/b.txt");
    assert_eq!(join_path("a/c", "d.txt"), "a/c/d.txt");
}

#[test]
fn plan_task_resolves_target_path() {
    let entry = SourceEntry { rel_path: String::from("a/b.txt"), meta: meta(10, 100) };
    let (path, decision) = plan_task("target", &entry, &Probe::Absent);
    assert_eq!(path, "target/a/b.txt");
    assert!(decision == Decision::Copy);
}

fn sample_tree() -> Node {
    Node::Dir(vec![(
        String::from("a"),
        Node::Dir(vec![
            (String::from("b.txt"), Node::File(meta(10, 100))),
            (
                String::from("c"),
                Node::Dir(vec![(String::from("d.txt"), Node::File(meta(5, 200)))]),
            ),
        ]),
    )])
}

#[test]
fn discovery_mirrors_source_paths() {
    let entries = discover(&sample_tree());
    assert_eq!(entries.len(), 2);
    assert_eq!(entries[0].rel_path, "a/b.txt");
    assert!(meta_eq(&entries[0].meta, &meta(10, 100)));
    assert_eq!(entries[1].rel_path, "a/c/d.txt");
    assert!(meta_eq(&entries[1].meta, &meta(5, 200)));
}

#[test]
fn discovery_of_empty_tree_finds_nothing() {
    let entries = discover(&Node::Dir(Vec::new()));
    assert_eq!(entries.len(), 0);
}

#[test]
fn first_run_downloads_second_run_is_clean() {
    let entries = discover(&sample_tree());
    let mut target = TargetModel::new();

    let outcomes = run_sync(&entries, &mut target);
    assert_eq!(outcomes.len(), 2);
    assert_eq!(outcomes[0].rel_path, "a/b.txt");
    assert!(outcomes[0].copied);
    assert_eq!(outcomes[1].rel_path, "a/c/d.txt");
    assert!(outcomes[1].copied);

    let b = target.lookup(&String::from("a/b.txt")).unwrap();
    assert!(meta_eq(&b, &meta(10, 100)));
    let d = target.lookup(&String::from("a/c/d.txt")).unwrap();
    assert!(meta_eq(&d, &meta(5, 200)));

    let again = run_sync(&entries, &mut target);
    assert_eq!(again.len(), 2);
    assert!(!again[0].copied);
    assert!(!again[1].copied);
    let b = target.lookup(&String::from("a/b.txt")).unwrap();
    assert!(meta_eq(&b, &meta(10, 100)));
    let d = target.lookup(&String::from("a/c/d.txt")).unwrap();
    assert!(meta_eq(&d, &meta(5, 200)));
}

#[test]
fn rewritten_file_with_same_length_is_recopied_alone() {
    let entries = discover(&sample_tree());
    let mut target = TargetModel::new();
    run_sync(&entries, &mut target);

    let bumped = Node::Dir(vec![(
        String::from("a"),
        Node::Dir(vec![
            (String::from("b.txt"), Node::File(meta(10, 300))),
            (
                String::from("c"),
                Node::Dir(vec![(String::from("d.txt"), Node::File(meta(5, 200)))]),
            ),
        ]),
    )]);
    let entries = discover(&bumped);
    let outcomes = run_sync(&entries, &mut target);
    assert_eq!(outcomes.len(), 2);
    assert_eq!(outcomes[0].rel_path, "a/b.txt");
    assert!(outcomes[0].copied);
    assert_eq!(outcomes[1].rel_path, "a/c/d.txt");
    assert!(!outcomes[1].copied);
    let b = target.lookup(&String::from("a/b.txt")).unwrap();
    assert!(meta_eq(&b, &meta(10, 300)));
}

#[test]
fn failed_probe_does_not_copy() {
    let entries = discover(&sample_tree());
    let mut target = TargetModel::new();
    run_sync(&entries, &mut target);
    let s = meta(10, 100);
    assert!(decide(&s, &Probe::Failed) == Decision::Fail);
    let kept = target.lookup(&String::from("a/b.txt")).unwrap();
    assert!(meta_eq(&kept, &meta(10, 100)));
}

#[test]
fn store_with_equal_key_keeps_the_latest() {
    let mut target = TargetModel::new();
    target.store(&String::from("a"), meta(1, 10));
    target.store(&String::from("a"), meta(2, 20));
    let m = target.lookup(&String::from("a")).unwrap();
    assert!(meta_eq(&m, &meta(2, 20)));
    assert!(target.lookup(&String::from("b")).is_none());
}

#[test]
fn scenario_lines_report_total_and_status() {
    let entries = discover(&sample_tree());
    let mut target = TargetModel::new();

    let outcomes = run_sync(&entries, &mut target);
    let total = outcomes.len() as u64;
    assert_eq!(render_synchronizing_line(total), "[Info ] Synchronizing 2 files...");

    let mut progress = Progress::new(total);
    let mut lines = Vec::new();
    for outcome in &outcomes {
        if progress.completed < progress.total {
            progress.record();
        }
        let status = if outcome.copied { TaskStatus::Copied } else { TaskStatus::UpToDate };
        lines.push(render_outcome_line(progress.completed, progress.total, &outcome.rel_path, &status));
    }
    assert_eq!(lines[0], "[Info ] [  1 / 2] Downloaded: a/b.txt.");
    assert_eq!(lines[1], "[Info ] [  2 / 2] Downloaded: a/c/d.txt.");

    let again = run_sync(&entries, &mut target);
    let mut progress = Progress::new(total);
    let mut lines = Vec::new();
    for outcome in &again {
        if progress.completed < progress.total {
            progress.record();
        }
        let status = if outcome.copied { TaskStatus::Copied } else { TaskStatus::UpToDate };
        lines.push(render_outcome_line(progress.completed, progress.total, &outcome.rel_path, &status));
    }
    assert_eq!(lines[0], "[Info ] [  1 / 2] Up to date: a/b.txt.");
    assert_eq!(lines[1], "[Info ] [  2 / 2] Up to date: a/c/d.txt.");
}
