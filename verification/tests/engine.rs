use ikura::engine::{
    apply_commit_record, churn_from_commits, classify_line, CommitRecord, EngineError, LineEvent,
};
use ikura::model::LineKind;
use ikura::report::{build_report, render_entry, render_report, RankedEntry};
use ikura::table::ChurnTable;

fn added(path: &str) -> LineEvent {
    LineEvent { origin: '+', old_path: Some(path.to_string()), new_path: Some(path.to_string()) }
}

fn deleted(path: &str) -> LineEvent {
    LineEvent { origin: '-', old_path: Some(path.to_string()), new_path: Some(path.to_string()) }
}

fn commit(parent_count: usize, events: Vec<LineEvent>) -> CommitRecord {
    CommitRecord { parent_count, events }
}

fn report_lines(records: &Vec<CommitRecord>) -> Vec<String> {
    let table = churn_from_commits(records).unwrap();
    let report = build_report(table);
    report.iter().map(render_entry).collect()
}

#[test]
fn classify_line_by_origin() {
    assert!(matches!(classify_line('+'), LineKind::Added));
    assert!(matches!(classify_line('-'), LineKind::Deleted));
    assert!(matches!(classify_line(' '), LineKind::Other));
    assert!(matches!(classify_line('H'), LineKind::Other));
    assert!(matches!(classify_line('F'), LineKind::Other));
    assert!(matches!(classify_line('='), LineKind::Other));
}

#[test]
fn linear_history_accumulates() {
    // A root, then B (+3 -1 on file.txt), then C (+2 on file.txt).
    let records = vec![
        commit(0, vec![]),
        commit(
            1,
            vec![added("file.txt"), added("file.txt"), added("file.txt"), deleted("file.txt")],
        ),
        commit(1, vec![added("file.txt"), added("file.txt")]),
    ];
    let lines = report_lines(&records);
    assert_eq!(lines, vec!["file.txt: +5 -1".to_string()]);
}

#[test]
fn equal_churn_breaks_ties_by_path() {
    // a.txt and z.txt both end at +2 -0; a.txt must come first.
    let records = vec![commit(
        1,
        vec![added("z.txt"), added("a.txt"), added("z.txt"), added("a.txt")],
    )];
    let lines = report_lines(&records);
    assert_eq!(lines, vec!["a.txt: +2 -0".to_string(), "z.txt: +2 -0".to_string()]);
}

#[test]
fn merge_commits_are_skipped() {
    // Only a 2-parent commit touches merged.txt; other.txt is touched by a
    // single-parent commit. merged.txt must not appear.
    let records = vec![
        commit(0, vec![]),
        commit(2, vec![added("merged.txt"), added("merged.txt")]),
        commit(1, vec![added("other.txt")]),
    ];
    let lines = report_lines(&records);
    assert_eq!(lines, vec!["other.txt: +1 -0".to_string()]);
}

#[test]
fn root_only_history_is_empty() {
    // A repository whose only commit is the branch tip yields an empty report.
    let records = vec![commit(0, vec![added("initial.txt")])];
    let table = churn_from_commits(&records).unwrap();
    let report = build_report(table);
    assert_eq!(report.len(), 0);
    assert_eq!(render_report(&report), "");
}

#[test]
fn zero_churn_files_never_appear() {
    // Context-like events touch ctx.txt but add or delete nothing.
    let ctx = LineEvent {
        origin: ' ',
        old_path: Some("ctx.txt".to_string()),
        new_path: Some("ctx.txt".to_string()),
    };
    let hunk = LineEvent {
        origin: 'H',
        old_path: Some("ctx.txt".to_string()),
        new_path: Some("ctx.txt".to_string()),
    };
    let records = vec![commit(1, vec![ctx, hunk, added("real.txt")])];
    let lines = report_lines(&records);
    assert_eq!(lines, vec!["real.txt: +1 -0".to_string()]);
}

#[test]
fn report_is_totally_ordered() {
    let records = vec![commit(
        1,
        vec![
            added("b.txt"),
            added("b.txt"),
            added("b.txt"),
            added("a.txt"),
            deleted("a.txt"),
            added("c.txt"),
        ],
    )];
    let table = churn_from_commits(&records).unwrap();
    let report = build_report(table);
    let churn = |e: &RankedEntry| e.delta.added + e.delta.deleted;
    for w in report.windows(2) {
        let (x, y) = (&w[0], &w[1]);
        assert!(churn(x) > churn(y) || (churn(x) == churn(y) && x.path < y.path));
    }
    let lines: Vec<String> = report.iter().map(render_entry).collect();
    assert_eq!(
        lines,
        vec![
            "b.txt: +3 -0".to_string(),
            "a.txt: +1 -1".to_string(),
            "c.txt: +1 -0".to_string(),
        ]
    );
}

#[test]
fn running_twice_is_byte_identical() {
    let make = || {
        vec![
            commit(0, vec![]),
            commit(1, vec![added("x.txt"), deleted("y.txt"), added("y.txt")]),
            commit(2, vec![added("m.txt")]),
            commit(1, vec![added("x.txt")]),
        ]
    };
    let run = |records: &Vec<CommitRecord>| {
        let table = churn_from_commits(records).unwrap();
        render_report(&build_report(table))
    };
    let first = run(&make());
    let second = run(&make());
    assert_eq!(first, second);
    assert_eq!(first, "x.txt: +2 -0\ny.txt: +1 -1\n");
}

#[test]
fn pathless_delta_fails_the_run() {
    let bad = LineEvent { origin: '+', old_path: None, new_path: None };
    let records = vec![commit(1, vec![bad])];
    let r = churn_from_commits(&records);
    assert!(matches!(r, Err(EngineError::InvariantViolation)));
}

#[test]
fn pathless_delta_fails_even_when_ignored_origin() {
    let bad = LineEvent { origin: 'H', old_path: None, new_path: None };
    let records = vec![commit(1, vec![bad])];
    let r = churn_from_commits(&records);
    assert!(matches!(r, Err(EngineError::InvariantViolation)));
}

#[test]
fn old_path_is_the_fallback() {
    // A deletion of a removed file carries only the old-file path.
    let gone = LineEvent { origin: '-', old_path: Some("gone.txt".to_string()), new_path: None };
    let records = vec![commit(1, vec![gone])];
    let lines = report_lines(&records);
    assert_eq!(lines, vec!["gone.txt: +0 -1".to_string()]);
}

#[test]
fn new_path_wins_over_old_path() {
    let renamed = LineEvent {
        origin: '+',
        old_path: Some("before.txt".to_string()),
        new_path: Some("after.txt".to_string()),
    };
    let records = vec![commit(1, vec![renamed])];
    let lines = report_lines(&records);
    assert_eq!(lines, vec!["after.txt: +1 -0".to_string()]);
}

#[test]
fn apply_commit_record_streams_one_commit() {
    let mut table = ChurnTable::new();
    apply_commit_record(&mut table, &commit(1, vec![added("f"), added("f")])).unwrap();
    apply_commit_record(&mut table, &commit(2, vec![added("skipped")])).unwrap();
    apply_commit_record(&mut table, &commit(1, vec![deleted("f")])).unwrap();
    let report = build_report(table);
    let lines: Vec<String> = report.iter().map(render_entry).collect();
    assert_eq!(lines, vec!["f: +2 -1".to_string()]);
}

#[test]
fn render_entry_exact_format() {
    let e = RankedEntry {
        path: "src/deep/name.rs".to_string(),
        delta: ikura::model::LineDelta { added: 1204, deleted: 0 },
    };
    assert_eq!(render_entry(&e), "src/deep/name.rs: +1204 -0");
    let z = RankedEntry {
        path: "z".to_string(),
        delta: ikura::model::LineDelta { added: 0, deleted: 10 },
    };
    assert_eq!(render_entry(&z), "z: +0 -10");
}

#[test]
fn render_report_one_line_per_entry() {
    let records = vec![commit(1, vec![added("a"), added("a"), deleted("b")])];
    let table = churn_from_commits(&records).unwrap();
    let report = build_report(table);
    assert_eq!(render_report(&report), "a: +2 -0\nb: +0 -1\n");
}
