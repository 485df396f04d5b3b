use csurename::error::NamingError;
use csurename::resolver::{IgnoreOrigin, IgnoreSource};
use csurename::walk::{
    holds_text, lies_below_any, walk, EntryKind, WalkEntry, WalkEvent, WalkOptions, WalkReport,
    WalkStep, Walker,
};

fn entry(path: &str, depth: usize, kind: EntryKind) -> WalkEntry {
    WalkEntry { path: path.to_string(), depth, kind }
}

fn file(path: &str, depth: usize) -> WalkEvent {
    WalkEvent::Entry(entry(path, depth, EntryKind::File))
}

fn dir(path: &str, depth: usize) -> WalkEvent {
    WalkEvent::Entry(entry(path, depth, EntryKind::Directory))
}

fn options(root: &str, max_depth: Option<usize>, lines: &[&str]) -> WalkOptions {
    WalkOptions {
        root: root.to_string(),
        max_depth,
        require_version_control_boundary: true,
        ignore_sources: vec![IgnoreSource {
            origin: IgnoreOrigin::Explicit,
            base: root.to_string(),
            lines: lines.iter().map(|l| l.to_string()).collect(),
        }],
    }
}

fn paths(report: &WalkReport) -> Vec<String> {
    report.entries.iter().map(|e| e.path.clone()).collect()
}

#[test]
fn root_is_never_yielded() {
    let events = vec![dir("root", 0), file("root/a", 1), file("root", 1), file("root/b", 0)];
    let report = walk(options("root", None, &[]), true, &events).unwrap();
    assert_eq!(paths(&report), vec!["root/a"]);
    assert_eq!(report.failure, None);
}

#[test]
fn walk_outside_a_repository_fails_before_anything_is_yielded() {
    let events = vec![dir("root", 0), file("root/a", 1)];
    assert_eq!(
        walk(options("root", None, &[]), false, &events),
        Err(NamingError::NoRepository { root: "root".to_string() })
    );
    assert!(Walker::start(options("root", None, &[]), false).is_err());
}

#[test]
fn boundary_is_not_asked_for_where_the_options_waive_it() {
    let mut o = options("root", None, &[]);
    o.require_version_control_boundary = false;
    let report = walk(o, false, &vec![file("root/a", 1)]).unwrap();
    assert_eq!(paths(&report), vec!["root/a"]);
}

#[test]
fn depth_limit_holds() {
    let events = vec![
        dir("root", 0),
        file("root/a", 1),
        dir("root/sub", 1),
        file("root/sub/b", 2),
        file("root/sub/deep/c", 3),
    ];
    let flat = walk(options("root", Some(1), &[]), true, &events).unwrap();
    assert_eq!(paths(&flat), vec!["root/a", "root/sub"]);
    let two = walk(options("root", Some(2), &[]), true, &events).unwrap();
    assert_eq!(paths(&two), vec!["root/a", "root/sub", "root/sub/b"]);
    let all = walk(options("root", None, &[]), true, &events).unwrap();
    assert_eq!(all.entries.len(), 4);
}

#[test]
fn no_path_is_yielded_twice() {
    let events = vec![file("root/a", 1), file("root/b", 1), file("root/a", 1), file("root/a", 1)];
    let report = walk(options("root", None, &[]), true, &events).unwrap();
    assert_eq!(paths(&report), vec!["root/a", "root/b"]);
}

#[test]
fn ignored_entries_are_passed_over() {
    let events = vec![file("root/a.log", 1), file("root/a.txt", 1), file("root/keep.log", 1)];
    let report = walk(options("root", None, &["*.log", "!keep.log"]), true, &events).unwrap();
    assert_eq!(paths(&report), vec!["root/a.txt", "root/keep.log"]);
}

#[test]
fn ignored_directory_closes_what_it_holds() {
    let events = vec![
        dir("root/build", 1),
        file("root/build/out.txt", 2),
        dir("root/build/sub", 2),
        file("root/build/sub/x", 3),
        file("root/builder", 1),
        file("root/src.txt", 1),
    ];
    let report = walk(options("root", None, &["build/"]), true, &events).unwrap();
    assert_eq!(paths(&report), vec!["root/builder", "root/src.txt"]);
}

#[test]
fn unreadable_directory_ends_the_walk_and_keeps_what_was_yielded() {
    let events = vec![
        file("root/a", 1),
        WalkEvent::Unreadable { path: "root/locked".to_string() },
        file("root/b", 1),
        WalkEvent::Unreadable { path: "root/other".to_string() },
    ];
    let report = walk(options("root", None, &[]), true, &events).unwrap();
    assert_eq!(paths(&report), vec!["root/a"]);
    assert_eq!(report.failure, Some(NamingError::Io { path: "root/locked".to_string() }));
}

#[test]
fn empty_walk_yields_nothing() {
    let report = walk(options("root", None, &[]), true, &Vec::new()).unwrap();
    assert_eq!(report.entries.len(), 0);
    assert_eq!(report.failure, None);
}

#[test]
fn walker_answers_step_by_step() {
    let mut walker = Walker::start(options("root", Some(1), &["*.log"]), true).unwrap();
    assert_eq!(walker.failure(), None);
    assert_eq!(walker.offer(&dir("root", 0)), WalkStep::Skip);
    assert_eq!(walker.offer(&file("root/a", 1)), WalkStep::Yield);
    assert_eq!(walker.offer(&file("root/a", 1)), WalkStep::Skip);
    assert_eq!(walker.offer(&file("root/a.log", 1)), WalkStep::Skip);
    assert_eq!(walker.offer(&file("root/sub/b", 2)), WalkStep::Skip);
    assert!(walker.should_visit("root/x.txt", false));
    assert!(!walker.should_visit("root/x.log", false));
    assert_eq!(walker.offer(&WalkEvent::Unreadable { path: "root/d".to_string() }), WalkStep::Abort);
    assert_eq!(walker.offer(&WalkEvent::Unreadable { path: "root/e".to_string() }), WalkStep::Skip);
    assert_eq!(walker.offer(&file("root/c", 1)), WalkStep::Skip);
    assert_eq!(walker.failure(), Some(NamingError::Io { path: "root/d".to_string() }));
}

#[test]
fn entry_copy_is_equal() {
    let e = entry("root/a", 3, EntryKind::Other);
    assert_eq!(e.duplicate(), e);
}

#[test]
fn list_helpers() {
    let list = vec!["a".to_string(), "b/c".to_string()];
    assert!(holds_text(&list, &"a".to_string()));
    assert!(!holds_text(&list, &"c".to_string()));
    assert!(!holds_text(&Vec::new(), &"a".to_string()));
    assert!(lies_below_any(&"b/c/d".to_string(), &list));
    assert!(!lies_below_any(&"b/cd".to_string(), &list));
    assert!(!lies_below_any(&"b/c".to_string(), &list));
}
