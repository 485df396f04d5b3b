use csurename::check::{
    check_names, check_path, check_walk, CheckGroup, CheckOptions, CheckReport, GroupWalk,
};
use csurename::codec::file_name;
use csurename::error::{ConfigFault, NamingError};
use csurename::resolver::{IgnoreOrigin, IgnoreSource};
use csurename::walk::{EntryKind, WalkEntry, WalkEvent};

fn group(name: &str, pattern: &str) -> CheckGroup {
    CheckGroup {
        name: name.to_string(),
        path: format!("./tests/testdata/{}", name),
        pattern: pattern.to_string(),
        ignore: None,
        recursive: true,
    }
}

fn files(names: &[&str]) -> Option<Vec<WalkEntry>> {
    Some(
        names
            .iter()
            .map(|n| WalkEntry { path: n.to_string(), depth: 1, kind: EntryKind::File })
            .collect(),
    )
}

fn groups() -> Vec<CheckGroup> {
    vec![
        group("ok", "^[a-z-]+\\.txt$"),
        group("err", "^[a-z-]+\\.txt$"),
        group("root", "^[a-z]+$"),
    ]
}

fn walk_of(names: &[&str]) -> Option<GroupWalk> {
    Some(GroupWalk {
        ignore_sources: Vec::new(),
        root_is_version_controlled: true,
        events: files(names).unwrap().into_iter().map(WalkEvent::Entry).collect(),
    })
}

fn listings() -> Vec<Option<GroupWalk>> {
    vec![
        walk_of(&["./tests/testdata/ok/good-name.txt", "./tests/testdata/ok/other.txt"]),
        walk_of(&["./tests/testdata/err/good-name.txt", "./tests/testdata/err/Bad Name.txt"]),
        walk_of(&["./tests/testdata/root/csurename.toml"]),
    ]
}

fn event(path: &str, depth: usize, kind: EntryKind) -> WalkEvent {
    WalkEvent::Entry(WalkEntry { path: path.to_string(), depth, kind })
}

#[test]
fn check_err() {
    let result = check_names(
        &CheckOptions {
            config_file: Some("./tests/testdata/csurename.toml".to_string()),
            paths: Some(vec!["err".to_string()]),
        },
        &groups(),
        &listings(),
    );

    assert!(result.is_err());
}

#[test]
fn check_ok() {
    let result = check_names(
        &CheckOptions {
            config_file: Some("./tests/testdata/csurename.toml".to_string()),
            paths: Some(vec!["ok".to_string(), "root".to_string()]),
        },
        &groups(),
        &listings(),
    );

    assert!(result.is_err());
}

#[test]
fn conforming_groups_pass() {
    let only_ok = CheckOptions { config_file: None, paths: Some(vec!["ok".to_string()]) };
    assert_eq!(check_names(&only_ok, &groups(), &listings()), Ok(()));
    assert_eq!(check_names(&only_ok, &Vec::new(), &Vec::new()), Ok(()));
    let unknown = CheckOptions { config_file: None, paths: Some(vec!["nope".to_string()]) };
    assert_eq!(check_names(&unknown, &groups(), &listings()), Ok(()));
}

#[test]
fn first_failing_group_is_reported() {
    let expected = Err(NamingError::PatternMismatch {
        group: "err".to_string(),
        path: "./tests/testdata/err/Bad Name.txt".to_string(),
        pattern: "^[a-z-]+\\.txt$".to_string(),
    });
    let all = CheckOptions { config_file: None, paths: None };
    assert_eq!(check_names(&all, &groups(), &listings()), expected);
    let none_named = CheckOptions { config_file: None, paths: Some(Vec::new()) };
    assert_eq!(check_names(&none_named, &groups(), &listings()), expected);
    let skipping_err = CheckOptions {
        config_file: None,
        paths: Some(vec!["root".to_string(), "ok".to_string()]),
    };
    assert_eq!(
        check_names(&skipping_err, &groups(), &listings()),
        Err(NamingError::PatternMismatch {
            group: "root".to_string(),
            path: "./tests/testdata/root/csurename.toml".to_string(),
            pattern: "^[a-z]+$".to_string(),
        })
    );
}

#[test]
fn check_stops_at_the_first_file_that_fails() {
    let g = group("g", "^[a-z]+$");
    let report = check_path(&g, &files(&["d/first", "d/Second", "d/Third"]));
    assert_eq!(
        report,
        CheckReport {
            tested: 2,
            failure: Some(NamingError::PatternMismatch {
                group: "g".to_string(),
                path: "d/Second".to_string(),
                pattern: "^[a-z]+$".to_string(),
            }),
        }
    );
    let shorter = check_path(&g, &files(&["d/first", "d/Second"]));
    assert_eq!(shorter, report);
}

#[test]
fn only_the_names_of_regular_files_are_tested() {
    let g = group("g", "^[a-z]+$");
    let listing = Some(vec![
        WalkEntry { path: "d/Sub Dir".to_string(), depth: 1, kind: EntryKind::Directory },
        WalkEntry { path: "d/Sub Dir/file".to_string(), depth: 2, kind: EntryKind::File },
        WalkEntry { path: "d/Odd One".to_string(), depth: 1, kind: EntryKind::Other },
        WalkEntry { path: "UPPER/lower".to_string(), depth: 1, kind: EntryKind::File },
    ]);
    assert_eq!(check_path(&g, &listing), CheckReport { tested: 2, failure: None });
    assert_eq!(check_path(&g, &files(&[])), CheckReport { tested: 0, failure: None });
}

#[test]
fn pattern_may_match_anywhere_in_the_name() {
    let g = group("g", "[a-z]+");
    assert_eq!(check_path(&g, &files(&["d/123abc456"])).failure, None);
    assert!(check_path(&g, &files(&["d/123456"])).failure.is_some());
}

#[test]
fn invalid_pattern_fails_before_any_file_is_tested() {
    let g = group("g", "([a-z");
    let expected = CheckReport {
        tested: 0,
        failure: Some(NamingError::Config {
            group: "g".to_string(),
            fault: ConfigFault::InvalidPattern,
        }),
    };
    assert_eq!(check_path(&g, &files(&["d/a", "d/b"])), expected);
    assert_eq!(check_path(&g, &None), expected);
}

#[test]
fn unreadable_path_fails_the_group() {
    let g = group("g", "^[a-z]+$");
    let expected = NamingError::Config {
        group: "g".to_string(),
        fault: ConfigFault::UnreadablePath,
    };
    assert_eq!(check_path(&g, &None), CheckReport { tested: 0, failure: Some(expected.clone()) });
    let all = CheckOptions { config_file: None, paths: None };
    assert_eq!(check_names(&all, &vec![g.clone()], &vec![None]), Err(expected.clone()));
    assert_eq!(check_names(&all, &vec![g], &Vec::new()), Err(expected));
}

#[test]
fn check_outside_a_repository_tests_no_name() {
    let g = group("g", "^[a-z]+$");
    let events = vec![event("./tests/testdata/g/Bad Name", 1, EntryKind::File)];
    let expected = NamingError::NoRepository { root: "./tests/testdata/g".to_string() };
    assert_eq!(check_walk(&g, Vec::new(), false, &events), Err(expected.clone()));
    let walks = vec![Some(GroupWalk {
        ignore_sources: Vec::new(),
        root_is_version_controlled: false,
        events,
    })];
    let all = CheckOptions { config_file: None, paths: None };
    assert_eq!(check_names(&all, &vec![g], &walks), Err(expected));
}

#[test]
fn invalid_pattern_goes_before_the_boundary() {
    let g = group("g", "([a-z");
    let report = check_walk(&g, Vec::new(), false, &Vec::new()).unwrap();
    assert_eq!(
        report.failure,
        Some(NamingError::Config { group: "g".to_string(), fault: ConfigFault::InvalidPattern })
    );
    assert_eq!(report.tested, 0);
}

#[test]
fn non_recursive_group_tests_immediate_children_only() {
    let events = vec![
        event("root", 0, EntryKind::Directory),
        event("root/good", 1, EntryKind::File),
        event("root/a", 1, EntryKind::Directory),
        event("root/a/b", 2, EntryKind::Directory),
        event("root/a/b/Bad Name", 3, EntryKind::File),
    ];
    let deep = CheckGroup::new("g".to_string(), "root".to_string(), "^[a-z]+$".to_string(), None, None);
    assert!(deep.recursive);
    let same = CheckGroup::new("g".to_string(), "root".to_string(), "^[a-z]+$".to_string(), None, Some(true));
    assert_eq!(deep, same);
    let flat = CheckGroup::new("g".to_string(), "root".to_string(), "^[a-z]+$".to_string(), None, Some(false));
    assert!(!flat.recursive);
    let mismatch = Some(NamingError::PatternMismatch {
        group: "g".to_string(),
        path: "root/a/b/Bad Name".to_string(),
        pattern: "^[a-z]+$".to_string(),
    });
    assert_eq!(check_walk(&deep, Vec::new(), true, &events).unwrap().failure, mismatch);
    assert_eq!(check_walk(&same, Vec::new(), true, &events).unwrap().failure, mismatch);
    assert_eq!(
        check_walk(&flat, Vec::new(), true, &events),
        Ok(CheckReport { tested: 1, failure: None })
    );
}

#[test]
fn ignored_entry_is_not_tested() {
    let g = group("g", "^[a-z]+\\.txt$");
    let events = vec![
        event("./tests/testdata/g/good.txt", 1, EntryKind::File),
        event("./tests/testdata/g/Bad Name.txt", 1, EntryKind::File),
        event("./tests/testdata/g/other.txt", 1, EntryKind::File),
    ];
    let rules = vec![IgnoreSource {
        origin: IgnoreOrigin::Explicit,
        base: "./tests/testdata/g".to_string(),
        lines: vec!["# generated".to_string(), "Bad Name.txt".to_string()],
    }];
    assert_eq!(check_walk(&g, rules, true, &events), Ok(CheckReport { tested: 2, failure: None }));
    assert!(check_walk(&g, Vec::new(), true, &events).unwrap().failure.is_some());
}

#[test]
fn unreadable_directory_fails_the_check_with_its_path() {
    let g = group("g", "^[a-z]+$");
    let events = vec![
        event("./tests/testdata/g/good", 1, EntryKind::File),
        WalkEvent::Unreadable { path: "./tests/testdata/g/locked".to_string() },
        event("./tests/testdata/g/Bad Name", 1, EntryKind::File),
    ];
    assert_eq!(
        check_walk(&g, Vec::new(), true, &events),
        Ok(CheckReport {
            tested: 1,
            failure: Some(NamingError::Io { path: "./tests/testdata/g/locked".to_string() }),
        })
    );
    let mismatch_first = vec![
        event("./tests/testdata/g/Bad Name", 1, EntryKind::File),
        WalkEvent::Unreadable { path: "./tests/testdata/g/locked".to_string() },
    ];
    assert_eq!(
        check_walk(&g, Vec::new(), true, &mismatch_first).unwrap().failure,
        Some(NamingError::PatternMismatch {
            group: "g".to_string(),
            path: "./tests/testdata/g/Bad Name".to_string(),
            pattern: "^[a-z]+$".to_string(),
        })
    );
}

#[test]
fn options_select_groups_by_name() {
    let named = CheckOptions {
        config_file: None,
        paths: Some(vec!["root".to_string(), "ok".to_string()]),
    };
    assert!(named.selects(&"ok".to_string()));
    assert!(!named.selects(&"err".to_string()));
    let active = named.active_groups(&groups());
    assert_eq!(active, vec![groups()[0].clone(), groups()[2].clone()]);
    let all = CheckOptions { config_file: None, paths: None };
    assert!(all.selects(&"anything".to_string()));
    assert_eq!(all.active_groups(&groups()), groups());
    let empty = CheckOptions { config_file: None, paths: Some(Vec::new()) };
    assert_eq!(empty.active_groups(&groups()).len(), 3);
}

#[test]
fn configuration_file_has_a_default_path() {
    let none = CheckOptions { config_file: None, paths: None };
    assert_eq!(none.config_path(), "csurename.toml");
    let some = CheckOptions { config_file: Some("x/y.toml".to_string()), paths: None };
    assert_eq!(some.config_path(), "x/y.toml");
}

#[test]
fn group_walk_follows_the_recursive_flag() {
    let mut g = group("g", "x");
    g.ignore = Some(vec![".ignore".to_string()]);
    let deep = g.walk_options(Vec::new());
    assert_eq!(deep.root, "./tests/testdata/g");
    assert_eq!(deep.max_depth, None);
    assert!(deep.require_version_control_boundary);
    g.recursive = false;
    assert_eq!(g.walk_options(Vec::new()).max_depth, Some(1));
    assert_eq!(g.duplicate(), g);
}

#[test]
fn file_name_is_the_final_segment() {
    assert_eq!(file_name("a/b/c.txt"), "c.txt");
    assert_eq!(file_name("c.txt"), "c.txt");
    assert_eq!(file_name("a/b/"), "");
    assert_eq!(file_name(""), "");
}

#[test]
fn judge_takes_the_answer_of_the_pattern() {
    let g = group("g", "^[a-z]+$");
    let f = WalkEntry { path: "d/x".to_string(), depth: 1, kind: EntryKind::File };
    let d = WalkEntry { path: "d/x".to_string(), depth: 1, kind: EntryKind::Directory };
    assert_eq!(g.judge(&f, true), None);
    assert_eq!(g.judge(&d, false), None);
    assert_eq!(
        g.judge(&f, false),
        Some(NamingError::PatternMismatch {
            group: "g".to_string(),
            path: "d/x".to_string(),
            pattern: "^[a-z]+$".to_string(),
        })
    );
}
