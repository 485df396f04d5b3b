use csurename::convention::CaseConvention;
use csurename::error::NamingError;
use csurename::fix::{
    fix_entries, fix_names, plan_rename, translate_line, translate_lines, FixOptions, FixReport,
    FixTally, RenameOutcome,
};
use csurename::walk::{EntryKind, WalkEntry, WalkEvent};

fn options(target_dir: &str) -> FixOptions {
    FixOptions {
        target_dir: target_dir.to_string(),
        recursive: false,
        include_dir: false,
        quiet: false,
        from_stdin: false,
    }
}

fn file(path: &str, depth: usize) -> WalkEvent {
    WalkEvent::Entry(WalkEntry { path: path.to_string(), depth, kind: EntryKind::File })
}

fn dir(path: &str, depth: usize) -> WalkEvent {
    WalkEvent::Entry(WalkEntry { path: path.to_string(), depth, kind: EntryKind::Directory })
}

fn wrong_files(dir_path: &str, from: u32, n: u32) -> Vec<WalkEvent> {
    let mut events = vec![dir(dir_path, 0)];
    for i in from..from + n {
        events.push(file(&format!("{}/mY_wRong File-{}", dir_path, i), 1));
    }
    events
}

fn renamed_files(report: &FixReport) -> Vec<WalkEvent> {
    let mut events = vec![dir("tmp", 0)];
    for outcome in report.outcomes.iter() {
        events.push(file(&outcome.new_path, 1));
    }
    events
}

fn run(events: &Vec<WalkEvent>) -> FixReport {
    fix_names(&options("tmp"), CaseConvention::KebabCase, Vec::new(), true, events).unwrap()
}

fn all_names_settled(report: &FixReport) -> bool {
    report.outcomes.iter().all(|o| {
        plan_rename(&o.new_path, CaseConvention::KebabCase).renamed == false
    })
}

#[test]
fn rename_0_files() {
    let report = run(&wrong_files("tmp", 0, 0));
    assert_eq!(report.renamed, 0);
    assert_eq!(report.outcomes.len(), 0);
    assert!(all_names_settled(&report));
}

#[test]
fn rename_1024_files() {
    let report = run(&wrong_files("tmp", 0, 1024));
    assert_eq!(report.renamed, 1024);
    assert_eq!(report.outcomes.len(), 1024);
    assert_eq!(report.failure, None);
    assert_eq!(report.outcomes[1023].new_path, "tmp/m-y-w-rong-file-1023");
    assert!(all_names_settled(&report));
}

#[test]
fn rename_half_files() {
    let first = run(&wrong_files("tmp", 0, 2));
    assert_eq!(first.renamed, 2);

    let mut events = renamed_files(&first);
    events.extend(wrong_files("tmp", 2, 2).into_iter().skip(1));

    assert!(!events.iter().all(|e| match e {
        WalkEvent::Entry(entry) => !plan_rename(&entry.path, CaseConvention::KebabCase).renamed,
        WalkEvent::Unreadable { .. } => true,
    }));
    assert_eq!(events.len() - 1, 4);

    let second = run(&events);
    assert_eq!(second.renamed, 2);
    assert_eq!(second.outcomes.len(), 4);
    assert!(all_names_settled(&second));
}

#[test]
fn two_wrong_files_are_renamed_once() {
    let first = run(&wrong_files("tmp", 0, 2));
    assert_eq!(first.renamed, 2);
    assert_eq!(
        first.outcomes,
        vec![
            RenameOutcome {
                original_path: "tmp/mY_wRong File-0".to_string(),
                new_path: "tmp/m-y-w-rong-file-0".to_string(),
                renamed: true,
            },
            RenameOutcome {
                original_path: "tmp/mY_wRong File-1".to_string(),
                new_path: "tmp/m-y-w-rong-file-1".to_string(),
                renamed: true,
            },
        ]
    );
    let second = run(&renamed_files(&first));
    assert_eq!(second.renamed, 0);
    assert_eq!(second.outcomes.len(), 2);
    assert!(second.outcomes.iter().all(|o| !o.renamed && o.original_path == o.new_path));
}

#[test]
fn canonical_name_is_no_rename() {
    assert_eq!(
        plan_rename("dir/file.txt", CaseConvention::SnakeCase),
        RenameOutcome {
            original_path: "dir/file.txt".to_string(),
            new_path: "dir/file.txt".to_string(),
            renamed: false,
        }
    );
    let report = fix_names(
        &options("dir"),
        CaseConvention::SnakeCase,
        Vec::new(),
        true,
        &vec![file("dir/file.txt", 1)],
    )
    .unwrap();
    assert_eq!(report.renamed, 0);
    assert_eq!(report.outcomes.len(), 1);
    assert!(!report.outcomes[0].renamed);
}

#[test]
fn rename_stays_in_the_same_directory() {
    let outcome = plan_rename("Some Dir/Sub Dir/My File.TXT", CaseConvention::KebabCase);
    assert_eq!(outcome.new_path, "Some Dir/Sub Dir/my-file.TXT");
    assert!(outcome.renamed);
    let bare = plan_rename("My File", CaseConvention::SnakeCase);
    assert_eq!(bare.new_path, "my_file");
    let rooted = plan_rename("/My File", CaseConvention::CamelCase);
    assert_eq!(rooted.new_path, "/myFile");
}

#[test]
fn directories_are_renamed_only_on_demand() {
    let events = vec![dir("tmp", 0), dir("tmp/My Dir", 1), file("tmp/My File", 1)];
    let files_only = run(&events);
    assert_eq!(files_only.outcomes.len(), 1);
    assert_eq!(files_only.outcomes[0].original_path, "tmp/My File");

    let mut o = options("tmp");
    o.include_dir = true;
    let with_dirs = fix_names(&o, CaseConvention::KebabCase, Vec::new(), true, &events).unwrap();
    assert_eq!(with_dirs.outcomes.len(), 2);
    assert_eq!(with_dirs.outcomes[0].new_path, "tmp/my-dir");
    assert_eq!(with_dirs.renamed, 2);
}

#[test]
fn target_directory_is_never_a_candidate() {
    let mut o = options("tmp");
    o.include_dir = true;
    let target = WalkEntry { path: "tmp".to_string(), depth: 1, kind: EntryKind::Directory };
    assert!(!o.is_candidate(&target));
    assert_eq!(o.fix_entry(CaseConvention::KebabCase, &target), None);
    let report = fix_entries(&o, CaseConvention::KebabCase, &vec![target]);
    assert_eq!(report.outcomes.len(), 0);
    let other = WalkEntry { path: "tmp/x".to_string(), depth: 1, kind: EntryKind::Other };
    assert!(o.is_candidate(&other));
    assert!(!options("tmp").is_candidate(&other));
}

#[test]
fn fix_is_one_level_deep_unless_recursive() {
    let events = vec![dir("tmp", 0), file("tmp/A b", 1), dir("tmp/sub", 1), file("tmp/sub/C d", 2)];
    assert_eq!(run(&events).outcomes.len(), 1);
    let mut o = options("tmp");
    o.recursive = true;
    let deep = fix_names(&o, CaseConvention::KebabCase, Vec::new(), true, &events).unwrap();
    assert_eq!(deep.outcomes.len(), 2);
    assert_eq!(deep.outcomes[1].new_path, "tmp/sub/c-d");

    let shallow = options("tmp").walk_options(Vec::new());
    assert_eq!(shallow.max_depth, Some(1));
    assert_eq!(shallow.root, "tmp");
    assert!(shallow.require_version_control_boundary);
    assert_eq!(o.walk_options(Vec::new()).max_depth, None);
}

#[test]
fn fix_outside_a_repository_plans_nothing() {
    assert_eq!(
        fix_names(&options("tmp"), CaseConvention::KebabCase, Vec::new(), false, &wrong_files("tmp", 0, 2)),
        Err(NamingError::NoRepository { root: "tmp".to_string() })
    );
}

#[test]
fn fix_keeps_what_was_planned_before_an_unreadable_directory() {
    let events = vec![
        file("tmp/A b", 1),
        WalkEvent::Unreadable { path: "tmp/locked".to_string() },
        file("tmp/C d", 1),
    ];
    let report = run(&events);
    assert_eq!(report.outcomes.len(), 1);
    assert_eq!(report.renamed, 1);
    assert_eq!(report.failure, Some(NamingError::Io { path: "tmp/locked".to_string() }));
}

#[test]
fn tally_counts_successes_and_keeps_failures() {
    let mut tally = FixTally::new();
    assert!(tally.is_clean());
    let change = plan_rename("tmp/A b", CaseConvention::KebabCase);
    let same = plan_rename("tmp/a-b", CaseConvention::KebabCase);
    tally.record(&change, true);
    tally.record(&same, true);
    tally.record(&same, false);
    assert_eq!(tally.renamed, 1);
    assert!(tally.is_clean());
    tally.record(&change, false);
    tally.record(&change, true);
    assert_eq!(tally.renamed, 2);
    assert!(!tally.is_clean());
    assert_eq!(tally.failures, vec![NamingError::Io { path: "tmp/A b".to_string() }]);
}

#[test]
fn one_line_is_translated_or_ends_the_stream() {
    assert_eq!(translate_line("  My File.txt \n", CaseConvention::KebabCase), Some("my-file.txt".to_string()));
    assert_eq!(translate_line("x", CaseConvention::PascalCase), Some("X".to_string()));
    assert_eq!(translate_line("", CaseConvention::KebabCase), None);
    assert_eq!(translate_line(" \t ", CaseConvention::KebabCase), None);
}

#[test]
fn renamed_entry_is_settled_on_a_second_run() {
    for path in ["tmp/mY_wRong File-0", "My File.TXT", "a/b/àÀ.txt", "/x/日本 Report v2.pdf"].iter() {
        let first = plan_rename(path, CaseConvention::KebabCase);
        let second = plan_rename(&first.new_path, CaseConvention::KebabCase);
        assert!(!second.renamed, "{}", path);
        assert_eq!(second.new_path, first.new_path);
    }
}

#[test]
fn lines_are_translated_up_to_the_first_blank_one() {
    let lines: Vec<String> = ["My File.txt", "  second Name \t", "", "never Seen"]
        .iter()
        .map(|l| l.to_string())
        .collect();
    assert_eq!(
        translate_lines(&lines, CaseConvention::KebabCase),
        vec!["my-file.txt".to_string(), "second-name".to_string()]
    );
    let blank_first: Vec<String> = vec!["   ".to_string(), "x".to_string()];
    assert_eq!(translate_lines(&blank_first, CaseConvention::KebabCase), Vec::<String>::new());
    let to_the_end: Vec<String> = vec!["A b".to_string(), "C d".to_string()];
    assert_eq!(
        translate_lines(&to_the_end, CaseConvention::SnakeCase),
        vec!["a_b".to_string(), "c_d".to_string()]
    );
    assert_eq!(translate_lines(&Vec::new(), CaseConvention::SnakeCase), Vec::<String>::new());
}
