use treedump::plan::{plan_document, walk_entry, Action, PlanError, RootPlan};
use treedump::tree::{Entry, EntryType};

fn segs(parts: &[&str]) -> Vec<String> {
    parts.iter().map(|p| p.to_string()).collect()
}

fn dir(name: Option<&str>, contents: Vec<Entry>) -> Entry {
    Entry {
        fs_type: EntryType::Directory,
        name: name.map(|n| n.to_string()),
        contents: Some(contents),
        directories: None,
        files: None,
    }
}

fn leaf_dir(name: &str) -> Entry {
    Entry {
        fs_type: EntryType::Directory,
        name: Some(name.to_string()),
        contents: None,
        directories: None,
        files: None,
    }
}

fn file(name: &str) -> Entry {
    Entry {
        fs_type: EntryType::File,
        name: Some(name.to_string()),
        contents: None,
        directories: None,
        files: None,
    }
}

fn report(directories: Option<u64>, files: Option<u64>) -> Entry {
    Entry {
        fs_type: EntryType::Report,
        name: None,
        contents: None,
        directories,
        files,
    }
}

#[test]
fn path_composition() {
    let tree = dir(Some("a"), vec![file("b.txt")]);
    let actions = walk_entry(&tree, &Vec::new());
    assert_eq!(
        actions,
        vec![
            Action::MkDir(segs(&["a"])),
            Action::MkFile(segs(&["a", "b.txt"])),
        ]
    );
}

#[test]
fn sibling_isolation() {
    let tree = dir(
        None,
        vec![
            dir(Some("x"), vec![file("f")]),
            dir(Some("y"), vec![file("f")]),
        ],
    );
    let actions = walk_entry(&tree, &Vec::new());
    assert_eq!(
        actions,
        vec![
            Action::MkDir(segs(&[])),
            Action::MkDir(segs(&["x"])),
            Action::MkFile(segs(&["x", "f"])),
            Action::MkDir(segs(&["y"])),
            Action::MkFile(segs(&["y", "f"])),
        ]
    );
}

#[test]
fn unnamed_root_targets_output_directory() {
    let tree = dir(None, vec![]);
    let actions = walk_entry(&tree, &Vec::new());
    assert_eq!(actions, vec![Action::MkDir(segs(&[]))]);
}

#[test]
fn named_nodes_extend_a_nonempty_base() {
    let tree = file("data.bin");
    let actions = walk_entry(&tree, &segs(&["deep", "nest"]));
    assert_eq!(
        actions,
        vec![Action::MkFile(segs(&["deep", "nest", "data.bin"]))]
    );
}

#[test]
fn report_inside_a_tree_creates_nothing_of_its_own() {
    let mut rep = report(Some(1), Some(2));
    rep.contents = Some(vec![file("f")]);
    let tree = dir(Some("d"), vec![rep]);
    let actions = walk_entry(&tree, &Vec::new());
    assert_eq!(
        actions,
        vec![
            Action::MkDir(segs(&["d"])),
            Action::MkFile(segs(&["d", "f"])),
        ]
    );
}

#[test]
fn unnamed_file_root_targets_output_path() {
    let tree = Entry {
        fs_type: EntryType::File,
        name: None,
        contents: None,
        directories: None,
        files: None,
    };
    let actions = walk_entry(&tree, &Vec::new());
    assert_eq!(actions, vec![Action::MkFile(segs(&[]))]);
}

#[test]
fn deep_nesting_composes_every_segment() {
    let tree = dir(
        Some("a"),
        vec![dir(Some("b"), vec![dir(Some("c"), vec![file("d")])])],
    );
    let actions = walk_entry(&tree, &Vec::new());
    assert_eq!(
        actions,
        vec![
            Action::MkDir(segs(&["a"])),
            Action::MkDir(segs(&["a", "b"])),
            Action::MkDir(segs(&["a", "b", "c"])),
            Action::MkFile(segs(&["a", "b", "c", "d"])),
        ]
    );
}

#[test]
fn walking_twice_plans_the_same_actions() {
    let tree = dir(Some("a"), vec![file("b.txt"), leaf_dir("c")]);
    let first = walk_entry(&tree, &Vec::new());
    let second = walk_entry(&tree, &Vec::new());
    assert_eq!(first, second);
}

#[test]
fn report_pass_through() {
    let doc = vec![report(Some(3), Some(5))];
    let plans = plan_document(&doc).expect("a well-formed report plans");
    assert_eq!(plans.len(), 1);
    match &plans[0] {
        RootPlan::Summary(line) => {
            assert_eq!(line, "Written 3 directories and 5 files.");
        }
        RootPlan::Actions(_) => panic!("a report root must not plan actions"),
    }
}

#[test]
fn plan_orders_roots_as_the_document_does() {
    let doc = vec![
        dir(Some("a"), vec![file("b")]),
        report(Some(1), Some(1)),
        file("c"),
    ];
    let plans = plan_document(&doc).expect("well-formed document");
    assert_eq!(plans.len(), 3);
    match &plans[0] {
        RootPlan::Actions(acts) => assert_eq!(
            acts,
            &vec![
                Action::MkDir(segs(&["a"])),
                Action::MkFile(segs(&["a", "b"])),
            ]
        ),
        RootPlan::Summary(_) => panic!("first root is a directory"),
    }
    assert!(matches!(&plans[1], RootPlan::Summary(_)));
    match &plans[2] {
        RootPlan::Actions(acts) => assert_eq!(acts, &vec![Action::MkFile(segs(&["c"]))]),
        RootPlan::Summary(_) => panic!("third root is a file"),
    }
}

#[test]
fn report_missing_files_counter_is_an_input_error() {
    let doc = vec![report(Some(3), None)];
    assert_eq!(
        plan_document(&doc),
        Err(PlanError::MissingReportCounts { index: 0 })
    );
}

#[test]
fn report_missing_directories_counter_is_an_input_error() {
    let doc = vec![dir(Some("a"), vec![]), report(None, Some(5))];
    assert_eq!(
        plan_document(&doc),
        Err(PlanError::MissingReportCounts { index: 1 })
    );
}

#[test]
fn first_bad_report_wins() {
    let doc = vec![report(None, None), report(Some(1), None)];
    assert_eq!(
        plan_document(&doc),
        Err(PlanError::MissingReportCounts { index: 0 })
    );
}
