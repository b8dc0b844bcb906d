use treedump::plan::{is_path_prefix, should_skip};
use treedump::report::report_line;
use treedump::tree::{parse_entry_type, valid_segment, valid_tree, Entry, EntryType};

fn segs(parts: &[&str]) -> Vec<String> {
    parts.iter().map(|p| p.to_string()).collect()
}

#[test]
fn known_tags_parse() {
    assert_eq!(parse_entry_type("directory"), Some(EntryType::Directory));
    assert_eq!(parse_entry_type("file"), Some(EntryType::File));
    assert_eq!(parse_entry_type("report"), Some(EntryType::Report));
}

#[test]
fn tags_are_case_insensitive() {
    assert_eq!(parse_entry_type("DIRECTORY"), Some(EntryType::Directory));
    assert_eq!(parse_entry_type("File"), Some(EntryType::File));
    assert_eq!(parse_entry_type("rEpOrT"), Some(EntryType::Report));
}

#[test]
fn malformed_type_rejection() {
    assert_eq!(parse_entry_type("symlink"), None);
    assert_eq!(parse_entry_type(""), None);
    assert_eq!(parse_entry_type("directoryy"), None);
    assert_eq!(parse_entry_type("fil"), None);
    assert_eq!(parse_entry_type("file "), None);
}

#[test]
fn report_line_renders_exact_text() {
    assert_eq!(report_line(3, 5), "Written 3 directories and 5 files.");
    assert_eq!(report_line(0, 0), "Written 0 directories and 0 files.");
    assert_eq!(
        report_line(1234567890, 18446744073709551615),
        "Written 1234567890 directories and 18446744073709551615 files."
    );
}

#[test]
fn safe_segments_pass() {
    assert!(valid_segment("a"));
    assert!(valid_segment("b.txt"));
    assert!(valid_segment("..."));
    assert!(valid_segment("."));
    assert!(valid_segment("spaced name"));
}

#[test]
fn traversal_segments_are_rejected() {
    assert!(!valid_segment(".."));
    assert!(!valid_segment("a/b"));
    assert!(!valid_segment("/"));
    assert!(!valid_segment("a\\b"));
    assert!(!valid_segment("../x"));
}

#[test]
fn valid_tree_checks_nested_names() {
    let bad = Entry {
        fs_type: EntryType::Directory,
        name: Some("ok".to_string()),
        contents: Some(vec![Entry {
            fs_type: EntryType::File,
            name: Some("../escape".to_string()),
            contents: None,
            directories: None,
            files: None,
        }]),
        directories: None,
        files: None,
    };
    assert!(!valid_tree(&bad));
    let good = Entry {
        fs_type: EntryType::Directory,
        name: Some("ok".to_string()),
        contents: Some(vec![Entry {
            fs_type: EntryType::File,
            name: Some("fine".to_string()),
            contents: None,
            directories: None,
            files: None,
        }]),
        directories: None,
        files: None,
    };
    assert!(valid_tree(&good));
}

#[test]
fn prefix_is_segment_wise() {
    assert!(is_path_prefix(&segs(&["a"]), &segs(&["a", "b"])));
    assert!(is_path_prefix(&segs(&[]), &segs(&["a"])));
    assert!(is_path_prefix(&segs(&["a", "b"]), &segs(&["a", "b"])));
    assert!(!is_path_prefix(&segs(&["a"]), &segs(&["ab"])));
    assert!(!is_path_prefix(&segs(&["a", "b"]), &segs(&["a"])));
    assert!(!is_path_prefix(&segs(&["b"]), &segs(&["a", "b"])));
}

#[test]
fn failure_poisons_only_the_failed_subtree() {
    let failed = vec![segs(&["a"])];
    assert!(should_skip(&segs(&["a", "b"]), &failed));
    assert!(should_skip(&segs(&["a"]), &failed));
    assert!(!should_skip(&segs(&["ab"]), &failed));
    assert!(!should_skip(&segs(&["b", "a"]), &failed));
    assert!(!should_skip(&segs(&["x"]), &Vec::new()));
}
