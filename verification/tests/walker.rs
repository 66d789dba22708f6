use headstamp::filter::{FilterError, Matcher};
use headstamp::walk::{plan, Entry, Target};

fn file(name: &str) -> Entry {
    Entry::File { name: name.to_string() }
}

fn dir(name: &str, entries: Vec<Entry>) -> Entry {
    Entry::Dir { name: name.to_string(), entries }
}

fn paths(targets: &[Target]) -> Vec<Vec<String>> {
    targets.iter().map(|t| t.path.clone()).collect()
}

fn components(parts: &[&str]) -> Vec<String> {
    parts.iter().map(|p| p.to_string()).collect()
}

#[test]
fn invalid_pattern_is_reported() {
    let r = Matcher::new("(");
    assert!(matches!(r, Err(FilterError::InvalidPattern)));
}

#[test]
fn match_all_pattern_accepts_everything() {
    let m = Matcher::new(".*").unwrap();
    assert!(m.is_match("a.txt"));
    assert!(m.is_match(""));
    assert!(m.is_match("anything at all"));
}

#[test]
fn suffix_pattern_selects_by_base_name() {
    let m = Matcher::new(r".*\.txt$").unwrap();
    assert!(m.is_match("a.txt"));
    assert!(!m.is_match("b.bin"));
    assert!(!m.is_match("a.txt.bak"));
}

#[test]
fn filtered_plan_selects_only_matching_files() {
    // Two files side by side; only the .txt one is planned for mutation.
    let entries = vec![file("a.txt"), file("b.bin")];
    let filter = Some(Matcher::new(r".*\.txt$").unwrap());
    let r = plan(&entries, &filter, false);
    assert_eq!(paths(&r), vec![components(&["a.txt"])]);
}

#[test]
fn default_filter_accepts_every_name() {
    let entries = vec![file("a.txt"), file("b.bin")];
    let r = plan(&entries, &None, false);
    assert_eq!(
        paths(&r),
        vec![components(&["a.txt"]), components(&["b.bin"])]
    );
}

#[test]
fn non_recursive_plan_ignores_subdirectories() {
    let entries = vec![
        file("root.txt"),
        dir("sub", vec![file("inner.txt"), dir("deep", vec![file("deep.txt")])]),
    ];
    let r = plan(&entries, &None, false);
    assert_eq!(paths(&r), vec![components(&["root.txt"])]);
}

#[test]
fn recursive_plan_reaches_every_depth() {
    let entries = vec![
        file("root.txt"),
        dir("sub", vec![file("inner.txt"), dir("deep", vec![file("deep.txt")])]),
    ];
    let r = plan(&entries, &None, true);
    assert_eq!(
        paths(&r),
        vec![
            components(&["root.txt"]),
            components(&["sub", "inner.txt"]),
            components(&["sub", "deep", "deep.txt"]),
        ]
    );
}

#[test]
fn recursive_plan_filters_at_every_depth() {
    let entries = vec![
        file("root.txt"),
        file("notes.bin"),
        dir("sub", vec![file("inner.txt"), file("inner.bin")]),
    ];
    let filter = Some(Matcher::new(r".*\.txt$").unwrap());
    let r = plan(&entries, &filter, true);
    assert_eq!(
        paths(&r),
        vec![components(&["root.txt"]), components(&["sub", "inner.txt"])]
    );
}

#[test]
fn empty_directory_plans_nothing() {
    let entries: Vec<Entry> = Vec::new();
    let r = plan(&entries, &None, true);
    assert!(r.is_empty());
}
