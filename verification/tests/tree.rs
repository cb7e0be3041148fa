use app_organizer::walk::Tree;

fn path(parts: &[&str]) -> Vec<String> {
    parts.iter().map(|p| p.to_string()).collect()
}

#[test]
fn entries_split_into_sorted_files_and_dirs() {
    let tree = Tree::from_entries(vec![
        (path(&["src", "b.rs"]), false),
        (path(&[]), true),
        (path(&["src"]), true),
        (path(&["a.rs"]), false),
        (path(&["src", "a", "x.rs"]), false),
        (path(&["src", "a"]), true),
    ]);
    assert_eq!(
        tree.files,
        vec![path(&["a.rs"]), path(&["src", "a", "x.rs"]), path(&["src", "b.rs"])]
    );
    assert_eq!(tree.dirs, vec![path(&["src"]), path(&["src", "a"])]);
}

#[test]
fn paths_sort_by_component_not_by_text() {
    let tree = Tree::from_entries(vec![
        (path(&["a-b"]), false),
        (path(&["a", "z"]), false),
        (path(&["a"]), false),
    ]);
    assert_eq!(tree.files, vec![path(&["a"]), path(&["a", "z"]), path(&["a-b"])]);
}

#[test]
fn an_empty_walk_finds_nothing() {
    let tree = Tree::from_entries(Vec::new());
    assert!(tree.files.is_empty() && tree.dirs.is_empty());
}
