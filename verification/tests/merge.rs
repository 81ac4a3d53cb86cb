use flake_parts_builder::fs_utils::merge_file_contents;
use flake_parts_builder::fs_utils::merge_lines;
use flake_parts_builder::fs_utils::LineDiff;

fn lines(items: &[&str]) -> Vec<String> {
    items.iter().map(|s| s.to_string()).collect()
}

#[test]
fn merge_keeps_incoming_and_local_lines() {
    let base = lines(&["a", "b", "c"]);
    let theirs = lines(&["a", "x", "c"]);
    let ours = lines(&["a", "b", "d"]);
    let merged = merge_file_contents(&base, &theirs, &ours);
    // The incoming replacement of the second line lands next to the
    // kept local line; the shared third line comes from the incoming
    // side.
    assert_eq!(merged, lines(&["a", "b", "x", "c"]));
}

#[test]
fn merge_identical_contents_is_identity() {
    let content = lines(&["one", "two", "three"]);
    let merged = merge_file_contents(&content, &content, &content);
    assert_eq!(merged, content);
}

#[test]
fn merge_appends_incoming_additions() {
    let base = lines(&["a"]);
    let theirs = lines(&["a", "b"]);
    let ours = lines(&["a"]);
    let merged = merge_file_contents(&base, &theirs, &ours);
    assert_eq!(merged, lines(&["a", "b"]));
}

#[test]
fn merge_appends_remaining_local_lines() {
    let base = lines(&["a"]);
    let theirs = lines(&["a"]);
    let ours = lines(&["a", "local"]);
    let merged = merge_file_contents(&base, &theirs, &ours);
    assert_eq!(merged, lines(&["a", "local"]));
}

#[test]
fn merge_lines_applies_explicit_diff() {
    let diffs = vec![
        LineDiff::Both("a".to_string(), "a".to_string()),
        LineDiff::Left("b".to_string()),
        LineDiff::Right("x".to_string()),
    ];
    let ours = lines(&["a", "mine", "extra"]);
    let merged = merge_lines(&diffs, &ours);
    // Both: the shared line; Left: the local line under the cursor
    // replaces the dropped base line; Right: the incoming line; then
    // the remaining local lines.
    assert_eq!(merged, lines(&["a", "mine", "x", "extra"]));
}
