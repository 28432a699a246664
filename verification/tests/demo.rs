use powderman::demo::{byte_len, changed_files, file_children, file_diff, file_source, human_size};

#[test]
fn the_fabricated_tree_walks_one_level_at_a_time() {
    let root = file_children("");
    let names: Vec<&str> = root.iter().map(|r| r.label.as_str()).collect();
    assert!(names.contains(&"docs/"), "{names:?}");
    assert!(names.contains(&"README.md"), "{names:?}");
    assert!(
        !names.iter().any(|n| n.contains('/') && !n.ends_with('/')),
        "a deeper path leaked into the root level: {names:?}"
    );
    let src = file_children("/immersion/src");
    assert!(src.iter().all(|r| !r.has_children), "no dirs at that level");
    assert!(src.iter().any(|r| r.label == "tree.rs"));
    assert!(file_children("/etc").is_empty());
    assert!(file_children("/../..").is_empty());
}

fn walk(dir: &str, seen: &mut usize) {
    for row in file_children(dir) {
        if row.has_children {
            walk(&row.pointer, seen);
        } else {
            let body = file_source(&row.pointer)
                .unwrap_or_else(|| panic!("{} is listed but has no contents", row.pointer));
            assert!(!body.is_empty(), "{} is empty", row.pointer);
            assert_eq!(row.preview, human_size(body.len() as u64));
            assert_eq!(byte_len(body), body.len() as u128);
            *seen += 1;
        }
    }
}

#[test]
fn everything_listed_can_be_opened() {
    let mut seen = 0;
    walk("", &mut seen);
    assert!(seen >= 8, "only {seen} files in the fabricated tree");
}

#[test]
fn the_diff_viewer_has_both_cases_to_show() {
    let changed = file_diff("/immersion/src/tree.rs")
        .expect("the file exists")
        .expect("and is presented as changed");
    assert!(changed.starts_with("diff --git "), "git header: {changed}");
    assert!(changed.contains("@@"), "a hunk header");
    assert!(changed.contains("\n+"), "an added line");
    assert!(
        file_diff("/README.md").expect("exists").is_none(),
        "an unchanged file matches HEAD"
    );
    assert!(file_diff("/etc/passwd").is_none(), "no such file");
}

#[test]
fn the_changed_files_are_the_ones_with_a_diff() {
    for path in changed_files() {
        assert!(file_diff(path).expect("listed").is_some(), "{path}");
    }
}

#[test]
fn sizes_read_like_a_file_browser() {
    assert_eq!(human_size(0), "0 B");
    assert_eq!(human_size(1023), "1023 B");
    assert_eq!(human_size(1024), "1.0 K");
    assert_eq!(human_size(1536), "1.5 K");
    assert_eq!(human_size(1280), "1.2 K", "a tie rounds to even");
    assert_eq!(human_size(1408), "1.4 K");
    assert_eq!(human_size(1024 * 1024), "1.0 M");
    assert_eq!(human_size(3 * 1024 * 1024 * 1024), "3.0 G");
}
