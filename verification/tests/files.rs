use powderman::files::{changed_rows, listing, DirEntry, CAP};

#[test]
fn porcelain_lines_become_changed_file_rows() {
    let out = " M immersion/src/tree.rs\n?? notes.md\nR  old.rs -> src/new.rs\n D gone.txt\nA  added.rs\r\n";
    let rows = changed_rows(out);
    let got: Vec<(&str, &str, &str)> = rows
        .iter()
        .map(|r| (r.pointer.as_str(), r.label.as_str(), r.preview.as_str()))
        .collect();
    assert_eq!(
        got,
        [
            ("/immersion/src/tree.rs", "tree.rs", "modified  immersion/src/tree.rs"),
            ("/notes.md", "notes.md", "new  notes.md"),
            ("/src/new.rs", "new.rs", "modified  src/new.rs"),
            ("/gone.txt", "gone.txt", "deleted  gone.txt"),
            ("/added.rs", "added.rs", "added  added.rs"),
        ]
    );
    assert!(rows.iter().all(|r| !r.has_children));
    assert!(changed_rows("").is_empty());
    assert!(changed_rows("?? \n").is_empty(), "a line with no path is no row");
}

fn entry(name: &str, is_dir: bool, len: u64) -> DirEntry {
    DirEntry { name: name.to_string(), is_dir, len }
}

#[test]
fn a_level_lists_folders_then_files_then_dot_files() {
    let rows = listing(
        "/src",
        vec![
            entry(".env", false, 10),
            entry("b.rs", false, 2048),
            entry(".git", true, 0),
            entry("a.rs", false, 5),
            entry("lib", true, 0),
        ],
    );
    let labels: Vec<&str> = rows.iter().map(|r| r.label.as_str()).collect();
    assert_eq!(labels, ["lib/", ".git/", "a.rs", "b.rs", ".env"]);
    assert_eq!(rows[0].pointer, "/src/lib");
    assert!(rows[0].has_children && rows[0].preview.is_empty());
    assert_eq!(rows[3].preview, "2.0 K");
    assert_eq!(rows[2].preview, "5 B");
}

#[test]
fn a_huge_level_is_capped_with_a_count_of_the_rest() {
    let entries: Vec<DirEntry> = (0..(CAP + 7)).map(|i| entry(&format!("f{i:04}"), false, 1)).collect();
    let rows = listing("", entries);
    assert_eq!(rows.len(), CAP + 1);
    assert_eq!(rows[0].label, "f0000");
    assert_eq!(rows[CAP].label, "\u{2026} 7 more");
    assert_eq!(rows[CAP].pointer, "/\u{2026}");
}
