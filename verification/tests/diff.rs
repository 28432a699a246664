use powderman::diff::{frame_patch, git_patch};

#[test]
fn the_patch_carries_the_headers_the_renderer_parses() {
    let head = "one\ntwo\nthree\n";
    let work = "one\ntwo point five\nthree\n";
    let full = git_patch("x.rs", head, work).expect("the texts differ");
    assert!(full.starts_with("diff --git a/x.rs b/x.rs\n"));
    assert!(full.contains("@@"), "a hunk header: {full}");
    assert!(full.contains("-two\n"), "the removed line: {full}");
    assert!(full.contains("+two point five\n"), "the added line: {full}");
    assert_eq!(full.matches("--- ").count(), 1, "headers are not doubled");
    assert_eq!(full.matches("+++ ").count(), 1, "headers are not doubled");
}

#[test]
fn a_file_that_matches_head_has_no_patch() {
    assert_eq!(git_patch("x.rs", "same\n", "same\n"), None);
}

#[test]
fn a_new_file_diffs_against_nothing() {
    let full = git_patch("new.rs", "", "fn main() {}\n").expect("new work");
    assert!(full.starts_with("diff --git a/new.rs b/new.rs\n--- a/new.rs\n+++ b/new.rs\n@@"));
    assert!(full.contains("+fn main() {}\n"));
}

#[test]
fn framing_replaces_the_header_and_keeps_the_hunks() {
    assert_eq!(
        frame_patch("f", "--- a/f\n+++ b/f\n@@ -1 +1 @@\n-a\n+b\n"),
        "diff --git a/f b/f\n--- a/f\n+++ b/f\n@@ -1 +1 @@\n-a\n+b\n"
    );
    assert_eq!(frame_patch("f", "no header"), "diff --git a/f b/f\n--- a/f\n+++ b/f\nno header");
    assert_eq!(frame_patch("f", "+++ unterminated"), "diff --git a/f b/f\n--- a/f\n+++ b/f\n+++ unterminated");
}
