use powderman::viewer::{
    code_footer, language_of, lines_in, size_verdict, target_kind, target_noun, text_of, MAX_SOURCE,
};

#[test]
fn an_unknown_extension_is_text_not_the_extension() {
    assert_eq!(language_of("src/main.rs"), "Rust");
    assert_eq!(language_of("a/b/build.ts"), "TypeScript");
    assert_eq!(language_of("Cargo.toml"), "TOML");
    assert_eq!(language_of("notes.qqq"), "Text");
    assert_eq!(language_of("Makefile"), "Text", "no extension at all");
    assert_eq!(language_of(""), "Text");
}

#[test]
fn only_the_last_extension_counts() {
    assert_eq!(language_of("notes.rs.bak"), "Text");
    assert_eq!(language_of("x.yml"), "YAML");
}

#[test]
fn lines_count_like_str_lines() {
    assert_eq!(lines_in(""), 0);
    assert_eq!(lines_in("a"), 1);
    assert_eq!(lines_in("a\n"), 1);
    assert_eq!(lines_in("a\n\nb"), 3);
    assert_eq!(lines_in("\n"), 1);
    assert_eq!(code_footer("lib.rs", "fn a() {}\nfn b() {}\n"), "Rust \u{b7} 2 lines");
}

#[test]
fn a_viewer_declines_what_it_should_not_show() {
    assert_eq!(size_verdict("d", true, 0), Err("d is a directory".to_string()));
    assert_eq!(size_verdict("f", false, MAX_SOURCE), Ok(()));
    assert_eq!(
        size_verdict("big.log", false, 3 * 1024 * 1024),
        Err("big.log is 3.0 M \u{2014} too large to display".to_string())
    );
    assert_eq!(text_of("a.bin", vec![1, 0, 2]), Err("a.bin is binary".to_string()));
    assert_eq!(text_of("bad.txt", vec![0xff, 0xfe]), Err("bad.txt is not valid UTF-8".to_string()));
    assert_eq!(text_of("ok.txt", "h\u{e9}".as_bytes().to_vec()), Ok("h\u{e9}".to_string()));
    let mut late = vec![b'a'; 8000];
    late.push(0);
    assert!(text_of("late.txt", late).is_ok(), "a NUL past the sniffed block is text");
}

#[test]
fn each_target_has_a_kind_and_a_noun() {
    assert_eq!(target_kind("diff"), Some("file"));
    assert_eq!(target_kind("files"), Some("folder"));
    assert_eq!(target_kind("machine"), None);
    assert_eq!(target_noun("diff"), "Changed file");
    assert_eq!(target_noun("machine"), "Target");
}
