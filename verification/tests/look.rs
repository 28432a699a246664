use powderman::icons::{has_icon, icon, icons};
use powderman::theme::{theme_css, themes};
use powderman::vendor::{asset, script_tag, BundleFiles, MOUNT};

#[test]
fn an_icon_is_inline_svg_that_inherits_its_colour() {
    let svg = icon("chart-line");
    assert!(svg.starts_with("<svg"), "{svg}");
    assert!(svg.contains("currentColor"), "an icon takes the text colour");
    assert!(svg.contains("viewBox=\"0 0 24 24\""), "one grid for all of them");
    assert!(svg.contains("<path"), "and has something to draw");
}

#[test]
fn a_name_nobody_drew_is_nothing_rather_than_a_placeholder() {
    assert_eq!(icon("no-such-icon"), "");
    assert!(!has_icon("no-such-icon"));
    assert!(has_icon("folder"));
}

#[test]
fn every_glyph_is_drawable_and_none_is_duplicated() {
    let table = icons();
    let mut names: Vec<&str> = table.iter().map(|(n, _)| *n).collect();
    let before = names.len();
    names.sort_unstable();
    names.dedup();
    assert_eq!(names.len(), before, "an icon name is listed twice");
    for (name, body) in &table {
        assert!(body.contains("<path") || body.contains("<circle"), "{name} draws nothing");
        assert!(!body.contains("stroke=\"none\""), "{name} kept the sizing stub");
    }
}

#[test]
fn an_icon_wraps_its_body_in_the_shared_frame() {
    let (name, body) = icons()[0];
    let svg = icon(name);
    assert!(svg.contains(body));
    assert!(svg.ends_with("</svg>"));
}

#[test]
fn theme_css_defines_tokens_and_falls_back() {
    let css = theme_css("Light");
    assert!(css.starts_with(":root {"));
    assert!(css.contains("--im-bg: #d6d6d8;"));
    assert_eq!(theme_css("nope"), theme_css("Blender Dark"));
}

#[test]
fn every_theme_defines_the_same_token_set() {
    let all = themes();
    let base: Vec<&str> = all[0].tokens().iter().map(|(k, _)| *k).collect();
    for t in &all {
        let keys: Vec<&str> = t.tokens().iter().map(|(k, _)| *k).collect();
        assert_eq!(keys, base, "theme {} has a different token set", t.name);
    }
}

#[test]
fn the_dark_theme_block_is_exact() {
    assert_eq!(
        theme_css("Blender Dark"),
        ":root { --im-bg: #1a1a1d; --im-panel: #2b2b30; --im-header: #33333a; \
         --im-surface: #232327; --im-input-bg: #232327; --im-border: #47474f; \
         --im-seam: #0e0e10; --im-text: #e8e8e4; --im-text-muted: #a2a29c; }"
    );
}

fn files() -> BundleFiles {
    BundleFiles {
        diffs: vec![("entry.js".to_string(), b"export {}".to_vec())],
        vega: vec![("entry.js".to_string(), b"export {};".to_vec())],
    }
}

#[test]
fn a_request_cannot_leave_a_bundle() {
    let f = files();
    for bad in ["../Cargo.toml", "a/b.js", "../../etc/passwd", "..%2fx"] {
        assert!(asset(&f, "diffs", bad).is_none(), "{bad} resolved");
    }
    assert!(asset(&f, "diffs", "nope.js").is_none());
    assert!(asset(&f, "../vega", "entry.js").is_none());
    assert!(asset(&f, "nope", "entry.js").is_none());
}

#[test]
fn a_vendored_file_is_served_from_its_own_bundle() {
    let f = files();
    assert_eq!(asset(&f, "diffs", "entry.js").map(|v| v.as_slice()), Some(&b"export {}"[..]));
    assert_eq!(asset(&f, "vega", "entry.js").map(|v| v.as_slice()), Some(&b"export {};"[..]));
}

#[test]
fn every_bundle_has_a_script_tag() {
    let tags = script_tag();
    for b in ["diffs", "vega"] {
        assert!(tags.contains(&format!("{MOUNT}/{b}/entry.js")));
    }
    assert_eq!(
        tags,
        "<script type=\"module\" src=\"/vendor/diffs/entry.js\"></script>\
         <script type=\"module\" src=\"/vendor/vega/entry.js\"></script>"
    );
}
