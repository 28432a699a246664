use powderman::json::{Json, Member, Number};
use powderman::tree::{data_children, escape_pointer, list_rows, preview, resolve, value_children, DataMounts, TreeRow};

fn num(n: u64) -> Json {
    Json::Num(Number::PosInt(n))
}

fn obj(members: Vec<(&str, Json)>) -> Json {
    Json::Object(
        members
            .into_iter()
            .map(|(k, v)| Member { key: k.to_string(), value: v })
            .collect(),
    )
}

#[test]
fn a_document_walks_level_by_level() {
    let doc = obj(vec![
        ("a", Json::Array(vec![Json::Bool(true), Json::Str("hi".into())])),
        ("b", obj(vec![("x", num(1))])),
        ("n", num(7)),
    ]);
    let top = value_children(&doc, "");
    let labels: Vec<&str> = top.iter().map(|r| r.label.as_str()).collect();
    assert_eq!(labels, ["a", "b", "n"], "objects list in key order");
    assert!(top[0].has_children && top[1].has_children && !top[2].has_children);
    let a = value_children(&doc, "/a");
    assert_eq!(a[0].pointer, "/a/0");
    assert_eq!(a[1].preview, "\u{201c}hi\u{201d}");
}

#[test]
fn a_key_with_a_slash_stays_one_segment() {
    let doc = obj(vec![("a/b", obj(vec![("c", num(1))]))]);
    let top = value_children(&doc, "");
    assert_eq!(top[0].pointer, "/a~1b");
    let below = value_children(&doc, "/a~1b");
    assert_eq!(below[0].pointer, "/a~1b/c");
    assert_eq!(below[0].preview, "1");
}

#[test]
fn previews_stay_short() {
    let long = "x".repeat(100);
    let doc = obj(vec![
        ("arr", Json::Array(vec![num(1), num(2), num(3)])),
        ("obj", obj(vec![("a", num(1)), ("b", num(2))])),
        ("s", Json::Str(long)),
    ]);
    let rows = value_children(&doc, "");
    assert_eq!(rows[0].preview, "[3]");
    assert_eq!(rows[1].preview, "{2}");
    assert!(rows[2].preview.chars().count() <= 43);
}

#[test]
fn scalars_preview_as_themselves() {
    assert_eq!(preview(&Json::Null), "null");
    assert_eq!(preview(&Json::Bool(false)), "false");
    assert_eq!(preview(&Json::Num(Number::NegInt(-42))), "-42");
    assert_eq!(preview(&Json::Num(Number::Float(1_500_000))), "1.5");
    assert_eq!(preview(&Json::Num(Number::Float(-250_000))), "-0.25");
    assert_eq!(preview(&Json::Num(Number::Float(2_000_000))), "2.0");
    let forty_one = "y".repeat(41);
    let p = preview(&Json::Str(forty_one));
    assert_eq!(p, format!("\u{201c}{}\u{2026}\u{201d}", "y".repeat(40)));
}

#[test]
fn a_pointer_that_leads_nowhere_has_no_children() {
    let doc = obj(vec![("a", Json::Array(vec![num(1)]))]);
    assert!(value_children(&doc, "/missing").is_empty());
    assert!(value_children(&doc, "a").is_empty(), "a pointer starts with a slash");
    assert!(value_children(&doc, "/a/01").is_empty(), "no leading zeros in an index");
    assert!(value_children(&doc, "/a/0").is_empty(), "a scalar has no children");
    assert!(resolve(&doc, "/a/0").is_some());
    assert!(resolve(&doc, "/a/1").is_none());
}

#[test]
fn a_tilde_in_a_key_escapes_before_a_slash() {
    assert_eq!(escape_pointer("a~/b"), "a~0~1b");
    let doc = obj(vec![("a~/b", num(3))]);
    assert!(matches!(resolve(&doc, "/a~0~1b"), Some(Json::Num(Number::PosInt(3)))));
}

fn row(label: &str, branch: bool) -> TreeRow {
    TreeRow {
        pointer: format!("/{label}"),
        label: label.to_string(),
        preview: String::new(),
        has_children: branch,
    }
}

#[test]
fn listing_puts_branches_first_then_labels_in_order() {
    let rows = vec![row("b.txt", false), row("src", true), row("a.txt", false), row("docs", true)];
    let listed: Vec<String> = list_rows(rows).into_iter().map(|r| r.label).collect();
    assert_eq!(listed, ["docs", "src", "a.txt", "b.txt"]);
}

fn mounts() -> DataMounts {
    DataMounts {
        layout: obj(vec![("active", num(0))]),
        settings: obj(vec![("theme", Json::Str("Blender Dark".into())), ("window", obj(vec![("hours", num(1))]))]),
        keymap: Json::Null,
        favorites: Json::Array(vec![num(1), num(2)]),
        state: obj(vec![]),
    }
}

#[test]
fn the_data_root_lists_the_mounts() {
    let rows = data_children(&mounts(), "");
    let labels: Vec<&str> = rows.iter().map(|r| r.label.as_str()).collect();
    assert_eq!(labels, ["/layout", "/settings", "/keymap", "/favorites", "/state"]);
    assert!(rows.iter().all(|r| r.has_children && r.pointer == r.label));
    assert_eq!(rows[4].preview, "host snapshot (read-only)");
}

#[test]
fn a_data_pointer_walks_inside_its_mount() {
    let m = mounts();
    let top = data_children(&m, "/settings");
    let pointers: Vec<&str> = top.iter().map(|r| r.pointer.as_str()).collect();
    assert_eq!(pointers, ["/settings/theme", "/settings/window"]);
    let inner = data_children(&m, "/settings/window");
    assert_eq!(inner.len(), 1);
    assert_eq!(inner[0].pointer, "/settings/window/hours");
    assert_eq!(inner[0].label, "hours");
    assert_eq!(data_children(&m, "/favorites")[1].pointer, "/favorites/1");
    assert!(data_children(&m, "/keymap").is_empty());
    assert!(data_children(&m, "/nope").is_empty());
    assert!(data_children(&m, "/settingsx").is_empty());
}

#[test]
fn strings_are_escaped_as_json_asks() {
    let s = powderman::json::Json::Str("a\"b\\c\nd\u{1}\u{8}\u{c}\r\t\u{1f}é\u{7f}".to_string());
    assert_eq!(
        powderman::tree::json_string(&s),
        "\"a\\\"b\\\\c\\nd\\u0001\\b\\f\\r\\t\\u001fé\u{7f}\""
    );
}
