use powderman::json::{Json, Member, Number};
use powderman::settings::{apply_edit, default_settings, set_setting, settings_doc, window_hours};
use powderman::tree::resolve;

fn num(n: u64) -> Json {
    Json::Num(Number::PosInt(n))
}

fn text(s: &str) -> Json {
    Json::Str(s.to_string())
}

fn obj(members: Vec<(&str, Json)>) -> Json {
    Json::Object(
        members
            .into_iter()
            .map(|(k, v)| Member { key: k.to_string(), value: v })
            .collect(),
    )
}

fn keys(j: &Json) -> Vec<String> {
    match j {
        Json::Object(ms) => ms.iter().map(|m| m.key.clone()).collect(),
        _ => panic!("an object"),
    }
}

#[test]
fn apply_edit_sets_a_top_level_key() {
    let mut doc = obj(vec![("accent", text("#000000")), ("splash", Json::Bool(true))]);
    apply_edit(&mut doc, "/accent", text("#5680c2"));
    assert!(matches!(doc.get("accent"), Some(Json::Str(s)) if s == "#5680c2"));
    assert!(matches!(doc.get("splash"), Some(Json::Bool(true))));
}

#[test]
fn apply_edit_grows_a_missing_nested_path() {
    let mut doc = obj(vec![]);
    apply_edit(&mut doc, "/sweep/limit", num(100));
    let sweep = doc.get("sweep").expect("grown");
    assert_eq!(sweep.get("limit").and_then(|v| v.as_u64()), Some(100));
}

#[test]
fn a_field_reads_its_value_by_pointer() {
    let doc = obj(vec![("sweep", obj(vec![("limit", num(250))]))]);
    assert_eq!(resolve(&doc, "/sweep/limit").and_then(|v| v.as_u64()), Some(250));
    assert!(resolve(&doc, "/missing").is_none());
}

#[test]
fn an_edit_keeps_keys_in_order_and_replaces_what_is_in_the_way() {
    let mut doc = obj(vec![("a", num(1)), ("c", num(3))]);
    apply_edit(&mut doc, "/b", num(2));
    assert_eq!(keys(&doc), ["a", "b", "c"]);
    apply_edit(&mut doc, "/a/x", num(9));
    assert_eq!(resolve(&doc, "/a/x").and_then(|v| v.as_u64()), Some(9));
    apply_edit(&mut doc, "//c", num(4));
    assert_eq!(doc.get("c").and_then(|v| v.as_u64()), Some(4), "leading slashes collapse");
    apply_edit(&mut doc, "/", Json::Null);
    assert!(matches!(doc, Json::Null), "an empty path replaces the document");
    let mut scalar = num(5);
    apply_edit(&mut scalar, "/k", num(6));
    assert_eq!(keys(&scalar), ["k"]);
}

#[test]
fn defaults_fill_what_was_not_stored() {
    let d = default_settings();
    assert_eq!(
        keys(&d),
        [
            "accent",
            "chart_window",
            "density",
            "favorites",
            "poll_ms",
            "splash_on_start",
            "sweep_limit",
            "theme",
            "tooltips_on",
            "ui_scale"
        ]
    );
    let stored = obj(vec![("theme", text("Light")), ("zoom", num(2))]);
    let s = settings_doc(&stored);
    assert!(matches!(s.get("theme"), Some(Json::Str(t)) if t == "Light"));
    assert_eq!(s.get("poll_ms").and_then(|v| v.as_u64()), Some(1000));
    assert_eq!(s.get("zoom").and_then(|v| v.as_u64()), Some(2));
    assert_eq!(keys(&s).len(), 11);
    let none = settings_doc(&Json::Null);
    assert_eq!(keys(&none).len(), 10);
}

#[test]
fn a_setting_edit_lands_on_the_settings_in_force() {
    let s = set_setting(&Json::Null, "/sweep_limit", num(250));
    assert_eq!(s.get("sweep_limit").and_then(|v| v.as_u64()), Some(250));
    assert_eq!(s.get("density").and_then(|v| v.as_str()), Some("cozy"));
}

#[test]
fn the_window_comes_from_the_setting_and_survives_nonsense() {
    let window = |v: Json| obj(vec![("chart_window", v)]);
    assert_eq!(window_hours(&window(Json::Array(vec![num(6), num(60), num(3)]))), 6);
    assert_eq!(window_hours(&obj(vec![])), 1);
    for bad in [
        window(Json::Array(vec![num(0), num(60), num(3)])),
        window(Json::Array(vec![Json::Num(Number::NegInt(-4)), num(60), num(3)])),
        window(text("an hour")),
        window(Json::Array(vec![])),
    ] {
        assert_eq!(window_hours(&bad), 1, "{bad:?} should fall back");
    }
}

#[test]
fn the_header_writes_where_the_window_is_read() {
    let mut s = default_settings();
    apply_edit(&mut s, "/chart_window/0", num(24));
    assert_eq!(window_hours(&s), 24);
}

#[test]
fn an_edit_lands_where_the_pointer_says() {
    let mut doc = obj(vec![]);
    apply_edit(&mut doc, "/a~1b", num(1));
    assert_eq!(keys(&doc), vec!["a/b"]);
    assert!(matches!(resolve(&doc, "/a~1b"), Some(Json::Num(Number::PosInt(1)))));
    apply_edit(&mut doc, "/c~0d/e", num(2));
    assert_eq!(keys(&doc), vec!["a/b", "c~d"]);
    assert!(matches!(resolve(&doc, "/c~0d/e"), Some(Json::Num(Number::PosInt(2)))));
}
