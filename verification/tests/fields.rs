use powderman::fields::{preference_sections, settings_fields, Field, FieldKind};
use powderman::json::{Json, Number};

/// Preferences and the Settings editor describe the same document, so a
/// field that exists in one and not the other is a setting someone can reach
/// by one route and not the other.
#[test]
fn every_setting_appears_in_exactly_one_section() {
    let flat = settings_fields();
    let sections = preference_sections();
    let mut seen: Vec<&str> = Vec::new();
    for (_, fields) in &sections {
        for f in fields {
            assert!(!seen.contains(&f.path.as_str()), "{} appears in two sections", f.path);
            seen.push(&f.path);
        }
    }
    for f in &flat {
        assert!(seen.contains(&f.path.as_str()), "{} is a setting no preferences section shows", f.path);
    }
    assert_eq!(seen.len(), flat.len(), "a section shows a field twice");
}

#[test]
fn sections_come_in_blenders_order() {
    let names: Vec<&str> = preference_sections().iter().map(|(n, _)| *n).collect();
    assert_eq!(names, ["Interface", "Editing", "Startup", "System"]);
    let interface: Vec<String> = preference_sections()[0].1.iter().map(|f| f.path.clone()).collect();
    assert_eq!(interface, ["/theme", "/accent", "/ui_scale", "/density", "/tooltips_on"]);
}

#[test]
fn widget_bounds_are_held_in_millionths() {
    let fields = settings_fields();
    let scale = fields.iter().find(|f| f.path == "/ui_scale").unwrap();
    assert!(matches!(scale.kind, FieldKind::Slider { min: 800_000, max: 1_600_000, step: 50_000 }));
    assert!(matches!(scale.default, Some(Json::Num(Number::Float(1_000_000)))));
    let limit = fields.iter().find(|f| f.path == "/sweep_limit").unwrap();
    assert!(matches!(limit.kind, FieldKind::Number { min: Some(1_000_000), max: Some(1_000_000_000), step: Some(50_000_000) }));
    assert!(matches!(limit.default, Some(Json::Num(Number::PosInt(100)))));
}

#[test]
fn the_theme_field_offers_every_preset() {
    let fields = settings_fields();
    let theme = fields.iter().find(|f| f.path == "/theme").unwrap();
    match &theme.kind {
        FieldKind::Select(options) => {
            let values: Vec<&str> = options.iter().map(|(v, _)| v.as_str()).collect();
            assert_eq!(values, ["Blender Dark", "Graphite", "Light"]);
        },
        _ => panic!("the theme is chosen from a list"),
    }
    assert!(theme.default.is_none());
}

#[test]
fn a_field_is_built_by_parts() {
    let f = Field::new("/x", "X", FieldKind::Toggle).with_hint("h").with_default(Json::Bool(false));
    assert_eq!(f.path, "/x");
    assert_eq!(f.label, "X");
    assert_eq!(f.hint.as_deref(), Some("h"));
    assert!(matches!(f.default, Some(Json::Bool(false))));
}
