use powderman::menus::{area_menu_json, editor_menu_json, view_menu_json, EditorKind};

#[test]
fn the_area_menu_splits_duplicates_and_closes() {
    assert_eq!(
        area_menu_json(7),
        r#"[{"label":"Split horizontal","action":"split","params":{"id":7,"dir":"row"}},{"label":"Split vertical","action":"split","params":{"id":7,"dir":"col"}},{"label":"Duplicate","action":"duplicate_area","params":{"id":7}},{"sep":true},{"label":"Close area","action":"join","params":{"id":7}}]"#
    );
}

#[test]
fn the_view_menu_offers_regions_only_where_there_are_any() {
    let with = view_menu_json(3, true, false, true);
    assert!(with.starts_with(
        r#"[{"label":"Hide Toolbar","action":"toggle_region","params":{"id":3,"region":"toolbar"},"chord":"T"},{"label":"Show Sidebar","action":"toggle_region","params":{"id":3,"region":"sidebar"},"chord":"N"},{"sep":true},{"label":"Split horizontal""#
    ));
    let without = view_menu_json(3, true, false, false);
    assert_eq!(
        without,
        r#"[{"label":"Split horizontal","action":"split","params":{"id":3,"dir":"row"}},{"label":"Split vertical","action":"split","params":{"id":3,"dir":"col"}},{"label":"Duplicate","action":"duplicate_area","params":{"id":3}},{"sep":true},{"label":"Hide header","action":"toggle_region","params":{"id":3,"region":"header"}},{"label":"Flip header","action":"toggle_region","params":{"id":3,"region":"header_flip"}},{"sep":true},{"label":"Close area","action":"join","params":{"id":3}}]"#
    );
    assert!(with.ends_with(&without[1..]));
}

#[test]
fn the_editor_menu_marks_the_current_kind() {
    let kinds = vec![
        EditorKind { id: "runs", label: "Runs", icon: "list-details", hints: vec![("Click", "Open run")], targets: false },
        EditorKind { id: "code", label: "Code", icon: "code", hints: vec![("Chip", "Pick file")], targets: true },
    ];
    assert_eq!(
        editor_menu_json(12, &kinds, "code"),
        "[{\"label\":\"Runs\",\"action\":\"set_editor\",\"params\":{\"id\":12,\"editor\":\"runs\"}},\
         {\"label\":\"\u{2022} Code\",\"action\":\"set_editor\",\"params\":{\"id\":12,\"editor\":\"code\"}}]"
    );
    assert_eq!(editor_menu_json(1, &vec![], "x"), "[]");
}

use powderman::area::{Dir, Layout};
use powderman::command::Commands;
use powderman::gesture::Gesture;
use powderman::workspace::Workspaces;

#[test]
fn a_drag_lands_on_the_same_bus_as_a_click() {
    let cmds = Commands::builtin();
    let mut w = Workspaces::new("one", Layout::single("runs"));
    let (name, params) = Gesture::Split { id: 1, dir: Dir::Row, frac: 250_000 }.command();
    assert_eq!(name, "split");
    assert!(cmds.run(&mut w, name, &params).is_ok());
    let leaves = w.current().layout.root().leaves();
    assert_eq!(leaves.len(), 2);
    let split = w.current().layout.root().id();
    let (name, params) = Gesture::Ratio { id: split, index: 0, ratio: 700_000 }.command();
    assert!(cmds.run(&mut w, name, &params).is_ok());
    match w.current().layout.root() {
        powderman::area::Area::Split { sizes, .. } => assert_eq!(sizes[0], 700_000),
        _ => panic!("a split"),
    }
    let (name, params) = Gesture::RegionWidth { id: leaves[0], region: "toolbar".into(), w: 300 }.command();
    assert!(cmds.run(&mut w, name, &params).is_ok());
    let (name, params) = Gesture::Swap { a: leaves[0], b: leaves[1] }.command();
    assert!(cmds.run(&mut w, name, &params).is_ok());
    let (name, params) = Gesture::Join { survivor: leaves[0], victim: leaves[1] }.command();
    assert_eq!(name, "join_into");
    assert!(cmds.run(&mut w, name, &params).is_ok());
    assert_eq!(w.current().layout.root().leaves(), vec![leaves[0]]);
}

#[test]
fn the_editors_are_registered_in_switcher_order() {
    let kinds = powderman::menus::editor_kinds();
    let ids: Vec<&str> = kinds.iter().map(|k| k.id).collect();
    assert_eq!(
        ids,
        ["welcome", "machine", "fleet", "runs", "run", "settings", "info", "help", "keymap", "data", "files", "code", "diff", "chart"]
    );
    let targets: Vec<&str> = kinds.iter().filter(|k| k.targets).map(|k| k.id).collect();
    assert_eq!(targets, ["run", "data", "files", "code", "diff", "chart"]);
    let runs = &kinds[3];
    assert_eq!(runs.hints, [("Click", "Open run"), ("Type", "Filter")]);
    assert_eq!(runs.icon, "list-details");
}
