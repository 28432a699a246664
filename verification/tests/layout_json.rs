use powderman::area::{Area, SCALE};
use powderman::json::{Json, Member, Number};
use powderman::layout_json::{area_from, layout_from};

fn num(n: u64) -> Json {
    Json::Num(Number::PosInt(n))
}

fn text(s: &str) -> Json {
    Json::Str(s.to_string())
}

fn obj(members: Vec<(&str, Json)>) -> Json {
    Json::Object(
        members
            .into_iter()
            .map(|(k, v)| Member { key: k.to_string(), value: v })
            .collect(),
    )
}

fn leaf(id: u64, editor: &str) -> Json {
    obj(vec![("editor", text(editor)), ("id", num(id)), ("kind", text("leaf"))])
}

#[test]
fn a_layout_saved_before_arg_existed_still_loads() {
    let json = obj(vec![("next_id", num(2)), ("root", leaf(1, "runs"))]);
    let l = layout_from(&json).expect("loads");
    assert_eq!(l.root().leaves(), vec![1]);
    assert_eq!(l.next_id(), 2);
}

#[test]
fn saved_fractions_are_rescaled_to_an_exact_partition() {
    let split = obj(vec![
        ("children", Json::Array(vec![leaf(1, "a"), leaf(2, "b"), leaf(4, "c")])),
        ("dir", text("row")),
        ("id", num(3)),
        ("kind", text("split")),
        (
            "sizes",
            Json::Array(vec![
                Json::Num(Number::Float(333_333)),
                Json::Num(Number::Float(333_333)),
                Json::Num(Number::Float(333_333)),
            ]),
        ),
    ]);
    let l = layout_from(&obj(vec![("next_id", num(5)), ("root", split)])).expect("loads");
    match l.root() {
        Area::Split { sizes, children, .. } => {
            assert_eq!(children.len(), 3);
            assert_eq!(sizes.iter().sum::<u32>(), SCALE);
        }
        Area::Leaf { .. } => panic!("a split"),
    }
}

#[test]
fn a_tree_the_operations_would_refuse_is_not_a_layout() {
    let twice = obj(vec![
        ("children", Json::Array(vec![leaf(1, "a"), leaf(1, "b")])),
        ("dir", text("col")),
        ("id", num(2)),
        ("kind", text("split")),
        ("sizes", Json::Array(vec![num(1), num(1)])),
    ]);
    assert!(layout_from(&obj(vec![("next_id", num(3)), ("root", twice)])).is_none(), "an id used twice");
    assert!(layout_from(&obj(vec![("next_id", num(1)), ("root", leaf(1, "a"))])).is_none(), "the counter behind an id");
    assert!(layout_from(&obj(vec![("root", leaf(1, "a"))])).is_none(), "no counter");
    assert!(area_from(&obj(vec![("id", num(1)), ("kind", text("hex"))])).is_none(), "an unknown kind");
    assert!(area_from(&leaf(7, "x")).is_some());
}

#[test]
fn an_arg_and_regions_ride_along() {
    let l = obj(vec![
        ("arg", text("0f6a43ae")),
        ("editor", text("run")),
        ("id", num(1)),
        ("kind", text("leaf")),
        ("regions", obj(vec![("toolbar", Json::Bool(true)), ("toolbar_w", num(240))])),
    ]);
    match area_from(&l).expect("a leaf") {
        Area::Leaf { arg, regions, .. } => {
            assert_eq!(arg.as_deref(), Some("0f6a43ae"));
            assert!(regions.toolbar);
            assert_eq!(regions.toolbar_w, 240);
            assert!(!regions.sidebar);
        }
        Area::Split { .. } => panic!("a leaf"),
    }
}
