use powderman::area::Area;
use powderman::splash::templates;

fn editors(a: &Area) -> Vec<String> {
    a.leaves()
        .iter()
        .map(|id| match a.find(*id) {
            Some(Area::Leaf { editor, .. }) => editor.clone(),
            _ => panic!("not a leaf"),
        })
        .collect()
}

#[test]
fn the_templates_build_what_they_promise() {
    let t = templates();
    let names: Vec<&str> = t.iter().map(|t| t.name.as_str()).collect();
    assert_eq!(names, ["Overview", "Runs", "Monitoring", "Code", "Changes", "Charts", "Shortcuts", "Single"]);
    assert_eq!(editors(t[0].layout.root()), ["machine", "runs", "fleet"]);
    assert_eq!(editors(t[1].layout.root()), ["runs", "run"]);
    assert_eq!(editors(t[3].layout.root()), ["files", "code"]);
    assert_eq!(editors(t[4].layout.root()), ["files", "diff"]);
    assert_eq!(editors(t[7].layout.root()), ["machine"]);
    match t[5].layout.root() {
        Area::Leaf { editor, arg, regions, .. } => {
            assert_eq!(editor, "chart");
            assert_eq!(arg.as_deref(), Some("/charts/cpu"));
            assert!(regions.sidebar);
        }
        _ => panic!("one chart"),
    }
    match t[0].layout.root().find(1) {
        Some(Area::Leaf { regions, .. }) => assert!(regions.sidebar, "the lead area's panel is open"),
        _ => panic!("area 1 leads"),
    }
}
