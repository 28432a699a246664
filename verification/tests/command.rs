use powderman::area::{Dir, Layout};
use powderman::command::{BusError, Command, Commands, Host, NoHost, Op, Poll};
use powderman::json::{Json, Member, Number};
use powderman::workspace::Workspaces;

fn num(n: u64) -> Json {
    Json::Num(Number::PosInt(n))
}

fn frac(millionths: i64) -> Json {
    Json::Num(Number::Float(millionths))
}

fn text(s: &str) -> Json {
    Json::Str(s.to_string())
}

fn obj(members: Vec<(&str, Json)>) -> Json {
    Json::Object(
        members
            .into_iter()
            .map(|(k, v)| Member { key: k.to_string(), value: v })
            .collect(),
    )
}

fn ws() -> Workspaces {
    Workspaces::new("main", Layout::single("machine"))
}

#[test]
fn a_mutation_that_finds_nothing_is_an_error() {
    let cmds = Commands::builtin();
    for (name, params) in [
        ("split", obj(vec![("id", num(9999)), ("dir", text("row"))])),
        ("join", obj(vec![("id", num(9999))])),
        ("join_into", obj(vec![("survivor", num(9999)), ("victim", num(9998))])),
        ("ratio", obj(vec![("id", num(9999)), ("ratio", frac(500_000))])),
        (
            "set_region_width",
            obj(vec![("id", num(9999)), ("region", text("toolbar")), ("w", num(200))]),
        ),
        ("toggle_region", obj(vec![("id", num(9999)), ("region", text("toolbar"))])),
        ("duplicate_area", obj(vec![("id", num(9999))])),
        ("swap", obj(vec![("a", num(9999)), ("b", num(9998))])),
        ("set_editor", obj(vec![("id", num(9999)), ("editor", text("runs"))])),
        (
            "open_editor",
            obj(vec![("id", num(9999)), ("editor", text("run")), ("arg", text("x"))]),
        ),
    ] {
        let mut w = ws();
        let err = cmds.run(&mut w, name, &params);
        assert!(err.is_err(), "{name} on a missing area should be an error");
    }
}

#[test]
fn split_and_set_editor_run_through_the_bus() {
    let cmds = Commands::builtin();
    let mut w = ws();
    assert!(cmds
        .run(
            &mut w,
            "split",
            &obj(vec![("id", num(1)), ("dir", text("row")), ("frac", frac(600_000))]),
        )
        .is_ok());
    let leaves = w.current().layout.root().leaves();
    assert_eq!(leaves.len(), 2);
    assert!(cmds
        .run(
            &mut w,
            "set_editor",
            &obj(vec![("id", num(leaves[1])), ("editor", text("runs"))]),
        )
        .is_ok());
    assert_eq!(w.current().layout.root().leaves().len(), 2);
}

#[test]
fn a_bad_param_is_an_error_not_a_silent_noop() {
    let cmds = Commands::builtin();
    let mut w = ws();
    assert!(cmds
        .run(&mut w, "split", &obj(vec![("id", text("not-a-number")), ("dir", text("row"))]))
        .is_err());
    assert!(cmds
        .run(&mut w, "split", &obj(vec![("id", num(1)), ("dir", text("diagonal"))]))
        .is_err());
    assert!(cmds.run(&mut w, "nonexistent", &obj(vec![])).is_err());
}

#[test]
fn navigation_does_not_record_undo_but_edits_do() {
    let cmds = Commands::builtin();
    assert!(!cmds.records_undo("workspace.switch"));
    assert!(!cmds.records_undo("workspace.cycle"));
    assert!(cmds.records_undo("split"));
    assert!(cmds.records_undo("join"));
}

struct OpenRun;

impl Host for OpenRun {
    fn run(&self, name: &str, ws: &Workspaces, params: &Json) -> Result<Workspaces, String> {
        if name != "open_run" {
            return Err(format!("no host command {name}"));
        }
        let id = params.get("area").and_then(|v| v.as_u64()).ok_or("param area")?;
        let run = params.get("run").and_then(|v| v.as_str()).ok_or("param run")?;
        let mut next = ws.copy();
        let l = next.current_layout_mut();
        if let Some(new) = l.split(id, Dir::Row, 500_000) {
            l.set_editor_arg(new, "run", run);
        }
        Ok(next)
    }
}

#[test]
fn a_host_command_composes_with_the_builtins() {
    let cmds = Commands::builtin().with(Command {
        name: "open_run".to_string(),
        description: "Open a run in a new area".to_string(),
        navigational: false,
        poll: Poll::Always,
        op: Op::Host,
    });
    let mut w = ws();
    assert!(cmds
        .run_with(&OpenRun, &mut w, "open_run", &obj(vec![("area", num(1)), ("run", text("abc123"))]))
        .is_ok());
    assert_eq!(w.current().layout.root().leaves().len(), 2);
    assert!(cmds
        .run_with(&OpenRun, &mut w, "split", &obj(vec![("id", num(1)), ("dir", text("col"))]))
        .is_ok());
    assert_eq!(w.current().layout.root().leaves().len(), 3);
}

#[test]
fn a_host_command_without_a_host_is_refused_untouched() {
    let cmds = Commands::builtin().with(Command {
        name: "open_run".to_string(),
        description: "Open a run in a new area".to_string(),
        navigational: false,
        poll: Poll::Always,
        op: Op::Host,
    });
    let mut w = ws();
    let err = cmds
        .run_with(&NoHost, &mut w, "open_run", &obj(vec![]))
        .expect_err("nothing can run it");
    assert!(matches!(err, BusError::Host(_)));
    assert_eq!(w.current().layout.root().leaves().len(), 1);
}

fn lone() -> Workspaces {
    Workspaces::new("one", Layout::single("runs"))
}

fn two_areas() -> Workspaces {
    let mut w = lone();
    w.current_layout_mut().split(1, Dir::Row, 500_000);
    w
}

#[test]
fn what_needs_a_second_area_is_not_offered_with_one() {
    let cmds = Commands::builtin();
    let one = lone();
    for name in ["join", "join_into", "ratio", "swap"] {
        assert!(!cmds.can(&one, name, &Json::Null), "{name} was offered");
    }
    assert!(cmds.can(&one, "split", &Json::Null));
    let two = two_areas();
    for name in ["join", "join_into", "ratio", "swap", "split"] {
        assert!(cmds.can(&two, name, &Json::Null), "{name} went missing");
    }
}

#[test]
fn what_needs_a_second_workspace_is_not_offered_with_one() {
    let cmds = Commands::builtin();
    let mut w = lone();
    for name in ["workspace.close", "workspace.cycle", "workspace.switch", "workspace.move"] {
        assert!(!cmds.can(&w, name, &Json::Null), "{name} was offered");
    }
    for name in ["workspace.add", "workspace.rename", "workspace.duplicate"] {
        assert!(cmds.can(&w, name, &Json::Null), "{name} went missing");
    }
    w.add("second", Layout::single("runs"));
    for name in ["workspace.close", "workspace.cycle", "workspace.switch", "workspace.move"] {
        assert!(cmds.can(&w, name, &Json::Null), "{name} went missing");
    }
}

#[test]
fn run_refuses_what_poll_refuses() {
    let cmds = Commands::builtin();
    let mut w = lone();
    let err = cmds
        .run(&mut w, "join", &obj(vec![("id", num(1))]))
        .expect_err("joining the only area is not a thing");
    assert!(
        err.message().contains("does not apply"),
        "the refusal should say why: {}",
        err.message()
    );
    assert_eq!(w.current().layout.root().leaves().len(), 1);
}

#[test]
fn available_shrinks_with_the_workbench() {
    let cmds = Commands::builtin();
    let one = lone();
    let mut many = two_areas();
    many.add("second", Layout::single("runs"));
    let count = |w: &Workspaces| cmds.available(w).len();
    assert!(count(&one) < count(&many));
    assert!(!cmds.available(&one).iter().any(|c| c.name == "join"));
}

#[test]
fn each_error_reads_as_a_sentence() {
    let cmds = Commands::builtin();
    let mut w = ws();
    let unknown = cmds.run(&mut w, "nonexistent", &obj(vec![])).unwrap_err();
    assert_eq!(unknown.message(), "unknown command nonexistent");
    let bad = cmds
        .run(&mut w, "split", &obj(vec![("id", text("x")), ("dir", text("row"))]))
        .unwrap_err();
    assert_eq!(bad.message(), "param id must be an integer");
    let dir = cmds
        .run(&mut w, "split", &obj(vec![("id", num(1)), ("dir", text("diagonal"))]))
        .unwrap_err();
    assert_eq!(dir.message(), "param dir must be \"row\" or \"col\", got \"diagonal\"");
    let missing = cmds.run(&mut w, "join", &obj(vec![("id", num(9999))]));
    assert!(missing.is_err());
    let add = cmds.run(&mut w, "workspace.add", &obj(vec![("name", text("x"))])).unwrap_err();
    assert_eq!(add.message(), "param layout is required");
    let bad_layout = cmds
        .run(&mut w, "workspace.add", &obj(vec![("name", text("x")), ("layout", num(3))]))
        .unwrap_err();
    assert_eq!(bad_layout.message(), "param layout is not a layout");
}

#[test]
fn the_registry_lists_by_name() {
    let cmds = Commands::builtin();
    let names: Vec<String> = cmds.iter().iter().map(|c| c.name.clone()).collect();
    let mut sorted = names.clone();
    sorted.sort();
    assert_eq!(names, sorted);
    assert_eq!(names.len(), 18);
}
