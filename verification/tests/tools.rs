use powderman::area::{Dir, Layout};
use powderman::command::Commands;
use powderman::json::{Json, Number};
use powderman::mcp::{
    CycleArgs, IdArgs, JoinIntoArgs, MoveArgs, RenameArgs, SelectArgs, SetEditorArgs, SwapArgs,
    tool_name,
};
use powderman::workspace::Workspaces;

#[test]
fn a_dotted_command_becomes_a_snake_case_tool() {
    assert_eq!(tool_name("workspace.add"), "workspace_add");
    assert_eq!(tool_name("split"), "split");
    assert_eq!(tool_name("a.b.c"), "a_b_c");
}

#[test]
fn every_builtin_has_a_distinct_tool_name() {
    let cmds = Commands::builtin();
    let mut names: Vec<String> = cmds.iter().iter().map(|c| tool_name(&c.name)).collect();
    let n = names.len();
    names.sort();
    names.dedup();
    assert_eq!(names.len(), n);
    assert!(names.iter().all(|t| !t.contains('.')));
}

fn two_areas() -> Workspaces {
    let mut w = Workspaces::new("one", Layout::single("runs"));
    w.current_layout_mut().split(1, Dir::Row, 500_000);
    w
}

#[test]
fn a_tool_call_runs_the_same_command_a_click_does() {
    let cmds = Commands::builtin();
    let mut w = two_areas();
    let leaves = w.current().layout.root().leaves();
    let set = SetEditorArgs { id: leaves[1], editor: "fleet".into() };
    assert!(cmds.run(&mut w, "set_editor", &set.params()).is_ok());
    let swap = SwapArgs { a: leaves[0], b: leaves[1] };
    assert!(cmds.run(&mut w, "swap", &swap.params()).is_ok());
    let join = JoinIntoArgs { survivor: leaves[0], victim: leaves[1] };
    assert!(cmds.run(&mut w, "join_into", &join.params()).is_ok());
    assert_eq!(w.current().layout.root().leaves(), vec![leaves[0]]);
    let gone = IdArgs { id: leaves[1] };
    assert!(cmds.run(&mut w, "duplicate_area", &gone.params()).is_err());
}

#[test]
fn workspace_tools_carry_their_numbers() {
    let cmds = Commands::builtin();
    let mut w = two_areas();
    w.add("two", Layout::single("runs"));
    w.add("three", Layout::single("runs"));
    let back = CycleArgs { delta: Some(-1) };
    assert!(matches!(back.params().get("delta"), Some(Json::Num(Number::NegInt(-1)))));
    assert!(cmds.run(&mut w, "workspace.cycle", &back.params()).is_ok());
    assert_eq!(w.active, 1);
    let default = CycleArgs { delta: None };
    assert!(matches!(default.params().get("delta"), Some(Json::Num(Number::PosInt(1)))));
    let mv = MoveArgs { from: 1, to: 0 };
    assert!(cmds.run(&mut w, "workspace.move", &mv.params()).is_ok());
    assert_eq!(w.tabs[0].name, "two");
    let rename = RenameArgs { index: 0, name: " 2nd ".into() };
    assert!(cmds.run(&mut w, "workspace.rename", &rename.params()).is_ok());
    assert_eq!(w.tabs[0].name, "2nd");
}

#[test]
fn select_defaults_to_replace() {
    let s = SelectArgs { kind: "run".into(), value: "abc".into(), mode: None };
    assert!(matches!(s.params().get("mode"), Some(Json::Str(m)) if m == "replace"));
    let a = SelectArgs { kind: "run".into(), value: "abc".into(), mode: Some("add".into()) };
    assert!(matches!(a.params().get("mode"), Some(Json::Str(m)) if m == "add"));
}
