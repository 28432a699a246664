use powderman::area::{Area, Dir};
use powderman::command::Commands;
use powderman::json::{Json, Member, Number};
use powderman::workbench::{default_workspaces, Workbench, LOG_CAP, UNDO_CAP};
use powderman::workspace::Workspaces;

fn num(n: u64) -> Json {
    Json::Num(Number::PosInt(n))
}

fn obj(members: Vec<(&str, Json)>) -> Json {
    Json::Object(
        members
            .into_iter()
            .map(|(k, v)| Member { key: k.to_string(), value: v })
            .collect(),
    )
}

fn split_params(id: u64) -> Json {
    obj(vec![("id", num(id)), ("dir", Json::Str("row".to_string()))])
}

fn leaves(w: &Workspaces) -> Vec<u64> {
    w.current().layout.root().leaves()
}

fn bench() -> Workbench {
    Workbench::new(default_workspaces(), Commands::builtin())
}

#[test]
fn the_starter_workbench_is_machine_over_runs_beside_fleet() {
    let w = default_workspaces();
    assert_eq!(w.tabs.len(), 1);
    assert_eq!(w.tabs[0].name, "Overview");
    let l = &w.tabs[0].layout;
    let editors: Vec<String> = l
        .root()
        .leaves()
        .iter()
        .map(|id| match l.root().find(*id) {
            Some(powderman::area::Area::Leaf { editor, .. }) => editor.clone(),
            _ => panic!("not a leaf"),
        })
        .collect();
    assert_eq!(editors, ["machine", "runs", "fleet"]);
}

#[test]
fn undo_reverts_a_command_and_redo_reapplies_it() {
    let mut b = bench();
    let before = leaves(b.workspaces());
    let after = b.dispatch_checked("split", split_params(1), 10).expect("split takes");
    assert_eq!(leaves(&after).len(), before.len() + 1);
    let undone = b.undo();
    assert_eq!(leaves(&undone), before);
    let redone = b.redo();
    assert_eq!(leaves(&redone), leaves(&after));
}

#[test]
fn a_failed_command_changes_only_the_log() {
    let mut b = bench();
    let before = leaves(b.workspaces());
    let err = b.dispatch_checked("join", obj(vec![("id", num(9999))]), 5);
    assert!(err.is_err());
    assert_eq!(leaves(b.workspaces()), before);
    let log = b.command_log();
    assert_eq!(log.len(), 1);
    assert_eq!(log[0].name, "join");
    assert!(!log[0].ok);
    assert_eq!(log[0].at, 5);
    assert_eq!(leaves(&b.undo()), before, "nothing was recorded to undo");
}

#[test]
fn navigation_keeps_history_and_edits_clear_redo() {
    let mut b = bench();
    b.dispatch("split", split_params(1), 1);
    b.undo();
    b.dispatch("workspace.add", obj(vec![]), 2);
    let redone = b.redo();
    assert_eq!(leaves(&redone).len(), 4, "a failed add clears nothing");
    b.undo();
    b.dispatch("split", split_params(1), 3);
    let again = b.redo();
    assert_eq!(leaves(&again).len(), 4, "an edit after undo clears redo");
}

#[test]
fn repeat_last_reruns_the_latest_edit() {
    let mut b = bench();
    assert!(b.last_command().is_none());
    b.dispatch("split", split_params(1), 1);
    let (name, _) = b.last_command().expect("an edit ran");
    assert_eq!(name, "split");
    let w = b.repeat_last(2);
    assert_eq!(leaves(&w).len(), 5);
}

#[test]
fn the_log_and_undo_are_bounded() {
    let mut b = bench();
    for i in 0..(LOG_CAP as i64 + 20) {
        b.dispatch("workspace.cycle", obj(vec![("delta", Json::Num(Number::NegInt(-1)))]), i);
    }
    assert_eq!(b.command_log().len(), LOG_CAP);
    assert_eq!(b.command_log().last().unwrap().at, LOG_CAP as i64 + 19);
    let start = leaves(b.workspaces()).len();
    for i in 0..(UNDO_CAP + 5) {
        b.dispatch("split", split_params(1), i as i64);
    }
    assert_eq!(leaves(b.workspaces()).len(), start + UNDO_CAP + 5);
    for _ in 0..(UNDO_CAP + 10) {
        b.undo();
    }
    assert_eq!(
        leaves(b.workspaces()).len(),
        start + 5,
        "only the newest steps are kept"
    );
}

#[test]
fn the_starter_tree_is_machine_above_runs_beside_fleet() {
    let w = default_workspaces();
    let l = &w.tabs[0].layout;
    assert_eq!(l.next_id(), 6);
    let leaf = |a: &Area| match a {
        Area::Leaf { id, editor, arg, .. } => (*id, editor.clone(), arg.clone()),
        _ => panic!("expected a leaf"),
    };
    match l.root() {
        Area::Split { id: 2, dir: Dir::Col, sizes, children } => {
            assert_eq!(sizes, &[450_000, 550_000]);
            assert_eq!(leaf(&children[0]), (1, "machine".to_string(), None));
            match &children[1] {
                Area::Split { id: 4, dir: Dir::Row, sizes, children } => {
                    assert_eq!(sizes, &[600_000, 400_000]);
                    assert_eq!(leaf(&children[0]), (3, "runs".to_string(), None));
                    assert_eq!(leaf(&children[1]), (5, "fleet".to_string(), None));
                },
                _ => panic!("expected runs beside fleet"),
            }
        },
        _ => panic!("expected machine above the rest"),
    }
}
