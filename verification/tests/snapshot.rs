use powderman::snapshot::{attach_steps, history_start, newest_first, workflow_views, WorkflowEntry};
use powderman::status::{RunView, StepView};

fn run(id: &str) -> RunView {
    RunView {
        id: id.to_string(),
        workflow: "treebank_sweep".to_string(),
        status: "done".to_string(),
        note: None,
        error: None,
        updated_at: 7,
        steps: Vec::new(),
    }
}

fn step(key: &str) -> StepView {
    StepView { key: key.to_string(), result: Some("true".to_string()), error: None }
}

#[test]
fn each_run_gets_its_own_steps_in_order() {
    let runs = vec![run("b"), run("a"), run("c")];
    let steps = vec![
        ("a".to_string(), step("pull")),
        ("b".to_string(), step("check clean")),
        ("a".to_string(), step("build")),
        ("z".to_string(), step("orphan")),
    ];
    let out = attach_steps(runs, &steps);
    let keys = |r: &RunView| r.steps.iter().map(|s| s.key.clone()).collect::<Vec<_>>();
    assert_eq!(out.len(), 3);
    assert_eq!(out[0].id, "b");
    assert_eq!(keys(&out[0]), ["check clean"]);
    assert_eq!(keys(&out[1]), ["pull", "build"]);
    assert!(out[2].steps.is_empty());
    assert_eq!(out[1].updated_at, 7);
}

#[test]
fn the_log_shows_the_newest_fifty_first() {
    let log: Vec<u32> = (0..60).collect();
    let recent = newest_first(log, 50);
    assert_eq!(recent.len(), 50);
    assert_eq!(recent[0], 59);
    assert_eq!(recent[49], 10);
    assert_eq!(newest_first(vec![1, 2], 50), [2, 1]);
}

fn entry(name: &str, schedule: Option<&str>) -> WorkflowEntry {
    WorkflowEntry {
        name: name.to_string(),
        description: format!("{name} things"),
        example: None,
        schedule: schedule.map(str::to_string),
    }
}

#[test]
fn workflows_are_listed_by_name_with_their_next_firing() {
    let reg = vec![entry("treebank_sweep", Some("0 6 * * *")), entry("shell", None), entry("treebank_fix", None)];
    let next = vec![("treebank_sweep".to_string(), "06:00".to_string())];
    let ws = workflow_views(reg, &next);
    let names: Vec<&str> = ws.iter().map(|w| w.name.as_str()).collect();
    assert_eq!(names, ["shell", "treebank_fix", "treebank_sweep"]);
    assert_eq!(ws[2].next.as_deref(), Some("06:00"));
    assert_eq!(ws[2].schedule.as_deref(), Some("0 6 * * *"));
    assert!(ws[0].next.is_none());
    assert_eq!(ws[1].description, "treebank_fix things");
}

#[test]
fn the_graphs_show_the_last_hour() {
    assert_eq!(history_start(10_000_000), 6_400_000);
}
