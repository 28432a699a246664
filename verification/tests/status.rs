use powderman::status::{editor_hints, progress_of, running_task, status_hints, RunView};

#[test]
fn the_hints_lead_with_the_focused_editor() {
    let global = status_hints(false, None);
    assert!(global.iter().any(|(_, l)| l == "Undo"));
    let runs = status_hints(false, Some("runs"));
    assert_eq!(runs[0].1, "Open run", "the editor's own hint leads");
    assert!(runs.len() > global.len(), "and the global ones remain");
    assert_eq!(status_hints(false, Some("nope")), global);
}

#[test]
fn chords_are_written_for_the_platform() {
    let pc = status_hints(false, None);
    assert_eq!(pc[0], ("Ctrl+Z".to_string(), "Undo".to_string()));
    let mac = status_hints(true, None);
    assert_eq!(mac[0].1, "Undo");
    assert_ne!(mac[0].0, pc[0].0);
    assert_eq!(editor_hints("code"), editor_hints("diff"));
    assert!(editor_hints("machine").is_empty());
}

fn run(status: &str, workflow: &str, note: Option<&str>) -> RunView {
    RunView {
        id: workflow.into(),
        workflow: workflow.into(),
        status: status.into(),
        note: note.map(str::to_string),
        error: None,
        updated_at: 0,
        steps: vec![],
    }
}

#[test]
fn the_bar_appears_only_while_something_runs() {
    let idle = vec![run("done", "sweep", None), run("failed", "fix", None)];
    assert!(running_task(&idle).is_none(), "nothing is running");
    let busy = vec![run("running", "treebank_sweep", Some("sweeping \u{2014} 18 of 41"))];
    let (label, done) = running_task(&busy).expect("a task");
    assert_eq!(label, "treebank_sweep");
    assert_eq!(done, Some((18, 41)));
}

#[test]
fn several_runs_are_counted_not_hidden() {
    let s = vec![
        run("running", "sweep", None),
        run("running", "fix", None),
        run("done", "agent", None),
    ];
    let (label, done) = running_task(&s).expect("a task");
    assert_eq!(label, "sweep +1", "the others are visible in the count");
    assert_eq!(done, None, "and an unmeasured run claims no position");
}

#[test]
fn only_a_real_count_becomes_a_fraction() {
    assert_eq!(progress_of("sweeping \u{2014} 18 of 41"), Some((18, 41)));
    assert_eq!(progress_of("step 3 of 4"), Some((3, 4)));
    assert_eq!(progress_of("waiting on a human"), None);
    assert_eq!(progress_of("out of memory"), None);
    assert_eq!(progress_of("0 of 0"), None, "and nothing divides by zero");
}

#[test]
fn a_count_past_its_total_is_capped_at_the_whole() {
    assert_eq!(progress_of("9 of 4"), Some((4, 4)));
    assert_eq!(progress_of("done 2 of about 10 files"), Some((2, 10)));
}
