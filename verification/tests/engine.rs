use powderman::engine::{
    parked, replay_park, replay_step, run_end, run_start, settled, sleep_wait, terminal, unit_name, uuid_v4,
    Ended, ParkStep, Recorded, Replay, RowUpdate, RunStart, Status, StepKeys, Suspend,
};

#[test]
fn only_done_and_failed_end_a_run() {
    assert_eq!(terminal("done"), Some(Status::Done));
    assert_eq!(terminal("failed"), Some(Status::Failed));
    assert_eq!(terminal("running"), None);
    assert_eq!(terminal("suspended"), None);
    assert_eq!(Status::Suspended.as_str(), "suspended");
    assert_eq!(Status::Running.as_str(), "running");
}

#[test]
fn an_outcome_carries_its_suspension() {
    let o = parked(Suspend { wake_at: Some(5), note: "later".into() });
    assert_eq!(o.status, Status::Suspended);
    assert_eq!(o.wake_at, Some(5));
    assert_eq!(o.note.as_deref(), Some("later"));
    let d = settled(Status::Done);
    assert_eq!(d.status, Status::Done);
    assert!(d.result.is_none() && d.error.is_none() && d.wake_at.is_none() && d.note.is_none());
}

#[test]
fn the_same_name_in_a_loop_makes_distinct_steps() {
    let mut k = StepKeys::new();
    assert_eq!(k.next_key("poll"), "poll#1");
    assert_eq!(k.next_key("poll"), "poll#2");
    assert_eq!(k.next_key("fetch"), "fetch#1");
    assert_eq!(k.next_key("poll"), "poll#3");
}

#[test]
fn a_recorded_step_replays_instead_of_running() {
    assert!(matches!(replay_step(None), Replay::Execute));
    let ok = Recorded { result: Some("42".into()), error: None };
    assert!(matches!(replay_step(Some(&ok)), Replay::Value(v) if v == "42"));
    let empty = Recorded { result: None, error: None };
    assert!(matches!(replay_step(Some(&empty)), Replay::Value(v) if v == "null"));
    let failed = Recorded { result: Some("1".into()), error: Some("boom".into()) };
    assert!(matches!(replay_step(Some(&failed)), Replay::Fail(m) if m == "boom"));
}

#[test]
fn a_released_park_lets_the_run_continue() {
    assert!(matches!(replay_park(None), ParkStep::RecordAndSuspend));
    let parked_row = Recorded { result: Some("\"parked\"".into()), error: None };
    assert!(matches!(replay_park(Some(&parked_row)), ParkStep::Suspend));
    let released = Recorded { result: Some("\"released\"".into()), error: None };
    assert!(matches!(replay_park(Some(&released)), ParkStep::Proceed));
    let failed = Recorded { result: None, error: Some("no".into()) };
    assert!(matches!(replay_park(Some(&failed)), ParkStep::Fail(m) if m == "no"));
}

#[test]
fn sleep_suspends_until_its_deadline_and_not_after() {
    let s = sleep_wait(100, 200, "10:00").expect("not yet");
    assert_eq!(s.wake_at, Some(200));
    assert_eq!(s.note, "sleeping until 10:00");
    assert!(sleep_wait(200, 200, "10:00").is_none());
    assert!(sleep_wait(300, 200, "10:00").is_none());
}

#[test]
fn a_uuid_is_version_four_in_canonical_groups() {
    let id = uuid_v4(&[0xff; 16]);
    assert_eq!(id, "ffffffff-ffff-4fff-bfff-ffffffffffff");
    let zero = uuid_v4(&[0; 16]);
    assert_eq!(zero, "00000000-0000-4000-8000-000000000000");
    let mut counting = [0u8; 16];
    for (i, b) in counting.iter_mut().enumerate() {
        *b = i as u8 * 17;
    }
    assert_eq!(uuid_v4(&counting), "00112233-4455-4677-8899-aabbccddeeff");
}

#[test]
fn a_unit_name_is_stable_and_safe() {
    assert_eq!(
        unit_name("0f6a43ae-1111-2222", "git pull#1"),
        "pm-0f6a43ae-git-pull-1"
    );
}

#[test]
fn a_unit_name_takes_eight_bytes_of_the_run_id() {
    // Four two-byte characters are the first eight bytes.
    assert_eq!(unit_name("ééééxyz", "k"), "pm-éééé-k");
}

#[test]
fn a_finished_run_replays_its_status_and_runs_nothing() {
    let (o, u) = run_end(Ended::Errored("boom".to_string()));
    assert!(o.status == Status::Failed && o.error.as_deref() == Some("boom"));
    assert!(matches!(u, RowUpdate::Failed { ref error } if error == "boom"));
    match run_start("failed") {
        RunStart::Replay(o) => {
            assert!(o.status == Status::Failed);
            assert!(o.result.is_none() && o.error.is_none() && o.wake_at.is_none() && o.note.is_none());
        },
        RunStart::Drive => panic!("a failed run is not driven again"),
    }
    let (o, u) = run_end(Ended::Returned(powderman::json::Json::Bool(true)));
    assert!(o.status == Status::Done && o.result.is_some());
    assert!(matches!(u, RowUpdate::Done));
    assert!(matches!(run_start("done"), RunStart::Replay(ref o) if o.status == Status::Done));
    assert!(matches!(run_start("suspended"), RunStart::Drive));
    assert!(matches!(run_start("running"), RunStart::Drive));
    let (o, u) = run_end(Ended::Parked(Suspend { wake_at: Some(5), note: "later".to_string() }));
    assert!(o.status == Status::Suspended && o.wake_at == Some(5));
    assert!(matches!(u, RowUpdate::Suspended { wake_at: Some(5), ref note } if note == "later"));
}
