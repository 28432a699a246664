use powderman::exec::{runner_args_for, Output, RUNNER};
use powderman::herdr::{
    agent_state, agent_status, default_socket, pane_pids, pane_procs, pane_ready, readiness,
    retry_start, workspace_id_of, AgentInfo, Readiness,
};
use powderman::metrics::{app_slice, nix_uid};

fn agent(name: Option<&str>, status: Option<&str>, ready: Option<bool>) -> AgentInfo {
    AgentInfo {
        name: name.map(|s| s.to_string()),
        interactive_ready: ready,
        agent: Some("coder".to_string()),
        agent_status: status.map(|s| s.to_string()),
        pane_id: "w1:p1".to_string(),
        workspace_id: "w1".to_string(),
        cwd: None,
    }
}

#[test]
fn a_name_that_is_not_running_has_no_status() {
    let fleet = vec![agent(Some("rust"), Some("working"), Some(false)), agent(None, None, None)];
    assert_eq!(agent_status(&fleet, "definitely-not-an-agent"), None);
    assert_eq!(agent_state(&fleet, "definitely-not-an-agent"), None);
}

#[test]
fn the_first_agent_with_the_name_answers() {
    let fleet = vec![
        agent(None, Some("idle"), None),
        agent(Some("go"), None, Some(true)),
        agent(Some("go"), Some("working"), Some(false)),
    ];
    assert_eq!(agent_status(&fleet, "go").as_deref(), Some("unknown"));
    assert_eq!(agent_state(&fleet, "go"), Some(("unknown".to_string(), true)));
    assert_eq!(fleet[0].status(), "idle");
}

#[test]
fn readiness_reads_ready_then_blocked() {
    assert!(matches!(readiness(None), Readiness::Waiting));
    let ready = agent(Some("a"), Some("blocked"), Some(true));
    assert!(matches!(readiness(Some(&ready)), Readiness::Ready));
    let blocked = agent(Some("a"), Some("blocked"), Some(false));
    assert!(matches!(readiness(Some(&blocked)), Readiness::Blocked));
    let busy = agent(Some("a"), Some("working"), None);
    assert!(matches!(readiness(Some(&busy)), Readiness::Waiting));
}

#[test]
fn a_pane_is_ready_when_its_shell_is_in_front() {
    assert!(pane_ready(Some(10), Some(10)));
    assert!(!pane_ready(Some(10), Some(11)));
    assert!(pane_ready(Some(10), None));
    assert!(!pane_ready(None, Some(10)));
    assert!(!pane_ready(None, None));
}

#[test]
fn the_shell_joins_the_process_list_once() {
    let fg = vec![(20, "cargo".to_string())];
    let with_shell = pane_procs(fg.clone(), Some(10));
    assert_eq!(with_shell, vec![(20, "cargo".to_string()), (10, "shell".to_string())]);
    assert_eq!(pane_pids(&with_shell), vec![20, 10]);
    let already = pane_procs(vec![(10, "bash".to_string())], Some(10));
    assert_eq!(already, vec![(10, "bash".to_string())]);
    assert_eq!(pane_procs(fg.clone(), None), fg);
}

#[test]
fn pane_ids_name_their_workspace() {
    assert_eq!(workspace_id_of("w3:p7"), "w3");
    assert_eq!(workspace_id_of("w3"), "w3");
    assert_eq!(workspace_id_of("a:b:c"), "a");
    assert_eq!(default_socket("/home/me"), "/home/me/.config/herdr/herdr.sock");
}

#[test]
fn only_a_busy_shell_is_worth_retrying_and_only_in_time() {
    assert!(retry_start("pane p1 is not an available shell", false));
    assert!(!retry_start("pane p1 is not an available shell", true));
    assert!(!retry_start("no such pane", false));
}

#[test]
fn the_runner_gets_a_collected_user_unit() {
    let cmd = vec!["git".to_string(), "pull".to_string()];
    let args = runner_args_for("pm-1", &cmd, Some("/src"), Some("/usr/bin"), None);
    assert_eq!(
        args,
        [
            "--user",
            "--pipe",
            "--wait",
            "--collect",
            "--quiet",
            "--unit=pm-1",
            "--working-directory=/src",
            "--setenv=PATH=/usr/bin",
            "--",
            "git",
            "pull"
        ]
    );
    assert_eq!(RUNNER, "systemd-run");
}

#[test]
fn success_is_zero() {
    let out = |code| Output { code, stdout: String::new(), stderr: String::new(), unit: "u".into() };
    assert!(out(0).ok());
    assert!(!out(1).ok());
    assert!(!out(-1).ok());
}

#[test]
fn the_uid_comes_from_the_status_text() {
    let status = "Name:\tpowderman\nUmask:\t0022\nUid:\t1001\t1001\t1001\t1001\nGid:\t100\n";
    assert_eq!(nix_uid(status), 1001);
    assert_eq!(nix_uid("Name:\tx\n"), 1000, "no Uid line falls back");
    assert_eq!(nix_uid("Uid:\tabc\n"), 1000, "nonsense falls back");
    assert_eq!(
        app_slice(1001),
        "/sys/fs/cgroup/user.slice/user-1001.slice/user@1001.service/app.slice"
    );
}
