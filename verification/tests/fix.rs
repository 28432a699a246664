use powderman::exec::Output;
use powderman::fix::{
    fix_stack, fix_start, fix_step, parse_i64, pr_body, FixAction, FixEvent, FixPhase, FixState, FixTools,
};
use powderman::json::{Json, Member};
use powderman::sweep::Counts;
use powderman::tree::json_string;
use powderman::treebank::{Grammar, Pr};

fn out(code: i32, stdout: &str, stderr: &str) -> Output {
    Output { code, stdout: stdout.to_string(), stderr: stderr.to_string(), unit: "u".to_string() }
}

fn ran(code: i32, stdout: &str, stderr: &str) -> FixEvent {
    FixEvent::Ran(out(code, stdout, stderr))
}

fn tools() -> FixTools {
    FixTools {
        program: "agent-cli".to_string(),
        check: "../../bin/grammar-check".to_string(),
        verify: "bin/verify-all".to_string(),
    }
}

fn begin(lang: &str) -> FixEvent {
    let input = Json::Object(vec![Member { key: "lang".to_string(), value: Json::Str(lang.to_string()) }]);
    FixEvent::Begin { input, root: "/r".to_string(), home: "/h".to_string(), tools: tools() }
}

fn pr(number: i64, head: &str) -> Pr {
    Pr { number, head_ref_name: head.to_string(), url: format!("https://forge/pr/{number}") }
}

fn argv(a: &FixAction) -> Vec<String> {
    match a {
        FixAction::Exec { argv, .. } => argv.clone(),
        _ => panic!("expected a command"),
    }
}

fn name(a: &FixAction) -> String {
    match a {
        FixAction::Exec { name, .. } => name.clone(),
        _ => panic!("expected a command"),
    }
}

fn result(a: FixAction) -> String {
    match a {
        FixAction::Finish(j) => json_string(&j),
        FixAction::Fail(m) => format!("failed: {m}"),
        _ => panic!("expected the end"),
    }
}

/// Runs a fix for rust up to the listing of its pull requests.
fn to_listing() -> (FixState, FixAction) {
    let (s, a) = fix_step(fix_start(), begin("rust"));
    assert!(matches!(a, FixAction::Discover { ref root } if root == "/r"));
    let gs = vec![
        Grammar::new("go".to_string(), "crates/treebank-go".to_string()),
        Grammar::new("rust".to_string(), "crates/treebank-rust".to_string()),
    ];
    let (s, a) = fix_step(s, FixEvent::Grammars(gs));
    assert!(matches!(a, FixAction::Status { ref agent, .. } if agent == "tbfix-rust"));
    let (s, a) = fix_step(s, FixEvent::Agent(None));
    assert_eq!(name(&a), "list prs");
    (s, a)
}

#[test]
fn csharp_is_never_handed_to_an_agent() {
    let (s, a) = fix_step(fix_start(), begin("csharp"));
    assert!(s.phase == FixPhase::Over);
    assert_eq!(result(a), "{\"lang\":\"csharp\",\"skipped\":\"excluded from agent fixes\"}");
}

#[test]
fn a_fix_needs_a_language() {
    let input = Json::Object(vec![]);
    let (_, a) = fix_step(fix_start(), FixEvent::Begin { input, root: "/r".to_string(), home: "/h".to_string(), tools: tools() });
    assert_eq!(result(a), "failed: fix needs an input like {\"lang\":\"rust\"}");
}

#[test]
fn a_language_without_a_grammar_fails() {
    let (s, _) = fix_step(fix_start(), begin("cobol"));
    let (_, a) = fix_step(s, FixEvent::Grammars(vec![]));
    assert_eq!(result(a), "failed: no grammar for cobol");
}

#[test]
fn a_live_agent_is_not_doubled() {
    let (s, _) = fix_step(fix_start(), begin("rust"));
    let (s, _) = fix_step(s, FixEvent::Grammars(vec![Grammar::new("rust".to_string(), "crates/r".to_string())]));
    let (_, a) = fix_step(s, FixEvent::Agent(Some("working".to_string())));
    assert_eq!(result(a), "{\"lang\":\"rust\",\"skipped\":\"tbfix-rust is still working\"}");
}

#[test]
fn a_full_stack_blocks_the_language() {
    let (s, _) = to_listing();
    let prs = vec![
        pr(12, "grammar-fixes/rust-20240103-0600"),
        pr(7, "grammar-fixes/rust-20240101-0600"),
        pr(9, "grammar-fixes/rustls-20240101-0600"),
        pr(10, "grammar-fixes/rust-20240102-0600"),
    ];
    let (_, a) = fix_step(s, FixEvent::Prs { listed: out(0, "", ""), prs });
    assert_eq!(
        result(a),
        "{\"blocking\":\"https://forge/pr/7\",\"lang\":\"rust\",\"skipped\":\"fix stack is 3 deep (max 3)\"}"
    );
}

#[test]
fn an_unreachable_forge_fails_the_run() {
    let (s, _) = to_listing();
    let (_, a) = fix_step(s, FixEvent::Prs { listed: out(1, "", " HTTP 502 \n"), prs: vec![] });
    assert_eq!(result(a), "failed: cannot reach GitHub: HTTP 502");
}

#[test]
fn the_stack_is_the_language_s_prs_by_number() {
    let prs = vec![
        pr(12, "grammar-fixes/rust-b"),
        pr(3, "grammar-fixes/go-a"),
        pr(7, "grammar-fixes/rust-a"),
        pr(9, "main"),
    ];
    let st = fix_stack(&prs, "rust");
    let numbers: Vec<i64> = st.iter().map(|p| p.number).collect();
    assert_eq!(numbers, [7, 12]);
}

#[test]
fn counts_parse_as_rust_parses_them() {
    assert_eq!(parse_i64("3"), Some(3));
    assert_eq!(parse_i64("+3"), Some(3));
    assert_eq!(parse_i64("-12"), Some(-12));
    assert_eq!(parse_i64("9223372036854775807"), Some(i64::MAX));
    assert_eq!(parse_i64("-9223372036854775808"), Some(i64::MIN));
    assert_eq!(parse_i64("9223372036854775808"), None);
    assert_eq!(parse_i64(""), None);
    assert_eq!(parse_i64("-"), None);
    assert_eq!(parse_i64("1a"), None);
    assert_eq!(parse_i64(" 1"), None);
}

#[test]
fn the_pr_body_counts_the_sweep() {
    let c = Counts { files: 10, passed: 7, failed: 3, gap_files: 2, noise_files: 1, clusters: 4 };
    let pad = " ".repeat(25);
    let want = format!(
        "Automated fix run.\n\n{pad}- Corpus: **10** files, 7 passed / 3 failed\n{pad}- Gap files: **2** across 4 clusters\n{pad}- Patches and evidence live in the grammar's `patches/`, `ledger.json` and `LOCAL-PATCHES.md`.\n{pad}- CI re-proves materialization, corpus tests and the negative corpus.\n"
    );
    assert_eq!(pr_body(c), want);
}

/// Runs a fix from the listing to the count of commits, the agent settling
/// after one check.
fn to_count(stack: Vec<Pr>) -> (FixState, FixAction) {
    let (s, _) = to_listing();
    let (s, a) = fix_step(s, FixEvent::Prs { listed: out(0, "", ""), prs: stack });
    assert_eq!(argv(&a), ["git", "rev-parse", "--abbrev-ref", "HEAD"]);
    let (s, a) = fix_step(s, ran(0, "main\n", ""));
    assert!(matches!(a, FixAction::Stamp { .. }));
    let (s, a) = fix_step(s, FixEvent::Stamp("20240105-0600".to_string()));
    assert!(matches!(a, FixAction::Exists { ref path } if path == "/h/.herdr/worktrees/treebank/tbfix-rust"));
    let (s, a) = fix_step(s, FixEvent::Exists(true));
    assert_eq!(name(&a), "clear stale worktree");
    assert_eq!(
        argv(&a)[2],
        "git -C /h/.herdr/worktrees/treebank/tbfix-rust submodule deinit -f --all; git -C /r worktree remove --force /h/.herdr/worktrees/treebank/tbfix-rust; git -C /r worktree prune"
    );
    let (s, a) = fix_step(s, ran(0, "", ""));
    match &a {
        FixAction::CreateWorktree { branch, label, .. } => {
            assert_eq!(branch, "grammar-fixes/rust-20240105-0600");
            assert_eq!(label, "tbfix rust");
        },
        _ => panic!("expected a worktree"),
    }
    let wt = FixEvent::Worktree { workspace: "ws1".to_string(), pane: "p1".to_string(), path: "/w".to_string() };
    let (s, a) = fix_step(s, wt);
    assert_eq!(argv(&a), ["git", "-C", "/w", "submodule", "update", "--init", "crates/treebank-rust/upstream"]);
    let (s, a) = fix_step(s, ran(0, "", ""));
    assert_eq!(argv(&a)[2], "ln -sfn /r/corpus /w/corpus && ln -sfn /r/target /w/target");
    let (s, a) = fix_step(s, ran(0, "", ""));
    assert!(matches!(a, FixAction::ReadSweep { ref path } if path == "/r/corpus/rust/reports/sweep.json"));
    let c = Counts { files: 1, passed: 1, failed: 0, gap_files: 0, noise_files: 0, clusters: 0 };
    let (s, a) = fix_step(s, FixEvent::Swept(c));
    assert!(matches!(a, FixAction::WriteFile { ref path, .. } if path == "/r/corpus/rust/reports/PR-BODY.md"));
    let (s, a) = fix_step(s, FixEvent::Done);
    assert!(matches!(a, FixAction::StartAgent { ref program, ref args, .. }
        if program == "agent-cli" && args == &["--permission-mode", "auto", "--remote-control", "tbfix-rust"]));
    let (s, a) = fix_step(s, FixEvent::Done);
    assert!(matches!(a, FixAction::WaitReady { secs: 180, .. }));
    let (s, a) = fix_step(s, FixEvent::Done);
    assert!(matches!(a, FixAction::Prompt { ref text, .. } if text.contains("run ../../bin/grammar-check from crates/treebank-rust")));
    let (s, a) = fix_step(s, FixEvent::Done);
    assert!(matches!(a, FixAction::Status { ref name, .. } if name == "prompt registered"));
    let (s, a) = fix_step(s, FixEvent::Agent(Some("idle".to_string())));
    assert!(matches!(a, FixAction::Pause { ms: 1500 }));
    let (s, a) = fix_step(s, FixEvent::Done);
    assert!(matches!(a, FixAction::Status { ref name, .. } if name == "prompt registered"));
    let (s, a) = fix_step(s, FixEvent::Agent(Some("working".to_string())));
    assert!(matches!(a, FixAction::Poll { ref name, .. } if name == "agent state"));
    let (s, a) = fix_step(s, FixEvent::Agent(Some("working".to_string())));
    assert!(matches!(a, FixAction::Sleep { ms: 30_000, .. }));
    let (s, a) = fix_step(s, FixEvent::Done);
    assert!(matches!(a, FixAction::Poll { .. }));
    let (s, a) = fix_step(s, FixEvent::Agent(Some("done".to_string())));
    assert_eq!(argv(&a), ["/r/bin/verify-all", "/w/crates/treebank-rust"]);
    let (s, a) = fix_step(s, ran(0, "", ""));
    assert_eq!(argv(&a), ["git", "-C", "/w", "rev-list", "--count", "main..grammar-fixes/rust-20240105-0600"]);
    (s, a)
}

#[test]
fn a_run_that_committed_nothing_clears_its_worktree_and_says_so() {
    let (s, _) = to_count(vec![]);
    let (s, a) = fix_step(s, ran(0, "0\n", ""));
    assert_eq!(argv(&a), ["git", "-C", "/w", "submodule", "deinit", "-f", "--all"]);
    let (s, a) = fix_step(s, ran(0, "", ""));
    assert_eq!(argv(&a), ["git", "-C", "/r", "worktree", "remove", "--force", "/w"]);
    let (s, a) = fix_step(s, ran(0, "", ""));
    assert_eq!(name(&a), "delete branch");
    assert_eq!(argv(&a), ["git", "-C", "/r", "branch", "-D", "grammar-fixes/rust-20240105-0600"]);
    let (_, a) = fix_step(s, ran(0, "", ""));
    assert_eq!(result(a), "{\"lang\":\"rust\",\"result\":\"agent committed nothing\"}");
}

#[test]
fn a_fix_stacks_on_the_top_and_falls_back_to_a_plain_pr() {
    let (s, _) = to_count(vec![pr(7, "grammar-fixes/rust-20240101-0600")]);
    let (s, a) = fix_step(s, ran(0, "2\n", ""));
    assert_eq!(
        argv(&a),
        [
            "gh", "stack", "init", "grammar-fixes/rust-20240101-0600", "grammar-fixes/rust-20240105-0600",
            "--base", "main",
        ]
    );
    let (s, a) = fix_step(s, ran(1, "", "unknown command"));
    assert_eq!(name(&a), "plain pr");
    assert_eq!(
        argv(&a)[2],
        "git -C /w push -u origin grammar-fixes/rust-20240105-0600 && cd /w && gh pr create --base grammar-fixes/rust-20240101-0600 --head grammar-fixes/rust-20240105-0600 --title 'crates/treebank-rust grammar fixes' --body-file /r/corpus/rust/reports/PR-BODY.md"
    );
    let (s, _) = fix_step(s, ran(0, "", ""));
    let (s, _) = fix_step(s, ran(0, "", ""));
    let (_, a) = fix_step(s, ran(0, "", ""));
    assert_eq!(
        result(a),
        "{\"base\":\"grammar-fixes/rust-20240101-0600\",\"branch\":\"grammar-fixes/rust-20240105-0600\",\"commits\":2,\"lang\":\"rust\",\"stack_depth\":2,\"workspace\":\"ws1\"}"
    );
}

#[test]
fn a_failed_submission_keeps_the_commits_in_the_message() {
    let (s, _) = to_count(vec![]);
    let (s, _) = fix_step(s, ran(0, "3", ""));
    let (s, a) = fix_step(s, ran(0, "", ""));
    assert_eq!(argv(&a), ["gh", "stack", "submit", "--auto", "--open"]);
    let (_, a) = fix_step(s, ran(1, "", " rejected \n"));
    assert_eq!(result(a), "failed: 3 commit(s) on grammar-fixes/rust-20240105-0600 but no PR: rejected");
}

fn at(phase: FixPhase) -> FixState {
    let mut s = fix_start();
    s.phase = phase;
    s.root = "/r".to_string();
    s.lang = "rust".to_string();
    s.agent = "tbfix-rust".to_string();
    s.branch = "grammar-fixes/rust-1".to_string();
    s.wt = "/w".to_string();
    s.tools = tools();
    s
}

#[test]
fn a_failed_verify_keeps_the_worktree() {
    let (s, a) = fix_step(at(FixPhase::Verify), ran(1, "", "\tCHECK FAILED\n"));
    assert!(s.phase == FixPhase::Over);
    assert_eq!(result(a), "failed: verify failed on grammar-fixes/rust-1; worktree kept at /w: CHECK FAILED");
}

#[test]
fn an_agent_that_never_settles_parks_the_run() {
    let mut s = at(FixPhase::Settling);
    s.waited = 4 * 3_600_000;
    let (s, a) = fix_step(s, FixEvent::Agent(Some("blocked".to_string())));
    assert!(matches!(a, FixAction::Sleep { .. }), "four hours exactly is not yet too long");
    let (s, _) = fix_step(s, FixEvent::Done);
    assert_eq!(s.waited, 4 * 3_600_000 + 30_000);
    let (s, a) = fix_step(s, FixEvent::Agent(Some("blocked".to_string())));
    assert!(matches!(a, FixAction::Park { ref note, .. } if note == "agent has not settled in four hours"));
    let (s, a) = fix_step(s, FixEvent::Done);
    assert!(matches!(a, FixAction::Sleep { .. }));
    let (_, a) = fix_step(s, FixEvent::Done);
    assert!(matches!(a, FixAction::Poll { .. }));
}

#[test]
fn a_prompt_nobody_takes_is_waited_for_forty_times() {
    let mut s = at(FixPhase::Registering);
    for _ in 0..40 {
        let (s2, a) = fix_step(s, FixEvent::Agent(Some("idle".to_string())));
        assert!(matches!(a, FixAction::Pause { ms: 1500 }));
        let (s3, _) = fix_step(s2, FixEvent::Done);
        s = s3;
    }
    assert!(s.phase == FixPhase::Settling);
    assert_eq!(s.waited, 0);
}
