use powderman::exec::Output;
use powderman::json::{Json, Member, Number};
use powderman::sweep::{sweep_start, sweep_step, Counts, SweepAction, SweepEvent, SweepPhase, SweepState};
use powderman::tree::json_string;
use powderman::treebank::Grammar;

fn ran(code: i32, stdout: &str, stderr: &str) -> SweepEvent {
    SweepEvent::Ran(Output { code, stdout: stdout.to_string(), stderr: stderr.to_string(), unit: "u".to_string() })
}

fn begin(limit: Option<i64>) -> SweepEvent {
    let members = match limit {
        Some(n) => vec![Member { key: "limit".to_string(), value: Json::Num(Number::PosInt(n as u64)) }],
        None => vec![],
    };
    SweepEvent::Begin { input: Json::Object(members), root: "/r".to_string() }
}

fn exec_of(a: &SweepAction) -> (String, Vec<String>, String) {
    match a {
        SweepAction::Exec { name, argv, cwd } => (name.clone(), argv.clone(), cwd.clone()),
        _ => panic!("expected a command"),
    }
}

fn step(s: SweepState, e: SweepEvent) -> (SweepState, SweepAction) {
    sweep_step(s, e)
}

/// Runs a sweep up to the first grammar's ranking.
fn to_grammars(clean: bool, grammars: Vec<Grammar>) -> (SweepState, SweepAction) {
    let (s, a) = step(sweep_start(), begin(None));
    assert_eq!(exec_of(&a).1, ["git", "status", "--porcelain", "--untracked-files=no"]);
    let (s, a) = step(s, ran(0, if clean { "" } else { " M src/lib.rs\n" }, ""));
    let (s, a) = if clean {
        assert_eq!(exec_of(&a).0, "pull");
        step(s, ran(0, "", ""))
    } else {
        (s, a)
    };
    assert_eq!(exec_of(&a).0, "submodules");
    let (s, a) = step(s, ran(0, "", ""));
    assert_eq!(exec_of(&a).1, ["cargo", "build", "--release", "--quiet"]);
    let (s, a) = step(s, ran(0, "", ""));
    assert!(matches!(a, SweepAction::Discover { ref root } if root == "/r"));
    step(s, SweepEvent::Grammars(grammars))
}

#[test]
fn a_dirty_checkout_is_not_pulled() {
    let (s, a) = step(sweep_start(), begin(None));
    assert_eq!(exec_of(&a).0, "check clean");
    let (_, a) = step(s, ran(0, " M grammar.js\n", ""));
    assert_eq!(exec_of(&a).0, "submodules");
}

#[test]
fn a_failed_build_ends_the_sweep() {
    let (s, _) = step(sweep_start(), begin(None));
    let (s, _) = step(s, ran(0, "", ""));
    let (s, _) = step(s, ran(0, "", ""));
    let (s, _) = step(s, ran(0, "", ""));
    let (s, a) = step(s, ran(101, "", "  error[E0308]: mismatched types \n"));
    assert!(s.phase == SweepPhase::Over);
    match a {
        SweepAction::Fail(m) => assert_eq!(m, "cargo build failed: error[E0308]: mismatched types"),
        _ => panic!("expected a failure"),
    }
}

#[test]
fn a_whole_sweep_reports_every_language() {
    let gs = vec![
        Grammar::new("csharp".to_string(), "crates/treebank-csharp".to_string()),
        Grammar::new("go".to_string(), "crates/treebank-go".to_string()),
        Grammar::new("rust".to_string(), "crates/treebank-rust".to_string()),
        Grammar::new("zig".to_string(), "crates/treebank-zig".to_string()),
    ];
    let (s, a) = to_grammars(true, gs);
    // csharp: ranked, fetched with the default limit, swept with gaps.
    assert_eq!(exec_of(&a).1, ["/r/target/release/treebank", "rank", "--lang", "csharp", "--k", "1000"]);
    let (s, a) = step(s, ran(0, "", ""));
    assert!(matches!(a, SweepAction::Exists { ref path } if path == "/r/corpus/csharp/top-k.json"));
    let (s, a) = step(s, SweepEvent::Exists(true));
    assert_eq!(exec_of(&a).0, "fetch csharp");
    assert_eq!(exec_of(&a).1, ["/r/target/release/treebank", "fetch", "--lang", "csharp", "--limit", "100"]);
    let (s, a) = step(s, ran(0, "", ""));
    assert_eq!(exec_of(&a).1, ["/r/scripts/materialize.sh", "crates/treebank-csharp"]);
    let (s, a) = step(s, ran(0, "", ""));
    assert_eq!(
        exec_of(&a).1,
        ["/r/target/release/treebank", "sweep", "--lang", "csharp", "--grammar", "crates/treebank-csharp/build"]
    );
    let (s, a) = step(s, ran(0, "", ""));
    assert!(matches!(a, SweepAction::ReadSweep { ref path, .. } if path == "/r/corpus/csharp/reports/sweep.json"));
    let c = Counts { files: 10, passed: 7, failed: 3, gap_files: 2, noise_files: 1, clusters: 4 };
    let (s, a) = step(s, SweepEvent::Swept(c));
    // go: cannot rank and has no list.
    assert_eq!(exec_of(&a).0, "rank go");
    let (s, _) = step(s, ran(1, "", ""));
    let (s, a) = step(s, SweepEvent::Exists(false));
    // rust: materialize fails.
    assert_eq!(exec_of(&a).0, "rank rust");
    let (s, _) = step(s, ran(1, "", ""));
    let (s, a) = step(s, SweepEvent::Exists(true));
    assert_eq!(exec_of(&a).0, "fetch rust");
    let (s, _) = step(s, ran(0, "", ""));
    let (s, a) = step(s, ran(2, "", " pinned sha differs \n"));
    // zig: swept with gaps.
    assert_eq!(exec_of(&a).0, "rank zig");
    let (s, _) = step(s, ran(0, "", ""));
    let (s, _) = step(s, SweepEvent::Exists(false));
    let (s, _) = step(s, ran(0, "", ""));
    let (s, _) = step(s, ran(0, "", ""));
    let (s, _) = step(s, ran(0, "", ""));
    let z = Counts { files: 5, passed: 4, failed: 1, gap_files: 1, noise_files: 0, clusters: 1 };
    let (s, a) = step(s, SweepEvent::Swept(z));
    match &a {
        SweepAction::Launch(langs) => assert_eq!(langs, &["zig"]),
        _ => panic!("expected the fix runs"),
    }
    let (s, a) = step(s, SweepEvent::Launched(vec!["zig".to_string()]));
    assert!(s.phase == SweepPhase::Over);
    match a {
        SweepAction::Finish(j) => assert_eq!(
            json_string(&j),
            [
                "{\"fixes_launched\":[\"zig\"],\"gaps_in\":[\"csharp\",\"zig\"],\"grammars\":4,\"report\":{",
                "\"csharp\":{\"clusters\":4,\"failed\":3,\"files\":10,\"gap_files\":2,\"noise_files\":1,\"passed\":7},",
                "\"go\":{\"skipped\":\"no package list and cannot rank\"},",
                "\"rust\":{\"error\":\"materialize failed\",\"stderr\":\"pinned sha differs\"},",
                "\"zig\":{\"clusters\":1,\"failed\":1,\"files\":5,\"gap_files\":1,\"noise_files\":0,\"passed\":4}}}",
            ]
            .concat()
        ),
        _ => panic!("expected the result"),
    }
}

#[test]
fn a_failed_sweep_is_reported_and_the_limit_is_the_input() {
    let (s, _) = step(sweep_start(), begin(Some(1000)));
    let (s, _) = step(s, ran(0, "x", ""));
    let (s, _) = step(s, ran(0, "", ""));
    let (s, _) = step(s, ran(0, "", ""));
    let (s, _) = step(s, SweepEvent::Grammars(vec![Grammar::new("lua".to_string(), "crates/lua".to_string())]));
    let (s, _) = step(s, ran(0, "", ""));
    let (s, a) = step(s, SweepEvent::Exists(true));
    assert_eq!(exec_of(&a).1[5], "1000");
    let (s, _) = step(s, ran(0, "", ""));
    let (s, _) = step(s, ran(0, "", ""));
    let (s, a) = step(s, ran(1, "", "boom\n"));
    assert!(matches!(a, SweepAction::Launch(ref l) if l.is_empty()));
    let (_, a) = step(s, SweepEvent::Launched(vec![]));
    match a {
        SweepAction::Finish(j) => assert_eq!(
            json_string(&j),
            "{\"fixes_launched\":[],\"gaps_in\":[],\"grammars\":1,\"report\":{\"lua\":{\"error\":\"sweep failed\",\"stderr\":\"boom\"}}}"
        ),
        _ => panic!("expected the result"),
    }
}

#[test]
fn an_event_out_of_step_fails_the_sweep() {
    let (s, a) = step(sweep_start(), SweepEvent::Exists(true));
    assert!(s.phase == SweepPhase::Over);
    assert!(matches!(a, SweepAction::Fail(_)));
}

#[test]
fn grammars_are_visited_in_order_of_language() {
    let gs = vec![
        Grammar::new("zig".to_string(), "crates/z".to_string()),
        Grammar::new("c".to_string(), "crates/c1".to_string()),
        Grammar::new("go".to_string(), "crates/g".to_string()),
        Grammar::new("c".to_string(), "crates/c2".to_string()),
    ];
    let sorted = powderman::sweep::sort_grammars(gs);
    let seen: Vec<(&str, &str)> = sorted.iter().map(|g| (g.lang(), g.reldir())).collect();
    assert_eq!(seen, [("c", "crates/c1"), ("c", "crates/c2"), ("go", "crates/g"), ("zig", "crates/z")]);
    let (_, a) = to_grammars(false, vec![
        Grammar::new("rust".to_string(), "crates/r".to_string()),
        Grammar::new("go".to_string(), "crates/g".to_string()),
    ]);
    assert_eq!(exec_of(&a).0, "rank go");
}

#[test]
fn only_the_fixes_asked_for_are_reported_as_launched() {
    let (s, _) = to_grammars(true, vec![
        Grammar::new("csharp".to_string(), "crates/cs".to_string()),
        Grammar::new("zig".to_string(), "crates/z".to_string()),
    ]);
    let gappy = Counts { files: 2, passed: 1, failed: 1, gap_files: 1, noise_files: 0, clusters: 1 };
    let mut s = s;
    for _ in 0..2 {
        let (s1, _) = step(s, ran(0, "", ""));
        let (s1, _) = step(s1, SweepEvent::Exists(true));
        let (s1, _) = step(s1, ran(0, "", ""));
        let (s1, _) = step(s1, ran(0, "", ""));
        let (s1, _) = step(s1, ran(0, "", ""));
        let (s1, _) = step(s1, SweepEvent::Swept(gappy));
        s = s1;
    }
    let started = vec!["go".to_string(), "zig".to_string(), "csharp".to_string()];
    let (_, a) = step(s, SweepEvent::Launched(started));
    match a {
        SweepAction::Finish(j) => {
            let t = json_string(&j);
            assert!(t.starts_with("{\"fixes_launched\":[\"zig\"],\"gaps_in\":[\"csharp\",\"zig\"]"), "{t}");
        },
        _ => panic!("expected the result"),
    }
}
