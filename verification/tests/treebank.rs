use powderman::json::{Json, Member, Number};
use powderman::treebank::{
    agent_name, base_branch, fix_lang, fix_prompt, fix_targets, gap_langs, no_agent, prompt_seen,
    settled, should_pull, stack_has_room, sweep_limit, Grammar, Pr, PromptSeen, STACK_MAX,
};

fn obj(members: Vec<(&str, Json)>) -> Json {
    Json::Object(
        members
            .into_iter()
            .map(|(k, v)| Member { key: k.to_string(), value: v })
            .collect(),
    )
}

fn gaps(n: u64) -> Json {
    obj(vec![("gap_files", Json::Num(Number::PosInt(n)))])
}

#[test]
fn only_languages_with_gaps_are_fixed_and_csharp_never_is() {
    let report = obj(vec![
        ("csharp", gaps(3)),
        ("go", gaps(0)),
        ("python", gaps(2)),
        ("rust", obj(vec![])),
        ("ts", gaps(1)),
    ]);
    let langs = gap_langs(&report);
    assert_eq!(langs, ["csharp", "python", "ts"]);
    assert_eq!(fix_targets(&langs), ["python", "ts"]);
    assert!(no_agent("csharp"));
    assert!(!no_agent("python"));
    assert!(gap_langs(&Json::Array(vec![])).is_empty());
}

#[test]
fn the_sweep_limit_defaults_to_a_hundred() {
    assert_eq!(sweep_limit(&obj(vec![])), 100);
    assert_eq!(sweep_limit(&obj(vec![("limit", Json::Num(Number::PosInt(7)))])), 7);
    assert_eq!(sweep_limit(&obj(vec![("limit", Json::Str("x".into()))])), 100);
}

#[test]
fn a_clean_checkout_is_pulled_and_a_dirty_one_is_not() {
    assert!(should_pull(""));
    assert!(should_pull("  \n"));
    assert!(!should_pull(" M grammar.js\n"));
}

#[test]
fn each_language_gets_its_own_agent() {
    assert_eq!(agent_name("c_sharp"), "tbfix-c-sharp");
    assert_eq!(agent_name("rust"), "tbfix-rust");
    assert_eq!(fix_lang(&obj(vec![("lang", Json::Str("go".into()))])), Some("go".to_string()));
    assert_eq!(fix_lang(&obj(vec![])), None);
}

#[test]
fn the_prompt_names_the_language_and_its_directory() {
    let p = fix_prompt("go", "grammars/go", "../../tools/gate", "tools/audit");
    assert!(p.starts_with("Read corpus/go/reports/REPORT.md"));
    assert!(p.contains("Edit grammar sources in grammars/go/build/"));
    assert!(p.contains("git add grammars/go and git commit it"));
    assert!(p.contains("run ../../tools/gate from grammars/go until"));
    assert!(p.contains("then run tools/audit grammars/go from the repo root"));
    let g = Grammar::new("go".into(), "grammars/go".into());
    assert_eq!(g.lang(), "go");
    assert_eq!(g.reldir(), "grammars/go");
}

#[test]
fn a_fix_stacks_on_the_top_of_the_stack() {
    let pr = |n: i64, head: &str| Pr { number: n, head_ref_name: head.into(), url: format!("u{n}") };
    assert_eq!(base_branch(&vec![], "main"), "main");
    assert_eq!(base_branch(&vec![pr(1, "fix-a"), pr(2, "fix-b")], "main"), "fix-b");
    assert!(stack_has_room(STACK_MAX - 1));
    assert!(!stack_has_room(STACK_MAX));
}

#[test]
fn an_agent_settles_when_idle_done_or_gone() {
    assert!(settled(None));
    assert!(settled(Some("idle")));
    assert!(settled(Some("done")));
    assert!(!settled(Some("working")));
    assert!(matches!(prompt_seen(Some("working")), PromptSeen::Taken));
    assert!(matches!(prompt_seen(Some("blocked")), PromptSeen::Taken));
    assert!(matches!(prompt_seen(Some("idle")), PromptSeen::NotYet));
    assert!(matches!(prompt_seen(None), PromptSeen::Gone));
}
