//! The daily sweep as a state machine.
//!
//! A sweep pulls the repository (never over a dirty tree), builds it, and
//! then for every grammar ranks, fetches, materializes and sweeps, keeping
//! one report row per language. It ends by handing the languages with gaps,
//! less those no agent is sent to, to fix runs of their own.
//!
//! Each call of [`sweep_step`] takes what the last action produced and says
//! what to do next; the caller runs the command, looks at the disk or starts
//! the fix runs, and hands the outcome back.

use vstd::prelude::*;

use crate::exec::Output;
use crate::json::{lemma_members_of, members_of, upsert, Json, JsonV, Member, Number};
use crate::order::stable_sorted;
use crate::text::{concat, decimal, trim, trimmed};
use crate::settings::upsert_members;
use crate::treebank::{excluded, fix_targets, gap_keys, gap_langs, strings_view, Grammar};
use crate::tree::number_string;

verus! {

/// Where a sweep stands: what it last asked for.
#[derive(Clone, Copy, PartialEq, Eq, Structural)]
pub enum SweepPhase {
    /// Nothing asked yet.
    Start,
    /// Asked whether the checkout is clean.
    Clean,
    /// Asked for a pull.
    Pull,
    /// Asked for the submodules.
    Submodules,
    /// Asked for a build.
    Build,
    /// Asked for the grammars.
    Discover,
    /// Asked to rank the current language.
    Rank,
    /// Asked whether its package list is on disk.
    HaveList,
    /// Asked to fetch its packages.
    Fetch,
    /// Asked to materialize its grammar.
    Materialize,
    /// Asked to sweep it.
    Sweep,
    /// Asked for the sweep's numbers.
    Read,
    /// Asked to launch the fix runs.
    Launch,
    /// Finished or failed.
    Over,
}

/// What a sweep of one language counted.
#[derive(Clone, Copy)]
pub struct Counts {
    pub files: i64,
    pub passed: i64,
    pub failed: i64,
    pub gap_files: i64,
    pub noise_files: i64,
    /// How many clusters the gaps fall into.
    pub clusters: u64,
}

/// A sweep in progress.
pub struct SweepState {
    pub phase: SweepPhase,
    /// The repository's checkout.
    pub root: String,
    /// How many packages to fetch per language.
    pub limit: i64,
    /// The grammars, ordered by language.
    pub grammars: Vec<Grammar>,
    /// The grammar being worked on.
    pub at: usize,
    /// Whether ranking the current language succeeded.
    pub ranked: bool,
    /// One row per language done so far, keyed by language.
    pub report: Vec<Member>,
    /// The languages with gaps, once every grammar is done.
    pub gaps: Vec<String>,
}

pub struct SweepV {
    pub phase: SweepPhase,
    pub root: Seq<char>,
    pub limit: i64,
    pub grammars: Seq<(Seq<char>, Seq<char>)>,
    pub at: int,
    pub ranked: bool,
    pub report: Seq<(Seq<char>, JsonV)>,
    pub gaps: Seq<Seq<char>>,
}

pub open spec fn grammars_view(gs: Seq<Grammar>) -> Seq<(Seq<char>, Seq<char>)> {
    Seq::new(gs.len(), |i: int| (gs[i].lang_view(), gs[i].reldir_view()))
}

impl View for SweepState {
    type V = SweepV;

    open spec fn view(&self) -> SweepV {
        SweepV {
            phase: self.phase,
            root: self.root@,
            limit: self.limit,
            grammars: grammars_view(self.grammars@),
            at: self.at as int,
            ranked: self.ranked,
            report: members_of(self.report@),
            gaps: strings_view(self.gaps@),
        }
    }
}

/// What the caller hands back.
pub enum SweepEvent {
    /// Start a sweep with the run's input, in the checkout at `root`.
    Begin { input: Json, root: String },
    /// The command asked for finished.
    Ran(Output),
    /// The grammars the checkout holds, in any order.
    Grammars(Vec<Grammar>),
    /// Whether the path asked about exists.
    Exists(bool),
    /// What the sweep report asked for counts.
    Swept(Counts),
    /// The languages whose fix run was started.
    Launched(Vec<String>),
}

pub enum SweepEventV {
    Begin { input: JsonV, root: Seq<char> },
    Ran { code: i32, stdout: Seq<char>, stderr: Seq<char>, unit: Seq<char> },
    Grammars(Seq<(Seq<char>, Seq<char>)>),
    Exists(bool),
    Swept(Counts),
    Launched(Seq<Seq<char>>),
}

impl View for SweepEvent {
    type V = SweepEventV;

    open spec fn view(&self) -> SweepEventV {
        match self {
            SweepEvent::Begin { input, root } => SweepEventV::Begin { input: input@, root: root@ },
            SweepEvent::Ran(o) => SweepEventV::Ran { code: o.code, stdout: o.stdout@, stderr: o.stderr@, unit: o.unit@ },
            SweepEvent::Grammars(gs) => SweepEventV::Grammars(grammars_view(gs@)),
            SweepEvent::Exists(b) => SweepEventV::Exists(*b),
            SweepEvent::Swept(c) => SweepEventV::Swept(*c),
            SweepEvent::Launched(ls) => SweepEventV::Launched(strings_view(ls@)),
        }
    }
}

/// What the caller is to do next.
pub enum SweepAction {
    /// Run `argv` in `cwd` as the step `name`.
    Exec { name: String, argv: Vec<String>, cwd: String },
    /// List the grammars under `root`.
    Discover { root: String },
    /// Say whether `path` exists.
    Exists { path: String },
    /// Read the sweep report at `path`, as the step `name`.
    ReadSweep { name: String, path: String },
    /// Start a fix run for each language.
    Launch(Vec<String>),
    /// The sweep is done; this is its result.
    Finish(Json),
    /// The sweep failed.
    Fail(String),
}

pub enum SweepActionV {
    Exec { name: Seq<char>, argv: Seq<Seq<char>>, cwd: Seq<char> },
    Discover { root: Seq<char> },
    Exists { path: Seq<char> },
    ReadSweep { name: Seq<char>, path: Seq<char> },
    Launch(Seq<Seq<char>>),
    Finish(JsonV),
    Fail(Seq<char>),
}

impl View for SweepAction {
    type V = SweepActionV;

    open spec fn view(&self) -> SweepActionV {
        match self {
            SweepAction::Exec { name, argv, cwd } => SweepActionV::Exec {
                name: name@,
                argv: strings_view(argv@),
                cwd: cwd@,
            },
            SweepAction::Discover { root } => SweepActionV::Discover { root: root@ },
            SweepAction::Exists { path } => SweepActionV::Exists { path: path@ },
            SweepAction::ReadSweep { name, path } => SweepActionV::ReadSweep { name: name@, path: path@ },
            SweepAction::Launch(ls) => SweepActionV::Launch(strings_view(ls@)),
            SweepAction::Finish(j) => SweepActionV::Finish(j@),
            SweepAction::Fail(m) => SweepActionV::Fail(m@),
        }
    }
}

/// The `limit` input, else a hundred.
pub open spec fn limit_of(input: JsonV) -> i64 {
    match crate::json::field(input, "limit"@) {
        Some(v) => match crate::json::as_i64(v) {
            Some(n) => n,
            None => 100,
        },
        None => 100,
    }
}

/// An integer as JSON writes it.
pub open spec fn int_num(n: i64) -> Number {
    if n >= 0 {
        Number::PosInt(n as u64)
    } else {
        Number::NegInt(n)
    }
}

/// An integer in decimal, with a minus sign when negative.
pub open spec fn int_text(n: i64) -> Seq<char> {
    if n < 0 {
        seq!['-'] + decimal((-(n as int)) as nat)
    } else {
        decimal(n as nat)
    }
}

/// The binary the build produces.
pub open spec fn binary(root: Seq<char>) -> Seq<char> {
    root + "/target/release/treebank"@
}

pub open spec fn run(name: Seq<char>, argv: Seq<Seq<char>>, root: Seq<char>) -> SweepActionV {
    SweepActionV::Exec { name, argv, cwd: root }
}

pub open spec fn submodules_v(root: Seq<char>) -> SweepActionV {
    run("submodules"@, seq!["git"@, "submodule"@, "update"@, "--init"@, "--quiet"@], root)
}

/// The row of a language that was skipped.
pub open spec fn skipped_row() -> JsonV {
    JsonV::Object(seq![("skipped"@, JsonV::Str("no package list and cannot rank"@))])
}

/// The row of a language whose command failed.
pub open spec fn error_row(what: Seq<char>, stderr: Seq<char>) -> JsonV {
    JsonV::Object(seq![("error"@, JsonV::Str(what)), ("stderr"@, JsonV::Str(trimmed(stderr)))])
}

/// The row of a language that was swept.
pub open spec fn counts_row(c: Counts) -> JsonV {
    JsonV::Object(
        seq![
            ("clusters"@, JsonV::Num(Number::PosInt(c.clusters))),
            ("failed"@, JsonV::Num(int_num(c.failed))),
            ("files"@, JsonV::Num(int_num(c.files))),
            ("gap_files"@, JsonV::Num(int_num(c.gap_files))),
            ("noise_files"@, JsonV::Num(int_num(c.noise_files))),
            ("passed"@, JsonV::Num(int_num(c.passed))),
        ],
    )
}

pub open spec fn str_items(s: Seq<Seq<char>>) -> Seq<JsonV> {
    Seq::new(s.len(), |i: int| JsonV::Str(s[i]))
}

/// The languages a sweep asks fix runs for: those with gaps, less the ones
/// no agent is sent to.
pub open spec fn fix_targets_of(gaps: Seq<Seq<char>>) -> Seq<Seq<char>> {
    gaps.filter(|l: Seq<char>| !excluded(l))
}

/// The fix runs a sweep reports as launched: those it asked for, in the
/// order it asked, whose start the caller confirmed.
pub open spec fn launched_of(asked: Seq<Seq<char>>, started: Seq<Seq<char>>) -> Seq<Seq<char>> {
    asked.filter(|l: Seq<char>| started.contains(l))
}

/// What a finished sweep returns.
pub open spec fn sweep_result(s: SweepV, launched: Seq<Seq<char>>) -> JsonV {
    JsonV::Object(
        seq![
            ("fixes_launched"@, JsonV::Array(str_items(launched))),
            ("gaps_in"@, JsonV::Array(str_items(s.gaps))),
            ("grammars"@, JsonV::Num(Number::PosInt(s.grammars.len() as u64))),
            ("report"@, JsonV::Object(s.report)),
        ],
    )
}

pub open spec fn fail_v(s: SweepV, m: Seq<char>) -> (SweepV, SweepActionV) {
    (SweepV { phase: SweepPhase::Over, ..s }, SweepActionV::Fail(m))
}

/// The answer to an event the sweep was not waiting for.
pub open spec fn out_of_step(s: SweepV) -> (SweepV, SweepActionV) {
    fail_v(s, "the sweep got an event it was not waiting for"@)
}

/// Move on to the grammar at `s.at`: rank it, or, past the last one, launch
/// the fix runs.
pub open spec fn visit(s: SweepV) -> (SweepV, SweepActionV) {
    if s.at < s.grammars.len() {
        let l = s.grammars[s.at].0;
        (
            SweepV { phase: SweepPhase::Rank, ..s },
            run(
                "rank "@ + l,
                seq![binary(s.root), "rank"@, "--lang"@, l, "--k"@, "1000"@],
                s.root,
            ),
        )
    } else {
        let gaps = gap_keys(s.report);
        (
            SweepV { phase: SweepPhase::Launch, gaps, ..s },
            SweepActionV::Launch(fix_targets_of(gaps)),
        )
    }
}

/// Grammars in order of language.
pub open spec fn by_lang() -> spec_fn((Seq<char>, Seq<char>), (Seq<char>, Seq<char>)) -> bool {
    |a: (Seq<char>, Seq<char>), b: (Seq<char>, Seq<char>)| crate::json::key_lt(a.0, b.0)
}

/// Record `row` for the current language and go on to the next.
pub open spec fn next_with(s: SweepV, row: JsonV) -> (SweepV, SweepActionV) {
    visit(SweepV { at: s.at + 1, report: upsert(s.report, s.grammars[s.at].0, row), ..s })
}

/// The sweep's decisions: from where it stands and what came back, where it
/// stands next and what to do.
pub open spec fn sweep_next(s: SweepV, e: SweepEventV) -> (SweepV, SweepActionV) {
    let in_grammar = 0 <= s.at < s.grammars.len();
    let l = s.grammars[s.at].0;
    let d = s.grammars[s.at].1;
    match (s.phase, e) {
        (SweepPhase::Start, SweepEventV::Begin { input, root }) => (
            SweepV {
                phase: SweepPhase::Clean,
                root,
                limit: limit_of(input),
                grammars: seq![],
                at: 0,
                ranked: false,
                report: seq![],
                gaps: seq![],
            },
            run(
                "check clean"@,
                seq!["git"@, "status"@, "--porcelain"@, "--untracked-files=no"@],
                root,
            ),
        ),
        (SweepPhase::Clean, SweepEventV::Ran { stdout, .. }) => if trimmed(stdout).len() == 0 {
            (
                SweepV { phase: SweepPhase::Pull, ..s },
                run("pull"@, seq!["git"@, "pull"@, "--ff-only"@, "--quiet"@], s.root),
            )
        } else {
            (SweepV { phase: SweepPhase::Submodules, ..s }, submodules_v(s.root))
        },
        (SweepPhase::Pull, SweepEventV::Ran { .. }) => (
            SweepV { phase: SweepPhase::Submodules, ..s },
            submodules_v(s.root),
        ),
        (SweepPhase::Submodules, SweepEventV::Ran { .. }) => (
            SweepV { phase: SweepPhase::Build, ..s },
            run("build"@, seq!["cargo"@, "build"@, "--release"@, "--quiet"@], s.root),
        ),
        (SweepPhase::Build, SweepEventV::Ran { code, stderr, .. }) => if code != 0 {
            fail_v(s, "cargo build failed: "@ + trimmed(stderr))
        } else {
            (SweepV { phase: SweepPhase::Discover, ..s }, SweepActionV::Discover { root: s.root })
        },
        (SweepPhase::Discover, SweepEventV::Grammars(gs)) => visit(
            SweepV { grammars: stable_sorted(gs, by_lang()), at: 0, ..s },
        ),
        (SweepPhase::Rank, SweepEventV::Ran { code, .. }) => if in_grammar {
            (
                SweepV { phase: SweepPhase::HaveList, ranked: code == 0, ..s },
                SweepActionV::Exists { path: s.root + "/corpus/"@ + l + "/top-k.json"@ },
            )
        } else {
            out_of_step(s)
        },
        (SweepPhase::HaveList, SweepEventV::Exists(have)) => if !in_grammar {
            out_of_step(s)
        } else if !s.ranked && !have {
            next_with(s, skipped_row())
        } else {
            (
                SweepV { phase: SweepPhase::Fetch, ..s },
                run(
                    "fetch "@ + l,
                    seq![binary(s.root), "fetch"@, "--lang"@, l, "--limit"@, int_text(s.limit)],
                    s.root,
                ),
            )
        },
        (SweepPhase::Fetch, SweepEventV::Ran { .. }) => if in_grammar {
            (
                SweepV { phase: SweepPhase::Materialize, ..s },
                run("materialize "@ + l, seq![s.root + "/scripts/materialize.sh"@, d], s.root),
            )
        } else {
            out_of_step(s)
        },
        (SweepPhase::Materialize, SweepEventV::Ran { code, stderr, .. }) => if !in_grammar {
            out_of_step(s)
        } else if code != 0 {
            next_with(s, error_row("materialize failed"@, stderr))
        } else {
            (
                SweepV { phase: SweepPhase::Sweep, ..s },
                run(
                    "sweep "@ + l,
                    seq![binary(s.root), "sweep"@, "--lang"@, l, "--grammar"@, d + "/build"@],
                    s.root,
                ),
            )
        },
        (SweepPhase::Sweep, SweepEventV::Ran { code, stderr, .. }) => if !in_grammar {
            out_of_step(s)
        } else if code != 0 {
            next_with(s, error_row("sweep failed"@, stderr))
        } else {
            (
                SweepV { phase: SweepPhase::Read, ..s },
                SweepActionV::ReadSweep {
                    name: "read sweep "@ + l,
                    path: s.root + "/corpus/"@ + l + "/reports/sweep.json"@,
                },
            )
        },
        (SweepPhase::Read, SweepEventV::Swept(c)) => if in_grammar {
            next_with(s, counts_row(c))
        } else {
            out_of_step(s)
        },
        (SweepPhase::Launch, SweepEventV::Launched(ls)) => (
            SweepV { phase: SweepPhase::Over, ..s },
            SweepActionV::Finish(sweep_result(s, launched_of(fix_targets_of(s.gaps), ls))),
        ),
        _ => out_of_step(s),
    }
}

fn str_json(s: &str) -> (r: Json)
    ensures
        r@ == JsonV::Str(s@),
{
    Json::Str(s.to_owned())
}

fn int_json(n: i64) -> (r: Json)
    ensures
        r@ == JsonV::Num(int_num(n)),
{
    if n >= 0 {
        Json::Num(Number::PosInt(n as u64))
    } else {
        Json::Num(Number::NegInt(n))
    }
}

fn skipped_json() -> (r: Json)
    ensures
        r@ == skipped_row(),
{
    let mut ms: Vec<Member> = Vec::new();
    ms.push(Member { key: "skipped".to_owned(), value: str_json("no package list and cannot rank") });
    proof {
        lemma_members_of(ms@);
    }
    assert(members_of(ms@) =~= seq![("skipped"@, JsonV::Str("no package list and cannot rank"@))]);
    Json::Object(ms)
}

fn error_json(what: &str, stderr: &str) -> (r: Json)
    ensures
        r@ == error_row(what@, stderr@),
{
    let mut ms: Vec<Member> = Vec::new();
    ms.push(Member { key: "error".to_owned(), value: str_json(what) });
    let t = trim(stderr);
    ms.push(Member { key: "stderr".to_owned(), value: Json::Str(t) });
    proof {
        lemma_members_of(ms@);
    }
    assert(members_of(ms@) =~= seq![("error"@, JsonV::Str(what@)), ("stderr"@, JsonV::Str(trimmed(stderr@)))]);
    Json::Object(ms)
}

fn counts_json(c: Counts) -> (r: Json)
    ensures
        r@ == counts_row(c),
{
    let mut ms: Vec<Member> = Vec::new();
    ms.push(Member { key: "clusters".to_owned(), value: Json::Num(Number::PosInt(c.clusters)) });
    ms.push(Member { key: "failed".to_owned(), value: int_json(c.failed) });
    ms.push(Member { key: "files".to_owned(), value: int_json(c.files) });
    ms.push(Member { key: "gap_files".to_owned(), value: int_json(c.gap_files) });
    ms.push(Member { key: "noise_files".to_owned(), value: int_json(c.noise_files) });
    ms.push(Member { key: "passed".to_owned(), value: int_json(c.passed) });
    proof {
        lemma_members_of(ms@);
    }
    let ghost want = seq![
        ("clusters"@, JsonV::Num(Number::PosInt(c.clusters))),
        ("failed"@, JsonV::Num(int_num(c.failed))),
        ("files"@, JsonV::Num(int_num(c.files))),
        ("gap_files"@, JsonV::Num(int_num(c.gap_files))),
        ("noise_files"@, JsonV::Num(int_num(c.noise_files))),
        ("passed"@, JsonV::Num(int_num(c.passed))),
    ];
    assert(members_of(ms@) =~= want);
    Json::Object(ms)
}

fn str_array(v: &Vec<String>) -> (r: Json)
    ensures
        r@ == JsonV::Array(str_items(strings_view(v@))),
{
    let mut out: Vec<Json> = Vec::new();
    let mut i: usize = 0;
    while i < v.len()
        invariant
            i <= v@.len(),
            out@.len() == i,
            forall|j: int| 0 <= j < i ==> (#[trigger] out@[j])@ == JsonV::Str(v@[j]@),
        decreases v.len() - i,
    {
        out.push(Json::Str(v[i].clone()));
        i += 1;
    }
    proof {
        crate::json::lemma_jsons_of(out@);
    }
    assert(crate::json::jsons_of(out@) =~= str_items(strings_view(v@)));
    Json::Array(out)
}

/// The name of a step about one language.
fn named(what: &str, lang: &String) -> (r: String)
    ensures
        r@ == what@ + lang@,
{
    concat(what, lang.as_str())
}

fn fail(s: SweepState, m: String) -> (r: (SweepState, SweepAction))
    ensures
        (r.0@, r.1@) == fail_v(s@, m@),
{
    (SweepState { phase: SweepPhase::Over, ..s }, SweepAction::Fail(m))
}

fn refuse(s: SweepState) -> (r: (SweepState, SweepAction))
    ensures
        (r.0@, r.1@) == out_of_step(s@),
{
    fail(s, "the sweep got an event it was not waiting for".to_owned())
}

/// The grammars in order of language, those of one language in the order
/// given, so every run visits them in the same order.
pub fn sort_grammars(gs: Vec<Grammar>) -> (r: Vec<Grammar>)
    ensures
        grammars_view(r@) == stable_sorted(grammars_view(gs@), by_lang()),
{
    let mut rest = gs;
    let ghost orig = rest@;
    let ghost all = grammars_view(orig);
    let n = rest.len();
    let mut out: Vec<Grammar> = Vec::new();
    assert(grammars_view(out@) =~= stable_sorted(all.subrange(0, 0), by_lang()));
    assert(rest@.subrange(0, n as int) =~= orig);
    let mut i: usize = 0;
    while i < n
        invariant
            i <= n,
            n == orig.len(),
            all == grammars_view(orig),
            rest@ == orig.subrange(i as int, n as int),
            grammars_view(out@) == stable_sorted(all.subrange(0, i as int), by_lang()),
        decreases n - i,
    {
        let x = rest.remove(0);
        assert(x == orig[i as int]);
        assert(rest@ =~= orig.subrange(i + 1, n as int));
        let ghost xv = all[i as int];
        assert(all.subrange(0, i + 1).drop_last() =~= all.subrange(0, i as int));
        assert(all.subrange(0, i + 1).last() == xv);
        let ghost o = grammars_view(out@);
        let mut p: usize = 0;
        while p < out.len() && !crate::json::key_less(x.lang(), out[p].lang())
            invariant
                p <= out@.len(),
                o == grammars_view(out@),
                xv == (x.lang_view(), x.reldir_view()),
                forall|k: int| 0 <= k < p ==> !(by_lang())(xv, #[trigger] o[k]),
            decreases out.len() - p,
        {
            p += 1;
        }
        out.insert(p, x);
        proof {
            assert(grammars_view(out@) =~= o.insert(p as int, xv));
            crate::order::lemma_insert_in_order(o, xv, by_lang(), p as int);
        }
        i += 1;
    }
    assert(all.subrange(0, n as int) =~= all);
    out
}

fn visit_exec(s: SweepState) -> (r: (SweepState, SweepAction))
    ensures
        (r.0@, r.1@) == visit(s@),
{
    if s.at < s.grammars.len() {
        let l = s.grammars[s.at].lang().to_owned();
        let name = named("rank ", &l);
        let mut argv: Vec<String> = Vec::new();
        argv.push(concat(s.root.as_str(), "/target/release/treebank"));
        argv.push("rank".to_owned());
        argv.push("--lang".to_owned());
        argv.push(l);
        argv.push("--k".to_owned());
        argv.push("1000".to_owned());
        let ghost lv = s@.grammars[s@.at].0;
        assert(strings_view(argv@) =~= seq![binary(s@.root), "rank"@, "--lang"@, lv, "--k"@, "1000"@]);
        let cwd = s.root.clone();
        (SweepState { phase: SweepPhase::Rank, ..s }, SweepAction::Exec { name, argv, cwd })
    } else {
        let SweepState { phase, root, limit, grammars, at, ranked, report, gaps: _ } = s;
        let rj = Json::Object(report);
        let gaps = gap_langs(&rj);
        let report = match rj {
            Json::Object(ms) => ms,
            _ => Vec::new(),
        };
        let launch = fix_targets(&gaps);
        proof {
            let a = strings_view(gaps@).filter(|l: Seq<char>| !excluded(l));
            let b = gap_keys(members_of(report@)).filter(|l: Seq<char>| !excluded(l));
            assert(a =~= b);
        }
        (
            SweepState { phase: SweepPhase::Launch, root, limit, grammars, at, ranked, report, gaps },
            SweepAction::Launch(launch),
        )
    }
}

fn next_exec(s: SweepState, row: Json) -> (r: (SweepState, SweepAction))
    requires
        s.at < s.grammars.len(),
    ensures
        (r.0@, r.1@) == next_with(s@, row@),
{
    let key = s.grammars[s.at].lang().to_owned();
    let SweepState { phase, root, limit, grammars, at, ranked, report, gaps } = s;
    let report = upsert_members(report, key, row);
    visit_exec(SweepState { phase, root, limit, grammars, at: at + 1, ranked, report, gaps })
}

fn submodules(root: &String) -> (r: SweepAction)
    ensures
        r@ == submodules_v(root@),
{
    let mut argv: Vec<String> = Vec::new();
    argv.push("git".to_owned());
    argv.push("submodule".to_owned());
    argv.push("update".to_owned());
    argv.push("--init".to_owned());
    argv.push("--quiet".to_owned());
    assert(strings_view(argv@) =~= seq!["git"@, "submodule"@, "update"@, "--init"@, "--quiet"@]);
    SweepAction::Exec { name: "submodules".to_owned(), argv, cwd: root.clone() }
}

/// One step of a sweep: from where it stands and what came back, where it
/// stands next and what the caller is to do.
pub fn sweep_step(s: SweepState, e: SweepEvent) -> (r: (SweepState, SweepAction))
    ensures
        (r.0@, r.1@) == sweep_next(s@, e@),
{
    let in_grammar = s.at < s.grammars.len();
    match s.phase {
        SweepPhase::Start => match e {
            SweepEvent::Begin { input, root } => {
                let limit = crate::treebank::sweep_limit(&input);
                let mut argv: Vec<String> = Vec::new();
                argv.push("git".to_owned());
                argv.push("status".to_owned());
                argv.push("--porcelain".to_owned());
                argv.push("--untracked-files=no".to_owned());
                assert(strings_view(argv@) =~= seq!["git"@, "status"@, "--porcelain"@, "--untracked-files=no"@]);
                let cwd = root.clone();
                let grammars: Vec<Grammar> = Vec::new();
                let report: Vec<Member> = Vec::new();
                let gaps: Vec<String> = Vec::new();
                proof {
                    lemma_members_of(report@);
                }
                assert(grammars_view(grammars@) =~= Seq::<(Seq<char>, Seq<char>)>::empty());
                assert(strings_view(gaps@) =~= Seq::<Seq<char>>::empty());
                (
                    SweepState { phase: SweepPhase::Clean, root, limit, grammars, at: 0, ranked: false, report, gaps },
                    SweepAction::Exec { name: "check clean".to_owned(), argv, cwd },
                )
            },
            _ => refuse(s),
        },
        SweepPhase::Clean => match e {
            SweepEvent::Ran(o) => {
                if crate::treebank::should_pull(o.stdout.as_str()) {
                    let mut argv: Vec<String> = Vec::new();
                    argv.push("git".to_owned());
                    argv.push("pull".to_owned());
                    argv.push("--ff-only".to_owned());
                    argv.push("--quiet".to_owned());
                    assert(strings_view(argv@) =~= seq!["git"@, "pull"@, "--ff-only"@, "--quiet"@]);
                    let cwd = s.root.clone();
                    (SweepState { phase: SweepPhase::Pull, ..s }, SweepAction::Exec { name: "pull".to_owned(), argv, cwd })
                } else {
                    let a = submodules(&s.root);
                    (SweepState { phase: SweepPhase::Submodules, ..s }, a)
                }
            },
            _ => refuse(s),
        },
        SweepPhase::Pull => match e {
            SweepEvent::Ran(_) => {
                let a = submodules(&s.root);
                (SweepState { phase: SweepPhase::Submodules, ..s }, a)
            },
            _ => refuse(s),
        },
        SweepPhase::Submodules => match e {
            SweepEvent::Ran(_) => {
                let mut argv: Vec<String> = Vec::new();
                argv.push("cargo".to_owned());
                argv.push("build".to_owned());
                argv.push("--release".to_owned());
                argv.push("--quiet".to_owned());
                assert(strings_view(argv@) =~= seq!["cargo"@, "build"@, "--release"@, "--quiet"@]);
                let cwd = s.root.clone();
                (SweepState { phase: SweepPhase::Build, ..s }, SweepAction::Exec { name: "build".to_owned(), argv, cwd })
            },
            _ => refuse(s),
        },
        SweepPhase::Build => match e {
            SweepEvent::Ran(o) => {
                if o.code != 0 {
                    let t = trim(o.stderr.as_str());
                    let m = concat("cargo build failed: ", t.as_str());
                    fail(s, m)
                } else {
                    let root = s.root.clone();
                    (SweepState { phase: SweepPhase::Discover, ..s }, SweepAction::Discover { root })
                }
            },
            _ => refuse(s),
        },
        SweepPhase::Discover => match e {
            SweepEvent::Grammars(gs) => visit_exec(SweepState { grammars: sort_grammars(gs), at: 0, ..s }),
            _ => refuse(s),
        },
        SweepPhase::Rank => match e {
            SweepEvent::Ran(o) => {
                if in_grammar {
                    let l = s.grammars[s.at].lang();
                    let p = concat(concat(concat(s.root.as_str(), "/corpus/").as_str(), l).as_str(), "/top-k.json");
                    (SweepState { phase: SweepPhase::HaveList, ranked: o.code == 0, ..s }, SweepAction::Exists { path: p })
                } else {
                    refuse(s)
                }
            },
            _ => refuse(s),
        },
        SweepPhase::HaveList => match e {
            SweepEvent::Exists(have) => {
                if !in_grammar {
                    refuse(s)
                } else if !s.ranked && !have {
                    next_exec(s, skipped_json())
                } else {
                    let l = s.grammars[s.at].lang().to_owned();
                    let name = named("fetch ", &l);
                    let mut argv: Vec<String> = Vec::new();
                    argv.push(concat(s.root.as_str(), "/target/release/treebank"));
                    argv.push("fetch".to_owned());
                    argv.push("--lang".to_owned());
                    argv.push(l);
                    argv.push("--limit".to_owned());
                    argv.push(number_string(&Number::NegInt(s.limit)));
                    let ghost lv = s@.grammars[s@.at].0;
                    assert(strings_view(argv@) =~= seq![binary(s@.root), "fetch"@, "--lang"@, lv, "--limit"@, int_text(s@.limit)]);
                    let cwd = s.root.clone();
                    (SweepState { phase: SweepPhase::Fetch, ..s }, SweepAction::Exec { name, argv, cwd })
                }
            },
            _ => refuse(s),
        },
        SweepPhase::Fetch => match e {
            SweepEvent::Ran(_) => {
                if in_grammar {
                    let l = s.grammars[s.at].lang().to_owned();
                    let d = s.grammars[s.at].reldir().to_owned();
                    let name = named("materialize ", &l);
                    let mut argv: Vec<String> = Vec::new();
                    argv.push(concat(s.root.as_str(), "/scripts/materialize.sh"));
                    argv.push(d);
                    let ghost dv = s@.grammars[s@.at].1;
                    assert(strings_view(argv@) =~= seq![s@.root + "/scripts/materialize.sh"@, dv]);
                    let cwd = s.root.clone();
                    (SweepState { phase: SweepPhase::Materialize, ..s }, SweepAction::Exec { name, argv, cwd })
                } else {
                    refuse(s)
                }
            },
            _ => refuse(s),
        },
        SweepPhase::Materialize => match e {
            SweepEvent::Ran(o) => {
                if !in_grammar {
                    refuse(s)
                } else if o.code != 0 {
                    next_exec(s, error_json("materialize failed", o.stderr.as_str()))
                } else {
                    let l = s.grammars[s.at].lang().to_owned();
                    let d = s.grammars[s.at].reldir();
                    let name = named("sweep ", &l);
                    let mut argv: Vec<String> = Vec::new();
                    argv.push(concat(s.root.as_str(), "/target/release/treebank"));
                    argv.push("sweep".to_owned());
                    argv.push("--lang".to_owned());
                    argv.push(l);
                    argv.push("--grammar".to_owned());
                    argv.push(concat(d, "/build"));
                    let ghost lv = s@.grammars[s@.at].0;
                    let ghost dv = s@.grammars[s@.at].1;
                    assert(strings_view(argv@) =~= seq![binary(s@.root), "sweep"@, "--lang"@, lv, "--grammar"@, dv + "/build"@]);
                    let cwd = s.root.clone();
                    (SweepState { phase: SweepPhase::Sweep, ..s }, SweepAction::Exec { name, argv, cwd })
                }
            },
            _ => refuse(s),
        },
        SweepPhase::Sweep => match e {
            SweepEvent::Ran(o) => {
                if !in_grammar {
                    refuse(s)
                } else if o.code != 0 {
                    next_exec(s, error_json("sweep failed", o.stderr.as_str()))
                } else {
                    let l = s.grammars[s.at].lang().to_owned();
                    let name = named("read sweep ", &l);
                    let path = concat(concat(concat(s.root.as_str(), "/corpus/").as_str(), l.as_str()).as_str(), "/reports/sweep.json");
                    (SweepState { phase: SweepPhase::Read, ..s }, SweepAction::ReadSweep { name, path })
                }
            },
            _ => refuse(s),
        },
        SweepPhase::Read => match e {
            SweepEvent::Swept(c) => {
                if in_grammar {
                    next_exec(s, counts_json(c))
                } else {
                    refuse(s)
                }
            },
            _ => refuse(s),
        },
        SweepPhase::Launch => match e {
            SweepEvent::Launched(ls) => {
                let asked = fix_targets(&s.gaps);
                let launched = confirmed(&asked, &ls);
                let result = sweep_json(&s, &launched);
                (SweepState { phase: SweepPhase::Over, ..s }, SweepAction::Finish(result))
            },
            _ => refuse(s),
        },
        SweepPhase::Over => refuse(s),
    }
}

/// What a language's turn records reads back: its row under its name, and
/// every other language's row as it was.
pub proof fn law_a_recorded_row_reads_back(s: SweepV, row: JsonV, k: Seq<char>)
    requires
        0 <= s.at < s.grammars.len(),
    ensures
        crate::json::lookup(next_with(s, row).0.report, k) == if k == s.grammars[s.at].0 {
            Some(row)
        } else {
            crate::json::lookup(s.report, k)
        },
{
    crate::settings::lemma_lookup_upsert(s.report, s.grammars[s.at].0, row, k);
}

/// A swept language's counts are its report row.
pub proof fn law_a_swept_language_reports_its_counts(s: SweepV, c: Counts)
    requires
        s.phase == SweepPhase::Read,
        0 <= s.at < s.grammars.len(),
    ensures
        crate::json::lookup(sweep_next(s, SweepEventV::Swept(c)).0.report, s.grammars[s.at].0) == Some(
            counts_row(c),
        ),
{
    law_a_recorded_row_reads_back(s, counts_row(c), s.grammars[s.at].0);
}

/// A sweep that has not started.
pub fn sweep_start() -> (r: SweepState)
    ensures
        r@.phase == SweepPhase::Start,
{
    SweepState {
        phase: SweepPhase::Start,
        root: String::new(),
        limit: 100,
        grammars: Vec::new(),
        at: 0,
        ranked: false,
        report: Vec::new(),
        gaps: Vec::new(),
    }
}

/// A checkout with tracked changes is never pulled: the sweep goes straight
/// on to the submodules.
pub proof fn law_a_dirty_checkout_is_not_pulled(s: SweepV, code: i32, stdout: Seq<char>, stderr: Seq<char>, unit: Seq<char>)
    requires
        s.phase == SweepPhase::Clean,
        trimmed(stdout).len() > 0,
    ensures
        sweep_next(s, SweepEventV::Ran { code, stdout, stderr, unit }).1 == submodules_v(s.root),
{
}

/// A failed build ends the sweep, with the build's complaint.
pub proof fn law_a_failed_build_ends_the_sweep(s: SweepV, code: i32, stdout: Seq<char>, stderr: Seq<char>, unit: Seq<char>)
    requires
        s.phase == SweepPhase::Build,
        code != 0,
    ensures
        sweep_next(s, SweepEventV::Ran { code, stdout, stderr, unit }).0.phase == SweepPhase::Over,
        sweep_next(s, SweepEventV::Ran { code, stdout, stderr, unit }).1 == SweepActionV::Fail(
            "cargo build failed: "@ + trimmed(stderr),
        ),
{
}

/// When a language's turn ends, skipped, failed or swept, the sweep moves on
/// to the next grammar or to the launch: no failure of one language stops
/// the others.
pub proof fn law_one_language_does_not_stop_the_others(s: SweepV, e: SweepEventV)
    requires
        0 <= s.at < s.grammars.len(),
        s.phase == SweepPhase::HaveList || s.phase == SweepPhase::Materialize || s.phase == SweepPhase::Sweep
            || s.phase == SweepPhase::Read,
        sweep_next(s, e).0.phase != SweepPhase::Fetch,
        sweep_next(s, e).0.phase != SweepPhase::Sweep,
        sweep_next(s, e).0.phase != SweepPhase::Read,
        sweep_next(s, e).0.phase != SweepPhase::Over,
    ensures
        sweep_next(s, e).0.at == s.at + 1,
        sweep_next(s, e).0.phase == SweepPhase::Rank || sweep_next(s, e).0.phase == SweepPhase::Launch,
{
}

fn member_of(ls: &Vec<String>, l: &str) -> (r: bool)
    ensures
        r == strings_view(ls@).contains(l@),
{
    let mut i: usize = 0;
    while i < ls.len()
        invariant
            i <= ls@.len(),
            forall|k: int| 0 <= k < i ==> ls@[k]@ != l@,
        decreases ls.len() - i,
    {
        if crate::text::str_eq(ls[i].as_str(), l) {
            assert(strings_view(ls@)[i as int] == l@);
            return true;
        }
        i += 1;
    }
    assert forall|k: int| 0 <= k < strings_view(ls@).len() implies strings_view(ls@)[k] != l@ by {
        assert(strings_view(ls@)[k] == ls@[k]@);
    }
    false
}

/// Of the languages asked for, those the caller says it started, in the
/// order asked.
fn confirmed(asked: &Vec<String>, started: &Vec<String>) -> (r: Vec<String>)
    ensures
        strings_view(r@) == launched_of(strings_view(asked@), strings_view(started@)),
{
    let ghost st = strings_view(started@);
    let ghost f = |l: Seq<char>| st.contains(l);
    let ghost av = strings_view(asked@);
    let mut out: Vec<String> = Vec::new();
    let mut i: usize = 0;
    assert(av.subrange(0, 0).filter(f) =~= Seq::<Seq<char>>::empty());
    assert(strings_view(out@) =~= Seq::<Seq<char>>::empty());
    while i < asked.len()
        invariant
            i <= asked@.len(),
            av == strings_view(asked@),
            st == strings_view(started@),
            f == (|l: Seq<char>| st.contains(l)),
            strings_view(out@) == av.subrange(0, i as int).filter(f),
        decreases asked.len() - i,
    {
        let ghost pre = av.subrange(0, i as int);
        assert(av.subrange(0, i + 1) =~= pre.push(av[i as int]));
        proof {
            pre.lemma_filter_push(av[i as int], f);
        }
        if member_of(started, asked[i].as_str()) {
            let ghost before = strings_view(out@);
            out.push(asked[i].clone());
            assert(strings_view(out@) =~= before.push(av[i as int]));
        }
        i += 1;
    }
    assert(av.subrange(0, av.len() as int) =~= av);
    out
}

/// The fix runs a finished sweep reports as launched are some of those it
/// asked for, in the order asked: each has gaps in the report and is not
/// one no agent is sent to, whatever the caller said it started.
pub proof fn law_only_asked_fixes_are_reported(s: SweepV, started: Seq<Seq<char>>, k: int)
    requires
        s.phase == SweepPhase::Launch,
        0 <= k < launched_of(fix_targets_of(s.gaps), started).len(),
    ensures
        ({
            let l = launched_of(fix_targets_of(s.gaps), started)[k];
            &&& sweep_next(s, SweepEventV::Launched(started)).1 == SweepActionV::Finish(
                sweep_result(s, launched_of(fix_targets_of(s.gaps), started)),
            )
            &&& fix_targets_of(s.gaps).contains(l)
            &&& s.gaps.contains(l)
            &&& !excluded(l)
            &&& started.contains(l)
        }),
{
    let asked = fix_targets_of(s.gaps);
    let out = launched_of(asked, started);
    let l = out[k];
    let f = |x: Seq<char>| started.contains(x);
    let g = |x: Seq<char>| !excluded(x);
    assert(out == asked.filter(f));
    asked.lemma_filter_pred(f, k);
    assert(out.contains(l)) by {
        assert(out[k] == l);
    }
    asked.lemma_filter_contains_rev(f, l);
    let j = choose|j: int| 0 <= j < asked.len() && asked[j] == l;
    assert(asked == s.gaps.filter(g));
    s.gaps.lemma_filter_pred(g, j);
    s.gaps.lemma_filter_contains_rev(g, l);
}

fn sweep_json(s: &SweepState, launched: &Vec<String>) -> (r: Json)
    ensures
        r@ == sweep_result(s@, strings_view(launched@)),
{
    let mut ms: Vec<Member> = Vec::new();
    ms.push(Member { key: "fixes_launched".to_owned(), value: str_array(launched) });
    ms.push(Member { key: "gaps_in".to_owned(), value: str_array(&s.gaps) });
    ms.push(Member { key: "grammars".to_owned(), value: Json::Num(Number::PosInt(s.grammars.len() as u64)) });
    let mut rows: Vec<Member> = Vec::new();
    let mut i: usize = 0;
    proof {
        lemma_members_of(s.report@);
    }
    while i < s.report.len()
        invariant
            i <= s.report@.len(),
            rows@.len() == i,
            forall|j: int| 0 <= j < i ==> (#[trigger] rows@[j]).key@ == s.report@[j].key@
                && crate::json::json_of(rows@[j].value) == crate::json::json_of(s.report@[j].value),
        decreases s.report.len() - i,
    {
        rows.push(Member { key: s.report[i].key.clone(), value: s.report[i].value.copy() });
        i += 1;
    }
    proof {
        lemma_members_of(rows@);
        assert(members_of(rows@) =~= members_of(s.report@));
    }
    ms.push(Member { key: "report".to_owned(), value: Json::Object(rows) });
    proof {
        lemma_members_of(ms@);
    }
    let ghost want = seq![
        ("fixes_launched"@, JsonV::Array(str_items(strings_view(launched@)))),
        ("gaps_in"@, JsonV::Array(str_items(s@.gaps))),
        ("grammars"@, JsonV::Num(Number::PosInt(s@.grammars.len() as u64))),
        ("report"@, JsonV::Object(s@.report)),
    ];
    assert(members_of(ms@) =~= want);
    Json::Object(ms)
}
} // verus!
