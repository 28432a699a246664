//! A fix run as a state machine.
//!
//! A fix run takes one language: it skips the languages no agent is sent
//! to and those whose agent is still live, refuses to grow a stack of open
//! fix pull requests past its cap, and otherwise puts an agent in a worktree
//! of its own on top of that stack, waits for it to settle (parking for a
//! person after four hours), re-verifies what it committed and stacks it as a
//! pull request, falling back to a plain one when stacking fails. A run whose
//! agent committed nothing only clears its worktree and its branch away; a
//! run that opened a pull request clears the worktree and keeps the branch
//! the request points at.
//!
//! Each call of [`fix_step`] takes what the last action produced and says
//! what to do next; the commands, the agent, the disk and the clock stay
//! with the caller.

use vstd::prelude::*;

use crate::json::{as_str, field, lemma_members_of, members_of, Json, JsonV, Member, Number};
use crate::order::stable_sorted;
use crate::sweep::{grammars_view, int_num, int_text, Counts};
use crate::text::{chars_of, concat, decimal, occurs_at, push_str, trim, trimmed};
use crate::tree::number_string;
use crate::treebank::{agent_name_of, excluded, prompt_text, strings_view, Grammar, Pr, STACK_MAX};

verus! {

/// Where a fix run stands: what it last asked for.
#[derive(Clone, Copy, PartialEq, Eq, Structural)]
pub enum FixPhase {
    Start,
    Discover,
    /// Asked whether the language's agent is still live.
    Existing,
    ListPrs,
    Trunk,
    /// Asked for the time the branch is named after.
    Stamp,
    /// Asked whether an earlier worktree is in the way.
    Stale,
    Clear,
    Worktree,
    Submodule,
    Links,
    ReadSweep,
    Body,
    StartAgent,
    Ready,
    Prompt,
    /// Looking for the agent to take the prompt.
    Registering,
    /// Between two such looks.
    RegisterPause,
    /// Waiting for the agent to settle.
    Settling,
    Parked,
    Sleeping,
    Verify,
    Count,
    StackInit,
    Submit,
    /// Clearing the worktree away: its submodules first.
    Deinit,
    Remove,
    /// Deleting the branch of a run that committed nothing.
    DeleteBranch,
    Over,
}

/// A fix run in progress.
pub struct FixState {
    pub phase: FixPhase,
    pub root: String,
    pub home: String,
    pub lang: String,
    /// The grammar's directory, relative to the root.
    pub reldir: String,
    /// The agent's name.
    pub agent: String,
    /// The programs the deployment runs.
    pub tools: FixTools,
    /// The language's open fix pull requests, bottom first.
    pub stack: Vec<Pr>,
    pub trunk: String,
    /// The branch the new one stacks on.
    pub base: String,
    pub branch: String,
    pub workspace: String,
    pub pane: String,
    /// The worktree the agent works in.
    pub wt: String,
    /// How often the agent was looked at for the prompt.
    pub tries: u32,
    /// How long the run has waited for the agent, in ms.
    pub waited: i64,
    pub commits: i64,
}

/// The programs a fix run names, as the deployment installs them.
pub struct FixTools {
    /// The agent's command.
    pub program: String,
    /// The grammar checker, as run from a grammar's directory.
    pub check: String,
    /// The repository's verifier, relative to the root.
    pub verify: String,
}

pub struct ToolsV {
    pub program: Seq<char>,
    pub check: Seq<char>,
    pub verify: Seq<char>,
}

impl View for FixTools {
    type V = ToolsV;

    open spec fn view(&self) -> ToolsV {
        ToolsV { program: self.program@, check: self.check@, verify: self.verify@ }
    }
}

/// A pull request as the run sees it: number, branch, address.
pub type PrV = (i64, Seq<char>, Seq<char>);

pub open spec fn prs_view(ps: Seq<Pr>) -> Seq<PrV> {
    Seq::new(ps.len(), |i: int| (ps[i].number, ps[i].head_ref_name@, ps[i].url@))
}

pub struct FixV {
    pub phase: FixPhase,
    pub root: Seq<char>,
    pub home: Seq<char>,
    pub lang: Seq<char>,
    pub reldir: Seq<char>,
    pub agent: Seq<char>,
    pub tools: ToolsV,
    pub stack: Seq<PrV>,
    pub trunk: Seq<char>,
    pub base: Seq<char>,
    pub branch: Seq<char>,
    pub workspace: Seq<char>,
    pub pane: Seq<char>,
    pub wt: Seq<char>,
    pub tries: u32,
    pub waited: i64,
    pub commits: i64,
}

impl View for FixState {
    type V = FixV;

    open spec fn view(&self) -> FixV {
        FixV {
            phase: self.phase,
            root: self.root@,
            home: self.home@,
            lang: self.lang@,
            reldir: self.reldir@,
            agent: self.agent@,
            tools: self.tools@,
            stack: prs_view(self.stack@),
            trunk: self.trunk@,
            base: self.base@,
            branch: self.branch@,
            workspace: self.workspace@,
            pane: self.pane@,
            wt: self.wt@,
            tries: self.tries,
            waited: self.waited,
            commits: self.commits,
        }
    }
}

/// What the caller hands back.
pub enum FixEvent {
    /// Start a run with its input, in the checkout at `root`, for the user
    /// whose home is `home`, with the deployment's programs.
    Begin { input: Json, root: String, home: String, tools: FixTools },
    /// The command asked for finished.
    Ran(crate::exec::Output),
    /// The grammars the checkout holds.
    Grammars(Vec<Grammar>),
    /// The agent's status; `None` when there is no such agent.
    Agent(Option<String>),
    /// The open pull requests: the listing command's outcome and what its
    /// output parsed to (none when it did not parse).
    Prs { listed: crate::exec::Output, prs: Vec<Pr> },
    /// The local time, as `YYYYmmdd-HHMM`.
    Stamp(String),
    /// Whether the path asked about exists.
    Exists(bool),
    /// The worktree made: its workspace, pane and path.
    Worktree { workspace: String, pane: String, path: String },
    /// What the sweep report counts.
    Swept(Counts),
    /// The step asked for is done.
    Done,
}

pub enum FixEventV {
    Begin { input: JsonV, root: Seq<char>, home: Seq<char>, tools: ToolsV },
    Ran { code: i32, stdout: Seq<char>, stderr: Seq<char>, unit: Seq<char> },
    Grammars(Seq<(Seq<char>, Seq<char>)>),
    Agent(Option<Seq<char>>),
    Prs { code: i32, stdout: Seq<char>, stderr: Seq<char>, unit: Seq<char>, prs: Seq<PrV> },
    Stamp(Seq<char>),
    Exists(bool),
    Worktree { workspace: Seq<char>, pane: Seq<char>, path: Seq<char> },
    Swept(Counts),
    Done,
}

impl View for FixEvent {
    type V = FixEventV;

    open spec fn view(&self) -> FixEventV {
        match self {
            FixEvent::Begin { input, root, home, tools } => FixEventV::Begin {
                input: input@,
                root: root@,
                home: home@,
                tools: tools@,
            },
            FixEvent::Ran(o) => FixEventV::Ran { code: o.code, stdout: o.stdout@, stderr: o.stderr@, unit: o.unit@ },
            FixEvent::Grammars(gs) => FixEventV::Grammars(grammars_view(gs@)),
            FixEvent::Agent(st) => FixEventV::Agent(
                match st {
                    Some(x) => Some(x@),
                    None => None,
                },
            ),
            FixEvent::Prs { listed, prs } => FixEventV::Prs {
                code: listed.code,
                stdout: listed.stdout@,
                stderr: listed.stderr@,
                unit: listed.unit@,
                prs: prs_view(prs@),
            },
            FixEvent::Stamp(t) => FixEventV::Stamp(t@),
            FixEvent::Exists(b) => FixEventV::Exists(*b),
            FixEvent::Worktree { workspace, pane, path } => FixEventV::Worktree {
                workspace: workspace@,
                pane: pane@,
                path: path@,
            },
            FixEvent::Swept(c) => FixEventV::Swept(*c),
            FixEvent::Done => FixEventV::Done,
        }
    }
}

/// What the caller is to do next.
pub enum FixAction {
    /// Run `argv` in `cwd` as the step `name`.
    Exec { name: String, argv: Vec<String>, cwd: String },
    /// List the grammars under `root`.
    Discover { root: String },
    /// Look at the agent once, as the step `name`.
    Status { name: String, agent: String },
    /// Look at the agent afresh every time, as the poll `name`.
    Poll { name: String, agent: String },
    /// Say what time it is, as the step `name`.
    Stamp { name: String },
    /// Say whether `path` exists.
    Exists { path: String },
    /// Make a worktree on a new branch off `base`, in a workspace labelled
    /// `label`.
    CreateWorktree { root: String, branch: String, base: String, label: String, path: String },
    /// Read the sweep report at `path`.
    ReadSweep { path: String },
    /// Write `text` to `path`.
    WriteFile { path: String, text: String },
    /// Start the agent in the pane, running `program` with `args`.
    StartAgent { agent: String, program: String, pane: String, args: Vec<String> },
    /// Wait up to `secs` seconds for the agent to be ready.
    WaitReady { agent: String, secs: u64 },
    /// Send the agent its instructions.
    Prompt { agent: String, text: String },
    /// Wait `ms` within the current step.
    Pause { ms: u64 },
    /// Park the run until a person resumes it.
    Park { name: String, note: String },
    /// Sleep `ms`, as the step `name`.
    Sleep { name: String, ms: i64 },
    /// The run is done; this is its result.
    Finish(Json),
    /// The run failed.
    Fail(String),
}

pub enum FixActionV {
    Exec { name: Seq<char>, argv: Seq<Seq<char>>, cwd: Seq<char> },
    Discover { root: Seq<char> },
    Status { name: Seq<char>, agent: Seq<char> },
    Poll { name: Seq<char>, agent: Seq<char> },
    Stamp { name: Seq<char> },
    Exists { path: Seq<char> },
    CreateWorktree { root: Seq<char>, branch: Seq<char>, base: Seq<char>, label: Seq<char>, path: Seq<char> },
    ReadSweep { path: Seq<char> },
    WriteFile { path: Seq<char>, text: Seq<char> },
    StartAgent { agent: Seq<char>, program: Seq<char>, pane: Seq<char>, args: Seq<Seq<char>> },
    WaitReady { agent: Seq<char>, secs: u64 },
    Prompt { agent: Seq<char>, text: Seq<char> },
    Pause { ms: u64 },
    Park { name: Seq<char>, note: Seq<char> },
    Sleep { name: Seq<char>, ms: i64 },
    Finish(JsonV),
    Fail(Seq<char>),
}

impl View for FixAction {
    type V = FixActionV;

    open spec fn view(&self) -> FixActionV {
        match self {
            FixAction::Exec { name, argv, cwd } => FixActionV::Exec { name: name@, argv: strings_view(argv@), cwd: cwd@ },
            FixAction::Discover { root } => FixActionV::Discover { root: root@ },
            FixAction::Status { name, agent } => FixActionV::Status { name: name@, agent: agent@ },
            FixAction::Poll { name, agent } => FixActionV::Poll { name: name@, agent: agent@ },
            FixAction::Stamp { name } => FixActionV::Stamp { name: name@ },
            FixAction::Exists { path } => FixActionV::Exists { path: path@ },
            FixAction::CreateWorktree { root, branch, base, label, path } => FixActionV::CreateWorktree {
                root: root@,
                branch: branch@,
                base: base@,
                label: label@,
                path: path@,
            },
            FixAction::ReadSweep { path } => FixActionV::ReadSweep { path: path@ },
            FixAction::WriteFile { path, text } => FixActionV::WriteFile { path: path@, text: text@ },
            FixAction::StartAgent { agent, program, pane, args } => FixActionV::StartAgent {
                agent: agent@,
                program: program@,
                pane: pane@,
                args: strings_view(args@),
            },
            FixAction::WaitReady { agent, secs } => FixActionV::WaitReady { agent: agent@, secs: *secs },
            FixAction::Prompt { agent, text } => FixActionV::Prompt { agent: agent@, text: text@ },
            FixAction::Pause { ms } => FixActionV::Pause { ms: *ms },
            FixAction::Park { name, note } => FixActionV::Park { name: name@, note: note@ },
            FixAction::Sleep { name, ms } => FixActionV::Sleep { name: name@, ms: *ms },
            FixAction::Finish(j) => FixActionV::Finish(j@),
            FixAction::Fail(m) => FixActionV::Fail(m@),
        }
    }
}

// ---------------------------------------------------------------- the model

/// The directory of the first grammar for `lang`.
pub open spec fn reldir_for(gs: Seq<(Seq<char>, Seq<char>)>, lang: Seq<char>) -> Option<Seq<char>>
    decreases gs.len(),
{
    if gs.len() == 0 {
        None
    } else if gs[0].0 == lang {
        Some(gs[0].1)
    } else {
        reldir_for(gs.drop_first(), lang)
    }
}

/// The branch prefix of a language's fix pull requests.
pub open spec fn fix_prefix(lang: Seq<char>) -> Seq<char> {
    "grammar-fixes/"@ + lang + "-"@
}

pub open spec fn by_number() -> spec_fn(PrV, PrV) -> bool {
    |a: PrV, b: PrV| a.0 < b.0
}

/// A language's stack: its fix pull requests, in order of number.
pub open spec fn stack_of(prs: Seq<PrV>, lang: Seq<char>) -> Seq<PrV> {
    stable_sorted(prs.filter(|p: PrV| occurs_at(p.1, fix_prefix(lang), 0)), by_number())
}

/// Where an earlier run's worktree for the language would be.
pub open spec fn wt_path(home: Seq<char>, lang: Seq<char>) -> Seq<char> {
    home + "/.herdr/worktrees/treebank/tbfix-"@ + lang
}

/// Where the pull request's body is written.
pub open spec fn body_path(root: Seq<char>, lang: Seq<char>) -> Seq<char> {
    root + "/corpus/"@ + lang + "/reports/PR-BODY.md"@
}

/// Twenty-five spaces: the indent the body's list items carry.
pub open spec fn indent() -> Seq<char> {
    Seq::new(25, |i: int| ' ')
}

/// The pull request's body, from what the sweep counted.
pub open spec fn body_text(c: Counts) -> Seq<char> {
    "Automated fix run.\n\n"@ + indent() + "- Corpus: **"@ + int_text(c.files) + "** files, "@ + int_text(c.passed)
        + " passed / "@ + int_text(c.failed) + " failed\n"@ + indent() + "- Gap files: **"@ + int_text(c.gap_files)
        + "** across "@ + decimal(c.clusters as nat) + " clusters\n"@ + indent()
        + "- Patches and evidence live in the grammar's `patches/`, `ledger.json` and `LOCAL-PATCHES.md`.\n"@
        + indent() + "- CI re-proves materialization, corpus tests and the negative corpus.\n"@
}

pub open spec fn is_digit(c: char) -> bool {
    '0' <= c <= '9'
}

pub open spec fn digits_value(ds: Seq<char>) -> int
    decreases ds.len(),
{
    if ds.len() == 0 {
        0
    } else {
        digits_value(ds.drop_last()) * 10 + (ds.last() as int - '0' as int)
    }
}

/// A number's digits: what follows its sign, if it has one.
pub open spec fn unsigned_part(t: Seq<char>) -> Seq<char> {
    if t.len() > 0 && (t[0] == '-' || t[0] == '+') {
        t.drop_first()
    } else {
        t
    }
}

/// One or more digits and nothing else.
pub open spec fn all_digits(ds: Seq<char>) -> bool {
    ds.len() > 0 && forall|i: int| 0 <= i < ds.len() ==> is_digit(#[trigger] ds[i])
}

/// What `str::parse::<i64>` gives: an optional sign, then one or more
/// digits, in range.
pub open spec fn parsed_i64(t: Seq<char>) -> Option<i64> {
    let ds = unsigned_part(t);
    let v = if t.len() > 0 && t[0] == '-' { -digits_value(ds) } else { digits_value(ds) };
    if all_digits(ds) && i64::MIN <= v <= i64::MAX {
        Some(v as i64)
    } else {
        None
    }
}

/// How many commits a count reports: its number, else none.
pub open spec fn commits_of(stdout: Seq<char>) -> i64 {
    match parsed_i64(trimmed(stdout)) {
        Some(n) => n,
        None => 0,
    }
}

pub open spec fn run(name: Seq<char>, argv: Seq<Seq<char>>, cwd: Seq<char>) -> FixActionV {
    FixActionV::Exec { name, argv, cwd }
}

pub open spec fn str_v(s: Seq<char>) -> JsonV {
    JsonV::Str(s)
}

pub open spec fn fail_v(s: FixV, m: Seq<char>) -> (FixV, FixActionV) {
    (FixV { phase: FixPhase::Over, ..s }, FixActionV::Fail(m))
}

pub open spec fn finish_v(s: FixV, j: JsonV) -> (FixV, FixActionV) {
    (FixV { phase: FixPhase::Over, ..s }, FixActionV::Finish(j))
}

/// The answer to an event the run was not waiting for.
pub open spec fn out_of_step(s: FixV) -> (FixV, FixActionV) {
    fail_v(s, "the fix run got an event it was not waiting for"@)
}

pub open spec fn create_worktree_v(s: FixV) -> (FixV, FixActionV) {
    (
        FixV { phase: FixPhase::Worktree, ..s },
        FixActionV::CreateWorktree {
            root: s.root,
            branch: s.branch,
            base: s.base,
            label: "tbfix "@ + s.lang,
            path: wt_path(s.home, s.lang),
        },
    )
}

pub open spec fn settle_v(s: FixV) -> (FixV, FixActionV) {
    (FixV { phase: FixPhase::Settling, waited: 0, ..s }, FixActionV::Poll { name: "agent state"@, agent: s.agent })
}

pub open spec fn sleep_v(s: FixV) -> (FixV, FixActionV) {
    (FixV { phase: FixPhase::Sleeping, ..s }, FixActionV::Sleep { name: "check agent"@, ms: 30_000 })
}

pub open spec fn deinit_v(s: FixV) -> (FixV, FixActionV) {
    (
        FixV { phase: FixPhase::Deinit, ..s },
        run("deinit submodules"@, seq!["git"@, "-C"@, s.wt, "submodule"@, "deinit"@, "-f"@, "--all"@], s.root),
    )
}

pub open spec fn stack_heads(st: Seq<PrV>) -> Seq<Seq<char>> {
    Seq::new(st.len(), |i: int| st[i].1)
}

/// What a run that made a pull request returns.
pub open spec fn made_v(s: FixV) -> JsonV {
    JsonV::Object(
        seq![
            ("base"@, str_v(s.base)),
            ("branch"@, str_v(s.branch)),
            ("commits"@, JsonV::Num(int_num(s.commits))),
            ("lang"@, str_v(s.lang)),
            ("stack_depth"@, JsonV::Num(Number::PosInt((s.stack.len() + 1) as u64))),
            ("workspace"@, str_v(s.workspace)),
        ],
    )
}

/// A run that was skipped, and why.
pub open spec fn skipped_v(lang: Seq<char>, why: Seq<char>) -> JsonV {
    JsonV::Object(seq![("lang"@, str_v(lang)), ("skipped"@, str_v(why))])
}

/// A run refused because the stack is full.
pub open spec fn full_v(lang: Seq<char>, st: Seq<PrV>) -> JsonV {
    JsonV::Object(
        seq![
            ("blocking"@, if st.len() > 0 { str_v(st[0].2) } else { JsonV::Null }),
            ("lang"@, str_v(lang)),
            ("skipped"@, str_v("fix stack is "@ + decimal(st.len()) + " deep (max 3)"@)),
        ],
    )
}

/// A run whose agent committed nothing.
pub open spec fn nothing_v(lang: Seq<char>) -> JsonV {
    JsonV::Object(seq![("lang"@, str_v(lang)), ("result"@, str_v("agent committed nothing"@))])
}

/// The fix run's decisions: from where it stands and what came back, where
/// it stands next and what to do.
pub open spec fn fix_next(s: FixV, e: FixEventV) -> (FixV, FixActionV) {
    match (s.phase, e) {
        (FixPhase::Start, FixEventV::Begin { input, root, home, tools }) => {
            let asked = match field(input, "lang"@) {
                Some(v) => as_str(v),
                None => None,
            };
            let s1 = FixV { root, home, tools, ..s };
            match asked {
                None => fail_v(s1, "fix needs an input like {\"lang\":\"rust\"}"@),
                Some(l) => if excluded(l) {
                    finish_v(FixV { lang: l, ..s1 }, skipped_v(l, "excluded from agent fixes"@))
                } else {
                    (
                        FixV { phase: FixPhase::Discover, lang: l, agent: agent_name_of(l), ..s1 },
                        FixActionV::Discover { root },
                    )
                },
            }
        },
        (FixPhase::Discover, FixEventV::Grammars(gs)) => match reldir_for(gs, s.lang) {
            None => fail_v(s, "no grammar for "@ + s.lang),
            Some(d) => (
                FixV { phase: FixPhase::Existing, reldir: d, ..s },
                FixActionV::Status { name: "existing agent"@, agent: s.agent },
            ),
        },
        (FixPhase::Existing, FixEventV::Agent(st)) => match st {
            Some(status) => finish_v(s, skipped_v(s.lang, s.agent + " is still "@ + status)),
            None => (
                FixV { phase: FixPhase::ListPrs, ..s },
                run(
                    "list prs"@,
                    seq![
                        "gh"@,
                        "pr"@,
                        "list"@,
                        "--state"@,
                        "open"@,
                        "--limit"@,
                        "100"@,
                        "--json"@,
                        "number,headRefName,url"@,
                    ],
                    s.root,
                ),
            ),
        },
        (FixPhase::ListPrs, FixEventV::Prs { code, stderr, prs, .. }) => if code != 0 {
            fail_v(s, "cannot reach GitHub: "@ + trimmed(stderr))
        } else {
            let st = stack_of(prs, s.lang);
            if st.len() >= STACK_MAX {
                finish_v(FixV { stack: st, ..s }, full_v(s.lang, st))
            } else {
                (
                    FixV { phase: FixPhase::Trunk, stack: st, ..s },
                    run("trunk"@, seq!["git"@, "rev-parse"@, "--abbrev-ref"@, "HEAD"@], s.root),
                )
            }
        },
        (FixPhase::Trunk, FixEventV::Ran { stdout, .. }) => {
            let trunk = trimmed(stdout);
            let base = if s.stack.len() > 0 { s.stack.last().1 } else { trunk };
            (FixV { phase: FixPhase::Stamp, trunk, base, ..s }, FixActionV::Stamp { name: "branch name"@ })
        },
        (FixPhase::Stamp, FixEventV::Stamp(t)) => (
            FixV { phase: FixPhase::Stale, branch: "grammar-fixes/"@ + s.lang + "-"@ + t, ..s },
            FixActionV::Exists { path: wt_path(s.home, s.lang) },
        ),
        (FixPhase::Stale, FixEventV::Exists(there)) => if there {
            let w = wt_path(s.home, s.lang);
            (
                FixV { phase: FixPhase::Clear, ..s },
                run(
                    "clear stale worktree"@,
                    seq![
                        "bash"@,
                        "-c"@,
                        "git -C "@ + w + " submodule deinit -f --all; git -C "@ + s.root
                            + " worktree remove --force "@ + w + "; git -C "@ + s.root + " worktree prune"@,
                    ],
                    s.root,
                ),
            )
        } else {
            create_worktree_v(s)
        },
        (FixPhase::Clear, FixEventV::Ran { .. }) => create_worktree_v(s),
        (FixPhase::Worktree, FixEventV::Worktree { workspace, pane, path }) => (
            FixV { phase: FixPhase::Submodule, workspace, pane, wt: path, ..s },
            run(
                "worktree submodule"@,
                seq!["git"@, "-C"@, path, "submodule"@, "update"@, "--init"@, s.reldir + "/upstream"@],
                s.root,
            ),
        ),
        (FixPhase::Submodule, FixEventV::Ran { .. }) => (
            FixV { phase: FixPhase::Links, ..s },
            run(
                "worktree links"@,
                seq![
                    "bash"@,
                    "-c"@,
                    "ln -sfn "@ + s.root + "/corpus "@ + s.wt + "/corpus && ln -sfn "@ + s.root + "/target "@ + s.wt
                        + "/target"@,
                ],
                s.root,
            ),
        ),
        (FixPhase::Links, FixEventV::Ran { .. }) => (
            FixV { phase: FixPhase::ReadSweep, ..s },
            FixActionV::ReadSweep { path: s.root + "/corpus/"@ + s.lang + "/reports/sweep.json"@ },
        ),
        (FixPhase::ReadSweep, FixEventV::Swept(c)) => (
            FixV { phase: FixPhase::Body, ..s },
            FixActionV::WriteFile { path: body_path(s.root, s.lang), text: body_text(c) },
        ),
        (FixPhase::Body, FixEventV::Done) => (
            FixV { phase: FixPhase::StartAgent, ..s },
            FixActionV::StartAgent {
                agent: s.agent,
                program: s.tools.program,
                pane: s.pane,
                args: seq!["--permission-mode"@, "auto"@, "--remote-control"@, s.agent],
            },
        ),
        (FixPhase::StartAgent, FixEventV::Done) => (
            FixV { phase: FixPhase::Ready, ..s },
            FixActionV::WaitReady { agent: s.agent, secs: 180 },
        ),
        (FixPhase::Ready, FixEventV::Done) => (
            FixV { phase: FixPhase::Prompt, ..s },
            FixActionV::Prompt {
                agent: s.agent,
                text: prompt_text(s.lang, s.reldir, s.tools.check, s.tools.verify),
            },
        ),
        (FixPhase::Prompt, FixEventV::Done) => (
            FixV { phase: FixPhase::Registering, tries: 0, ..s },
            FixActionV::Status { name: "prompt registered"@, agent: s.agent },
        ),
        (FixPhase::Registering, FixEventV::Agent(st)) => match st {
            None => settle_v(s),
            Some(x) => if x == "working"@ || x == "blocked"@ {
                settle_v(s)
            } else if s.tries < 40 {
                (FixV { phase: FixPhase::RegisterPause, tries: (s.tries + 1) as u32, ..s }, FixActionV::Pause { ms: 1500 })
            } else {
                settle_v(s)
            },
        },
        (FixPhase::RegisterPause, FixEventV::Done) => if s.tries >= 40 {
            settle_v(s)
        } else {
            (
                FixV { phase: FixPhase::Registering, ..s },
                FixActionV::Status { name: "prompt registered"@, agent: s.agent },
            )
        },
        (FixPhase::Settling, FixEventV::Agent(st)) => {
            let settled = match st {
                None => true,
                Some(x) => x == "idle"@ || x == "done"@,
            };
            if settled {
                (
                    FixV { phase: FixPhase::Verify, ..s },
                    run("verify"@, seq![s.root + "/"@ + s.tools.verify, s.wt + "/"@ + s.reldir], s.root),
                )
            } else if s.waited > crate::treebank::SETTLE_LIMIT_MS {
                (
                    FixV { phase: FixPhase::Parked, ..s },
                    FixActionV::Park { name: "stuck agent"@, note: "agent has not settled in four hours"@ },
                )
            } else {
                sleep_v(s)
            }
        },
        (FixPhase::Parked, FixEventV::Done) => sleep_v(s),
        (FixPhase::Sleeping, FixEventV::Done) => (
            FixV {
                phase: FixPhase::Settling,
                waited: if s.waited <= i64::MAX - 30_000 { (s.waited + 30_000) as i64 } else { i64::MAX },
                ..s
            },
            FixActionV::Poll { name: "agent state"@, agent: s.agent },
        ),
        (FixPhase::Verify, FixEventV::Ran { code, stderr, .. }) => if code != 0 {
            fail_v(
                s,
                "verify failed on "@ + s.branch + "; worktree kept at "@ + s.wt + ": "@ + trimmed(stderr),
            )
        } else {
            (
                FixV { phase: FixPhase::Count, ..s },
                run(
                    "count commits"@,
                    seq!["git"@, "-C"@, s.wt, "rev-list"@, "--count"@, s.trunk + ".."@ + s.branch],
                    s.root,
                ),
            )
        },
        (FixPhase::Count, FixEventV::Ran { stdout, .. }) => {
            let n = commits_of(stdout);
            let s1 = FixV { commits: n, ..s };
            if n == 0 {
                deinit_v(s1)
            } else {
                (
                    FixV { phase: FixPhase::StackInit, ..s1 },
                    run(
                        "stack init"@,
                        seq!["gh"@, "stack"@, "init"@] + stack_heads(s.stack) + seq![s.branch, "--base"@, s.trunk],
                        s.wt,
                    ),
                )
            }
        },
        (FixPhase::StackInit, FixEventV::Ran { code, .. }) => if code == 0 {
            (
                FixV { phase: FixPhase::Submit, ..s },
                run("stack submit"@, seq!["gh"@, "stack"@, "submit"@, "--auto"@, "--open"@], s.wt),
            )
        } else {
            (
                FixV { phase: FixPhase::Submit, ..s },
                run(
                    "plain pr"@,
                    seq![
                        "bash"@,
                        "-c"@,
                        "git -C "@ + s.wt + " push -u origin "@ + s.branch + " && cd "@ + s.wt + " && gh pr create --base "@
                            + s.base + " --head "@ + s.branch + " --title '"@ + s.reldir + " grammar fixes' --body-file "@
                            + body_path(s.root, s.lang),
                    ],
                    s.wt,
                ),
            )
        },
        (FixPhase::Submit, FixEventV::Ran { code, stderr, .. }) => if code != 0 {
            fail_v(s, int_text(s.commits) + " commit(s) on "@ + s.branch + " but no PR: "@ + trimmed(stderr))
        } else {
            deinit_v(s)
        },
        (FixPhase::Deinit, FixEventV::Ran { .. }) => (
            FixV { phase: FixPhase::Remove, ..s },
            run(
                "remove worktree"@,
                seq!["git"@, "-C"@, s.root, "worktree"@, "remove"@, "--force"@, s.wt],
                s.root,
            ),
        ),
        (FixPhase::Remove, FixEventV::Ran { .. }) => if s.commits == 0 {
            (
                FixV { phase: FixPhase::DeleteBranch, ..s },
                run("delete branch"@, seq!["git"@, "-C"@, s.root, "branch"@, "-D"@, s.branch], s.root),
            )
        } else {
            finish_v(s, made_v(s))
        },
        (FixPhase::DeleteBranch, FixEventV::Ran { .. }) => finish_v(s, nothing_v(s.lang)),
        _ => out_of_step(s),
    }
}

// ------------------------------------------------------------- the helpers

fn starts_with(s: &str, p: &str) -> (r: bool)
    ensures
        r == occurs_at(s@, p@, 0),
{
    let cs = chars_of(s);
    let ps = chars_of(p);
    if ps.len() <= cs.len() {
        crate::text::matches_at(&cs, &ps, 0)
    } else {
        false
    }
}

fn copy_pr(p: &Pr) -> (r: Pr)
    ensures
        r.number == p.number,
        r.head_ref_name@ == p.head_ref_name@,
        r.url@ == p.url@,
{
    Pr { number: p.number, head_ref_name: p.head_ref_name.clone(), url: p.url.clone() }
}

/// A language's stack: its fix pull requests, in order of number, ties in
/// the order they were listed.
pub fn fix_stack(prs: &Vec<Pr>, lang: &str) -> (r: Vec<Pr>)
    ensures
        prs_view(r@) == stack_of(prs_view(prs@), lang@),
{
    let prefix = concat(concat("grammar-fixes/", lang).as_str(), "-");
    let ghost f = |p: PrV| occurs_at(p.1, fix_prefix(lang@), 0);
    let ghost pv = prs_view(prs@);
    let mut mine: Vec<Pr> = Vec::new();
    let mut i: usize = 0;
    assert(pv.subrange(0, 0).filter(f) =~= Seq::<PrV>::empty());
    assert(prs_view(mine@) =~= Seq::<PrV>::empty());
    while i < prs.len()
        invariant
            i <= prs@.len(),
            pv == prs_view(prs@),
            prefix@ == fix_prefix(lang@),
            f == (|p: PrV| occurs_at(p.1, fix_prefix(lang@), 0)),
            prs_view(mine@) == pv.subrange(0, i as int).filter(f),
        decreases prs.len() - i,
    {
        let ghost pre = pv.subrange(0, i as int);
        assert(pv.subrange(0, i + 1) =~= pre.push(pv[i as int]));
        proof {
            pre.lemma_filter_push(pv[i as int], f);
        }
        if starts_with(prs[i].head_ref_name.as_str(), prefix.as_str()) {
            let ghost before = prs_view(mine@);
            mine.push(copy_pr(&prs[i]));
            assert(prs_view(mine@) =~= before.push(pv[i as int]));
        }
        i += 1;
    }
    assert(pv.subrange(0, pv.len() as int) =~= pv);
    let ghost all = prs_view(mine@);
    let n = mine.len();
    let mut out: Vec<Pr> = Vec::new();
    let mut j: usize = 0;
    assert(prs_view(out@) =~= stable_sorted(all.subrange(0, 0), by_number()));
    while j < n
        invariant
            j <= n,
            n == mine@.len(),
            all == prs_view(mine@),
            prs_view(out@) == stable_sorted(all.subrange(0, j as int), by_number()),
        decreases n - j,
    {
        let x = copy_pr(&mine[j]);
        let ghost xv = all[j as int];
        assert(all.subrange(0, j + 1).drop_last() =~= all.subrange(0, j as int));
        let ghost o = prs_view(out@);
        let mut p: usize = 0;
        while p < out.len() && !(x.number < out[p].number)
            invariant
                p <= out@.len(),
                o == prs_view(out@),
                xv == (x.number, x.head_ref_name@, x.url@),
                forall|k: int| 0 <= k < p ==> !(by_number())(xv, #[trigger] o[k]),
            decreases out.len() - p,
        {
            p += 1;
        }
        out.insert(p, x);
        proof {
            assert(prs_view(out@) =~= o.insert(p as int, xv));
            crate::order::lemma_insert_in_order(o, xv, by_number(), p as int);
        }
        j += 1;
    }
    assert(all.subrange(0, n as int) =~= all);
    out
}

proof fn lemma_digits_push(t: Seq<char>, a: int, b: int)
    requires
        0 <= a <= b < t.len(),
    ensures
        digits_value(t.subrange(a, b + 1)) == digits_value(t.subrange(a, b)) * 10 + (t[b] as int - '0' as int),
{
    assert(t.subrange(a, b + 1).drop_last() =~= t.subrange(a, b));
}

/// What `str::parse::<i64>` gives.
pub fn parse_i64(t: &str) -> (r: Option<i64>)
    ensures
        r == parsed_i64(t@),
{
    let cs = chars_of(t);
    let n = cs.len();
    let signed = n > 0 && (cs[0] == '-' || cs[0] == '+');
    let neg = signed && cs[0] == '-';
    let start: usize = if signed { 1 } else { 0 };
    let ghost ds = if signed { t@.drop_first() } else { t@ };
    assert(ds =~= t@.subrange(start as int, n as int));
    if start == n {
        return None;
    }
    let mut acc: u64 = 0;
    let mut big = false;
    let mut i: usize = start;
    assert(t@.subrange(start as int, start as int).len() == 0);
    while i < n
        invariant
            start <= i <= n,
            n == t@.len(),
            cs@ == t@,
            ds == t@.subrange(start as int, n as int),
            ds == unsigned_part(t@),
            forall|k: int| start <= k < i ==> is_digit(#[trigger] t@[k]),
            !big ==> acc == digits_value(t@.subrange(start as int, i as int)),
            !big ==> acc <= 0x8000_0000_0000_0000u64,
            big ==> digits_value(t@.subrange(start as int, i as int)) > 0x8000_0000_0000_0000,
        decreases n - i,
    {
        let c = cs[i];
        if !('0' <= c && c <= '9') {
            assert(ds[i - start] == t@[i as int]);
            assert(!is_digit(ds[i - start]));
            return None;
        }
        proof {
            lemma_digits_push(t@, start as int, i as int);
        }
        let d: u64 = ((c as u32) - ('0' as u32)) as u64;
        assert(d as int == t@[i as int] as int - '0' as int);
        if !big {
            if acc <= 922337203685477580 {
                let v = acc * 10 + d;
                if v > 0x8000_0000_0000_0000u64 {
                    big = true;
                } else {
                    acc = v;
                }
            } else {
                big = true;
            }
        }
        i += 1;
    }
    assert forall|k: int| 0 <= k < ds.len() implies is_digit(#[trigger] ds[k]) by {
        assert(ds[k] == t@[start + k]);
    }
    if big {
        None
    } else if neg {
        let v: i128 = 0i128 - (acc as i128);
        Some(v as i64)
    } else if acc == 0x8000_0000_0000_0000u64 {
        None
    } else {
        Some(acc as i64)
    }
}

fn str_json(s: &str) -> (r: Json)
    ensures
        r@ == JsonV::Str(s@),
{
    Json::Str(s.to_owned())
}

fn skipped_json(lang: &str, why: &str) -> (r: Json)
    ensures
        r@ == skipped_v(lang@, why@),
{
    let mut ms: Vec<Member> = Vec::new();
    ms.push(Member { key: "lang".to_owned(), value: str_json(lang) });
    ms.push(Member { key: "skipped".to_owned(), value: str_json(why) });
    proof {
        lemma_members_of(ms@);
    }
    assert(members_of(ms@) =~= seq![("lang"@, str_v(lang@)), ("skipped"@, str_v(why@))]);
    Json::Object(ms)
}

fn nothing_json(lang: &str) -> (r: Json)
    ensures
        r@ == nothing_v(lang@),
{
    let mut ms: Vec<Member> = Vec::new();
    ms.push(Member { key: "lang".to_owned(), value: str_json(lang) });
    ms.push(Member { key: "result".to_owned(), value: str_json("agent committed nothing") });
    proof {
        lemma_members_of(ms@);
    }
    assert(members_of(ms@) =~= seq![("lang"@, str_v(lang@)), ("result"@, str_v("agent committed nothing"@))]);
    Json::Object(ms)
}

fn full_json(lang: &str, st: &Vec<Pr>) -> (r: Json)
    ensures
        r@ == full_v(lang@, prs_view(st@)),
{
    let mut ms: Vec<Member> = Vec::new();
    let blocking = if st.len() > 0 { str_json(st[0].url.as_str()) } else { Json::Null };
    ms.push(Member { key: "blocking".to_owned(), value: blocking });
    ms.push(Member { key: "lang".to_owned(), value: str_json(lang) });
    let mut why = "fix stack is ".to_owned();
    crate::text::push_decimal(&mut why, st.len() as u64);
    crate::text::push_str(&mut why, " deep (max 3)");
    ms.push(Member { key: "skipped".to_owned(), value: Json::Str(why) });
    proof {
        lemma_members_of(ms@);
    }
    let ghost sv = prs_view(st@);
    assert(members_of(ms@) =~= seq![
        ("blocking"@, if sv.len() > 0 { str_v(sv[0].2) } else { JsonV::Null }),
        ("lang"@, str_v(lang@)),
        ("skipped"@, str_v("fix stack is "@ + decimal(sv.len()) + " deep (max 3)"@)),
    ]);
    Json::Object(ms)
}

fn made_json(s: &FixState) -> (r: Json)
    requires
        s.stack@.len() < STACK_MAX,
    ensures
        r@ == made_v(s@),
{
    let mut ms: Vec<Member> = Vec::new();
    ms.push(Member { key: "base".to_owned(), value: str_json(s.base.as_str()) });
    ms.push(Member { key: "branch".to_owned(), value: str_json(s.branch.as_str()) });
    let commits = if s.commits >= 0 {
        Json::Num(Number::PosInt(s.commits as u64))
    } else {
        Json::Num(Number::NegInt(s.commits))
    };
    ms.push(Member { key: "commits".to_owned(), value: commits });
    ms.push(Member { key: "lang".to_owned(), value: str_json(s.lang.as_str()) });
    ms.push(Member { key: "stack_depth".to_owned(), value: Json::Num(Number::PosInt((s.stack.len() + 1) as u64)) });
    ms.push(Member { key: "workspace".to_owned(), value: str_json(s.workspace.as_str()) });
    proof {
        lemma_members_of(ms@);
    }
    let ghost v = s@;
    assert(members_of(ms@) =~= seq![
        ("base"@, str_v(v.base)),
        ("branch"@, str_v(v.branch)),
        ("commits"@, JsonV::Num(int_num(v.commits))),
        ("lang"@, str_v(v.lang)),
        ("stack_depth"@, JsonV::Num(Number::PosInt((v.stack.len() + 1) as u64))),
        ("workspace"@, str_v(v.workspace)),
    ]);
    Json::Object(ms)
}

fn push_indent(s: &mut String)
    ensures
        final(s)@ == old(s)@ + indent(),
{
    let mut k: usize = 0;
    let ghost start = s@;
    while k < 25
        invariant
            k <= 25,
            s@ == start + Seq::new(k as nat, |i: int| ' '),
        decreases 25 - k,
    {
        crate::text::push_char(s, ' ');
        assert(s@ =~= start + Seq::new((k + 1) as nat, |i: int| ' '));
        k += 1;
    }
}

/// The pull request's body.
pub fn pr_body(c: Counts) -> (r: String)
    ensures
        r@ == body_text(c),
{
    let mut s = "Automated fix run.\n\n".to_owned();
    push_indent(&mut s);
    push_str(&mut s, "- Corpus: **");
    push_str(&mut s, number_string(&Number::NegInt(c.files)).as_str());
    push_str(&mut s, "** files, ");
    push_str(&mut s, number_string(&Number::NegInt(c.passed)).as_str());
    push_str(&mut s, " passed / ");
    push_str(&mut s, number_string(&Number::NegInt(c.failed)).as_str());
    push_str(&mut s, " failed\n");
    push_indent(&mut s);
    push_str(&mut s, "- Gap files: **");
    push_str(&mut s, number_string(&Number::NegInt(c.gap_files)).as_str());
    push_str(&mut s, "** across ");
    crate::text::push_decimal(&mut s, c.clusters);
    push_str(&mut s, " clusters\n");
    push_indent(&mut s);
    push_str(&mut s, "- Patches and evidence live in the grammar's `patches/`, `ledger.json` and `LOCAL-PATCHES.md`.\n");
    push_indent(&mut s);
    push_str(&mut s, "- CI re-proves materialization, corpus tests and the negative corpus.\n");
    s
}

fn fail(s: FixState, m: String) -> (r: (FixState, FixAction))
    ensures
        (r.0@, r.1@) == fail_v(s@, m@),
{
    (FixState { phase: FixPhase::Over, ..s }, FixAction::Fail(m))
}

fn finish(s: FixState, j: Json) -> (r: (FixState, FixAction))
    ensures
        (r.0@, r.1@) == finish_v(s@, j@),
{
    (FixState { phase: FixPhase::Over, ..s }, FixAction::Finish(j))
}

fn refuse(s: FixState) -> (r: (FixState, FixAction))
    ensures
        (r.0@, r.1@) == out_of_step(s@),
{
    fail(s, "the fix run got an event it was not waiting for".to_owned())
}

fn exec(name: &str, argv: Vec<String>, cwd: &String) -> (r: FixAction)
    ensures
        r@ == run(name@, strings_view(argv@), cwd@),
{
    FixAction::Exec { name: name.to_owned(), argv, cwd: cwd.clone() }
}

fn create_worktree(s: FixState) -> (r: (FixState, FixAction))
    ensures
        (r.0@, r.1@) == create_worktree_v(s@),
{
    let label = concat("tbfix ", s.lang.as_str());
    let path = concat(concat(s.home.as_str(), "/.herdr/worktrees/treebank/tbfix-").as_str(), s.lang.as_str());
    let a = FixAction::CreateWorktree {
        root: s.root.clone(),
        branch: s.branch.clone(),
        base: s.base.clone(),
        label,
        path,
    };
    (FixState { phase: FixPhase::Worktree, ..s }, a)
}

fn settle(s: FixState) -> (r: (FixState, FixAction))
    ensures
        (r.0@, r.1@) == settle_v(s@),
{
    let a = FixAction::Poll { name: "agent state".to_owned(), agent: s.agent.clone() };
    (FixState { phase: FixPhase::Settling, waited: 0, ..s }, a)
}

fn sleep(s: FixState) -> (r: (FixState, FixAction))
    ensures
        (r.0@, r.1@) == sleep_v(s@),
{
    (FixState { phase: FixPhase::Sleeping, ..s }, FixAction::Sleep { name: "check agent".to_owned(), ms: 30_000 })
}

fn deinit(s: FixState) -> (r: (FixState, FixAction))
    ensures
        (r.0@, r.1@) == deinit_v(s@),
{
    let mut argv: Vec<String> = Vec::new();
    argv.push("git".to_owned());
    argv.push("-C".to_owned());
    argv.push(s.wt.clone());
    argv.push("submodule".to_owned());
    argv.push("deinit".to_owned());
    argv.push("-f".to_owned());
    argv.push("--all".to_owned());
    assert(strings_view(argv@) =~= seq!["git"@, "-C"@, s.wt@, "submodule"@, "deinit"@, "-f"@, "--all"@]);
    let a = exec("deinit submodules", argv, &s.root);
    (FixState { phase: FixPhase::Deinit, ..s }, a)
}

fn on_start(s: FixState, e: FixEvent) -> (r: (FixState, FixAction))
    requires
        s.phase == FixPhase::Start,
    ensures
        (r.0@, r.1@) == fix_next(s@, e@),
{
    match e {
        FixEvent::Begin { input, root, home, tools } => {
            let asked = crate::treebank::fix_lang(&input);
            let s1 = FixState { root, home, tools, ..s };
            match asked {
                None => fail(s1, "fix needs an input like {\"lang\":\"rust\"}".to_owned()),
                Some(l) => {
                    if crate::treebank::no_agent(l.as_str()) {
                        let j = skipped_json(l.as_str(), "excluded from agent fixes");
                        finish(FixState { lang: l, ..s1 }, j)
                    } else {
                        let agent = crate::treebank::agent_name(l.as_str());
                        let a = FixAction::Discover { root: s1.root.clone() };
                        (FixState { phase: FixPhase::Discover, lang: l, agent, ..s1 }, a)
                    }
                },
            }
        },
        _ => refuse(s),
    }
}

#[verifier::loop_isolation(false)]
fn on_discover(s: FixState, e: FixEvent) -> (r: (FixState, FixAction))
    requires
        s.phase == FixPhase::Discover,
    ensures
        (r.0@, r.1@) == fix_next(s@, e@),
{
    match e {
        FixEvent::Grammars(gs) => {
            let ghost gv = grammars_view(gs@);
            let mut i: usize = 0;
            assert(gv.skip(0) =~= gv);
            while i < gs.len()
                invariant
                    i <= gs@.len(),
                    gv == grammars_view(gs@),
                    reldir_for(gv, s.lang@) == reldir_for(gv.skip(i as int), s.lang@),
                decreases gs.len() - i,
            {
                if crate::text::str_eq(gs[i].lang(), s.lang.as_str()) {
                    assert(gv.skip(i as int)[0] == gv[i as int]);
                    assert(reldir_for(gv.skip(i as int), s.lang@) == Some(gv[i as int].1));
                    let d = gs[i].reldir().to_owned();
                    let a = FixAction::Status { name: "existing agent".to_owned(), agent: s.agent.clone() };
                    return (FixState { phase: FixPhase::Existing, reldir: d, ..s }, a);
                }
                assert(gv.skip(i as int)[0] == gv[i as int]);
                assert(gv.skip(i as int).drop_first() =~= gv.skip(i + 1));
                i += 1;
            }
            assert(gv.skip(i as int).len() == 0);
            let m = concat("no grammar for ", s.lang.as_str());
            fail(s, m)
        },
        _ => refuse(s),
    }
}

fn on_existing(s: FixState, e: FixEvent) -> (r: (FixState, FixAction))
    requires
        s.phase == FixPhase::Existing,
    ensures
        (r.0@, r.1@) == fix_next(s@, e@),
{
    match e {
        FixEvent::Agent(st) => match st {
            Some(status) => {
                let why = concat(concat(s.agent.as_str(), " is still ").as_str(), status.as_str());
                let j = skipped_json(s.lang.as_str(), why.as_str());
                finish(s, j)
            },
            None => {
                let mut argv: Vec<String> = Vec::new();
                argv.push("gh".to_owned());
                argv.push("pr".to_owned());
                argv.push("list".to_owned());
                argv.push("--state".to_owned());
                argv.push("open".to_owned());
                argv.push("--limit".to_owned());
                argv.push("100".to_owned());
                argv.push("--json".to_owned());
                argv.push("number,headRefName,url".to_owned());
                assert(strings_view(argv@) =~= seq![
                    "gh"@, "pr"@, "list"@, "--state"@, "open"@, "--limit"@, "100"@, "--json"@,
                    "number,headRefName,url"@,
                ]);
                let a = exec("list prs", argv, &s.root);
                (FixState { phase: FixPhase::ListPrs, ..s }, a)
            },
        },
        _ => refuse(s),
    }
}

fn on_list(s: FixState, e: FixEvent) -> (r: (FixState, FixAction))
    requires
        s.phase == FixPhase::ListPrs,
    ensures
        (r.0@, r.1@) == fix_next(s@, e@),
{
    match e {
        FixEvent::Prs { listed, prs } => {
            if listed.code != 0 {
                let m = concat("cannot reach GitHub: ", trim(listed.stderr.as_str()).as_str());
                fail(s, m)
            } else {
                let st = fix_stack(&prs, s.lang.as_str());
                if st.len() >= STACK_MAX {
                    let j = full_json(s.lang.as_str(), &st);
                    finish(FixState { stack: st, ..s }, j)
                } else {
                    let mut argv: Vec<String> = Vec::new();
                    argv.push("git".to_owned());
                    argv.push("rev-parse".to_owned());
                    argv.push("--abbrev-ref".to_owned());
                    argv.push("HEAD".to_owned());
                    assert(strings_view(argv@) =~= seq!["git"@, "rev-parse"@, "--abbrev-ref"@, "HEAD"@]);
                    let a = exec("trunk", argv, &s.root);
                    (FixState { phase: FixPhase::Trunk, stack: st, ..s }, a)
                }
            }
        },
        _ => refuse(s),
    }
}

fn on_trunk(s: FixState, e: FixEvent) -> (r: (FixState, FixAction))
    requires
        s.phase == FixPhase::Trunk,
    ensures
        (r.0@, r.1@) == fix_next(s@, e@),
{
    match e {
        FixEvent::Ran(o) => {
            let trunk = trim(o.stdout.as_str());
            let base = crate::treebank::base_branch(&s.stack, trunk.as_str());
            proof {
                if s.stack@.len() > 0 {
                    assert(prs_view(s.stack@).last().1 == s.stack@.last().head_ref_name@);
                }
            }
            (FixState { phase: FixPhase::Stamp, trunk, base, ..s }, FixAction::Stamp { name: "branch name".to_owned() })
        },
        _ => refuse(s),
    }
}

fn on_stamp(s: FixState, e: FixEvent) -> (r: (FixState, FixAction))
    requires
        s.phase == FixPhase::Stamp,
    ensures
        (r.0@, r.1@) == fix_next(s@, e@),
{
    match e {
        FixEvent::Stamp(t) => {
            let branch = concat(concat(concat("grammar-fixes/", s.lang.as_str()).as_str(), "-").as_str(), t.as_str());
            let path = concat(concat(s.home.as_str(), "/.herdr/worktrees/treebank/tbfix-").as_str(), s.lang.as_str());
            (FixState { phase: FixPhase::Stale, branch, ..s }, FixAction::Exists { path })
        },
        _ => refuse(s),
    }
}

fn on_stale(s: FixState, e: FixEvent) -> (r: (FixState, FixAction))
    requires
        s.phase == FixPhase::Stale || s.phase == FixPhase::Clear,
    ensures
        (r.0@, r.1@) == fix_next(s@, e@),
{
    match (s.phase, e) {
        (FixPhase::Stale, FixEvent::Exists(there)) => {
            if there {
                let w = concat(concat(s.home.as_str(), "/.herdr/worktrees/treebank/tbfix-").as_str(), s.lang.as_str());
                let mut c = "git -C ".to_owned();
                push_str(&mut c, w.as_str());
                push_str(&mut c, " submodule deinit -f --all; git -C ");
                push_str(&mut c, s.root.as_str());
                push_str(&mut c, " worktree remove --force ");
                push_str(&mut c, w.as_str());
                push_str(&mut c, "; git -C ");
                push_str(&mut c, s.root.as_str());
                push_str(&mut c, " worktree prune");
                let ghost cv = c@;
                let mut argv: Vec<String> = Vec::new();
                argv.push("bash".to_owned());
                argv.push("-c".to_owned());
                argv.push(c);
                assert(strings_view(argv@) =~= seq!["bash"@, "-c"@, cv]);
                let a = exec("clear stale worktree", argv, &s.root);
                (FixState { phase: FixPhase::Clear, ..s }, a)
            } else {
                create_worktree(s)
            }
        },
        (FixPhase::Clear, FixEvent::Ran(_)) => create_worktree(s),
        _ => refuse(s),
    }
}

fn on_worktree(s: FixState, e: FixEvent) -> (r: (FixState, FixAction))
    requires
        s.phase == FixPhase::Worktree || s.phase == FixPhase::Submodule || s.phase == FixPhase::Links,
    ensures
        (r.0@, r.1@) == fix_next(s@, e@),
{
    match (s.phase, e) {
        (FixPhase::Worktree, FixEvent::Worktree { workspace, pane, path }) => {
            let mut argv: Vec<String> = Vec::new();
            argv.push("git".to_owned());
            argv.push("-C".to_owned());
            argv.push(path.clone());
            argv.push("submodule".to_owned());
            argv.push("update".to_owned());
            argv.push("--init".to_owned());
            argv.push(concat(s.reldir.as_str(), "/upstream"));
            assert(strings_view(argv@) =~= seq![
                "git"@, "-C"@, path@, "submodule"@, "update"@, "--init"@, s.reldir@ + "/upstream"@,
            ]);
            let a = exec("worktree submodule", argv, &s.root);
            (FixState { phase: FixPhase::Submodule, workspace, pane, wt: path, ..s }, a)
        },
        (FixPhase::Submodule, FixEvent::Ran(_)) => {
            let mut c = "ln -sfn ".to_owned();
            push_str(&mut c, s.root.as_str());
            push_str(&mut c, "/corpus ");
            push_str(&mut c, s.wt.as_str());
            push_str(&mut c, "/corpus && ln -sfn ");
            push_str(&mut c, s.root.as_str());
            push_str(&mut c, "/target ");
            push_str(&mut c, s.wt.as_str());
            push_str(&mut c, "/target");
            let ghost cv = c@;
            let mut argv: Vec<String> = Vec::new();
            argv.push("bash".to_owned());
            argv.push("-c".to_owned());
            argv.push(c);
            assert(strings_view(argv@) =~= seq!["bash"@, "-c"@, cv]);
            let a = exec("worktree links", argv, &s.root);
            (FixState { phase: FixPhase::Links, ..s }, a)
        },
        (FixPhase::Links, FixEvent::Ran(_)) => {
            let path = concat(concat(concat(s.root.as_str(), "/corpus/").as_str(), s.lang.as_str()).as_str(), "/reports/sweep.json");
            (FixState { phase: FixPhase::ReadSweep, ..s }, FixAction::ReadSweep { path })
        },
        _ => refuse(s),
    }
}

fn on_agent(s: FixState, e: FixEvent) -> (r: (FixState, FixAction))
    requires
        s.phase == FixPhase::ReadSweep || s.phase == FixPhase::Body || s.phase == FixPhase::StartAgent
            || s.phase == FixPhase::Ready || s.phase == FixPhase::Prompt,
    ensures
        (r.0@, r.1@) == fix_next(s@, e@),
{
    match (s.phase, e) {
        (FixPhase::ReadSweep, FixEvent::Swept(c)) => {
            let path = concat(concat(concat(s.root.as_str(), "/corpus/").as_str(), s.lang.as_str()).as_str(), "/reports/PR-BODY.md");
            let text = pr_body(c);
            (FixState { phase: FixPhase::Body, ..s }, FixAction::WriteFile { path, text })
        },
        (FixPhase::Body, FixEvent::Done) => {
            let mut args: Vec<String> = Vec::new();
            args.push("--permission-mode".to_owned());
            args.push("auto".to_owned());
            args.push("--remote-control".to_owned());
            args.push(s.agent.clone());
            assert(strings_view(args@) =~= seq!["--permission-mode"@, "auto"@, "--remote-control"@, s.agent@]);
            let a = FixAction::StartAgent { agent: s.agent.clone(), program: s.tools.program.clone(), pane: s.pane.clone(), args };
            (FixState { phase: FixPhase::StartAgent, ..s }, a)
        },
        (FixPhase::StartAgent, FixEvent::Done) => {
            let a = FixAction::WaitReady { agent: s.agent.clone(), secs: 180 };
            (FixState { phase: FixPhase::Ready, ..s }, a)
        },
        (FixPhase::Ready, FixEvent::Done) => {
            let text = crate::treebank::fix_prompt(
                s.lang.as_str(),
                s.reldir.as_str(),
                s.tools.check.as_str(),
                s.tools.verify.as_str(),
            );
            let a = FixAction::Prompt { agent: s.agent.clone(), text };
            (FixState { phase: FixPhase::Prompt, ..s }, a)
        },
        (FixPhase::Prompt, FixEvent::Done) => {
            let a = FixAction::Status { name: "prompt registered".to_owned(), agent: s.agent.clone() };
            (FixState { phase: FixPhase::Registering, tries: 0, ..s }, a)
        },
        _ => refuse(s),
    }
}

fn on_wait(s: FixState, e: FixEvent) -> (r: (FixState, FixAction))
    requires
        s.phase == FixPhase::Registering || s.phase == FixPhase::RegisterPause || s.phase == FixPhase::Settling
            || s.phase == FixPhase::Parked || s.phase == FixPhase::Sleeping,
    ensures
        (r.0@, r.1@) == fix_next(s@, e@),
{
    match (s.phase, e) {
        (FixPhase::Registering, FixEvent::Agent(st)) => match st {
            None => settle(s),
            Some(x) => {
                if crate::text::str_eq(x.as_str(), "working") || crate::text::str_eq(x.as_str(), "blocked") {
                    settle(s)
                } else if s.tries < 40 {
                    (FixState { phase: FixPhase::RegisterPause, tries: s.tries + 1, ..s }, FixAction::Pause { ms: 1500 })
                } else {
                    settle(s)
                }
            },
        },
        (FixPhase::RegisterPause, FixEvent::Done) => {
            if s.tries >= 40 {
                settle(s)
            } else {
                let a = FixAction::Status { name: "prompt registered".to_owned(), agent: s.agent.clone() };
                (FixState { phase: FixPhase::Registering, ..s }, a)
            }
        },
        (FixPhase::Settling, FixEvent::Agent(st)) => {
            let settled = match &st {
                None => true,
                Some(x) => crate::text::str_eq(x.as_str(), "idle") || crate::text::str_eq(x.as_str(), "done"),
            };
            if settled {
                let mut argv: Vec<String> = Vec::new();
                argv.push(concat(concat(s.root.as_str(), "/").as_str(), s.tools.verify.as_str()));
                argv.push(concat(concat(s.wt.as_str(), "/").as_str(), s.reldir.as_str()));
                assert(strings_view(argv@) =~= seq![s.root@ + "/"@ + s.tools.verify@, s.wt@ + "/"@ + s.reldir@]);
                let a = exec("verify", argv, &s.root);
                (FixState { phase: FixPhase::Verify, ..s }, a)
            } else if s.waited > crate::treebank::SETTLE_LIMIT_MS {
                let a = FixAction::Park { name: "stuck agent".to_owned(), note: "agent has not settled in four hours".to_owned() };
                (FixState { phase: FixPhase::Parked, ..s }, a)
            } else {
                sleep(s)
            }
        },
        (FixPhase::Parked, FixEvent::Done) => sleep(s),
        (FixPhase::Sleeping, FixEvent::Done) => {
            let waited = if s.waited <= i64::MAX - 30_000 { s.waited + 30_000 } else { i64::MAX };
            let a = FixAction::Poll { name: "agent state".to_owned(), agent: s.agent.clone() };
            (FixState { phase: FixPhase::Settling, waited, ..s }, a)
        },
        _ => refuse(s),
    }
}

fn on_verify(s: FixState, e: FixEvent) -> (r: (FixState, FixAction))
    requires
        s.phase == FixPhase::Verify || s.phase == FixPhase::Count,
    ensures
        (r.0@, r.1@) == fix_next(s@, e@),
{
    match (s.phase, e) {
        (FixPhase::Verify, FixEvent::Ran(o)) => {
            if o.code != 0 {
                let mut m = "verify failed on ".to_owned();
                push_str(&mut m, s.branch.as_str());
                push_str(&mut m, "; worktree kept at ");
                push_str(&mut m, s.wt.as_str());
                push_str(&mut m, ": ");
                push_str(&mut m, trim(o.stderr.as_str()).as_str());
                fail(s, m)
            } else {
                let mut argv: Vec<String> = Vec::new();
                argv.push("git".to_owned());
                argv.push("-C".to_owned());
                argv.push(s.wt.clone());
                argv.push("rev-list".to_owned());
                argv.push("--count".to_owned());
                argv.push(concat(concat(s.trunk.as_str(), "..").as_str(), s.branch.as_str()));
                assert(strings_view(argv@) =~= seq![
                    "git"@, "-C"@, s.wt@, "rev-list"@, "--count"@, s.trunk@ + ".."@ + s.branch@,
                ]);
                let a = exec("count commits", argv, &s.root);
                (FixState { phase: FixPhase::Count, ..s }, a)
            }
        },
        (FixPhase::Count, FixEvent::Ran(o)) => {
            let t = trim(o.stdout.as_str());
            let n = match parse_i64(t.as_str()) {
                Some(v) => v,
                None => 0,
            };
            if n == 0 {
                deinit(FixState { commits: n, ..s })
            } else {
                let ghost sv = s@;
                let mut argv: Vec<String> = Vec::new();
                argv.push("gh".to_owned());
                argv.push("stack".to_owned());
                argv.push("init".to_owned());
                let ghost head = strings_view(argv@);
                assert(head =~= seq!["gh"@, "stack"@, "init"@]);
                let mut i: usize = 0;
                while i < s.stack.len()
                    invariant
                        i <= s.stack@.len(),
                        sv == s@,
                        strings_view(argv@) == head + stack_heads(sv.stack).subrange(0, i as int),
                    decreases s.stack.len() - i,
                {
                    let ghost before = strings_view(argv@);
                    argv.push(s.stack[i].head_ref_name.clone());
                    assert(stack_heads(sv.stack).subrange(0, i + 1) =~= stack_heads(sv.stack).subrange(0, i as int).push(
                        s.stack@[i as int].head_ref_name@,
                    ));
                    assert(strings_view(argv@) =~= before.push(s.stack@[i as int].head_ref_name@));
                    i += 1;
                }
                assert(stack_heads(sv.stack).subrange(0, sv.stack.len() as int) =~= stack_heads(sv.stack));
                let ghost mid = strings_view(argv@);
                argv.push(s.branch.clone());
                argv.push("--base".to_owned());
                argv.push(s.trunk.clone());
                assert(strings_view(argv@) =~= mid + seq![sv.branch, "--base"@, sv.trunk]);
                let a = exec("stack init", argv, &s.wt);
                (FixState { phase: FixPhase::StackInit, commits: n, ..s }, a)
            }
        },
        _ => refuse(s),
    }
}

fn on_submit(s: FixState, e: FixEvent) -> (r: (FixState, FixAction))
    requires
        s.phase == FixPhase::StackInit || s.phase == FixPhase::Submit || s.phase == FixPhase::Deinit
            || s.phase == FixPhase::Remove || s.phase == FixPhase::DeleteBranch,
        s.stack@.len() < STACK_MAX,
    ensures
        (r.0@, r.1@) == fix_next(s@, e@),
{
    match (s.phase, e) {
        (FixPhase::StackInit, FixEvent::Ran(o)) => {
            if o.code == 0 {
                let mut argv: Vec<String> = Vec::new();
                argv.push("gh".to_owned());
                argv.push("stack".to_owned());
                argv.push("submit".to_owned());
                argv.push("--auto".to_owned());
                argv.push("--open".to_owned());
                assert(strings_view(argv@) =~= seq!["gh"@, "stack"@, "submit"@, "--auto"@, "--open"@]);
                let a = exec("stack submit", argv, &s.wt);
                (FixState { phase: FixPhase::Submit, ..s }, a)
            } else {
                let mut c = "git -C ".to_owned();
                push_str(&mut c, s.wt.as_str());
                push_str(&mut c, " push -u origin ");
                push_str(&mut c, s.branch.as_str());
                push_str(&mut c, " && cd ");
                push_str(&mut c, s.wt.as_str());
                push_str(&mut c, " && gh pr create --base ");
                push_str(&mut c, s.base.as_str());
                push_str(&mut c, " --head ");
                push_str(&mut c, s.branch.as_str());
                push_str(&mut c, " --title '");
                push_str(&mut c, s.reldir.as_str());
                push_str(&mut c, " grammar fixes' --body-file ");
                push_str(&mut c, s.root.as_str());
                push_str(&mut c, "/corpus/");
                push_str(&mut c, s.lang.as_str());
                push_str(&mut c, "/reports/PR-BODY.md");
                let ghost cv = c@;
                let ghost v = s@;
                assert(cv =~= "git -C "@ + v.wt + " push -u origin "@ + v.branch + " && cd "@ + v.wt + " && gh pr create --base "@
                    + v.base + " --head "@ + v.branch + " --title '"@ + v.reldir + " grammar fixes' --body-file "@
                    + body_path(v.root, v.lang));
                let mut argv: Vec<String> = Vec::new();
                argv.push("bash".to_owned());
                argv.push("-c".to_owned());
                argv.push(c);
                assert(strings_view(argv@) =~= seq!["bash"@, "-c"@, cv]);
                let a = exec("plain pr", argv, &s.wt);
                (FixState { phase: FixPhase::Submit, ..s }, a)
            }
        },
        (FixPhase::Submit, FixEvent::Ran(o)) => {
            if o.code != 0 {
                let mut m = number_string(&Number::NegInt(s.commits));
                push_str(&mut m, " commit(s) on ");
                push_str(&mut m, s.branch.as_str());
                push_str(&mut m, " but no PR: ");
                push_str(&mut m, trim(o.stderr.as_str()).as_str());
                fail(s, m)
            } else {
                deinit(s)
            }
        },
        (FixPhase::Deinit, FixEvent::Ran(_)) => {
            let mut argv: Vec<String> = Vec::new();
            argv.push("git".to_owned());
            argv.push("-C".to_owned());
            argv.push(s.root.clone());
            argv.push("worktree".to_owned());
            argv.push("remove".to_owned());
            argv.push("--force".to_owned());
            argv.push(s.wt.clone());
            assert(strings_view(argv@) =~= seq!["git"@, "-C"@, s.root@, "worktree"@, "remove"@, "--force"@, s.wt@]);
            let a = exec("remove worktree", argv, &s.root);
            (FixState { phase: FixPhase::Remove, ..s }, a)
        },
        (FixPhase::Remove, FixEvent::Ran(_)) => {
            if s.commits == 0 {
                let mut argv: Vec<String> = Vec::new();
                argv.push("git".to_owned());
                argv.push("-C".to_owned());
                argv.push(s.root.clone());
                argv.push("branch".to_owned());
                argv.push("-D".to_owned());
                argv.push(s.branch.clone());
                assert(strings_view(argv@) =~= seq!["git"@, "-C"@, s.root@, "branch"@, "-D"@, s.branch@]);
                let a = exec("delete branch", argv, &s.root);
                (FixState { phase: FixPhase::DeleteBranch, ..s }, a)
            } else {
                let j = made_json(&s);
                finish(s, j)
            }
        },
        (FixPhase::DeleteBranch, FixEvent::Ran(_)) => {
            let j = nothing_json(s.lang.as_str());
            finish(s, j)
        },
        _ => refuse(s),
    }
}

/// A fix run that has not started.
pub fn fix_start() -> (r: FixState)
    ensures
        r@.phase == FixPhase::Start,
        r@.stack.len() == 0,
{
    let r = FixState {
        phase: FixPhase::Start,
        root: String::new(),
        home: String::new(),
        lang: String::new(),
        reldir: String::new(),
        agent: String::new(),
        tools: FixTools { program: String::new(), check: String::new(), verify: String::new() },
        stack: Vec::new(),
        trunk: String::new(),
        base: String::new(),
        branch: String::new(),
        workspace: String::new(),
        pane: String::new(),
        wt: String::new(),
        tries: 0,
        waited: 0,
        commits: 0,
    };
    assert(prs_view(r.stack@) =~= Seq::<PrV>::empty());
    r
}

/// Whether a run's stack is within its cap, as every run that got past the
/// listing keeps it.
pub open spec fn fix_ok(s: FixV) -> bool {
    s.stack.len() < STACK_MAX || s.phase == FixPhase::Over
}

/// A language no agent is sent to is skipped, whatever else holds.
pub proof fn law_an_excluded_language_is_skipped(
    s: FixV,
    input: JsonV,
    root: Seq<char>,
    home: Seq<char>,
    tools: ToolsV,
    l: Seq<char>,
)
    requires
        s.phase == FixPhase::Start,
        (match field(input, "lang"@) {
            Some(v) => as_str(v),
            None => None,
        }) == Some(l),
        excluded(l),
    ensures
        fix_next(s, FixEventV::Begin { input, root, home, tools }).1 == FixActionV::Finish(
            skipped_v(l, "excluded from agent fixes"@),
        ),
{
}

/// A run whose agent committed nothing opens no pull request: it goes
/// straight to clearing its worktree away.
pub proof fn law_nothing_committed_opens_no_pr(s: FixV, code: i32, stdout: Seq<char>, stderr: Seq<char>, unit: Seq<char>)
    requires
        s.phase == FixPhase::Count,
        commits_of(stdout) == 0,
    ensures
        fix_next(s, FixEventV::Ran { code, stdout, stderr, unit }).0.phase == FixPhase::Deinit,
        fix_next(s, FixEventV::Ran { code, stdout, stderr, unit }).0.commits == 0,
{
}

/// Clearing away an abandoned run removes its branch too, once the worktree
/// is gone, and only then does the run report that nothing was committed; a
/// run that opened a pull request keeps its branch.
pub proof fn law_an_abandoned_run_deletes_its_branch(s: FixV, code: i32, stdout: Seq<char>, stderr: Seq<char>, unit: Seq<char>)
    requires
        s.phase == FixPhase::Remove,
    ensures
        s.commits == 0 ==> fix_next(s, FixEventV::Ran { code, stdout, stderr, unit }) == (
            FixV { phase: FixPhase::DeleteBranch, ..s },
            run("delete branch"@, seq!["git"@, "-C"@, s.root, "branch"@, "-D"@, s.branch], s.root),
        ),
        s.commits == 0 ==> fix_next(
            fix_next(s, FixEventV::Ran { code, stdout, stderr, unit }).0,
            FixEventV::Ran { code, stdout, stderr, unit },
        ).1 == FixActionV::Finish(nothing_v(s.lang)),
        s.commits != 0 ==> fix_next(s, FixEventV::Ran { code, stdout, stderr, unit }).1 == FixActionV::Finish(made_v(s)),
{
}

/// A new fix stacks on the top of the language's stack, else on the trunk.
pub proof fn law_a_fix_stacks_on_the_top(s: FixV, code: i32, stdout: Seq<char>, stderr: Seq<char>, unit: Seq<char>)
    requires
        s.phase == FixPhase::Trunk,
    ensures
        fix_next(s, FixEventV::Ran { code, stdout, stderr, unit }).0.base == if s.stack.len() > 0 {
            s.stack.last().1
        } else {
            trimmed(stdout)
        },
{
}

/// A run never holds a stack past its cap, except in the answer that
/// refuses it.
pub proof fn law_the_stack_stays_within_its_cap(s: FixV, e: FixEventV)
    requires
        fix_ok(s),
    ensures
        fix_ok(fix_next(s, e).0),
{
}

/// One step of a fix run: from where it stands and what came back, where it
/// stands next and what the caller is to do.
pub fn fix_step(s: FixState, e: FixEvent) -> (r: (FixState, FixAction))
    requires
        fix_ok(s@),
    ensures
        (r.0@, r.1@) == fix_next(s@, e@),
        fix_ok(r.0@),
{
    proof {
        law_the_stack_stays_within_its_cap(s@, e@);
    }
    match s.phase {
        FixPhase::Start => on_start(s, e),
        FixPhase::Discover => on_discover(s, e),
        FixPhase::Existing => on_existing(s, e),
        FixPhase::ListPrs => on_list(s, e),
        FixPhase::Trunk => on_trunk(s, e),
        FixPhase::Stamp => on_stamp(s, e),
        FixPhase::Stale | FixPhase::Clear => on_stale(s, e),
        FixPhase::Worktree | FixPhase::Submodule | FixPhase::Links => on_worktree(s, e),
        FixPhase::ReadSweep | FixPhase::Body | FixPhase::StartAgent | FixPhase::Ready | FixPhase::Prompt => on_agent(s, e),
        FixPhase::Registering | FixPhase::RegisterPause | FixPhase::Settling | FixPhase::Parked | FixPhase::Sleeping => on_wait(s, e),
        FixPhase::Verify | FixPhase::Count => on_verify(s, e),
        FixPhase::StackInit | FixPhase::Submit | FixPhase::Deinit | FixPhase::Remove | FixPhase::DeleteBranch => on_submit(s, e),
        FixPhase::Over => refuse(s),
    }
}
} // verus!
