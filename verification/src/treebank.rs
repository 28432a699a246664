//! The grammar-fixing workflows' decisions.
//!
//! The sweep pulls, builds and ranks every grammar and hands any with gaps
//! to a fix run; a fix run puts an agent in a worktree of its own, waits for
//! it to settle, verifies and stacks its commits as a pull request. The
//! commands, the agent and the clock stay with the caller; what is decided
//! between them is here.

use vstd::prelude::*;

use crate::json::{as_i64, as_str, field, Json, JsonV, Number};
use crate::text::{push_str, str_eq, trimmed};

verus! {

/// A grammar the repository holds: its language and its directory.
pub struct Grammar {
    lang: String,
    reldir: String,
}

impl Grammar {
    /// A grammar by language and directory.
    pub fn new(lang: String, reldir: String) -> (g: Grammar)
        ensures
            g.lang_view() == lang@,
            g.reldir_view() == reldir@,
    {
        Grammar { lang, reldir }
    }

    pub closed spec fn lang_view(&self) -> Seq<char> {
        self.lang@
    }

    pub closed spec fn reldir_view(&self) -> Seq<char> {
        self.reldir@
    }

    /// The language it parses.
    pub fn lang(&self) -> (r: &str)
        ensures
            r@ == self.lang_view(),
    {
        self.lang.as_str()
    }

    /// Its directory, relative to the repository.
    pub fn reldir(&self) -> (r: &str)
        ensures
            r@ == self.reldir_view(),
    {
        self.reldir.as_str()
    }
}

/// What the agent is told to do. `check` is the grammar checker it runs
/// from the grammar's directory after each fix, `verify` the repository-wide
/// verifier it runs from the root at the end; the deployment names both.
pub open spec fn prompt_text(lang: Seq<char>, reldir: Seq<char>, check: Seq<char>, verify: Seq<char>) -> Seq<char> {
    "Read corpus/"@ + lang + "/reports/REPORT.md and fix ALL of its gap clusters, one at a time, exactly per the report's instructions. Edit grammar sources in "@ + reldir + "/build/ (the materialized tree — see GRAMMARS.md). After each fix, run "@ + check + " from "@ + reldir + " until it prints CHECK OK. Capture each fix as patches/NNNN-*.patch with a ledger.json entry and a LOCAL-PATCHES.md note, per GRAMMARS.md, numbering after the highest patch already there. Update the ledger's corpus.sweep_patched numbers, then run "@ + verify + " "@ + reldir + " from the repo root — it must pass.\n\nFinally: git add "@ + reldir + " and git commit it, with a message naming the clusters you fixed. Commit only — do NOT push and do NOT open a PR; the job does that so the stack wiring stays deterministic.\n\nYou are in a git worktree of your own; nothing here touches the main checkout. If a cluster is genuinely beyond a minimal grammar change, skip it and say so."@
}

/// The instructions a fix agent starts from.
pub fn fix_prompt(lang: &str, reldir: &str, check: &str, verify: &str) -> (r: String)
    ensures
        r@ == prompt_text(lang@, reldir@, check@, verify@),
{
    let mut s = "Read corpus/".to_owned();
    push_str(&mut s, lang);
    push_str(&mut s, "/reports/REPORT.md and fix ALL of its gap clusters, one at a time, exactly per the report's instructions. Edit grammar sources in ");
    push_str(&mut s, reldir);
    push_str(&mut s, "/build/ (the materialized tree — see GRAMMARS.md). After each fix, run ");
    push_str(&mut s, check);
    push_str(&mut s, " from ");
    push_str(&mut s, reldir);
    push_str(&mut s, " until it prints CHECK OK. Capture each fix as patches/NNNN-*.patch with a ledger.json entry and a LOCAL-PATCHES.md note, per GRAMMARS.md, numbering after the highest patch already there. Update the ledger's corpus.sweep_patched numbers, then run ");
    push_str(&mut s, verify);
    push_str(&mut s, " ");
    push_str(&mut s, reldir);
    push_str(&mut s, " from the repo root — it must pass.\n\nFinally: git add ");
    push_str(&mut s, reldir);
    push_str(&mut s, " and git commit it, with a message naming the clusters you fixed. Commit only — do NOT push and do NOT open a PR; the job does that so the stack wiring stays deterministic.\n\nYou are in a git worktree of your own; nothing here touches the main checkout. If a cluster is genuinely beyond a minimal grammar change, skip it and say so.");
    s
}

/// Languages no agent is sent to fix.
pub open spec fn excluded(lang: Seq<char>) -> bool {
    lang == "csharp"@
}

/// Whether a grammar is left out of agent fixes (`excluded`).
pub fn no_agent(lang: &str) -> (r: bool)
    ensures
        r == excluded(lang@),
{
    str_eq(lang, "csharp")
}

/// How deep a stack of fix pull requests may grow.
pub const STACK_MAX: usize = 3;

/// How many packages a sweep fetches per language: the `limit` input, else
/// a hundred.
pub fn sweep_limit(input: &Json) -> (r: i64)
    ensures
        r == match field(input@, "limit"@) {
            Some(v) => match as_i64(v) {
                Some(n) => n,
                None => 100,
            },
            None => 100,
        },
{
    match input.get("limit") {
        Some(v) => match v.as_i64() {
            Some(n) => n,
            None => 100,
        },
        None => 100,
    }
}

/// A checkout is pulled only when nothing tracked is modified.
pub fn should_pull(status_porcelain: &str) -> (r: bool)
    ensures
        r == (trimmed(status_porcelain@).len() == 0),
{
    let t = crate::text::trim(status_porcelain);
    t.as_str().unicode_len() == 0
}

/// The agent a fix run for `lang` drives: `tbfix-` and the language with
/// `_` written `-`.
pub open spec fn agent_name_of(lang: Seq<char>) -> Seq<char> {
    "tbfix-"@ + Seq::new(lang.len(), |i: int| if lang[i] == '_' { '-' } else { lang[i] })
}

/// The name of the agent that fixes a grammar (`agent_name_of`).
pub fn agent_name(lang: &str) -> (r: String)
    ensures
        r@ == agent_name_of(lang@),
{
    let mut s = "tbfix-".to_owned();
    let ghost base = s@;
    let n = lang.unicode_len();
    let mut i: usize = 0;
    while i < n
        invariant
            i <= n,
            n == lang@.len(),
            s@ == base + Seq::new(i as nat, |k: int| if lang@[k] == '_' { '-' } else { lang@[k] }),
        decreases n - i,
    {
        let c = lang.get_char(i);
        crate::text::push_char(&mut s, if c == '_' { '-' } else { c });
        assert(s@ =~= base + Seq::new((i + 1) as nat, |k: int| if lang@[k] == '_' { '-' } else { lang@[k] }));
        i += 1;
    }
    s
}

/// The language a fix run is asked for.
pub fn fix_lang(input: &Json) -> (r: Option<String>)
    ensures
        match r {
            Some(l) => (match field(input@, "lang"@) {
                Some(v) => as_str(v),
                None => None,
            }) == Some(l@),
            None => (match field(input@, "lang"@) {
                Some(v) => as_str(v),
                None => None,
            }) is None,
        },
{
    match input.get("lang") {
        Some(v) => match v.as_str() {
            Some(s) => Some(s.to_owned()),
            None => None,
        },
        None => None,
    }
}

/// An open pull request, as the forge lists it.
pub struct Pr {
    pub number: i64,
    pub head_ref_name: String,
    pub url: String,
}

/// An agent has settled once it is gone, idle or done.
pub fn settled(status: Option<&str>) -> (r: bool)
    ensures
        r == match status {
            None => true,
            Some(s) => s@ == "idle"@ || s@ == "done"@,
        },
{
    match status {
        None => true,
        Some(s) => str_eq(s, "idle") || str_eq(s, "done"),
    }
}

/// What a look at the agent says about the prompt: taken (working or
/// blocked), lost (the agent is gone), or not yet known.
pub enum PromptSeen {
    Taken,
    Gone,
    NotYet,
}

/// What an agent's status says about the prompt it was sent.
pub fn prompt_seen(status: Option<&str>) -> (r: PromptSeen)
    ensures
        match status {
            None => r is Gone,
            Some(s) => if s@ == "working"@ || s@ == "blocked"@ {
                r is Taken
            } else {
                r is NotYet
            },
        },
{
    match status {
        None => PromptSeen::Gone,
        Some(s) => if str_eq(s, "working") || str_eq(s, "blocked") {
            PromptSeen::Taken
        } else {
            PromptSeen::NotYet
        },
    }
}

/// How long an agent may run before its fix run parks for a person, in ms.
pub const SETTLE_LIMIT_MS: i64 = 14_400_000;

/// The branch a new fix stacks on: the top of the existing stack, else the
/// trunk.
pub fn base_branch(stack: &Vec<Pr>, trunk: &str) -> (r: String)
    ensures
        r@ == if stack@.len() > 0 {
            stack@.last().head_ref_name@
        } else {
            trunk@
        },
{
    if stack.len() > 0 {
        stack[stack.len() - 1].head_ref_name.clone()
    } else {
        trunk.to_owned()
    }
}

/// Whether another fix may stack on this many open ones.
pub fn stack_has_room(depth: usize) -> (r: bool)
    ensures
        r == (depth < STACK_MAX),
{
    depth < STACK_MAX
}


/// Whether a report entry counts gap files.
pub open spec fn has_gaps(v: JsonV) -> bool {
    match field(v, "gap_files"@) {
        Some(g) => match as_i64(g) {
            Some(n) => n > 0,
            None => false,
        },
        None => false,
    }
}

/// The languages whose report entry counts gap files, in report order.
pub open spec fn gap_keys(ms: Seq<(Seq<char>, JsonV)>) -> Seq<Seq<char>>
    decreases ms.len(),
{
    if ms.len() == 0 {
        seq![]
    } else if has_gaps(ms.last().1) {
        gap_keys(ms.drop_last()).push(ms.last().0)
    } else {
        gap_keys(ms.drop_last())
    }
}

pub open spec fn gap_langs_of(report: JsonV) -> Seq<Seq<char>> {
    match report {
        JsonV::Object(ms) => gap_keys(ms),
        _ => seq![],
    }
}

pub open spec fn strings_view(v: Seq<String>) -> Seq<Seq<char>> {
    Seq::new(v.len(), |i: int| v[i]@)
}

fn gaps(v: &Json) -> (r: bool)
    ensures
        r == has_gaps(v@),
{
    match v.get("gap_files") {
        Some(g) => match g.as_i64() {
            Some(n) => n > 0,
            None => false,
        },
        None => false,
    }
}

/// The languages a sweep found gaps in.
pub fn gap_langs(report: &Json) -> (r: Vec<String>)
    ensures
        strings_view(r@) == gap_langs_of(report@),
{
    let mut out: Vec<String> = Vec::new();
    match report {
        Json::Object(ms) => {
            let ghost mv = crate::json::members_of(ms@);
            proof {
                crate::json::lemma_members_of(ms@);
            }
            let mut i: usize = 0;
            assert(strings_view(out@) =~= gap_keys(mv.subrange(0, 0)));
            while i < ms.len()
                invariant
                    i <= ms@.len(),
                    mv == crate::json::members_of(ms@),
                    mv.len() == ms@.len(),
                    forall|j: int| 0 <= j < ms@.len() ==> #[trigger] mv[j] == (
                        ms@[j].key@,
                        crate::json::json_of(ms@[j].value),
                    ),
                    strings_view(out@) == gap_keys(mv.subrange(0, i as int)),
                decreases ms.len() - i,
            {
                assert(mv.subrange(0, i + 1).drop_last() =~= mv.subrange(0, i as int));
                assert(mv.subrange(0, i + 1).last() == mv[i as int]);
                if gaps(&ms[i].value) {
                    let ghost before = strings_view(out@);
                    out.push(ms[i].key.clone());
                    assert(strings_view(out@) =~= before.push(ms@[i as int].key@));
                }
                i += 1;
            }
            assert(mv.subrange(0, ms@.len() as int) =~= mv);
            assert(report@ == JsonV::Object(mv));
        },
        _ => {
            assert(strings_view(out@) =~= Seq::<Seq<char>>::empty());
        },
    }
    out
}

/// The languages a sweep hands to fix runs: those with gaps, less the ones
/// no agent is sent to.
pub fn fix_targets(langs: &Vec<String>) -> (r: Vec<String>)
    ensures
        strings_view(r@) == strings_view(langs@).filter(|l: Seq<char>| !excluded(l)),
{
    let ghost f = |l: Seq<char>| !excluded(l);
    let mut out: Vec<String> = Vec::new();
    let mut i: usize = 0;
    assert(strings_view(langs@).subrange(0, 0).filter(f) =~= Seq::<Seq<char>>::empty());
    assert(strings_view(out@) =~= Seq::<Seq<char>>::empty());
    while i < langs.len()
        invariant
            i <= langs@.len(),
            f == (|l: Seq<char>| !excluded(l)),
            strings_view(out@) == strings_view(langs@).subrange(0, i as int).filter(f),
        decreases langs.len() - i,
    {
        let ghost pre = strings_view(langs@).subrange(0, i as int);
        assert(strings_view(langs@).subrange(0, i + 1) =~= pre.push(langs@[i as int]@));
        proof {
            pre.lemma_filter_push(langs@[i as int]@, f);
        }
        if !no_agent(langs[i].as_str()) {
            let ghost before = strings_view(out@);
            out.push(langs[i].clone());
            assert(strings_view(out@) =~= before.push(langs@[i as int]@));
        }
        i += 1;
    }
    assert(strings_view(langs@).subrange(0, langs@.len() as int) =~= strings_view(langs@));
    out
}

} // verus!
