//! What the interface's snapshot computes from what it read: each run with
//! its steps, the workflows in order of name with their next firing, the
//! hour of history the graphs show, and the newest entries of the command
//! log.

use vstd::prelude::*;

use crate::status::{RunView, StepView};
use crate::order::{sorted_by, stable_sorted};
use crate::pairs::pair_lookup;
use crate::text::str_eq;

verus! {

/// A step as the library reasons about it: key, result, error.
pub type StepV = (Seq<char>, Option<Seq<char>>, Option<Seq<char>>);

pub open spec fn opt_str(o: Option<String>) -> Option<Seq<char>> {
    match o {
        Some(x) => Some(x@),
        None => None,
    }
}

pub open spec fn step_v(s: StepView) -> StepV {
    (s.key@, opt_str(s.result), opt_str(s.error))
}

/// The steps of all runs, each with the run it belongs to.
pub open spec fn owned_steps(steps: Seq<(String, StepView)>) -> Seq<(Seq<char>, StepV)> {
    Seq::new(steps.len(), |i: int| (steps[i].0@, step_v(steps[i].1)))
}

/// The steps of the run `id`, in the order given.
pub open spec fn steps_of(steps: Seq<(Seq<char>, StepV)>, id: Seq<char>) -> Seq<StepV> {
    steps.filter(|p: (Seq<char>, StepV)| p.0 == id).map_values(|p: (Seq<char>, StepV)| p.1)
}

/// What a run shows once its steps are attached: its own, unless an
/// earlier run in the list has the same id and took them.
pub open spec fn attached(runs: Seq<RunView>, steps: Seq<(Seq<char>, StepV)>, i: int) -> Seq<StepV> {
    if exists|j: int| 0 <= j < i && #[trigger] runs[j].id@ == runs[i].id@ {
        seq![]
    } else {
        steps_of(steps, runs[i].id@)
    }
}

fn copy_opt(o: &Option<String>) -> (r: Option<String>)
    ensures
        opt_str(r) == opt_str(*o),
{
    match o {
        Some(x) => Some(x.clone()),
        None => None,
    }
}

/// Each run with its steps, in the order they ended; the runs keep their
/// order and everything else about them.
pub fn attach_steps(runs: Vec<RunView>, steps: &Vec<(String, StepView)>) -> (r: Vec<RunView>)
    ensures
        r@.len() == runs@.len(),
        forall|i: int|
            0 <= i < r@.len() ==> {
                &&& (#[trigger] r@[i]).id@ == runs@[i].id@
                &&& r@[i].workflow@ == runs@[i].workflow@
                &&& r@[i].status@ == runs@[i].status@
                &&& opt_str(r@[i].note) == opt_str(runs@[i].note)
                &&& opt_str(r@[i].error) == opt_str(runs@[i].error)
                &&& r@[i].updated_at == runs@[i].updated_at
                &&& Seq::new(r@[i].steps@.len(), |k: int| step_v(r@[i].steps@[k])) == attached(
                    runs@,
                    owned_steps(steps@),
                    i,
                )
            },
{
    let ghost sv = owned_steps(steps@);
    let mut out: Vec<RunView> = Vec::new();
    let mut i: usize = 0;
    while i < runs.len()
        invariant
            i <= runs@.len(),
            sv == owned_steps(steps@),
            out@.len() == i,
            forall|q: int|
                0 <= q < i ==> {
                    &&& (#[trigger] out@[q]).id@ == runs@[q].id@
                    &&& out@[q].workflow@ == runs@[q].workflow@
                    &&& out@[q].status@ == runs@[q].status@
                    &&& opt_str(out@[q].note) == opt_str(runs@[q].note)
                    &&& opt_str(out@[q].error) == opt_str(runs@[q].error)
                    &&& out@[q].updated_at == runs@[q].updated_at
                    &&& Seq::new(out@[q].steps@.len(), |k: int| step_v(out@[q].steps@[k])) == attached(runs@, sv, q)
                },
        decreases runs.len() - i,
    {
        let mut earlier = false;
        let mut j: usize = 0;
        while j < i
            invariant
                j <= i < runs@.len(),
                earlier == exists|q: int| 0 <= q < j && #[trigger] runs@[q].id@ == runs@[i as int].id@,
            decreases i - j,
        {
            if str_eq(runs[j].id.as_str(), runs[i].id.as_str()) {
                earlier = true;
            }
            j += 1;
        }
        let mut mine: Vec<StepView> = Vec::new();
        let ghost f = |p: (Seq<char>, StepV)| p.0 == runs@[i as int].id@;
        if !earlier {
            let mut k: usize = 0;
            assert(sv.subrange(0, 0).filter(f) =~= Seq::<(Seq<char>, StepV)>::empty());
            while k < steps.len()
                invariant
                    k <= steps@.len(),
                    i < runs@.len(),
                    sv == owned_steps(steps@),
                    f == (|p: (Seq<char>, StepV)| p.0 == runs@[i as int].id@),
                    Seq::new(mine@.len(), |q: int| step_v(mine@[q])) == sv.subrange(0, k as int).filter(f).map_values(
                        |p: (Seq<char>, StepV)| p.1,
                    ),
                decreases steps.len() - k,
            {
                let ghost pre = sv.subrange(0, k as int);
                assert(sv.subrange(0, k + 1) =~= pre.push(sv[k as int]));
                proof {
                    pre.lemma_filter_push(sv[k as int], f);
                }
                if str_eq(steps[k].0.as_str(), runs[i].id.as_str()) {
                    let st = &steps[k].1;
                    let ghost before = Seq::new(mine@.len(), |q: int| step_v(mine@[q]));
                    mine.push(StepView { key: st.key.clone(), result: copy_opt(&st.result), error: copy_opt(&st.error) });
                    assert(Seq::new(mine@.len(), |q: int| step_v(mine@[q])) =~= before.push(sv[k as int].1));
                    assert(pre.filter(f).push(sv[k as int]).map_values(|p: (Seq<char>, StepV)| p.1) =~= pre.filter(f).map_values(
                        |p: (Seq<char>, StepV)| p.1,
                    ).push(sv[k as int].1));
                }
                k += 1;
            }
            assert(sv.subrange(0, sv.len() as int) =~= sv);
        } else {
            assert(Seq::new(mine@.len(), |q: int| step_v(mine@[q])) =~= Seq::<StepV>::empty());
        }
        let run = &runs[i];
        out.push(RunView {
            id: run.id.clone(),
            workflow: run.workflow.clone(),
            status: run.status.clone(),
            note: copy_opt(&run.note),
            error: copy_opt(&run.error),
            updated_at: run.updated_at,
            steps: mine,
        });
        i += 1;
    }
    out
}

/// The newest `n` entries of a log kept oldest first, newest first.
pub fn newest_first<T>(log: Vec<T>, n: usize) -> (r: Vec<T>)
    ensures
        r@ == log@.reverse().take(if n < log@.len() { n as int } else { log@.len() as int }),
{
    let mut rest = log;
    let ghost orig = rest@;
    let mut out: Vec<T> = Vec::new();
    let want = if n < rest.len() { n } else { rest.len() };
    while out.len() < want
        invariant
            want <= orig.len(),
            out@.len() <= want,
            rest@ == orig.subrange(0, orig.len() - out@.len()),
            out@ == orig.reverse().take(out@.len() as int),
        decreases want - out@.len(),
    {
        let x = rest.pop().unwrap();
        let ghost m: int = out@.len() as int;
        out.push(x);
        assert(orig.reverse()[m as int] == orig[orig.len() - 1 - m]);
        assert(out@ =~= orig.reverse().take(m + 1 as int));
        assert(rest@ =~= orig.subrange(0, orig.len() - out@.len()));
    }
    out
}

/// A workflow as the registry declares it.
pub struct WorkflowEntry {
    pub name: String,
    pub description: String,
    /// An example input.
    pub example: Option<String>,
    /// Its cron expression, if it runs on a clock.
    pub schedule: Option<String>,
}

/// A workflow as the interface lists it: the entry and when it next fires.
pub struct WorkflowView {
    pub name: String,
    pub description: String,
    pub example: Option<String>,
    pub schedule: Option<String>,
    pub next: Option<String>,
}

/// A listed workflow as the library reasons about it.
pub type WfV = (Seq<char>, Seq<char>, Option<Seq<char>>, Option<Seq<char>>, Option<Seq<char>>);

pub open spec fn wf_v(w: WorkflowView) -> WfV {
    (w.name@, w.description@, opt_str(w.example), opt_str(w.schedule), opt_str(w.next))
}

pub open spec fn wfs_v(ws: Seq<WorkflowView>) -> Seq<WfV> {
    Seq::new(ws.len(), |i: int| wf_v(ws[i]))
}

pub open spec fn strings_pairs(v: Seq<(String, String)>) -> Seq<(Seq<char>, Seq<char>)> {
    Seq::new(v.len(), |i: int| (v[i].0@, v[i].1@))
}

/// Each registered workflow with the next firing given for its name (the
/// first, when several are), in registry order.
pub open spec fn entries_v(reg: Seq<WorkflowEntry>, next: Seq<(Seq<char>, Seq<char>)>) -> Seq<WfV> {
    Seq::new(
        reg.len(),
        |i: int| (reg[i].name@, reg[i].description@, opt_str(reg[i].example), opt_str(reg[i].schedule), pair_lookup(next, reg[i].name@)),
    )
}

/// Workflows in order of name.
pub open spec fn by_name() -> spec_fn(WfV, WfV) -> bool {
    |a: WfV, b: WfV| crate::json::key_lt(a.0, b.0)
}

proof fn lemma_by_name_strict()
    ensures
        crate::order::strict(by_name()),
{
    assert forall|a: WfV, b: WfV, c: WfV| #[trigger] (by_name())(a, b) && #[trigger] (by_name())(b, c) implies (by_name())(a, c) by {
        crate::json::lemma_key_lt_transitive(a.0, b.0, c.0);
    }
    assert forall|a: WfV| !#[trigger] (by_name())(a, a) by {
        crate::json::lemma_key_lt_irreflexive(a.0);
    }
}

/// The next firing given for `name`: the first pair that names it.
fn next_of(next: &Vec<(String, String)>, name: &str) -> (r: Option<String>)
    ensures
        opt_str(r) == pair_lookup(strings_pairs(next@), name@),
{
    let ghost nv = strings_pairs(next@);
    let mut i: usize = 0;
    assert(nv.skip(0) =~= nv);
    while i < next.len()
        invariant
            i <= next@.len(),
            nv == strings_pairs(next@),
            pair_lookup(nv, name@) == pair_lookup(nv.skip(i as int), name@),
        decreases next.len() - i,
    {
        assert(nv.skip(i as int)[0] == nv[i as int]);
        if str_eq(next[i].0.as_str(), name) {
            return Some(next[i].1.clone());
        }
        assert(nv.skip(i as int).drop_first() =~= nv.skip(i + 1));
        i += 1;
    }
    assert(nv.skip(i as int).len() == 0);
    None
}

/// The workflow list the interface draws: every registered workflow once,
/// in order of name, each with the next firing given for it.
pub fn workflow_views(registry: Vec<WorkflowEntry>, next: &Vec<(String, String)>) -> (r: Vec<WorkflowView>)
    ensures
        wfs_v(r@) == stable_sorted(entries_v(registry@, strings_pairs(next@)), by_name()),
        wfs_v(r@).to_multiset() == entries_v(registry@, strings_pairs(next@)).to_multiset(),
        sorted_by(wfs_v(r@), by_name()),
{
    let ghost all = entries_v(registry@, strings_pairs(next@));
    let n = registry.len();
    let mut out: Vec<WorkflowView> = Vec::new();
    let mut i: usize = 0;
    assert(wfs_v(out@) =~= stable_sorted(all.subrange(0, 0), by_name()));
    while i < n
        invariant
            i <= n,
            n == registry@.len(),
            all == entries_v(registry@, strings_pairs(next@)),
            wfs_v(out@) == stable_sorted(all.subrange(0, i as int), by_name()),
        decreases n - i,
    {
        let e = &registry[i];
        let x = WorkflowView {
            name: e.name.clone(),
            description: e.description.clone(),
            example: copy_opt(&e.example),
            schedule: copy_opt(&e.schedule),
            next: next_of(next, e.name.as_str()),
        };
        let ghost xv = all[i as int];
        assert(wf_v(x) == xv);
        assert(all.subrange(0, i + 1).drop_last() =~= all.subrange(0, i as int));
        assert(all.subrange(0, i + 1).last() == xv);
        let ghost o = wfs_v(out@);
        let mut p: usize = 0;
        while p < out.len() && !crate::json::key_less(x.name.as_str(), out[p].name.as_str())
            invariant
                p <= out@.len(),
                o == wfs_v(out@),
                wf_v(x) == xv,
                forall|k: int| 0 <= k < p ==> !(by_name())(xv, #[trigger] o[k]),
            decreases out.len() - p,
        {
            p += 1;
        }
        out.insert(p, x);
        proof {
            assert(wfs_v(out@) =~= o.insert(p as int, xv));
            crate::order::lemma_insert_in_order(o, xv, by_name(), p as int);
        }
        i += 1;
    }
    assert(all.subrange(0, n as int) =~= all);
    proof {
        crate::order::lemma_stable_sorted_multiset(all, by_name());
        lemma_by_name_strict();
        crate::order::lemma_stable_sorted_sorted(all, by_name());
    }
    out
}

/// Where the graphs' hour of history starts: an hour before `now_ms`.
pub fn history_start(now_ms: i64) -> (r: i64)
    requires
        now_ms >= i64::MIN + 3_600_000,
    ensures
        r == now_ms - 3_600_000,
        now_ms - r >= 3_600_000,
{
    now_ms - 3_600_000
}

} // verus!
