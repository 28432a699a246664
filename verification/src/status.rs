//! The status bar: key hints for the focused editor, and the running task.

use vstd::prelude::*;

use crate::cron::{all_digits, digits_value, is_digit};
use crate::keymap::{chord_text, pretty_chord};
use crate::pairs::pairs_view;
use crate::text::{decimal, occurs_at, push_decimal, push_str, str_eq};

verus! {

/// The hints an editor answers to while it has focus.
pub open spec fn hints_for(editor: Seq<char>) -> Seq<(Seq<char>, Seq<char>)> {
    if editor == "runs"@ {
        seq![("Click"@, "Open run"@), ("Type"@, "Filter"@)]
    } else
    if editor == "run"@ {
        seq![("Chip"@, "Pick run"@)]
    } else
    if editor == "data"@ {
        seq![("Click"@, "Expand"@), ("Right-click"@, "Copy data path"@)]
    } else
    if editor == "files"@ {
        seq![("Click"@, "Expand"@), ("Chip"@, "Root here"@)]
    } else
    if editor == "code"@ {
        seq![("Chip"@, "Pick file"@)]
    } else
    if editor == "diff"@ {
        seq![("Chip"@, "Pick file"@)]
    } else
    if editor == "chart"@ {
        seq![("Chip"@, "Pick chart"@), ("N"@, "Edit spec"@)]
    } else
    if editor == "settings"@ {
        seq![("Drag"@, "Scrub number"@), ("Type"@, "3*2 works"@)]
    } else
    if editor == "keymap"@ {
        seq![("Set"@, "Rebind"@), ("Type"@, "Filter"@)]
    } else
    if editor == "actions"@ {
        seq![("Click"@, "Trigger"@)]
    } else
    if editor == "info"@ {
        seq![("Type"@, "Filter"@)]
    } else {
        seq![]
    }
}

/// The hints an editor answers to, as `(chord or gesture, what it does)`.
pub fn editor_hints(editor: &str) -> (r: Vec<(&'static str, &'static str)>)
    ensures
        pairs_view(r@) == hints_for(editor@),
{
    let mut out: Vec<(&'static str, &'static str)> = Vec::new();
    if str_eq(editor, "runs") {
        out.push(("Click", "Open run")); out.push(("Type", "Filter"));
    } else
    if str_eq(editor, "run") {
        out.push(("Chip", "Pick run"));
    } else
    if str_eq(editor, "data") {
        out.push(("Click", "Expand")); out.push(("Right-click", "Copy data path"));
    } else
    if str_eq(editor, "files") {
        out.push(("Click", "Expand")); out.push(("Chip", "Root here"));
    } else
    if str_eq(editor, "code") {
        out.push(("Chip", "Pick file"));
    } else
    if str_eq(editor, "diff") {
        out.push(("Chip", "Pick file"));
    } else
    if str_eq(editor, "chart") {
        out.push(("Chip", "Pick chart")); out.push(("N", "Edit spec"));
    } else
    if str_eq(editor, "settings") {
        out.push(("Drag", "Scrub number")); out.push(("Type", "3*2 works"));
    } else
    if str_eq(editor, "keymap") {
        out.push(("Set", "Rebind")); out.push(("Type", "Filter"));
    } else
    if str_eq(editor, "actions") {
        out.push(("Click", "Trigger"));
    } else
    if str_eq(editor, "info") {
        out.push(("Type", "Filter"));
    } else {
    }
    assert(pairs_view(out@) =~= hints_for(editor@));
    out
}

/// The hints every editor shares, after its own.
pub open spec fn global_hints() -> Seq<(Seq<char>, Seq<char>)> {
    seq![("Mod+Z"@, "Undo"@), ("F3"@, "Commands"@), ("Mod+Shift+Space"@, "Maximize"@)]
}

/// Hints with their chords written for the platform.
pub open spec fn written(h: Seq<(Seq<char>, Seq<char>)>, mac: bool) -> Seq<(Seq<char>, Seq<char>)> {
    Seq::new(h.len(), |i: int| (chord_text(h[i].0, mac), h[i].1))
}

pub open spec fn hint_pairs(v: Seq<(String, String)>) -> Seq<(Seq<char>, Seq<char>)> {
    Seq::new(v.len(), |i: int| (v[i].0@, v[i].1@))
}

fn push_written(out: &mut Vec<(String, String)>, h: &Vec<(&'static str, &'static str)>, mac: bool)
    ensures
        hint_pairs(final(out)@) == hint_pairs(old(out)@) + written(pairs_view(h@), mac),
{
    let ghost start = hint_pairs(out@);
    let mut i: usize = 0;
    while i < h.len()
        invariant
            i <= h@.len(),
            hint_pairs(out@) == start + written(pairs_view(h@), mac).subrange(0, i as int),
        decreases h.len() - i,
    {
        let c = pretty_chord(h[i].0, mac);
        let ghost before = hint_pairs(out@);
        out.push((c, h[i].1.to_owned()));
        assert(hint_pairs(out@) =~= before.push((chord_text(h@[i as int].0@, mac), h@[i as int].1@)));
        assert(written(pairs_view(h@), mac).subrange(0, i + 1) =~= written(pairs_view(h@), mac).subrange(
            0,
            i as int,
        ).push((chord_text(h@[i as int].0@, mac), h@[i as int].1@)));
        i += 1;
    }
    assert(written(pairs_view(h@), mac).subrange(0, h@.len() as int) =~= written(pairs_view(h@), mac));
}

/// The status bar's hints: the focused editor's own first, then the ones
/// every editor shares, chords written for the platform.
pub fn status_hints(mac: bool, editor: Option<&str>) -> (r: Vec<(String, String)>)
    ensures
        hint_pairs(r@) == written(
            match editor {
                Some(e) => hints_for(e@),
                None => Seq::<(Seq<char>, Seq<char>)>::empty(),
            },
            mac,
        ) + written(global_hints(), mac),
{
    let mut out: Vec<(String, String)> = Vec::new();
    let own: Vec<(&'static str, &'static str)> = match editor {
        Some(e) => editor_hints(e),
        None => Vec::new(),
    };
    assert(hint_pairs(out@) =~= Seq::<(Seq<char>, Seq<char>)>::empty());
    push_written(&mut out, &own, mac);
    let mut g: Vec<(&'static str, &'static str)> = Vec::new();
    g.push(("Mod+Z", "Undo"));
    g.push(("F3", "Commands"));
    g.push(("Mod+Shift+Space", "Maximize"));
    assert(pairs_view(g@) =~= global_hints());
    proof {
        if editor is None {
            assert(pairs_view(own@) =~= Seq::<(Seq<char>, Seq<char>)>::empty());
        }
    }
    push_written(&mut out, &g, mac);
    out
}

// --- the running task --------------------------------------------------------

/// One step of a run, as the interface shows it.
pub struct StepView {
    pub key: String,
    pub result: Option<String>,
    pub error: Option<String>,
}

/// One run, as the interface shows it.
pub struct RunView {
    pub id: String,
    pub workflow: String,
    pub status: String,
    pub note: Option<String>,
    pub error: Option<String>,
    pub updated_at: i64,
    pub steps: Vec<StepView>,
}

/// The digits at the end of `s`.
pub open spec fn trailing_digits(s: Seq<char>) -> Seq<char>
    decreases s.len(),
{
    if s.len() > 0 && is_digit(s.last()) {
        trailing_digits(s.drop_last()).push(s.last())
    } else {
        seq![]
    }
}

/// The first run of digits in `s`.
pub open spec fn first_digits(s: Seq<char>) -> Seq<char>
    decreases s.len(),
{
    if s.len() == 0 {
        seq![]
    } else if is_digit(s[0]) {
        seq![s[0]] + leading_digits(s.drop_first())
    } else {
        first_digits(s.drop_first())
    }
}

/// The digits at the start of `s`.
pub open spec fn leading_digits(s: Seq<char>) -> Seq<char>
    decreases s.len(),
{
    if s.len() > 0 && is_digit(s[0]) {
        seq![s[0]] + leading_digits(s.drop_first())
    } else {
        seq![]
    }
}

/// Where `p` first occurs in `s`, or `-1`.
pub open spec fn find_text(s: Seq<char>, p: Seq<char>) -> int
    decreases s.len(),
{
    if occurs_at(s, p, 0) {
        0
    } else if s.len() == 0 {
        -1
    } else {
        let r = find_text(s.drop_first(), p);
        if r < 0 {
            -1
        } else {
            r + 1
        }
    }
}

/// A digit string's value, if it has one and it fits.
pub open spec fn count_of_digits(d: Seq<char>) -> Option<u64> {
    if d.len() == 0 || digits_value(d) > u64::MAX {
        None
    } else {
        Some(digits_value(d) as u64)
    }
}

/// The text between the two numbers of a count.
pub open spec fn of_text() -> Seq<char> {
    seq![' ', 'o', 'f', ' ']
}

/// How far along a note like "sweeping: 18 of 41" says a run is, as
/// `(done, total)` with `done` capped at `total`; nothing without a count or
/// with a zero total.
pub open spec fn progress(note: Seq<char>) -> Option<(u64, u64)> {
    let at = find_text(note, of_text());
    if at < 0 {
        None
    } else {
        let done = count_of_digits(trailing_digits(note.subrange(0, at)));
        let total = count_of_digits(first_digits(note.subrange(at + 4, note.len() as int)));
        match (done, total) {
            (Some(d), Some(t)) => if t > 0 {
                Some((if d <= t { d } else { t }, t))
            } else {
                None
            },
            _ => None,
        }
    }
}


pub proof fn lemma_find_text(s: Seq<char>, p: Seq<char>)
    ensures
        -1 <= find_text(s, p) <= s.len(),
        find_text(s, p) >= 0 ==> occurs_at(s, p, find_text(s, p)),
        forall|j: int|
            0 <= j && (find_text(s, p) < 0 || j < find_text(s, p)) ==> !#[trigger] occurs_at(s, p, j),
    decreases s.len(),
{
    if !occurs_at(s, p, 0) && s.len() > 0 {
        let t = s.drop_first();
        lemma_find_text(t, p);
        assert forall|j: int|
            0 <= j && (find_text(s, p) < 0 || j < find_text(s, p)) implies !#[trigger] occurs_at(s, p, j) by {
            if j > 0 {
                assert(!occurs_at(t, p, j - 1));
                if j + p.len() <= s.len() {
                    assert(t.subrange(j - 1, j - 1 + p.len()) =~= s.subrange(j, j + p.len()));
                }
            }
        }
        if find_text(s, p) >= 0 {
            let r = find_text(t, p);
            assert(t.subrange(r, r + p.len()) =~= s.subrange(r + 1, r + 1 + p.len()));
        }
    } else if !occurs_at(s, p, 0) {
        assert forall|j: int| 0 <= j implies !#[trigger] occurs_at(s, p, j) by {
            if j > 0 {
            }
        }
    }
}

fn digits_count(d: &Vec<char>, from: usize, to: usize) -> (r: Option<u64>)
    requires
        from <= to <= d@.len(),
        all_digits(d@.subrange(from as int, to as int)),
    ensures
        r == count_of_digits(d@.subrange(from as int, to as int)),
{
    if from == to {
        return None;
    }
    let mut v: u64 = 0;
    let mut i = from;
    assert(d@.subrange(from as int, from as int) =~= Seq::<char>::empty());
    while i < to
        invariant
            from <= i <= to,
            to <= d@.len(),
            all_digits(d@.subrange(from as int, to as int)),
            v == digits_value(d@.subrange(from as int, i as int)),
        decreases to - i,
    {
        assert(d@.subrange(from as int, i + 1).drop_last() =~= d@.subrange(from as int, i as int));
        assert(is_digit(d@.subrange(from as int, to as int)[i - from]));
        let c = d[i];
        let dv = ((c as u32) - ('0' as u32)) as u64;
        if v > (u64::MAX - dv) / 10 {
            proof {
                lemma_digits_monotone(d@.subrange(from as int, to as int), i + 1 - from);
                assert(d@.subrange(from as int, to as int).subrange(0, i + 1 - from) =~= d@.subrange(
                    from as int,
                    i + 1,
                ));
            }
            return None;
        }
        v = v * 10 + dv;
        i += 1;
    }
    Some(v)
}

/// A prefix of a digit string is worth no more than the whole.
proof fn lemma_digits_monotone(d: Seq<char>, k: int)
    requires
        0 <= k <= d.len(),
        all_digits(d),
    ensures
        digits_value(d.subrange(0, k)) <= digits_value(d),
    decreases d.len() - k,
{
    if k < d.len() {
        lemma_digits_monotone(d, k + 1);
        assert(d.subrange(0, k + 1).drop_last() =~= d.subrange(0, k));
        assert(is_digit(d[k]));
    } else {
        assert(d.subrange(0, k) =~= d);
    }
}

/// Where " of " first occurs.
fn find_of(cs: &Vec<char>) -> (r: Option<usize>)
    ensures
        match r {
            Some(a) => a + 4 <= cs@.len() && occurs_at(cs@, of_text(), a as int) && forall|j: int|
                0 <= j < a ==> !#[trigger] occurs_at(cs@, of_text(), j),
            None => forall|j: int| 0 <= j ==> !#[trigger] occurs_at(cs@, of_text(), j),
        },
{
    let n = cs.len();
    if n < 4 {
        return None;
    }
    let mut at: usize = 0;
    while at <= n - 4
        invariant
            n == cs@.len(),
            n >= 4,
            at <= n - 3,
            forall|j: int| 0 <= j < at ==> !#[trigger] occurs_at(cs@, of_text(), j),
        decreases n - at,
    {
        if cs[at] == ' ' && cs[at + 1] == 'o' && cs[at + 2] == 'f' && cs[at + 3] == ' ' {
            assert(cs@.subrange(at as int, at + 4) =~= of_text());
            return Some(at);
        }
        proof {
            if occurs_at(cs@, of_text(), at as int) {
                assert(cs@.subrange(at as int, at + 4)[0] == cs@[at as int]);
                assert(cs@.subrange(at as int, at + 4)[1] == cs@[at + 1]);
                assert(cs@.subrange(at as int, at + 4)[2] == cs@[at + 2]);
                assert(cs@.subrange(at as int, at + 4)[3] == cs@[at + 3]);
            }
        }
        at += 1;
    }
    None
}

/// How far along a note says a run is (`progress`).
#[verifier::loop_isolation(false)]
pub fn progress_of(note: &str) -> (r: Option<(u64, u64)>)
    ensures
        r == progress(note@),
{
    let cs = crate::text::chars_of(note);
    let n = cs.len();
    proof {
        lemma_find_text(note@, of_text());
    }
    let at = match find_of(&cs) {
        Some(a) => a,
        None => {
            return None;
        },
    };
    proof {
        let r = find_text(note@, of_text());
        if r >= 0 && r < at {
            assert(occurs_at(note@, of_text(), r));
        }
    }
    assert(find_text(note@, of_text()) == at);
    // the digits just before " of "
    let mut j = at;
    assert(note@.subrange(0, at as int).subrange(j as int, at as int) =~= Seq::<char>::empty());
    while j > 0 && '0' <= cs[j - 1] && cs[j - 1] <= '9'
        invariant
            j <= at,
            at + 4 <= n,
            all_digits(cs@.subrange(j as int, at as int)),
            trailing_digits(cs@.subrange(0, at as int)) == trailing_digits(cs@.subrange(0, j as int))
                + cs@.subrange(j as int, at as int),
        decreases j,
    {
        assert(cs@.subrange(0, j as int).drop_last() =~= cs@.subrange(0, j - 1));
        assert(cs@.subrange(j - 1, at as int) =~= seq![cs@[j - 1]] + cs@.subrange(j as int, at as int));
        j -= 1;
    }
    assert(trailing_digits(cs@.subrange(0, j as int)) =~= Seq::<char>::empty());
    assert(trailing_digits(cs@.subrange(0, at as int)) =~= cs@.subrange(j as int, at as int));
    let done = digits_count(&cs, j, at);
    // the first digits after it
    let start = at + 4;
    let ghost after = cs@.subrange(start as int, n as int);
    let mut k = start;
    assert(after.skip(0) =~= after);
    while k < n && !('0' <= cs[k] && cs[k] <= '9')
        invariant
            start <= k <= n,
            after == cs@.subrange(start as int, n as int),
            first_digits(after) == first_digits(after.skip(k - start)),
        decreases n - k,
    {
        assert(after.skip(k - start).drop_first() =~= after.skip(k + 1 - start));
        k += 1;
    }
    let mut m = k;
    let ghost t = after.skip(k - start);
    proof {
        if k < n {
            assert(t.drop_first() =~= after.skip(k + 1 - start));
        }
    }
    assert(t.skip(0) =~= t);
    assert(cs@.subrange(k as int, k as int) =~= Seq::<char>::empty());
    while m < n && '0' <= cs[m] && cs[m] <= '9'
        invariant
            k <= m <= n,
            t == cs@.subrange(k as int, n as int),
            all_digits(cs@.subrange(k as int, m as int)),
            leading_digits(t) == cs@.subrange(k as int, m as int) + leading_digits(t.skip(m - k)),
        decreases n - m,
    {
        assert(t.skip(m - k).drop_first() =~= t.skip(m + 1 - k));
        assert(cs@.subrange(k as int, m + 1) =~= cs@.subrange(k as int, m as int).push(cs@[m as int]));
        m += 1;
    }
    assert(leading_digits(t.skip(m - k)) =~= Seq::<char>::empty());
    proof {
        if k < n {
            assert(first_digits(t) == seq![t[0]] + leading_digits(t.drop_first()));
            assert(leading_digits(t) == seq![t[0]] + leading_digits(t.drop_first()));
            assert(first_digits(after) =~= cs@.subrange(k as int, m as int));
        } else {
            assert(t.len() == 0);
            assert(first_digits(after) =~= cs@.subrange(k as int, m as int));
        }
    }
    let total = digits_count(&cs, k, m);
    match (done, total) {
        (Some(d), Some(t)) => if t > 0 {
            Some((if d <= t { d } else { t }, t))
        } else {
            None
        },
        _ => None,
    }
}

pub open spec fn running() -> spec_fn(RunView) -> bool {
    |r: RunView| r.status@ == "running"@
}

/// The running runs' label and the first one's progress: its workflow, with
/// `+n` for the others running beside it. Nothing when nothing runs.
pub open spec fn task_of(runs: Seq<RunView>) -> Option<(Seq<char>, Option<(u64, u64)>)> {
    let running = runs.filter(running());
    if running.len() == 0 {
        None
    } else {
        let first = running[0];
        Some(
            (
                if running.len() == 1 {
                    first.workflow@
                } else {
                    first.workflow@ + " +"@ + decimal((running.len() - 1) as nat)
                },
                match first.note {
                    Some(n) => progress(n@),
                    None => None,
                },
            ),
        )
    }
}

/// What the status bar's progress shows.
pub fn running_task(runs: &Vec<RunView>) -> (r: Option<(String, Option<(u64, u64)>)>)
    ensures
        match r {
            Some((label, p)) => task_of(runs@) == Some((label@, p)),
            None => task_of(runs@) is None,
        },
{
    let ghost f = running();
    let mut first: Option<usize> = None;
    let mut count: u64 = 0;
    let mut i: usize = 0;
    assert(runs@.subrange(0, 0).filter(f) =~= Seq::<RunView>::empty());
    while i < runs.len()
        invariant
            i <= runs@.len(),
            f == running(),
            count == runs@.subrange(0, i as int).filter(f).len(),
            count <= i,
            match first {
                Some(k) => k < i && runs@.subrange(0, i as int).filter(f).len() > 0
                    && runs@.subrange(0, i as int).filter(f)[0] == runs@[k as int],
                None => runs@.subrange(0, i as int).filter(f).len() == 0,
            },
        decreases runs.len() - i,
    {
        let ghost pre = runs@.subrange(0, i as int);
        assert(runs@.subrange(0, i + 1) =~= pre.push(runs@[i as int]));
        proof {
            pre.lemma_filter_push(runs@[i as int], f);
        }
        if str_eq(runs[i].status.as_str(), "running") {
            if first.is_none() {
                first = Some(i);
            }
            count += 1;
        }
        i += 1;
    }
    assert(runs@.subrange(0, runs@.len() as int) =~= runs@);
    match first {
        None => None,
        Some(k) => {
            let label = if count == 1 {
                runs[k].workflow.clone()
            } else {
                let mut l = runs[k].workflow.clone();
                push_str(&mut l, " +");
                push_decimal(&mut l, count - 1);
                l
            };
            let p = match &runs[k].note {
                Some(n) => progress_of(n.as_str()),
                None => None,
            };
            Some((label, p))
        },
    }
}

} // verus!
