//! Everything on the machine that fires on a clock, in one list.
//!
//! The daemon's own schedules are only part of the answer: systemd user
//! timers and crontab entries fire too. The host asks each; this module reads
//! their answers into rows and puts the rows in order.

use vstd::prelude::*;

use crate::order::stable_sorted;

use crate::cron::{joined, split_words, vviews, words};
use crate::files::{strip_cr, text_lines};
use crate::text::{chars_of, slice_of, string_of, trimmed};

verus! {

/// One thing that fires on a clock: who runs it, what it is, its schedule
/// and when it next fires, each empty where the source does not say.
pub struct TimerRow {
    pub source: String,
    pub name: String,
    pub schedule: String,
    pub next: String,
}

/// A timer row as a value.
pub struct TimerV {
    pub source: Seq<char>,
    pub name: Seq<char>,
    pub schedule: Seq<char>,
    pub next: Seq<char>,
}

impl View for TimerRow {
    type V = TimerV;

    open spec fn view(&self) -> TimerV {
        TimerV { source: self.source@, name: self.name@, schedule: self.schedule@, next: self.next@ }
    }
}

pub open spec fn timers_view(s: Seq<TimerRow>) -> Seq<TimerV> {
    Seq::new(s.len(), |i: int| s[i]@)
}

/// A word naming a systemd timer unit.
pub open spec fn is_timer_unit(w: Seq<char>) -> bool {
    w.len() >= 6 && w.subrange(w.len() - 6, w.len() as int) == ".timer"@
}

/// Where the first timer unit is among the words, or `-1`.
pub open spec fn first_unit(f: Seq<Seq<char>>) -> int
    decreases f.len(),
{
    if f.len() == 0 {
        -1
    } else if is_timer_unit(f[0]) {
        0
    } else {
        let r = first_unit(f.drop_first());
        if r < 0 {
            -1
        } else {
            r + 1
        }
    }
}

/// A line of `systemctl --user list-timers`: the unit it names, and the
/// first three words, which say when it next fires.
pub open spec fn systemd_row(line: Seq<char>) -> Option<TimerV> {
    let f = words(line);
    let k = first_unit(f);
    if k < 0 {
        None
    } else {
        Some(
            TimerV {
                source: "systemd"@,
                name: f[k],
                schedule: ""@,
                next: if f.len() >= 3 {
                    joined(f.take(3))
                } else {
                    ""@
                },
            },
        )
    }
}

/// A line of `crontab -l`: its first five words are the schedule and the
/// rest the command. Blank lines and comments are no entry.
pub open spec fn cron_row(line: Seq<char>) -> Option<TimerV> {
    let t = trimmed(line);
    if t.len() == 0 || t[0] == '#' {
        None
    } else {
        let f = words(t);
        let cut = if f.len() < 5 {
            f.len() as int
        } else {
            5
        };
        Some(TimerV { source: "cron"@, name: joined(f.skip(cut)), schedule: joined(f.take(cut)), next: ""@ })
    }
}

/// The rows a listing's lines give, in order.
pub open spec fn rows_from(lines: Seq<Seq<char>>, systemd: bool) -> Seq<TimerV>
    decreases lines.len(),
{
    if lines.len() == 0 {
        seq![]
    } else {
        let rest = rows_from(lines.drop_last(), systemd);
        match if systemd {
            systemd_row(lines.last())
        } else {
            cron_row(lines.last())
        } {
            Some(r) => rest.push(r),
            None => rest,
        }
    }
}

/// `a` lists before `b`: by source, then by name.
pub open spec fn timer_before(a: TimerV, b: TimerV) -> bool {
    crate::json::key_lt(a.source, b.source) || (a.source == b.source && crate::json::key_lt(a.name, b.name))
}

pub open spec fn timers_sorted(s: Seq<TimerV>) -> bool {
    forall|i: int, j: int| 0 <= i < j < s.len() ==> !timer_before(#[trigger] s[j], #[trigger] s[i])
}

fn join_range(w: &Vec<Vec<char>>, from: usize, to: usize) -> (r: String)
    requires
        from <= to <= w@.len(),
    ensures
        r@ == joined(vviews(w@).subrange(from as int, to as int)),
{
    let ghost v = vviews(w@);
    let mut out = String::new();
    let mut k = from;
    assert(v.subrange(from as int, from as int) =~= Seq::<Seq<char>>::empty());
    while k < to
        invariant
            from <= k <= to,
            to <= w@.len(),
            v == vviews(w@),
            out@ == joined(v.subrange(from as int, k as int)),
        decreases to - k,
    {
        let ghost pre = v.subrange(from as int, k + 1);
        assert(pre.drop_last() =~= v.subrange(from as int, k as int));
        assert(pre.last() == w@[k as int]@);
        if k > from {
            crate::text::push_char(&mut out, ' ');
        }
        crate::text::push_str(&mut out, string_of(w[k].as_slice()).as_str());
        proof {
            if k == from {
                assert(out@ =~= joined(pre));
            } else {
                assert(out@ =~= joined(pre));
            }
        }
        k += 1;
    }
    out
}

fn ends_timer(w: &Vec<char>) -> (r: bool)
    ensures
        r == is_timer_unit(w@),
{
    let n = w.len();
    if n < 6 {
        return false;
    }
    let tail = slice_of(w, n - 6, n);
    let want = chars_of(".timer");
    let r = crate::text::str_eq(string_of(tail.as_slice()).as_str(), string_of(want.as_slice()).as_str());
    r
}

fn systemd_line_row(line: &Vec<char>) -> (r: Option<TimerRow>)
    ensures
        match r {
            Some(t) => systemd_row(line@) == Some(t@),
            None => systemd_row(line@) is None,
        },
{
    let f = split_words(line);
    let ghost fv = vviews(f@);
    let mut k: usize = 0;
    assert(fv.skip(0) =~= fv);
    while k < f.len() && !ends_timer(&f[k])
        invariant
            k <= f@.len(),
            fv == vviews(f@),
            first_unit(fv) == if first_unit(fv.skip(k as int)) < 0 {
                -1
            } else {
                k + first_unit(fv.skip(k as int))
            },
        decreases f.len() - k,
    {
        assert(fv.skip(k as int)[0] == f@[k as int]@);
        assert(fv.skip(k as int).drop_first() =~= fv.skip(k + 1));
        k += 1;
    }
    if k == f.len() {
        assert(fv.skip(k as int).len() == 0);
        return None;
    }
    assert(fv.skip(k as int)[0] == f@[k as int]@);
    let next = if f.len() >= 3 {
        join_range(&f, 0, 3)
    } else {
        "".to_owned()
    };
    assert(fv.subrange(0, 3 as int) =~= fv.take(3)) by {
        if f.len() >= 3 {
        }
    }
    Some(
        TimerRow {
            source: "systemd".to_owned(),
            name: string_of(f[k].as_slice()),
            schedule: "".to_owned(),
            next,
        },
    )
}

fn cron_line_row(line: &Vec<char>) -> (r: Option<TimerRow>)
    ensures
        match r {
            Some(t) => cron_row(line@) == Some(t@),
            None => cron_row(line@) is None,
        },
{
    let t = crate::text::trim(string_of(line.as_slice()).as_str());
    let tc = chars_of(t.as_str());
    if tc.len() == 0 || tc[0] == '#' {
        return None;
    }
    let f = split_words(&tc);
    let cut: usize = if f.len() < 5 {
        f.len()
    } else {
        5
    };
    let ghost fv = vviews(f@);
    assert(fv.subrange(cut as int, fv.len() as int) =~= fv.skip(cut as int));
    assert(fv.subrange(0, cut as int) =~= fv.take(cut as int));
    Some(
        TimerRow {
            source: "cron".to_owned(),
            name: join_range(&f, cut, f.len()),
            schedule: join_range(&f, 0, cut),
            next: "".to_owned(),
        },
    )
}

/// The rows of a listing (`rows_from` of its lines).
fn rows_of(text: &str, systemd: bool) -> (r: Vec<TimerRow>)
    ensures
        timers_view(r@) == rows_from(text_lines(text@), systemd),
{
    let cs = chars_of(text);
    let parts = crate::cron::split_pieces(&cs, '\n');
    proof {
        crate::cron::lemma_pieces_len(cs@, '\n');
    }
    let n: usize = if parts[parts.len() - 1].len() == 0 {
        parts.len() - 1
    } else {
        parts.len()
    };
    let ghost lines = text_lines(text@);
    assert(lines.len() == n);
    let mut out: Vec<TimerRow> = Vec::new();
    let mut i: usize = 0;
    while i < n
        invariant
            i <= n,
            n <= parts@.len(),
            lines == text_lines(text@),
            lines.len() == n,
            forall|j: int| 0 <= j < n ==> #[trigger] lines[j] == strip_cr(parts@[j]@),
            timers_view(out@) == rows_from(lines.subrange(0, i as int), systemd),
        decreases n - i,
    {
        let p = &parts[i];
        let line = if p.len() > 0 && p[p.len() - 1] == '\r' {
            slice_of(p, 0, p.len() - 1)
        } else {
            slice_of(p, 0, p.len())
        };
        assert(line@ =~= lines[i as int]);
        assert(lines.subrange(0, i + 1).drop_last() =~= lines.subrange(0, i as int));
        let ghost before = timers_view(out@);
        let row = if systemd {
            systemd_line_row(&line)
        } else {
            cron_line_row(&line)
        };
        match row {
            Some(t) => {
                out.push(t);
                assert(timers_view(out@) =~= before.push(out@.last()@));
            },
            None => {},
        }
        i += 1;
    }
    assert(lines.subrange(0, n as int) =~= lines);
    out
}

proof fn lemma_timer_before_transitive(a: TimerV, b: TimerV, c: TimerV)
    requires
        timer_before(a, b),
        timer_before(b, c),
    ensures
        timer_before(a, c),
{
    if crate::json::key_lt(a.source, b.source) && crate::json::key_lt(b.source, c.source) {
        crate::json::lemma_key_lt_transitive(a.source, b.source, c.source);
    } else if a.source == b.source && b.source == c.source {
        crate::json::lemma_key_lt_transitive(a.name, b.name, c.name);
    }
}

fn timer_less(a: &TimerRow, b: &TimerRow) -> (r: bool)
    ensures
        r == timer_before(a@, b@),
{
    crate::json::key_less(a.source.as_str(), b.source.as_str()) || (crate::text::str_eq(
        a.source.as_str(),
        b.source.as_str(),
    ) && crate::json::key_less(a.name.as_str(), b.name.as_str()))
}

/// The order rows are listed in, as a function.
pub open spec fn timer_order() -> spec_fn(TimerV, TimerV) -> bool {
    |a: TimerV, b: TimerV| timer_before(a, b)
}

/// The rows in order, each kept after any it ties with.
fn sort_timers(rows: Vec<TimerRow>) -> (r: Vec<TimerRow>)
    ensures
        timers_view(r@) == stable_sorted(timers_view(rows@), timer_order()),
        timers_view(r@).to_multiset() == timers_view(rows@).to_multiset(),
        timers_sorted(timers_view(r@)),
{
    broadcast use vstd::seq_lib::to_multiset_insert, vstd::seq_lib::to_multiset_build;

    let mut rest = rows;
    let ghost all = timers_view(rest@);
    let ghost orig = rest@;
    let n = rest.len();
    let mut out: Vec<TimerRow> = Vec::new();
    assert(timers_view(out@) =~= all.subrange(0, 0));
    assert(rest@.subrange(0, n as int) =~= orig);
    let mut i: usize = 0;
    while i < n
        invariant
            i <= n,
            n == orig.len(),
            all == timers_view(orig),
            rest@ == orig.subrange(i as int, n as int),
            timers_sorted(timers_view(out@)),
            timers_view(out@).to_multiset() == all.subrange(0, i as int).to_multiset(),
            timers_view(out@) == stable_sorted(all.subrange(0, i as int), timer_order()),
        decreases n - i,
    {
        let x = rest.remove(0);
        assert(x == orig[i as int]);
        assert(rest@ =~= orig.subrange(i + 1, n as int));
        assert(all.subrange(0, i + 1) =~= all.subrange(0, i as int).push(x@));
        let ghost o = timers_view(out@);
        let mut p: usize = 0;
        while p < out.len() && !timer_less(&x, &out[p])
            invariant
                p <= out@.len(),
                o == timers_view(out@),
                forall|k: int| 0 <= k < p ==> !timer_before(x@, #[trigger] o[k]),
            decreases out.len() - p,
        {
            p += 1;
        }
        let ghost xv = x@;
        out.insert(p, x);
        proof {
            let s = timers_view(out@);
            assert(s =~= o.insert(p as int, xv));
            crate::order::lemma_insert_in_order(o, xv, timer_order(), p as int);
            assert(all.subrange(0, i + 1).drop_last() =~= all.subrange(0, i as int));
            assert forall|a: int, b: int| 0 <= a < b < s.len() implies !timer_before(#[trigger] s[b], #[trigger] s[a]) by {
                if a < p && b == p {
                } else if a == p && b > p {
                    if timer_before(s[b], xv) {
                        if p < o.len() {
                            assert(timer_before(xv, o[p as int]));
                            lemma_timer_before_transitive(s[b], xv, o[p as int]);
                            if b - 1 == p {
                                crate::json::lemma_key_lt_irreflexive(o[p as int].source);
                                crate::json::lemma_key_lt_irreflexive(o[p as int].name);
                            } else {
                                assert(!timer_before(o[b - 1], o[p as int]));
                            }
                        }
                    }
                } else if a < p && b > p {
                    assert(!timer_before(o[b - 1], o[a]));
                } else if b < p {
                    assert(!timer_before(o[b], o[a]));
                } else {
                    assert(!timer_before(o[b - 1], o[a - 1]));
                }
            }
            vstd::seq_lib::to_multiset_insert(o, p as int, xv);
            vstd::seq_lib::to_multiset_build(all.subrange(0, i as int), xv);
        }
        i += 1;
    }
    assert(all.subrange(0, n as int) =~= all);
    out
}

/// Every clock on the machine in one list: the daemon's own schedules, then
/// what `systemctl --user list-timers` and `crontab -l` printed, all in
/// order by source and then name.
pub fn timer_rows(own: Vec<TimerRow>, systemd_listing: &str, crontab: &str) -> (r: Vec<TimerRow>)
    ensures
        timers_view(r@) == stable_sorted(
            timers_view(own@) + rows_from(text_lines(systemd_listing@), true) + rows_from(text_lines(crontab@), false),
            timer_order(),
        ),
        timers_view(r@).to_multiset() == (timers_view(own@) + rows_from(text_lines(systemd_listing@), true)
            + rows_from(text_lines(crontab@), false)).to_multiset(),
        timers_sorted(timers_view(r@)),
{
    let ghost a = timers_view(own@);
    let mut all = own;
    let mut s = rows_of(systemd_listing, true);
    let ghost b = timers_view(s@);
    let mut c = rows_of(crontab, false);
    let ghost cv = timers_view(c@);
    all.append(&mut s);
    all.append(&mut c);
    assert(timers_view(all@) =~= a + b + cv);
    sort_timers(all)
}

/// A schedule fires in a minute it matches, once: not again in a minute it
/// already fired in.
pub fn fires_now(matches: bool, last_minute: Option<i64>, minute: i64) -> (r: bool)
    ensures
        r == (matches && last_minute != Some(minute)),
{
    matches && match last_minute {
        Some(m) => m != minute,
        None => true,
    }
}

} // verus!
