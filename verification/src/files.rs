//! The file browser's rows: one directory level, and the files that differ
//! from the last commit.
//!
//! The host lists the directory and runs `git status --porcelain`; this
//! module turns what came back into the rows the tree view draws.

use vstd::prelude::*;

use crate::cron::{pieces, split_pieces, vviews};
use crate::order::stable_sorted;
use crate::text::{chars_of, concat, occurs_at, push_str, slice_of, str_eq, string_of, trim, trimmed};
use crate::tree::rows_view;
use crate::tree::{RowV, TreeRow};

verus! {

// --- what changed ------------------------------------------------------------

/// The lines of a text (`str::lines`): split at line breaks, a carriage
/// return before a break dropped, and no empty line after a final break.
pub open spec fn text_lines(s: Seq<char>) -> Seq<Seq<char>> {
    let p = pieces(s, '\n');
    let q = if p.last().len() == 0 {
        p.drop_last()
    } else {
        p
    };
    Seq::new(q.len(), |i: int| strip_cr(q[i]))
}

/// A line without its carriage return.
pub open spec fn strip_cr(l: Seq<char>) -> Seq<char> {
    if l.len() > 0 && l.last() == '\r' {
        l.drop_last()
    } else {
        l
    }
}

/// Where `p` last occurs in `s`, or `-1`.
pub open spec fn rfind(s: Seq<char>, p: Seq<char>) -> int
    decreases s.len(),
{
    if s.len() >= p.len() && occurs_at(s, p, s.len() - p.len()) {
        s.len() - p.len()
    } else if s.len() == 0 {
        -1
    } else {
        rfind(s.drop_last(), p)
    }
}

/// What follows the last `p` in `s`, all of `s` without one
/// (`rsplit(p).next()`).
pub open spec fn after_last(s: Seq<char>, p: Seq<char>) -> Seq<char> {
    let i = rfind(s, p);
    if i < 0 {
        s
    } else {
        s.subrange(i + p.len(), s.len() as int)
    }
}

/// How git's two status letters read.
pub open spec fn change_state(flags: Seq<char>) -> Seq<char> {
    let f = trimmed(flags);
    if f == "??"@ {
        "new"@
    } else if f == "D"@ {
        "deleted"@
    } else if f == "A"@ {
        "added"@
    } else {
        "modified"@
    }
}

/// The row one status line becomes: its path after a rename's arrow,
/// named by its last segment. A line with no path is none.
pub open spec fn status_row(line: Seq<char>) -> Option<RowV> {
    let k = if line.len() < 3 {
        line.len() as int
    } else {
        3
    };
    let flags = line.subrange(0, k);
    let path = trimmed(after_last(line.subrange(k, line.len() as int), " -> "@));
    if path.len() == 0 {
        None
    } else {
        Some(
            RowV {
                pointer: seq!['/'] + path,
                label: pieces(path, '/').last(),
                preview: change_state(flags) + "  "@ + path,
                has_children: false,
            },
        )
    }
}

/// The rows of a `git status --porcelain` listing, in its order.
pub open spec fn status_rows(lines: Seq<Seq<char>>) -> Seq<RowV>
    decreases lines.len(),
{
    if lines.len() == 0 {
        seq![]
    } else {
        let rest = status_rows(lines.drop_last());
        match status_row(lines.last()) {
            Some(r) => rest.push(r),
            None => rest,
        }
    }
}

fn rfind_exec(s: &Vec<char>, p: &Vec<char>) -> (r: Option<usize>)
    ensures
        match r {
            Some(i) => rfind(s@, p@) == i as int && i + p@.len() <= s@.len(),
            None => rfind(s@, p@) < 0,
        },
{
    let mut n = s.len();
    assert(s@.subrange(0, n as int) =~= s@);
    loop
        invariant
            n <= s@.len(),
            rfind(s@, p@) == rfind(s@.subrange(0, n as int), p@),
        decreases n,
    {
        let ghost t = s@.subrange(0, n as int);
        if n >= p.len() {
            let at = n - p.len();
            assert(t.subrange(at as int, at + p@.len()) =~= s@.subrange(at as int, at + p@.len()));
            if crate::text::matches_at(s, p, at) {
                return Some(at);
            }
        }
        if n == 0 {
            return None;
        }
        assert(t.drop_last() =~= s@.subrange(0, n - 1));
        n -= 1;
    }
}

/// The row one status line becomes (`status_row`).
fn status_line_row(line: &Vec<char>) -> (r: Option<TreeRow>)
    ensures
        match r {
            Some(row) => status_row(line@) == Some(row@),
            None => status_row(line@) is None,
        },
{
    let k: usize = if line.len() < 3 {
        line.len()
    } else {
        3
    };
    let flags = string_of(slice_of(line, 0, k).as_slice());
    let rest = slice_of(line, k, line.len());
    let arrow = chars_of(" -> ");
    proof {
        reveal_strlit(" -> ");
    }
    let tail = match rfind_exec(&rest, &arrow) {
        Some(i) => slice_of(&rest, i + arrow.len(), rest.len()),
        None => slice_of(&rest, 0, rest.len()),
    };
    assert(rest@.subrange(0, rest@.len() as int) =~= rest@);
    let path = trim(string_of(tail.as_slice()).as_str());
    let pc = chars_of(path.as_str());
    if pc.len() == 0 {
        return None;
    }
    let segs = split_pieces(&pc, '/');
    proof {
        crate::cron::lemma_pieces_len(pc@, '/');
    }
    let label = string_of(segs[segs.len() - 1].as_slice());
    let f = trim(flags.as_str());
    let state = if str_eq(f.as_str(), "??") {
        "new"
    } else if str_eq(f.as_str(), "D") {
        "deleted"
    } else if str_eq(f.as_str(), "A") {
        "added"
    } else {
        "modified"
    };
    let ghost spath = trimmed(after_last(line@.subrange(k as int, line@.len() as int), " -> "@));
    assert(tail@ == after_last(rest@, " -> "@));
    assert(rest@ == line@.subrange(k as int, line@.len() as int));
    assert(path@ == spath);
    assert(flags@ == line@.subrange(0, k as int));
    assert(state@ == change_state(flags@));
    let mut preview = concat(state, "  ");
    push_str(&mut preview, path.as_str());
    let pointer = concat("/", path.as_str());
    assert(pointer@ =~= seq!['/'] + path@) by {
        reveal_strlit("/");
    }
    Some(TreeRow { pointer, label, preview, has_children: false })
}

/// The rows of a `git status --porcelain` listing (`status_rows` of its
/// lines).
pub fn changed_rows(status: &str) -> (r: Vec<TreeRow>)
    ensures
        crate::tree::rows_view(r@) == status_rows(text_lines(status@)),
{
    let cs = chars_of(status);
    let parts = split_pieces(&cs, '\n');
    proof {
        crate::cron::lemma_pieces_len(cs@, '\n');
    }
    let n: usize = if parts[parts.len() - 1].len() == 0 {
        parts.len() - 1
    } else {
        parts.len()
    };
    let ghost lines = text_lines(status@);
    assert(lines.len() == n);
    let mut out: Vec<TreeRow> = Vec::new();
    let mut i: usize = 0;
    while i < n
        invariant
            i <= n,
            n <= parts@.len(),
            lines == text_lines(status@),
            lines.len() == n,
            forall|j: int| 0 <= j < n ==> #[trigger] lines[j] == strip_cr(parts@[j]@),
            crate::tree::rows_view(out@) == status_rows(lines.subrange(0, i as int)),
        decreases n - i,
    {
        let p = &parts[i];
        let line = if p.len() > 0 && p[p.len() - 1] == '\r' {
            slice_of(p, 0, p.len() - 1)
        } else {
            slice_of(p, 0, p.len())
        };
        assert(line@ =~= lines[i as int]);
        assert(lines.subrange(0, i + 1).drop_last() =~= lines.subrange(0, i as int));
        let ghost before = crate::tree::rows_view(out@);
        match status_line_row(&line) {
            Some(row) => {
                out.push(row);
                assert(crate::tree::rows_view(out@) =~= before.push(row@));
            },
            None => {},
        }
        i += 1;
    }
    assert(lines.subrange(0, n as int) =~= lines);
    out
}

// --- one directory level -----------------------------------------------------

/// One directory entry as the host read it.
pub struct DirEntry {
    pub name: String,
    pub is_dir: bool,
    /// Its size in bytes.
    pub len: u64,
}

/// A directory entry as a value.
pub struct EntryV {
    pub name: Seq<char>,
    pub is_dir: bool,
    pub len: u64,
}

impl View for DirEntry {
    type V = EntryV;

    open spec fn view(&self) -> EntryV {
        EntryV { name: self.name@, is_dir: self.is_dir, len: self.len }
    }
}

pub open spec fn entries_view(s: Seq<DirEntry>) -> Seq<EntryV> {
    Seq::new(s.len(), |i: int| s[i]@)
}

/// A dot file.
pub open spec fn hidden(name: Seq<char>) -> bool {
    name.len() > 0 && name[0] == '.'
}

/// `a` lists before `b`: directories first, then what is not hidden, then by
/// name.
pub open spec fn entry_lt(a: EntryV, b: EntryV) -> bool {
    ||| (a.is_dir && !b.is_dir)
    ||| (a.is_dir == b.is_dir && !hidden(a.name) && hidden(b.name))
    ||| (a.is_dir == b.is_dir && hidden(a.name) == hidden(b.name) && crate::json::key_lt(a.name, b.name))
}

/// In listing order.
pub open spec fn entries_listed(s: Seq<EntryV>) -> bool {
    forall|i: int, j: int| 0 <= i < j < s.len() ==> !entry_lt(#[trigger] s[j], #[trigger] s[i])
}

proof fn lemma_entry_lt_transitive(a: EntryV, b: EntryV, c: EntryV)
    requires
        entry_lt(a, b),
        entry_lt(b, c),
    ensures
        entry_lt(a, c),
{
    if a.is_dir == b.is_dir && b.is_dir == c.is_dir && hidden(a.name) == hidden(b.name) && hidden(b.name)
        == hidden(c.name) {
        crate::json::lemma_key_lt_transitive(a.name, b.name, c.name);
    }
}

fn hidden_exec(name: &str) -> (r: bool)
    ensures
        r == hidden(name@),
{
    name.unicode_len() > 0 && name.get_char(0) == '.'
}

fn entry_less(a: &DirEntry, b: &DirEntry) -> (r: bool)
    ensures
        r == entry_lt(a@, b@),
{
    let ha = hidden_exec(a.name.as_str());
    let hb = hidden_exec(b.name.as_str());
    (a.is_dir && !b.is_dir) || (a.is_dir == b.is_dir && !ha && hb) || (a.is_dir == b.is_dir && ha == hb
        && crate::json::key_less(a.name.as_str(), b.name.as_str()))
}

/// The listing order as a function.
pub open spec fn entry_order() -> spec_fn(EntryV, EntryV) -> bool {
    |a: EntryV, b: EntryV| entry_lt(a, b)
}

/// The entries in listing order, ties in the order given (a stable sort):
/// the same entries, each as often as before.
pub fn sort_entries(entries: Vec<DirEntry>) -> (r: Vec<DirEntry>)
    ensures
        entries_view(r@) == stable_sorted(entries_view(entries@), entry_order()),
        entries_view(r@).to_multiset() == entries_view(entries@).to_multiset(),
        entries_listed(entries_view(r@)),
{
    broadcast use vstd::seq_lib::to_multiset_insert, vstd::seq_lib::to_multiset_build;

    let mut out: Vec<DirEntry> = Vec::new();
    let ghost all = entries_view(entries@);
    assert(entries_view(out@) =~= all.subrange(0, 0));
    let mut i: usize = 0;
    while i < entries.len()
        invariant
            i <= entries@.len(),
            all == entries_view(entries@),
            entries_listed(entries_view(out@)),
            entries_view(out@).to_multiset() == all.subrange(0, i as int).to_multiset(),
            entries_view(out@) == stable_sorted(all.subrange(0, i as int), entry_order()),
        decreases entries.len() - i,
    {
        let x = DirEntry { name: entries[i].name.clone(), is_dir: entries[i].is_dir, len: entries[i].len };
        assert(all.subrange(0, i + 1) =~= all.subrange(0, i as int).push(x@));
        let ghost o = entries_view(out@);
        let mut p: usize = 0;
        while p < out.len() && !entry_less(&x, &out[p])
            invariant
                p <= out@.len(),
                o == entries_view(out@),
                forall|k: int| 0 <= k < p ==> !entry_lt(x@, #[trigger] o[k]),
            decreases out.len() - p,
        {
            p += 1;
        }
        let ghost xv = x@;
        out.insert(p, x);
        proof {
            let s = entries_view(out@);
            assert(s =~= o.insert(p as int, xv));
            crate::order::lemma_insert_in_order(o, xv, entry_order(), p as int);
            assert(all.subrange(0, i + 1).drop_last() =~= all.subrange(0, i as int));
            assert forall|i: int, j: int| 0 <= i < j < s.len() implies !entry_lt(#[trigger] s[j], #[trigger] s[i]) by {
                if i < p && j == p {
                } else if i == p && j > p {
                    if entry_lt(s[j], xv) {
                        if p < o.len() {
                            assert(entry_lt(xv, o[p as int]));
                            lemma_entry_lt_transitive(s[j], xv, o[p as int]);
                            if j - 1 == p {
                                crate::json::lemma_key_lt_irreflexive(o[p as int].name);
                            } else {
                                assert(!entry_lt(o[j - 1], o[p as int]));
                            }
                        }
                    }
                } else if i < p && j > p {
                    assert(!entry_lt(o[j - 1], o[i]));
                } else if j < p {
                    assert(!entry_lt(o[j], o[i]));
                } else {
                    assert(!entry_lt(o[j - 1], o[i - 1]));
                }
            }
            vstd::seq_lib::to_multiset_insert(o, p as int, xv);
            vstd::seq_lib::to_multiset_build(all.subrange(0, i as int), xv);
        }
        i += 1;
    }
    assert(all.subrange(0, entries@.len() as int) =~= all);
    out
}

/// How many rows one level shows before it summarises the rest.
pub const CAP: usize = 500;

/// The row for one entry under `pointer`: a directory marked with a slash
/// and openable, a file with its size.
pub open spec fn entry_row(pointer: Seq<char>, e: EntryV) -> RowV {
    RowV {
        pointer: pointer + "/"@ + e.name,
        label: if e.is_dir {
            e.name + "/"@
        } else {
            e.name
        },
        preview: if e.is_dir {
            ""@
        } else {
            crate::demo::size_text(e.len as nat)
        },
        has_children: e.is_dir,
    }
}

/// The row that stands for what the cap left out.
pub open spec fn more_row(pointer: Seq<char>, extra: nat) -> RowV {
    RowV {
        pointer: pointer + "/\u{2026}"@,
        label: "\u{2026} "@ + crate::text::decimal(extra) + " more"@,
        preview: ""@,
        has_children: false,
    }
}

/// The rows of one level listed in order: the first `CAP` entries, then a
/// row counting the rest.
pub open spec fn listing_of(pointer: Seq<char>, sorted: Seq<EntryV>) -> Seq<RowV> {
    let shown = if sorted.len() > CAP {
        sorted.take(CAP as int)
    } else {
        sorted
    };
    Seq::new(shown.len(), |i: int| entry_row(pointer, shown[i])) + if sorted.len() > CAP {
        seq![more_row(pointer, (sorted.len() - CAP) as nat)]
    } else {
        seq![]
    }
}

fn entry_tree_row(pointer: &str, e: &DirEntry) -> (r: TreeRow)
    ensures
        r@ == entry_row(pointer@, e@),
{
    let mut p = concat(pointer, "/");
    push_str(&mut p, e.name.as_str());
    let label = if e.is_dir {
        concat(e.name.as_str(), "/")
    } else {
        e.name.clone()
    };
    let preview = if e.is_dir {
        "".to_owned()
    } else {
        crate::demo::human_size(e.len)
    };
    TreeRow { pointer: p, label, preview, has_children: e.is_dir }
}

/// The rows of a level whose entries are already in listing order.
pub fn listing_rows(pointer: &str, sorted: &Vec<DirEntry>) -> (r: Vec<TreeRow>)
    ensures
        rows_view(r@) == listing_of(pointer@, entries_view(sorted@)),
{
    let ghost ev = entries_view(sorted@);
    let shown: usize = if sorted.len() > CAP {
        CAP
    } else {
        sorted.len()
    };
    let mut out: Vec<TreeRow> = Vec::new();
    let mut i: usize = 0;
    while i < shown
        invariant
            i <= shown,
            shown <= sorted@.len(),
            ev == entries_view(sorted@),
            rows_view(out@) == Seq::new(i as nat, |k: int| entry_row(pointer@, ev[k])),
        decreases shown - i,
    {
        let row = entry_tree_row(pointer, &sorted[i]);
        assert(ev[i as int] == sorted@[i as int]@);
        assert(row@ == entry_row(pointer@, ev[i as int]));
        let ghost rv = row@;
        let ghost before = rows_view(out@);
        let ghost ov = out@;
        assert(before.len() == i);
        out.push(row);
        assert(out@.len() == i + 1);
        assert(out@[i as int]@ == rv);
        assert forall|k: int| 0 <= k < i + 1 implies #[trigger] rows_view(out@)[k] == entry_row(pointer@, ev[k]) by {
            if k < i {
                assert(out@[k] == ov[k]);
                assert(before[k] == ov[k]@);
            }
        }
        assert(rows_view(out@) =~= Seq::new((i + 1) as nat, |k: int| entry_row(pointer@, ev[k])));
        i += 1;
    }
    if sorted.len() > CAP {
        let extra = sorted.len() - CAP;
        let mut p = concat(pointer, "/\u{2026}");
        let mut label = "\u{2026} ".to_owned();
        crate::text::push_decimal(&mut label, extra as u64);
        push_str(&mut label, " more");
        let ghost before = rows_view(out@);
        out.push(TreeRow { pointer: p, label, preview: "".to_owned(), has_children: false });
        assert(rows_view(out@) =~= before.push(more_row(pointer@, extra as nat)));
    }
    assert(rows_view(out@) =~= listing_of(pointer@, ev));
    out
}

/// One directory level as rows: the entries sorted into listing order, then
/// shown up to the cap.
pub fn listing(pointer: &str, entries: Vec<DirEntry>) -> (r: Vec<TreeRow>)
    ensures
        rows_view(r@) == listing_of(pointer@, stable_sorted(entries_view(entries@), entry_order())),
{
    let sorted = sort_entries(entries);
    listing_rows(pointer, &sorted)
}

} // verus!
