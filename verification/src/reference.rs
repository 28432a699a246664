//! The reference, read out of the registries it documents.
//!
//! Every surface it describes already exists as data: the command registry,
//! the agent tools, the keymap and the editors. The reference is those lists
//! rendered as Markdown, so there is no prose beside them to fall out of
//! step.

use vstd::prelude::*;

use crate::command::{Commands, CmdV};
use crate::json::{members_of, Member};
use crate::keymap::{binding_view, Binding};
use crate::menus::EditorKind;
use crate::schema::{params_of, params_of_v, schema_ends};
use crate::order::{lemma_insert_in_order, stable_sorted};
use crate::text::{push_str};

verus! {

/// A parameter of a documented entry: its name, its type (empty when the
/// entry's parameters are untyped hints), whether it is required, and what
/// it is.
pub struct Param {
    pub name: String,
    pub kind: String,
    pub required: bool,
    pub about: String,
}

/// One documented entry, whatever kind of thing it is.
pub struct Entry {
    pub name: String,
    pub detail: String,
    pub params: Vec<Param>,
}

/// A titled run of entries.
pub struct Section {
    pub title: String,
    /// One line under the heading saying what the section is.
    pub about: String,
    pub entries: Vec<Entry>,
}

/// A parameter as a value.
pub struct ParamV {
    pub name: Seq<char>,
    pub kind: Seq<char>,
    pub required: bool,
    pub about: Seq<char>,
}

/// An entry as a value.
pub struct EntryV {
    pub name: Seq<char>,
    pub detail: Seq<char>,
    pub params: Seq<ParamV>,
}

/// A section as a value.
pub struct SectionV {
    pub title: Seq<char>,
    pub about: Seq<char>,
    pub entries: Seq<EntryV>,
}

impl View for Param {
    type V = ParamV;

    open spec fn view(&self) -> ParamV {
        ParamV { name: self.name@, kind: self.kind@, required: self.required, about: self.about@ }
    }
}

pub open spec fn params_view(s: Seq<Param>) -> Seq<ParamV> {
    Seq::new(s.len(), |i: int| s[i]@)
}

impl View for Entry {
    type V = EntryV;

    open spec fn view(&self) -> EntryV {
        EntryV { name: self.name@, detail: self.detail@, params: params_view(self.params@) }
    }
}

pub open spec fn entries_view(s: Seq<Entry>) -> Seq<EntryV> {
    Seq::new(s.len(), |i: int| s[i]@)
}

impl View for Section {
    type V = SectionV;

    open spec fn view(&self) -> SectionV {
        SectionV { title: self.title@, about: self.about@, entries: entries_view(self.entries@) }
    }
}

pub open spec fn sections_view(s: Seq<Section>) -> Seq<SectionV> {
    Seq::new(s.len(), |i: int| s[i]@)
}

// --- Markdown ----------------------------------------------------------------

/// Text for a table cell: a `|` would end the cell, so it is escaped.
pub open spec fn cell_text(t: Seq<char>) -> Seq<char>
    decreases t.len(),
{
    if t.len() == 0 {
        seq![]
    } else {
        cell_text(t.drop_last()) + if t.last() == '|' {
            seq!['\\', '|']
        } else {
            seq![t.last()]
        }
    }
}

/// A table row for a typed parameter.
pub open spec fn param_row(p: ParamV) -> Seq<char> {
    "| `"@ + cell_text(p.name) + "` | "@ + cell_text(p.kind) + " | "@ + (if p.required {
        "yes"@
    } else {
        "no"@
    }) + " | "@ + cell_text(p.about) + " |\n"@
}

/// A list line for an untyped parameter.
pub open spec fn param_line(p: ParamV) -> Seq<char> {
    "- **"@ + p.name + "** \u{2014} "@ + p.about + "\n"@
}

pub open spec fn param_rows(ps: Seq<ParamV>) -> Seq<char>
    decreases ps.len(),
{
    if ps.len() == 0 {
        seq![]
    } else {
        param_rows(ps.drop_last()) + param_row(ps.last())
    }
}

pub open spec fn param_lines(ps: Seq<ParamV>) -> Seq<char>
    decreases ps.len(),
{
    if ps.len() == 0 {
        seq![]
    } else {
        param_lines(ps.drop_last()) + param_line(ps.last())
    }
}

/// Parameters with a type go in a table; hints go in a list.
pub open spec fn params_text(ps: Seq<ParamV>) -> Seq<char> {
    if exists|i: int| 0 <= i < ps.len() && #[trigger] ps[i].kind.len() > 0 {
        "| parameter | type | required | what it is |\n"@ + "|---|---|---|---|\n"@ + param_rows(ps)
    } else {
        param_lines(ps)
    }
}

/// One entry: its name as a heading, its detail, its parameters.
pub open spec fn entry_text(e: EntryV) -> Seq<char> {
    "### `"@ + e.name + "`\n\n"@ + (if e.detail.len() > 0 {
        e.detail + "\n\n"@
    } else {
        ""@
    }) + (if e.params.len() > 0 {
        params_text(e.params) + "\n"@
    } else {
        ""@
    })
}

pub open spec fn entries_text(es: Seq<EntryV>) -> Seq<char>
    decreases es.len(),
{
    if es.len() == 0 {
        seq![]
    } else {
        entries_text(es.drop_last()) + entry_text(es.last())
    }
}

pub open spec fn section_text(s: SectionV) -> Seq<char> {
    "\n## "@ + s.title + "\n\n"@ + s.about + "\n\n"@ + entries_text(s.entries)
}

pub open spec fn sections_text(ss: Seq<SectionV>) -> Seq<char>
    decreases ss.len(),
{
    if ss.len() == 0 {
        seq![]
    } else {
        sections_text(ss.drop_last()) + section_text(ss.last())
    }
}

/// The page's opening: its title and what it is made from.
pub open spec fn preamble() -> Seq<char> {
    "# powderman reference\n\n"@
        + "Generated from the registries themselves \u{2014} the command bus, the MCP\nrouter, the keymap and the editor registry. Nothing here is written\nprose, so nothing here can be out of date.\n\nRegenerate with `UPDATE_DOCS=1 cargo test -p powderman`; a stale file\nfails the test suite.\n"@
}

/// The reference as Markdown.
pub open spec fn markdown_text(ss: Seq<SectionV>) -> Seq<char> {
    preamble() + sections_text(ss)
}

/// Text for a table cell (`cell_text`).
pub fn cell(text: &str) -> (r: String)
    ensures
        r@ == cell_text(text@),
{
    let mut out = String::new();
    let n = text.unicode_len();
    let mut i: usize = 0;
    while i < n
        invariant
            i <= n,
            n == text@.len(),
            out@ == cell_text(text@.subrange(0, i as int)),
        decreases n - i,
    {
        let c = text.get_char(i);
        assert(text@.subrange(0, i + 1).drop_last() =~= text@.subrange(0, i as int));
        if c == '|' {
            crate::text::push_char(&mut out, '\\');
            crate::text::push_char(&mut out, '|');
        } else {
            crate::text::push_char(&mut out, c);
        }
        assert(out@ =~= cell_text(text@.subrange(0, i + 1)));
        i += 1;
    }
    assert(text@.subrange(0, n as int) =~= text@);
    out
}

fn push_params(out: &mut String, ps: &Vec<Param>)
    ensures
        final(out)@ == old(out)@ + params_text(params_view(ps@)),
{
    let ghost pv = params_view(ps@);
    let mut typed = false;
    let mut k: usize = 0;
    while k < ps.len()
        invariant
            k <= ps@.len(),
            pv == params_view(ps@),
            typed == exists|i: int| 0 <= i < k && #[trigger] pv[i].kind.len() > 0,
        decreases ps.len() - k,
    {
        if ps[k].kind.as_str().unicode_len() > 0 {
            assert(pv[k as int].kind.len() > 0);
            typed = true;
        }
        proof {
            if !typed {
                assert forall|i: int| 0 <= i < k + 1 implies !(#[trigger] pv[i].kind.len() > 0) by {
                    if i == k {
                        assert(pv[i].kind == ps@[k as int].kind@);
                    }
                }
            }
        }
        k += 1;
    }
    let ghost start = out@;
    if typed {
        push_str(out, "| parameter | type | required | what it is |\n");
        push_str(out, "|---|---|---|---|\n");
    }
    let ghost base = out@;
    let mut i: usize = 0;
    while i < ps.len()
        invariant
            i <= ps@.len(),
            pv == params_view(ps@),
            out@ == base + if typed {
                param_rows(pv.subrange(0, i as int))
            } else {
                param_lines(pv.subrange(0, i as int))
            },
        decreases ps.len() - i,
    {
        let p = &ps[i];
        assert(pv.subrange(0, i + 1).drop_last() =~= pv.subrange(0, i as int));
        assert(pv[i as int] == p@);
        let ghost before = out@;
        if typed {
            push_str(out, "| `");
            push_str(out, cell(p.name.as_str()).as_str());
            push_str(out, "` | ");
            push_str(out, cell(p.kind.as_str()).as_str());
            push_str(out, " | ");
            push_str(out, if p.required {
                "yes"
            } else {
                "no"
            });
            push_str(out, " | ");
            push_str(out, cell(p.about.as_str()).as_str());
            push_str(out, " |\n");
            assert(out@ =~= before + param_row(p@));
        } else {
            push_str(out, "- **");
            push_str(out, p.name.as_str());
            push_str(out, "** \u{2014} ");
            push_str(out, p.about.as_str());
            push_str(out, "\n");
            assert(out@ =~= before + param_line(p@));
        }
        i += 1;
    }
    assert(pv.subrange(0, ps@.len() as int) =~= pv);
    assert(out@ =~= start + params_text(pv));
}

fn push_entry(out: &mut String, e: &Entry)
    ensures
        final(out)@ == old(out)@ + entry_text(e@),
{
    let ghost start = out@;
    push_str(out, "### `");
    push_str(out, e.name.as_str());
    push_str(out, "`\n\n");
    if e.detail.as_str().unicode_len() > 0 {
        push_str(out, e.detail.as_str());
        push_str(out, "\n\n");
    } else {
        push_str(out, "");
    }
    if e.params.len() > 0 {
        push_params(out, &e.params);
        push_str(out, "\n");
    } else {
        push_str(out, "");
    }
    assert(out@ =~= start + entry_text(e@));
}

fn push_section(out: &mut String, s: &Section)
    ensures
        final(out)@ == old(out)@ + section_text(s@),
{
    let ghost start = out@;
    push_str(out, "\n## ");
    push_str(out, s.title.as_str());
    push_str(out, "\n\n");
    push_str(out, s.about.as_str());
    push_str(out, "\n\n");
    let ghost base = out@;
    let ghost ev = entries_view(s.entries@);
    let mut i: usize = 0;
    while i < s.entries.len()
        invariant
            i <= s.entries@.len(),
            ev == entries_view(s.entries@),
            out@ == base + entries_text(ev.subrange(0, i as int)),
        decreases s.entries.len() - i,
    {
        assert(ev.subrange(0, i + 1).drop_last() =~= ev.subrange(0, i as int));
        assert(ev[i as int] == s.entries@[i as int]@);
        push_entry(out, &s.entries[i]);
        i += 1;
    }
    assert(ev.subrange(0, s.entries@.len() as int) =~= ev);
    assert(out@ =~= start + section_text(s@));
}

/// The reference as Markdown (`markdown_text`).
pub fn markdown(sections: &Vec<Section>) -> (r: String)
    ensures
        r@ == markdown_text(sections_view(sections@)),
{
    let mut out = String::new();
    push_str(&mut out, "# powderman reference\n\n");
    push_str(
        &mut out,
        "Generated from the registries themselves \u{2014} the command bus, the MCP\nrouter, the keymap and the editor registry. Nothing here is written\nprose, so nothing here can be out of date.\n\nRegenerate with `UPDATE_DOCS=1 cargo test -p powderman`; a stale file\nfails the test suite.\n",
    );
    let ghost sv = sections_view(sections@);
    let ghost base = out@;
    assert(base =~= preamble());
    let mut i: usize = 0;
    while i < sections.len()
        invariant
            i <= sections@.len(),
            sv == sections_view(sections@),
            out@ == base + sections_text(sv.subrange(0, i as int)),
        decreases sections.len() - i,
    {
        assert(sv.subrange(0, i + 1).drop_last() =~= sv.subrange(0, i as int));
        assert(sv[i as int] == sections@[i as int]@);
        push_section(&mut out, &sections[i]);
        i += 1;
    }
    assert(sv.subrange(0, sections@.len() as int) =~= sv);
    out
}

// --- sections ----------------------------------------------------------------

/// `a` sorts before `b`: by name, or by detail and then name.
pub open spec fn entry_before(a: EntryV, b: EntryV, by_detail: bool) -> bool {
    if by_detail {
        crate::json::key_lt(a.detail, b.detail) || (a.detail == b.detail && crate::json::key_lt(a.name, b.name))
    } else {
        crate::json::key_lt(a.name, b.name)
    }
}

/// In order: nothing sorts before what precedes it.
pub open spec fn entries_sorted(s: Seq<EntryV>, by_detail: bool) -> bool {
    forall|i: int, j: int| 0 <= i < j < s.len() ==> !entry_before(#[trigger] s[j], #[trigger] s[i], by_detail)
}

proof fn lemma_entry_before_transitive(a: EntryV, b: EntryV, c: EntryV, by_detail: bool)
    requires
        entry_before(a, b, by_detail),
        entry_before(b, c, by_detail),
    ensures
        entry_before(a, c, by_detail),
{
    if by_detail {
        if crate::json::key_lt(a.detail, b.detail) && crate::json::key_lt(b.detail, c.detail) {
            crate::json::lemma_key_lt_transitive(a.detail, b.detail, c.detail);
        } else if a.detail == b.detail && b.detail == c.detail {
            crate::json::lemma_key_lt_transitive(a.name, b.name, c.name);
        }
    } else {
        crate::json::lemma_key_lt_transitive(a.name, b.name, c.name);
    }
}

proof fn lemma_entry_before_irreflexive(a: EntryV, by_detail: bool)
    ensures
        !entry_before(a, a, by_detail),
{
    crate::json::lemma_key_lt_irreflexive(a.name);
    crate::json::lemma_key_lt_irreflexive(a.detail);
}

fn entry_less(a: &Entry, b: &Entry, by_detail: bool) -> (r: bool)
    ensures
        r == entry_before(a@, b@, by_detail),
{
    if by_detail {
        crate::json::key_less(a.detail.as_str(), b.detail.as_str()) || (crate::text::str_eq(
            a.detail.as_str(),
            b.detail.as_str(),
        ) && crate::json::key_less(a.name.as_str(), b.name.as_str()))
    } else {
        crate::json::key_less(a.name.as_str(), b.name.as_str())
    }
}

/// The order entries are listed in, as a function.
pub open spec fn entry_order(by_detail: bool) -> spec_fn(EntryV, EntryV) -> bool {
    |a: EntryV, b: EntryV| entry_before(a, b, by_detail)
}

/// Entries in order, each kept after any it ties with (`sort_by`).
fn sort_entries(entries: Vec<Entry>, by_detail: bool) -> (r: Vec<Entry>)
    ensures
        entries_view(r@) == stable_sorted(entries_view(entries@), entry_order(by_detail)),
        entries_view(r@).to_multiset() == entries_view(entries@).to_multiset(),
        entries_sorted(entries_view(r@), by_detail),
{
    broadcast use vstd::seq_lib::to_multiset_insert, vstd::seq_lib::to_multiset_build;

    let mut rest = entries;
    let ghost all = entries_view(rest@);
    let mut out: Vec<Entry> = Vec::new();
    let n = rest.len();
    assert(entries_view(out@) =~= all.subrange(0, 0));
    let mut i: usize = 0;
    assert(rest@.subrange(0, n as int) =~= entries@);
    while i < n
        invariant
            i <= n,
            n == entries@.len(),
            all == entries_view(entries@),
            rest@ == entries@.subrange(i as int, n as int),
            entries_sorted(entries_view(out@), by_detail),
            entries_view(out@).to_multiset() == all.subrange(0, i as int).to_multiset(),
            entries_view(out@) == stable_sorted(all.subrange(0, i as int), entry_order(by_detail)),
        decreases n - i,
    {
        let ghost before = rest@;
        let x = rest.remove(0);
        assert(x == entries@[i as int]);
        assert(rest@ =~= entries@.subrange(i + 1, n as int));
        assert(all.subrange(0, i + 1) =~= all.subrange(0, i as int).push(x@));
        let ghost o = entries_view(out@);
        let mut p: usize = 0;
        while p < out.len() && !entry_less(&x, &out[p], by_detail)
            invariant
                p <= out@.len(),
                o == entries_view(out@),
                forall|k: int| 0 <= k < p ==> !entry_before(x@, #[trigger] o[k], by_detail),
            decreases out.len() - p,
        {
            p += 1;
        }
        let ghost xv = x@;
        out.insert(p, x);
        proof {
            let s = entries_view(out@);
            assert(s =~= o.insert(p as int, xv));
            lemma_insert_in_order(o, xv, entry_order(by_detail), p as int);
            assert(all.subrange(0, i + 1).drop_last() =~= all.subrange(0, i as int));
            assert forall|a: int, b: int| 0 <= a < b < s.len() implies !entry_before(
                #[trigger] s[b],
                #[trigger] s[a],
                by_detail,
            ) by {
                if a < p && b == p {
                } else if a == p && b > p {
                    if entry_before(s[b], xv, by_detail) {
                        if p < o.len() {
                            assert(entry_before(xv, o[p as int], by_detail));
                            lemma_entry_before_transitive(s[b], xv, o[p as int], by_detail);
                            if b - 1 == p {
                                lemma_entry_before_irreflexive(o[p as int], by_detail);
                            } else {
                                assert(!entry_before(o[b - 1], o[p as int], by_detail));
                            }
                        }
                    }
                } else if a < p && b > p {
                    assert(!entry_before(o[b - 1], o[a], by_detail));
                } else if b < p {
                    assert(!entry_before(o[b], o[a], by_detail));
                } else {
                    assert(!entry_before(o[b - 1], o[a - 1], by_detail));
                }
            }
            vstd::seq_lib::to_multiset_insert(o, p as int, xv);
            vstd::seq_lib::to_multiset_build(all.subrange(0, i as int), xv);
        }
        i += 1;
    }
    assert(all.subrange(0, n as int) =~= all);
    out
}

/// The section of commands, as a value.
pub open spec fn commands_section_v(cmds: Seq<CmdV>) -> SectionV {
    SectionV {
        title: "Commands"@,
        about: commands_about(),
        entries: stable_sorted(
            Seq::new(cmds.len(), |i: int| EntryV { name: cmds[i].name, detail: cmds[i].description, params: seq![] }),
            entry_order(false),
        ),
    }
}

/// The section of keys, as a value.
pub open spec fn keymap_section_v(bindings: Seq<Binding>) -> SectionV {
    SectionV {
        title: "Keys"@,
        about: keys_about(),
        entries: stable_sorted(
            Seq::new(
                bindings.len(),
                |i: int| EntryV { name: bindings[i].chord@, detail: bindings[i].action@, params: seq![] },
            ),
            entry_order(true),
        ),
    }
}

pub open spec fn commands_about() -> Seq<char> {
    "The write path. Every layout change \u{2014} a button, a chord, a gesture, an agent \u{2014} arrives as one of these."@
}

pub open spec fn keys_about() -> Seq<char> {
    "The default bindings. Every one names an action from the lists above, or a per-client view action; Preferences rebinds them without touching this."@
}

/// The section of commands: every registered command by name, with what it
/// does.
pub fn commands_section(cmds: &Commands) -> (r: Section)
    ensures
        r@ == commands_section_v(cmds@),
        r.title@ == "Commands"@,
        r.about@ == commands_about(),
        entries_view(r.entries@) == stable_sorted(
            Seq::new(
                cmds@.len(),
                |i: int| EntryV { name: cmds@[i].name, detail: cmds@[i].description, params: seq![] },
            ),
            entry_order(false),
        ),
        entries_sorted(entries_view(r.entries@), false),
        entries_view(r.entries@).to_multiset() == Seq::new(
            cmds@.len(),
            |i: int| EntryV { name: cmds@[i].name, detail: cmds@[i].description, params: seq![] },
        ).to_multiset(),
{
    let list = cmds.iter();
    let ghost want = Seq::new(
        cmds@.len(),
        |i: int| EntryV { name: cmds@[i].name, detail: cmds@[i].description, params: seq![] },
    );
    let mut entries: Vec<Entry> = Vec::new();
    let mut i: usize = 0;
    while i < list.len()
        invariant
            i <= list@.len(),
            list@.len() == cmds@.len(),
            forall|k: int| 0 <= k < list@.len() ==> (*list@[k])@ == #[trigger] cmds@[k],
            want == Seq::new(
                cmds@.len(),
                |i: int| EntryV { name: cmds@[i].name, detail: cmds@[i].description, params: seq![] },
            ),
            entries_view(entries@) == want.subrange(0, i as int),
        decreases list.len() - i,
    {
        let c = list[i];
        let e = Entry { name: c.name.clone(), detail: c.description.clone(), params: Vec::new() };
        assert(params_view(e.params@) =~= Seq::<ParamV>::empty());
        let ghost ev = e@;
        assert(ev == want[i as int]);
        let ghost ov = entries@;
        assert(entries_view(ov).len() == i);
        assert(ov.len() == i);
        entries.push(e);
        assert forall|k: int| 0 <= k < i + 1 implies #[trigger] entries_view(entries@)[k] == want[k] by {
            if k < i {
                assert(entries@[k] == ov[k]);
                assert(entries_view(ov)[k] == ov[k]@);
            }
        }
        assert(entries_view(entries@) =~= want.subrange(0, i + 1));
        i += 1;
    }
    assert(want.subrange(0, list@.len() as int) =~= want);
    Section {
        title: "Commands".to_owned(),
        about: "The write path. Every layout change \u{2014} a button, a chord, a gesture, an agent \u{2014} arrives as one of these.".to_owned(),
        entries: sort_entries(entries, false),
    }
}

/// The section of keys: every binding by the action it runs and then its
/// chord.
pub fn keymap_section(bindings: &Vec<Binding>) -> (r: Section)
    ensures
        r@ == keymap_section_v(bindings@),
        r.title@ == "Keys"@,
        r.about@ == keys_about(),
        entries_view(r.entries@) == stable_sorted(
            Seq::new(
                bindings@.len(),
                |i: int| EntryV { name: bindings@[i].chord@, detail: bindings@[i].action@, params: seq![] },
            ),
            entry_order(true),
        ),
        entries_sorted(entries_view(r.entries@), true),
        entries_view(r.entries@).to_multiset() == Seq::new(
            bindings@.len(),
            |i: int| EntryV { name: bindings@[i].chord@, detail: bindings@[i].action@, params: seq![] },
        ).to_multiset(),
{
    let ghost want = Seq::new(
        bindings@.len(),
        |i: int| EntryV { name: bindings@[i].chord@, detail: bindings@[i].action@, params: seq![] },
    );
    let mut entries: Vec<Entry> = Vec::new();
    let mut i: usize = 0;
    while i < bindings.len()
        invariant
            i <= bindings@.len(),
            want == Seq::new(
                bindings@.len(),
                |i: int| EntryV { name: bindings@[i].chord@, detail: bindings@[i].action@, params: seq![] },
            ),
            entries_view(entries@) == want.subrange(0, i as int),
        decreases bindings.len() - i,
    {
        let b = &bindings[i];
        let e = Entry { name: b.chord.clone(), detail: b.action.clone(), params: Vec::new() };
        assert(params_view(e.params@) =~= Seq::<ParamV>::empty());
        let ghost ev = e@;
        assert(ev == want[i as int]);
        let ghost ov = entries@;
        assert(entries_view(ov).len() == i);
        assert(ov.len() == i);
        entries.push(e);
        assert forall|k: int| 0 <= k < i + 1 implies #[trigger] entries_view(entries@)[k] == want[k] by {
            if k < i {
                assert(entries@[k] == ov[k]);
                assert(entries_view(ov)[k] == ov[k]@);
            }
        }
        assert(entries_view(entries@) =~= want.subrange(0, i + 1));
        i += 1;
    }
    assert(want.subrange(0, bindings@.len() as int) =~= want);
    Section {
        title: "Keys".to_owned(),
        about: "The default bindings. Every one names an action from the lists above, or a per-client view action; Preferences rebinds them without touching this.".to_owned(),
        entries: sort_entries(entries, true),
    }
}

/// A tool as the agent router lists it: its name, its description, and the
/// JSON Schema object of its parameters.
pub struct ToolInfo {
    pub name: String,
    pub description: Option<String>,
    pub schema: Vec<Member>,
}

/// A tool as the reference documents it.
pub open spec fn tool_entry(t: ToolInfo) -> EntryV {
    EntryV {
        name: t.name@,
        detail: match t.description {
            Some(d) => d@,
            None => seq![],
        },
        params: params_of_v(members_of(t.schema@)),
    }
}

pub open spec fn tools_about() -> Seq<char> {
    "What an agent can do, which is everything a person can do to server truth. A command without a tool here is a test failure, not an omission."@
}

/// The section of tools, as a value.
pub open spec fn tools_section_v(tools: Seq<ToolInfo>) -> SectionV {
    SectionV {
        title: "MCP tools"@,
        about: tools_about(),
        entries: stable_sorted(Seq::new(tools.len(), |i: int| tool_entry(tools[i])), entry_order(false)),
    }
}

/// Every tool's schema has references that end.
pub open spec fn tools_end(tools: Seq<ToolInfo>) -> bool {
    forall|i: int| 0 <= i < tools.len() ==> schema_ends(members_of(#[trigger] tools[i].schema@))
}

/// The section of agent tools: every tool by name, with its description and
/// its parameters read out of its schema.
pub fn tools_section(tools: &Vec<ToolInfo>) -> (r: Section)
    requires
        tools_end(tools@),
    ensures
        r@ == tools_section_v(tools@),
{
    let ghost want = Seq::new(tools@.len(), |i: int| tool_entry(tools@[i]));
    let mut entries: Vec<Entry> = Vec::new();
    let mut i: usize = 0;
    while i < tools.len()
        invariant
            i <= tools@.len(),
            tools_end(tools@),
            want == Seq::new(tools@.len(), |i: int| tool_entry(tools@[i])),
            entries@.len() == i,
            forall|k: int| 0 <= k < i ==> (#[trigger] entries@[k])@ == want[k],
        decreases tools.len() - i,
    {
        let t = &tools[i];
        let detail = match &t.description {
            Some(d) => d.clone(),
            None => String::new(),
        };
        assert(schema_ends(members_of(tools@[i as int].schema@)));
        let e = Entry { name: t.name.clone(), detail, params: params_of(&t.schema) };
        assert(e@ == want[i as int]);
        entries.push(e);
        i += 1;
    }
    assert(entries_view(entries@) =~= want);
    Section { title: "MCP tools".to_owned(), about: "What an agent can do, which is everything a person can do to server truth. A command without a tool here is a test failure, not an omission.".to_owned(), entries: sort_entries(entries, false) }
}

/// An editor as the reference documents it: its label, its key (and
/// whether it takes a target), and its hints as untyped parameters.
pub open spec fn editor_entry(k: EditorKind) -> EntryV {
    EntryV {
        name: k.label@,
        detail: "`"@ + k.id@ + "`"@ + if k.targets {
            " \u{2014} takes a target"@
        } else {
            seq![]
        },
        params: Seq::new(
            k.hints@.len(),
            |i: int| ParamV { name: k.hints@[i].0@, kind: seq![], required: false, about: k.hints@[i].1@ },
        ),
    }
}

pub open spec fn editors_about() -> Seq<char> {
    "What an area can show. The hints are what each answers to, and they are what the status bar shows while it has focus."@
}

/// The section of editors, as a value: in registry order.
pub open spec fn editors_section_v(kinds: Seq<EditorKind>) -> SectionV {
    SectionV {
        title: "Editors"@,
        about: editors_about(),
        entries: Seq::new(kinds.len(), |i: int| editor_entry(kinds[i])),
    }
}

/// The section of editors, in registry order.
pub fn editors_section(kinds: &Vec<EditorKind>) -> (r: Section)
    ensures
        r@ == editors_section_v(kinds@),
{
    let ghost want = Seq::new(kinds@.len(), |i: int| editor_entry(kinds@[i]));
    let mut entries: Vec<Entry> = Vec::new();
    let mut i: usize = 0;
    while i < kinds.len()
        invariant
            i <= kinds@.len(),
            want == Seq::new(kinds@.len(), |i: int| editor_entry(kinds@[i])),
            entries@.len() == i,
            forall|k: int| 0 <= k < i ==> (#[trigger] entries@[k])@ == want[k],
        decreases kinds.len() - i,
    {
        let k = &kinds[i];
        let mut detail = String::new();
        push_str(&mut detail, "`");
        push_str(&mut detail, k.id);
        push_str(&mut detail, "`");
        if k.targets {
            push_str(&mut detail, " \u{2014} takes a target");
        }
        let mut params: Vec<Param> = Vec::new();
        let mut j: usize = 0;
        while j < k.hints.len()
            invariant
                j <= k.hints@.len(),
                params@.len() == j,
                forall|q: int|
                    0 <= q < j ==> (#[trigger] params@[q])@ == (ParamV {
                        name: k.hints@[q].0@,
                        kind: seq![],
                        required: false,
                        about: k.hints@[q].1@,
                    }),
            decreases k.hints.len() - j,
        {
            let (what, does) = k.hints[j];
            params.push(Param { name: what.to_owned(), kind: String::new(), required: false, about: does.to_owned() });
            j += 1;
        }
        let e = Entry { name: k.label.to_owned(), detail, params };
        assert(params_view(e.params@) =~= want[i as int].params);
        assert(e@ == want[i as int]);
        entries.push(e);
        i += 1;
    }
    assert(entries_view(entries@) =~= want);
    Section { title: "Editors".to_owned(), about: "What an area can show. The hints are what each answers to, and they are what the status bar shows while it has focus.".to_owned(), entries }
}

/// The whole reference, read out of the four registries: commands, agent
/// tools, keys and editors, in that order.
pub fn reference(cmds: &Commands, tools: &Vec<ToolInfo>, bindings: &Vec<Binding>, kinds: &Vec<EditorKind>) -> (r: Vec<
    Section,
>)
    requires
        tools_end(tools@),
    ensures
        sections_view(r@) == seq![
            commands_section_v(cmds@),
            tools_section_v(tools@),
            keymap_section_v(bindings@),
            editors_section_v(kinds@),
        ],
{
    let mut out: Vec<Section> = Vec::new();
    out.push(commands_section(cmds));
    out.push(tools_section(tools));
    out.push(keymap_section(bindings));
    out.push(editors_section(kinds));
    assert(sections_view(out@) =~= seq![
        commands_section_v(cmds@),
        tools_section_v(tools@),
        keymap_section_v(bindings@),
        editors_section_v(kinds@),
    ]);
    out
}

} // verus!
