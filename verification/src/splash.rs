//! The arrangements the splash offers to start a workspace from.
//!
//! Each opens the N panel on its lead area: a panel beside the thing being
//! worked on, shown on the screen everyone sees first so nobody has to know
//! it exists to find it.

use vstd::prelude::*;

use crate::area::{default_regions, leaf_at, layout_ok, restyled, toggled, Dir, Layout, LayoutView, Node, Region};
use crate::command::{put_v, split_v};
use crate::workbench::{shown_if, starter_layout};

verus! {

/// A preset layout offered on the splash.
pub struct Template {
    pub name: String,
    /// One line under the name: what the arrangement is for.
    pub hint: String,
    /// An icon name from the library's set.
    pub icon: String,
    pub layout: Layout,
}

/// `(name, icon, hint)` of each preset, in the order offered.
pub open spec fn template_table() -> Seq<(Seq<char>, Seq<char>, Seq<char>)> {
    seq![
        ("Overview"@, "layout-dashboard"@, "machine, runs and fleet at a glance"@),
        ("Runs"@, "list-details"@, "the run list beside a detail pane"@),
        ("Monitoring"@, "activity-heartbeat"@, "machine graphs and the live fleet"@),
        ("Code"@, "file-code"@, "the file browser beside a viewer"@),
        ("Changes"@, "git-compare"@, "what changed, file by file"@),
        ("Charts"@, "chart-line"@, "a plot beside the spec that makes it"@),
        ("Shortcuts"@, "keyboard"@, "the keymap over the command log"@),
        ("Single"@, "square"@, "one area to split as you like"@),
    ]
}

// --- the arrangements, as values ----------------------------------------------

/// One area showing `editor`: what `Layout::single` makes.
pub open spec fn base_v(editor: Seq<char>) -> LayoutView {
    LayoutView { root: Node::Leaf { id: 1, editor, arg: None, regions: default_regions() }, next_id: 2 }
}

/// `toggle_region(id, region)` on a layout, if `id` is a leaf.
pub open spec fn toggled_v(l: LayoutView, id: crate::area::AreaId, region: Region) -> LayoutView {
    match leaf_at(l.root, id) {
        Some(leaf) => put_v(l, id, restyled(leaf, toggled(leaf->regions, region))),
        None => l,
    }
}

/// `set_target(id, target)` on a layout, if `id` is a leaf.
pub open spec fn targeted_v(l: LayoutView, id: crate::area::AreaId, target: Seq<char>) -> LayoutView {
    match leaf_at(l.root, id) {
        Some(leaf) => put_v(
            l,
            id,
            Node::Leaf {
                id,
                editor: leaf->editor,
                arg: if target.len() == 0 {
                    None
                } else {
                    Some(target)
                },
                regions: leaf->regions,
            },
        ),
        None => l,
    }
}

/// One editor, its sidebar open.
pub open spec fn single_v(editor: Seq<char>) -> LayoutView {
    toggled_v(base_v(editor), 1, Region::Sidebar)
}

/// `lead` with `other` split off at `ratio`, the lead's sidebar open.
pub open spec fn pair_v(lead: Seq<char>, dir: Dir, ratio: u32, other: Seq<char>) -> LayoutView {
    let l1 = split_v(base_v(lead), 1, dir, ratio);
    let l2 = if leaf_at(base_v(lead).root, 1) is Some {
        shown_if(l1, 3, other)
    } else {
        l1
    };
    toggled_v(l2, 1, Region::Sidebar)
}

/// The file browser with `editor` beside it at 30%, the viewer's sidebar
/// open.
pub open spec fn beside_v(editor: Seq<char>) -> LayoutView {
    let l1 = split_v(base_v("files"@), 1, Dir::Row, 300_000);
    if leaf_at(base_v("files"@).root, 1) is Some {
        toggled_v(shown_if(l1, 3, editor), 3, Region::Sidebar)
    } else {
        l1
    }
}

/// The layout of each preset, in the order offered.
pub open spec fn preset_layouts() -> Seq<LayoutView> {
    seq![
        toggled_v(starter_layout(), 1, Region::Sidebar),
        pair_v("runs"@, Dir::Row, 500_000, "run"@),
        pair_v("machine"@, Dir::Row, 620_000, "fleet"@),
        beside_v("code"@),
        beside_v("diff"@),
        toggled_v(targeted_v(base_v("chart"@), 1, "/charts/cpu"@), 1, Region::Sidebar),
        pair_v("keymap"@, Dir::Col, 620_000, "info"@),
        single_v("machine"@),
    ]
}

fn template(name: &str, icon: &str, hint: &str, layout: Layout) -> (t: Template)
    ensures
        t.name@ == name@,
        t.icon@ == icon@,
        t.hint@ == hint@,
        t.layout@ == layout@,
{
    Template { name: name.to_owned(), hint: hint.to_owned(), icon: icon.to_owned(), layout }
}

/// One editor, with its sidebar open.
fn single(editor: &str) -> (l: Layout)
    ensures
        layout_ok(l@),
        l@ == single_v(editor@),
{
    let mut l = Layout::single(editor);
    l.toggle_region(1, Region::Sidebar);
    l
}

/// `lead` with `other` split off to the side or below at `ratio`, the lead's
/// sidebar open.
fn pair(lead: &str, dir: Dir, ratio: u32, other: &str) -> (l: Layout)
    ensures
        layout_ok(l@),
        l@ == pair_v(lead@, dir, ratio, other@),
{
    let mut l = Layout::single(lead);
    if let Some(r) = l.split(1, dir, ratio) {
        l.set_editor(r, other);
    }
    l.toggle_region(1, Region::Sidebar);
    l
}

/// The file browser beside a viewer, the viewer's sidebar open.
fn beside_the_browser(editor: &str) -> (l: Layout)
    ensures
        layout_ok(l@),
        l@ == beside_v(editor@),
{
    let mut l = Layout::single("files");
    if let Some(r) = l.split(1, Dir::Row, 300_000) {
        l.set_editor(r, editor);
        l.toggle_region(r, Region::Sidebar);
    }
    l
}

/// The preset layouts, in the order offered: names, icons and hints from
/// `template_table`, arrangements from `preset_layouts`; every one a layout
/// the operations accept.
pub fn templates() -> (t: Vec<Template>)
    ensures
        t@.len() == template_table().len(),
        forall|i: int|
            0 <= i < t@.len() ==> (#[trigger] t@[i]).name@ == template_table()[i].0 && t@[i].icon@
                == template_table()[i].1 && t@[i].hint@ == template_table()[i].2 && layout_ok(t@[i].layout@)
                && t@[i].layout@ == preset_layouts()[i],
{
    let overview = {
        let mut l = Layout::single("machine");
        if let Some(b) = l.split(1, Dir::Col, 450_000) {
            l.set_editor(b, "runs");
            if let Some(r) = l.split(b, Dir::Row, 600_000) {
                l.set_editor(r, "fleet");
            }
        }
        proof {
            crate::workbench::lemma_starter_steps();
        }
        assert(l@ == crate::workbench::starter_steps());
        l.toggle_region(1, Region::Sidebar);
        l
    };
    let charts = {
        let mut l = Layout::single("chart");
        l.set_target(1, "/charts/cpu");
        l.toggle_region(1, Region::Sidebar);
        l
    };
    let mut t: Vec<Template> = Vec::new();
    t.push(template("Overview", "layout-dashboard", "machine, runs and fleet at a glance", overview));
    t.push(template("Runs", "list-details", "the run list beside a detail pane", pair("runs", Dir::Row, 500_000, "run")));
    t.push(template("Monitoring", "activity-heartbeat", "machine graphs and the live fleet", pair("machine", Dir::Row, 620_000, "fleet")));
    t.push(template("Code", "file-code", "the file browser beside a viewer", beside_the_browser("code")));
    t.push(template("Changes", "git-compare", "what changed, file by file", beside_the_browser("diff")));
    t.push(template("Charts", "chart-line", "a plot beside the spec that makes it", charts));
    t.push(template("Shortcuts", "keyboard", "the keymap over the command log", pair("keymap", Dir::Col, 620_000, "info")));
    t.push(template("Single", "square", "one area to split as you like", single("machine")));
    t
}

} // verus!
