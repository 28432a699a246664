//! The menus an area carries, as the JSON the menu shim draws.
//!
//! Each right-clickable or click-open element carries its items in a
//! `data-im-menu` attribute; a pick comes back as `(action, params)`, the
//! same shape a button or a chord produces. The texts here are built from the
//! area id alone, so the area view and its menus cannot drift apart.

use vstd::prelude::*;

use crate::text::{decimal, push_decimal, push_str, str_eq};

verus! {

/// An editor as the registry declares it: its key, what the switcher shows,
/// its icon, what it answers to while it has focus, and whether it takes a
/// target (a file, a run, a chart).
pub struct EditorKind {
    pub id: &'static str,
    pub label: &'static str,
    pub icon: &'static str,
    /// `(gesture or chord, what it does)`.
    pub hints: Vec<(&'static str, &'static str)>,
    pub targets: bool,
}

/// An editor kind as the library reasons about it.
pub struct KindV {
    pub id: Seq<char>,
    pub label: Seq<char>,
    pub icon: Seq<char>,
    pub hints: Seq<(Seq<char>, Seq<char>)>,
    pub targets: bool,
}

pub open spec fn kind_view(k: EditorKind) -> KindV {
    KindV { id: k.id@, label: k.label@, icon: k.icon@, hints: crate::pairs::pairs_view(k.hints@), targets: k.targets }
}

/// The editors this build registers, in the switcher's order.
pub open spec fn editor_table() -> Seq<KindV> {
    seq![
        KindV { id: "welcome"@, label: "Welcome"@, icon: "home"@, hints: seq![("Click"@, "Become that editor"@)], targets: false },
        KindV { id: "machine"@, label: "Machine"@, icon: "server-2"@, hints: seq![], targets: false },
        KindV { id: "fleet"@, label: "Fleet"@, icon: "binary-tree"@, hints: seq![], targets: false },
        KindV { id: "runs"@, label: "Runs"@, icon: "list-details"@, hints: seq![("Click"@, "Open run"@), ("Type"@, "Filter"@)], targets: false },
        KindV { id: "run"@, label: "Run detail"@, icon: "file-text"@, hints: seq![("Chip"@, "Pick run"@)], targets: true },
        KindV { id: "settings"@, label: "Settings"@, icon: "settings"@, hints: seq![("Drag"@, "Scrub number"@), ("Type"@, "3*2 works"@)], targets: false },
        KindV { id: "info"@, label: "Info log"@, icon: "info-circle"@, hints: seq![("Type"@, "Filter"@)], targets: false },
        KindV { id: "help"@, label: "Help"@, icon: "help"@, hints: seq![("Type"@, "Filter the reference"@)], targets: false },
        KindV { id: "keymap"@, label: "Keymap"@, icon: "keyboard"@, hints: seq![("Set"@, "Rebind"@), ("Type"@, "Filter"@)], targets: false },
        KindV { id: "data"@, label: "Data"@, icon: "binary-tree"@, hints: seq![("Click"@, "Expand"@), ("Right-click"@, "Copy data path"@)], targets: true },
        KindV { id: "files"@, label: "Files"@, icon: "folder"@, hints: seq![("Click"@, "Expand"@), ("Chip"@, "Root here"@)], targets: true },
        KindV { id: "code"@, label: "Code"@, icon: "code"@, hints: seq![("Chip"@, "Pick file"@)], targets: true },
        KindV { id: "diff"@, label: "Diff"@, icon: "file-diff"@, hints: seq![("Chip"@, "Pick changed file"@)], targets: true },
        KindV { id: "chart"@, label: "Chart"@, icon: "chart-line"@, hints: seq![("Chip"@, "Pick chart"@), ("N"@, "Edit spec"@)], targets: true },
    ]
}

/// The editors this build registers, in the switcher's order: each with
/// its switcher label, icon, the hints it shows while focused, and whether
/// it takes a target.
pub fn editor_kinds() -> (r: Vec<EditorKind>)
    ensures
        Seq::new(r@.len(), |i: int| kind_view(r@[i])) == editor_table(),
{
    let mut r: Vec<EditorKind> = Vec::new();
    let mut h: Vec<(&'static str, &'static str)> = Vec::new();
    h.push(("Click", "Become that editor"));
    assert(crate::pairs::pairs_view(h@) =~= seq![("Click"@, "Become that editor"@)]);
    r.push(EditorKind { id: "welcome", label: "Welcome", icon: "home", hints: h, targets: false });
    let mut h: Vec<(&'static str, &'static str)> = Vec::new();
    assert(crate::pairs::pairs_view(h@) =~= seq![]);
    r.push(EditorKind { id: "machine", label: "Machine", icon: "server-2", hints: h, targets: false });
    let mut h: Vec<(&'static str, &'static str)> = Vec::new();
    assert(crate::pairs::pairs_view(h@) =~= seq![]);
    r.push(EditorKind { id: "fleet", label: "Fleet", icon: "binary-tree", hints: h, targets: false });
    let mut h: Vec<(&'static str, &'static str)> = Vec::new();
    h.push(("Click", "Open run"));
    h.push(("Type", "Filter"));
    assert(crate::pairs::pairs_view(h@) =~= seq![("Click"@, "Open run"@), ("Type"@, "Filter"@)]);
    r.push(EditorKind { id: "runs", label: "Runs", icon: "list-details", hints: h, targets: false });
    let mut h: Vec<(&'static str, &'static str)> = Vec::new();
    h.push(("Chip", "Pick run"));
    assert(crate::pairs::pairs_view(h@) =~= seq![("Chip"@, "Pick run"@)]);
    r.push(EditorKind { id: "run", label: "Run detail", icon: "file-text", hints: h, targets: true });
    let mut h: Vec<(&'static str, &'static str)> = Vec::new();
    h.push(("Drag", "Scrub number"));
    h.push(("Type", "3*2 works"));
    assert(crate::pairs::pairs_view(h@) =~= seq![("Drag"@, "Scrub number"@), ("Type"@, "3*2 works"@)]);
    r.push(EditorKind { id: "settings", label: "Settings", icon: "settings", hints: h, targets: false });
    let mut h: Vec<(&'static str, &'static str)> = Vec::new();
    h.push(("Type", "Filter"));
    assert(crate::pairs::pairs_view(h@) =~= seq![("Type"@, "Filter"@)]);
    r.push(EditorKind { id: "info", label: "Info log", icon: "info-circle", hints: h, targets: false });
    let mut h: Vec<(&'static str, &'static str)> = Vec::new();
    h.push(("Type", "Filter the reference"));
    assert(crate::pairs::pairs_view(h@) =~= seq![("Type"@, "Filter the reference"@)]);
    r.push(EditorKind { id: "help", label: "Help", icon: "help", hints: h, targets: false });
    let mut h: Vec<(&'static str, &'static str)> = Vec::new();
    h.push(("Set", "Rebind"));
    h.push(("Type", "Filter"));
    assert(crate::pairs::pairs_view(h@) =~= seq![("Set"@, "Rebind"@), ("Type"@, "Filter"@)]);
    r.push(EditorKind { id: "keymap", label: "Keymap", icon: "keyboard", hints: h, targets: false });
    let mut h: Vec<(&'static str, &'static str)> = Vec::new();
    h.push(("Click", "Expand"));
    h.push(("Right-click", "Copy data path"));
    assert(crate::pairs::pairs_view(h@) =~= seq![("Click"@, "Expand"@), ("Right-click"@, "Copy data path"@)]);
    r.push(EditorKind { id: "data", label: "Data", icon: "binary-tree", hints: h, targets: true });
    let mut h: Vec<(&'static str, &'static str)> = Vec::new();
    h.push(("Click", "Expand"));
    h.push(("Chip", "Root here"));
    assert(crate::pairs::pairs_view(h@) =~= seq![("Click"@, "Expand"@), ("Chip"@, "Root here"@)]);
    r.push(EditorKind { id: "files", label: "Files", icon: "folder", hints: h, targets: true });
    let mut h: Vec<(&'static str, &'static str)> = Vec::new();
    h.push(("Chip", "Pick file"));
    assert(crate::pairs::pairs_view(h@) =~= seq![("Chip"@, "Pick file"@)]);
    r.push(EditorKind { id: "code", label: "Code", icon: "code", hints: h, targets: true });
    let mut h: Vec<(&'static str, &'static str)> = Vec::new();
    h.push(("Chip", "Pick changed file"));
    assert(crate::pairs::pairs_view(h@) =~= seq![("Chip"@, "Pick changed file"@)]);
    r.push(EditorKind { id: "diff", label: "Diff", icon: "file-diff", hints: h, targets: true });
    let mut h: Vec<(&'static str, &'static str)> = Vec::new();
    h.push(("Chip", "Pick chart"));
    h.push(("N", "Edit spec"));
    assert(crate::pairs::pairs_view(h@) =~= seq![("Chip"@, "Pick chart"@), ("N"@, "Edit spec"@)]);
    r.push(EditorKind { id: "chart", label: "Chart", icon: "chart-line", hints: h, targets: true });
    let ghost t = editor_table();
    assert(kind_view(r@[0]) == t[0]);
    assert(kind_view(r@[1]) == t[1]);
    assert(kind_view(r@[2]) == t[2]);
    assert(kind_view(r@[3]) == t[3]);
    assert(kind_view(r@[4]) == t[4]);
    assert(kind_view(r@[5]) == t[5]);
    assert(kind_view(r@[6]) == t[6]);
    assert(kind_view(r@[7]) == t[7]);
    assert(kind_view(r@[8]) == t[8]);
    assert(kind_view(r@[9]) == t[9]);
    assert(kind_view(r@[10]) == t[10]);
    assert(kind_view(r@[11]) == t[11]);
    assert(kind_view(r@[12]) == t[12]);
    assert(kind_view(r@[13]) == t[13]);
    assert(Seq::new(r@.len(), |i: int| kind_view(r@[i])) =~= t);
    r
}

pub open spec fn kinds_view(k: Seq<EditorKind>) -> Seq<(Seq<char>, Seq<char>)> {
    Seq::new(k.len(), |i: int| (k[i].id@, k[i].label@))
}

/// Items joined by commas.
pub open spec fn comma_list(items: Seq<Seq<char>>) -> Seq<char>
    decreases items.len(),
{
    if items.len() == 0 {
        seq![]
    } else if items.len() == 1 {
        items[0]
    } else {
        comma_list(items.drop_last()) + ","@ + items.last()
    }
}

/// The switcher row for one editor kind; the current one is marked.
pub open spec fn editor_item(id: u64, kind: (Seq<char>, Seq<char>), current: Seq<char>) -> Seq<char> {
    "{\"label\":\""@ + (if kind.0 == current {
        "\u{2022} "@
    } else {
        ""@
    }) + kind.1 + "\",\"action\":\"set_editor\",\"params\":{\"id\":"@ + decimal(id as nat) + ",\"editor\":\""@
        + kind.0 + "\"}}"@
}

/// The editor switcher's menu: every kind, in registry order.
pub open spec fn editor_menu_text(id: u64, kinds: Seq<(Seq<char>, Seq<char>)>, current: Seq<char>) -> Seq<char> {
    "["@ + comma_list(Seq::new(kinds.len(), |i: int| editor_item(id, kinds[i], current))) + "]"@
}

/// The editor switcher's menu (`editor_menu_text`).
pub fn editor_menu_json(id: u64, kinds: &Vec<EditorKind>, current: &str) -> (r: String)
    ensures
        r@ == editor_menu_text(id, kinds_view(kinds@), current@),
{
    let ghost items = Seq::new(kinds@.len(), |i: int| editor_item(id, kinds_view(kinds@)[i], current@));
    let mut body = String::new();
    let mut i: usize = 0;
    while i < kinds.len()
        invariant
            i <= kinds@.len(),
            items == Seq::new(kinds@.len(), |i: int| editor_item(id, kinds_view(kinds@)[i], current@)),
            body@ == comma_list(items.subrange(0, i as int)),
        decreases kinds.len() - i,
    {
        let ghost before = body@;
        if i > 0 {
            push_str(&mut body, ",");
        }
        let ghost start = body@;
        let k = &kinds[i];
        push_str(&mut body, "{\"label\":\"");
        if str_eq(k.id, current) {
            push_str(&mut body, "\u{2022} ");
        } else {
            push_str(&mut body, "");
        }
        push_str(&mut body, k.label);
        push_str(&mut body, "\",\"action\":\"set_editor\",\"params\":{\"id\":");
        push_decimal(&mut body, id);
        push_str(&mut body, ",\"editor\":\"");
        push_str(&mut body, k.id);
        push_str(&mut body, "\"}}");
        assert(body@ =~= start + items[i as int]);
        assert(items.subrange(0, i + 1).drop_last() =~= items.subrange(0, i as int));
        proof {
            if i == 0 {
                assert(before.len() == 0);
                assert(body@ =~= comma_list(items.subrange(0, 1)));
            }
        }
        i += 1;
    }
    assert(items.subrange(0, kinds@.len() as int) =~= items);
    let mut out = "[".to_owned();
    push_str(&mut out, body.as_str());
    push_str(&mut out, "]");
    out
}

// --- the View menu -----------------------------------------------------------

pub open spec fn sep_item() -> Seq<char> {
    "{\"sep\":true}"@
}

pub open spec fn id_params(id: u64) -> Seq<char> {
    "\"params\":{\"id\":"@ + decimal(id as nat)
}

pub open spec fn region_item(id: u64, shown: bool, name: Seq<char>, region: Seq<char>, chord: Seq<char>) -> Seq<char> {
    "{\"label\":\""@ + (if shown {
        "Hide"@
    } else {
        "Show"@
    }) + " "@ + name + "\",\"action\":\"toggle_region\","@ + id_params(id) + ",\"region\":\""@ + region
        + "\"},\"chord\":\""@ + chord + "\"}"@
}

pub open spec fn split_item(id: u64, label: Seq<char>, dir: Seq<char>) -> Seq<char> {
    "{\"label\":\""@ + label + "\",\"action\":\"split\","@ + id_params(id) + ",\"dir\":\""@ + dir + "\"}}"@
}

pub open spec fn plain_item(id: u64, label: Seq<char>, action: Seq<char>) -> Seq<char> {
    "{\"label\":\""@ + label + "\",\"action\":\""@ + action + "\","@ + id_params(id) + "}}"@
}

pub open spec fn header_item(id: u64, label: Seq<char>, region: Seq<char>) -> Seq<char> {
    "{\"label\":\""@ + label + "\",\"action\":\"toggle_region\","@ + id_params(id) + ",\"region\":\""@ + region
        + "\"}}"@
}

/// The rows every area menu shares: split either way, then duplicate.
pub open spec fn split_rows(id: u64) -> Seq<char> {
    split_item(id, "Split horizontal"@, "row"@) + ","@ + split_item(id, "Split vertical"@, "col"@) + ","@
        + plain_item(id, "Duplicate"@, "duplicate_area"@)
}

/// The area header's View menu: the region toggles when the editor has
/// regions, then the area operations, the header's own placement, and close.
pub open spec fn view_menu_text(id: u64, toolbar: bool, sidebar: bool, regions: bool) -> Seq<char> {
    "["@ + (if regions {
        region_item(id, toolbar, "Toolbar"@, "toolbar"@, "T"@) + ","@ + region_item(
            id,
            sidebar,
            "Sidebar"@,
            "sidebar"@,
            "N"@,
        ) + ","@ + sep_item() + ","@
    } else {
        ""@
    }) + split_rows(id) + ","@ + sep_item() + ","@ + header_item(id, "Hide header"@, "header"@) + ","@
        + header_item(id, "Flip header"@, "header_flip"@) + ","@ + sep_item() + ","@ + plain_item(
        id,
        "Close area"@,
        "join"@,
    ) + "]"@
}

/// The right-click menu of an area leaf: split either way, then close.
pub open spec fn area_menu_text(id: u64) -> Seq<char> {
    "["@ + split_rows(id) + ","@ + sep_item() + ","@ + plain_item(id, "Close area"@, "join"@) + "]"@
}

fn push_id_params(out: &mut String, id: u64)
    ensures
        final(out)@ == old(out)@ + id_params(id),
{
    push_str(out, "\"params\":{\"id\":");
    push_decimal(out, id);
}

fn push_split_item(out: &mut String, id: u64, label: &str, dir: &str)
    ensures
        final(out)@ == old(out)@ + split_item(id, label@, dir@),
{
    let ghost start = out@;
    push_str(out, "{\"label\":\"");
    push_str(out, label);
    push_str(out, "\",\"action\":\"split\",");
    push_id_params(out, id);
    push_str(out, ",\"dir\":\"");
    push_str(out, dir);
    push_str(out, "\"}}");
    assert(out@ =~= start + split_item(id, label@, dir@));
}

fn push_plain_item(out: &mut String, id: u64, label: &str, action: &str)
    ensures
        final(out)@ == old(out)@ + plain_item(id, label@, action@),
{
    let ghost start = out@;
    push_str(out, "{\"label\":\"");
    push_str(out, label);
    push_str(out, "\",\"action\":\"");
    push_str(out, action);
    push_str(out, "\",");
    push_id_params(out, id);
    push_str(out, "}}");
    assert(out@ =~= start + plain_item(id, label@, action@));
}

fn push_header_item(out: &mut String, id: u64, label: &str, region: &str)
    ensures
        final(out)@ == old(out)@ + header_item(id, label@, region@),
{
    let ghost start = out@;
    push_str(out, "{\"label\":\"");
    push_str(out, label);
    push_str(out, "\",\"action\":\"toggle_region\",");
    push_id_params(out, id);
    push_str(out, ",\"region\":\"");
    push_str(out, region);
    push_str(out, "\"}}");
    assert(out@ =~= start + header_item(id, label@, region@));
}

fn push_split_rows(out: &mut String, id: u64)
    ensures
        final(out)@ == old(out)@ + split_rows(id),
{
    let ghost start = out@;
    push_split_item(out, id, "Split horizontal", "row");
    push_str(out, ",");
    push_split_item(out, id, "Split vertical", "col");
    push_str(out, ",");
    push_plain_item(out, id, "Duplicate", "duplicate_area");
    assert(out@ =~= start + split_rows(id));
}

fn push_region(out: &mut String, id: u64, shown: bool, name: &str, region: &str, chord: &str)
    ensures
        final(out)@ == old(out)@ + region_item(id, shown, name@, region@, chord@),
{
    let ghost start = out@;
    push_str(out, "{\"label\":\"");
    push_str(out, if shown {
        "Hide"
    } else {
        "Show"
    });
    push_str(out, " ");
    push_str(out, name);
    push_str(out, "\",\"action\":\"toggle_region\",");
    push_id_params(out, id);
    push_str(out, ",\"region\":\"");
    push_str(out, region);
    push_str(out, "\"},\"chord\":\"");
    push_str(out, chord);
    push_str(out, "\"}");
    assert(out@ =~= start + region_item(id, shown, name@, region@, chord@));
}

/// The area header's View menu (`view_menu_text`).
pub fn view_menu_json(id: u64, toolbar: bool, sidebar: bool, regions: bool) -> (r: String)
    ensures
        r@ == view_menu_text(id, toolbar, sidebar, regions),
{
    let mut out = "[".to_owned();
    let ghost start = out@;
    if regions {
        push_region(&mut out, id, toolbar, "Toolbar", "toolbar", "T");
        push_str(&mut out, ",");
        push_region(&mut out, id, sidebar, "Sidebar", "sidebar", "N");
        push_str(&mut out, ",");
        push_str(&mut out, "{\"sep\":true}");
        push_str(&mut out, ",");
    } else {
        push_str(&mut out, "");
    }
    let ghost mid = out@;
    assert(mid =~= start + (if regions {
        region_item(id, toolbar, "Toolbar"@, "toolbar"@, "T"@) + ","@ + region_item(
            id,
            sidebar,
            "Sidebar"@,
            "sidebar"@,
            "N"@,
        ) + ","@ + sep_item() + ","@
    } else {
        ""@
    }));
    push_split_rows(&mut out, id);
    push_str(&mut out, ",");
    push_str(&mut out, "{\"sep\":true}");
    push_str(&mut out, ",");
    push_header_item(&mut out, id, "Hide header", "header");
    push_str(&mut out, ",");
    push_header_item(&mut out, id, "Flip header", "header_flip");
    push_str(&mut out, ",");
    push_str(&mut out, "{\"sep\":true}");
    push_str(&mut out, ",");
    push_plain_item(&mut out, id, "Close area", "join");
    push_str(&mut out, "]");
    assert(out@ =~= view_menu_text(id, toolbar, sidebar, regions));
    out
}

/// The right-click menu of an area leaf (`area_menu_text`).
pub fn area_menu_json(id: u64) -> (r: String)
    ensures
        r@ == area_menu_text(id),
{
    let mut out = "[".to_owned();
    push_split_rows(&mut out, id);
    push_str(&mut out, ",");
    push_str(&mut out, "{\"sep\":true}");
    push_str(&mut out, ",");
    push_plain_item(&mut out, id, "Close area", "join");
    push_str(&mut out, "]");
    assert(out@ =~= area_menu_text(id));
    out
}

} // verus!
