//! The command bus: one typed write path for every workbench mutation.
//!
//! Anything a person can do to the layout, an agent must be able to do too,
//! which holds only if there is exactly one way to mutate it: a registry of
//! named commands, each taking JSON parameters. Buttons, gestures, the keymap
//! and the agent endpoint all name a command; none reaches into the tree.
//!
//! A command is a function of the workbench value and its parameters, so its
//! whole effect is stated here: `effect` says what every builtin does to the
//! workbench and what it answers, for every parameter document.

use vstd::prelude::*;

use crate::area::{
    clamp_ratio, cut, find, id_of, ids, layout_ok, leaf_at, leaves, merge, merges, norm, replace,
    restyled, seam_sizes, split_node, toggled, with_width, clamp_width, AreaId, Dir, Layout,
    LayoutView, Node, Region, SCALE,
};
use crate::json::{as_i64, as_str, as_u64, field, Json, JsonV, Number};
use crate::text::{concat, decimal, push_decimal, push_str, str_eq};
use crate::workspace::{workspaces_ok, wrapped, Workspace, Workspaces};

verus! {

/// The workbench as a value: each tab's name and layout, and which is showing.
pub struct WsV {
    pub tabs: Seq<(Seq<char>, LayoutView)>,
    pub active: int,
}

pub open spec fn ws_view(w: &Workspaces) -> WsV {
    WsV {
        tabs: Seq::new(w.tabs@.len(), |i: int| (w.tabs@[i].name@, w.tabs@[i].layout@)),
        active: w.active as int,
    }
}

/// The layout showing.
pub open spec fn cur(w: WsV) -> LayoutView {
    w.tabs[w.active].1
}

/// The workbench with the showing layout replaced.
pub open spec fn with_cur(w: WsV, l: LayoutView) -> WsV {
    WsV { tabs: w.tabs.update(w.active, (w.tabs[w.active].0, l)), active: w.active }
}

/// What a parameter must be.
#[derive(Debug, Clone, Copy, PartialEq, Eq)]
pub enum Want {
    Integer,
    Number,
    Text,
    RegionName,
}

/// Why a command did not run, or did not take.
#[derive(Debug)]
pub enum BusError {
    /// No command has this name.
    Unknown(String),
    /// The command's poll refuses the workbench as it is.
    NotApplicable(String),
    /// A parameter is missing or of the wrong kind.
    BadParam { key: String, want: Want },
    /// A direction parameter that is neither `row` nor `col`.
    BadDir { key: String, got: String },
    /// The command found nothing to act on; the text names the attempt.
    NoSuchArea(String),
    /// `workspace.add` without a layout.
    LayoutRequired,
    /// `workspace.add` with a layout that is not one.
    BadLayout,
    /// The layout has handed out every area id it can.
    IdsExhausted,
    /// A host command failed, or left the workbench malformed.
    Host(String),
}

/// The model of a `BusError`.
pub enum Fail {
    Unknown(Seq<char>),
    NotApplicable(Seq<char>),
    BadParam(Seq<char>, Want),
    BadDir(Seq<char>, Seq<char>),
    NoSuchArea(Seq<char>),
    LayoutRequired,
    BadLayout,
    IdsExhausted,
    Host(Seq<char>),
}

pub open spec fn fail_of(e: BusError) -> Fail {
    match e {
        BusError::Unknown(n) => Fail::Unknown(n@),
        BusError::NotApplicable(n) => Fail::NotApplicable(n@),
        BusError::BadParam { key, want } => Fail::BadParam(key@, want),
        BusError::BadDir { key, got } => Fail::BadDir(key@, got@),
        BusError::NoSuchArea(w) => Fail::NoSuchArea(w@),
        BusError::LayoutRequired => Fail::LayoutRequired,
        BusError::BadLayout => Fail::BadLayout,
        BusError::IdsExhausted => Fail::IdsExhausted,
        BusError::Host(m) => Fail::Host(m@),
    }
}

pub open spec fn res_of(r: Result<(), BusError>) -> Result<(), Fail> {
    match r {
        Ok(()) => Ok(()),
        Err(e) => Err(fail_of(e)),
    }
}

// --- parameters --------------------------------------------------------------

/// `p[key]` as a non-negative integer.
pub open spec fn u64_param(p: JsonV, key: Seq<char>) -> Option<u64> {
    match field(p, key) {
        Some(v) => as_u64(v),
        None => None,
    }
}

/// `p[key]` as text.
pub open spec fn str_param(p: JsonV, key: Seq<char>) -> Option<Seq<char>> {
    match field(p, key) {
        Some(v) => as_str(v),
        None => None,
    }
}

/// A number as a share of the whole: `1` and above is all of it, `0` and
/// below none, a fraction its millionths.
pub open spec fn share_of(j: JsonV) -> Option<u32> {
    match j {
        JsonV::Num(Number::PosInt(n)) => Some(if n >= 1 { SCALE } else { 0 }),
        JsonV::Num(Number::NegInt(_)) => Some(0),
        JsonV::Num(Number::Float(m)) => Some(
            if m <= 0 {
                0
            } else if m >= SCALE {
                SCALE
            } else {
                m as u32
            },
        ),
        _ => None,
    }
}

pub open spec fn share_param(p: JsonV, key: Seq<char>) -> Option<u32> {
    match field(p, key) {
        Some(v) => share_of(v),
        None => None,
    }
}

/// A region by its wire name.
pub open spec fn region_of(j: JsonV) -> Option<Region> {
    match j {
        JsonV::Str(s) => if s == "toolbar"@ {
            Some(Region::Toolbar)
        } else if s == "sidebar"@ {
            Some(Region::Sidebar)
        } else if s == "header"@ {
            Some(Region::Header)
        } else if s == "header_flip"@ {
            Some(Region::HeaderFlip)
        } else {
            None
        },
        _ => None,
    }
}

pub open spec fn region_param(p: JsonV, key: Seq<char>) -> Option<Region> {
    match field(p, key) {
        Some(v) => region_of(v),
        None => None,
    }
}

/// A direction parameter: a string that is `row` or `col`.
pub open spec fn dir_param(p: JsonV, key: Seq<char>) -> Result<Dir, Fail> {
    match str_param(p, key) {
        None => Err(Fail::BadParam(key, Want::Text)),
        Some(s) => if s == "row"@ {
            Ok(Dir::Row)
        } else if s == "col"@ {
            Ok(Dir::Col)
        } else {
            Err(Fail::BadDir(key, s))
        },
    }
}

fn u64_field(p: &Json, key: &str) -> (r: Result<u64, BusError>)
    ensures
        match u64_param(p@, key@) {
            Some(n) => r == Ok::<u64, BusError>(n),
            None => r is Err && fail_of(r->Err_0) == Fail::BadParam(key@, Want::Integer),
        },
{
    match p.get(key) {
        Some(v) => match v.as_u64() {
            Some(n) => Ok(n),
            None => Err(BusError::BadParam { key: key.to_owned(), want: Want::Integer }),
        },
        None => Err(BusError::BadParam { key: key.to_owned(), want: Want::Integer }),
    }
}

fn str_field<'a>(p: &'a Json, key: &str) -> (r: Result<&'a str, BusError>)
    ensures
        match str_param(p@, key@) {
            Some(s) => r is Ok && r->Ok_0@ == s,
            None => r is Err && fail_of(r->Err_0) == Fail::BadParam(key@, Want::Text),
        },
{
    match p.get(key) {
        Some(v) => match v.as_str() {
            Some(s) => Ok(s),
            None => Err(BusError::BadParam { key: key.to_owned(), want: Want::Text }),
        },
        None => Err(BusError::BadParam { key: key.to_owned(), want: Want::Text }),
    }
}

fn share_field(p: &Json, key: &str) -> (r: Result<u32, BusError>)
    ensures
        match share_param(p@, key@) {
            Some(n) => r == Ok::<u32, BusError>(n),
            None => r is Err && fail_of(r->Err_0) == Fail::BadParam(key@, Want::Number),
        },
{
    match p.get(key) {
        Some(Json::Num(Number::PosInt(n))) => Ok(
            if *n >= 1 {
                SCALE
            } else {
                0
            },
        ),
        Some(Json::Num(Number::NegInt(_))) => Ok(0),
        Some(Json::Num(Number::Float(m))) => Ok(
            if *m <= 0 {
                0
            } else if *m >= SCALE as i64 {
                SCALE
            } else {
                *m as u32
            },
        ),
        _ => Err(BusError::BadParam { key: key.to_owned(), want: Want::Number }),
    }
}

fn region_field(p: &Json, key: &str) -> (r: Result<Region, BusError>)
    ensures
        match region_param(p@, key@) {
            Some(g) => r == Ok::<Region, BusError>(g),
            None => r is Err && fail_of(r->Err_0) == Fail::BadParam(key@, Want::RegionName),
        },
{
    let bad = BusError::BadParam { key: key.to_owned(), want: Want::RegionName };
    match p.get(key) {
        Some(Json::Str(s)) => {
            let s = s.as_str();
            if str_eq(s, "toolbar") {
                Ok(Region::Toolbar)
            } else if str_eq(s, "sidebar") {
                Ok(Region::Sidebar)
            } else if str_eq(s, "header") {
                Ok(Region::Header)
            } else if str_eq(s, "header_flip") {
                Ok(Region::HeaderFlip)
            } else {
                Err(bad)
            }
        },
        _ => Err(bad),
    }
}

fn dir_field(p: &Json, key: &str) -> (r: Result<Dir, BusError>)
    ensures
        match dir_param(p@, key@) {
            Ok(d) => r == Ok::<Dir, BusError>(d),
            Err(f) => r is Err && fail_of(r->Err_0) == f,
        },
{
    let s = str_field(p, key)?;
    if str_eq(s, "row") {
        Ok(Dir::Row)
    } else if str_eq(s, "col") {
        Ok(Dir::Col)
    } else {
        Err(BusError::BadDir { key: key.to_owned(), got: s.to_owned() })
    }
}


// --- what the builtins do ----------------------------------------------------

/// The layout after `split(target, dir, r)`: two ids minted whether or not the
/// target is a leaf, and the leaf, if it is one, split in two.
pub open spec fn split_v(l: LayoutView, target: AreaId, dir: Dir, r: u32) -> LayoutView {
    LayoutView {
        root: match leaf_at(l.root, target) {
            Some(leaf) => norm(
                replace(
                    l.root,
                    target,
                    split_node(leaf, l.next_id, (l.next_id + 1) as AreaId, dir, clamp_ratio(r)),
                ),
            ),
            None => l.root,
        },
        next_id: (l.next_id + 2) as AreaId,
    }
}

/// The layout with the node `id` replaced by `n`.
pub open spec fn put_v(l: LayoutView, id: AreaId, n: Node) -> LayoutView {
    LayoutView { root: replace(l.root, id, n), next_id: l.next_id }
}

/// The answer of a command that found nothing to act on.
pub open spec fn missing(w: WsV, what: Seq<char>) -> (WsV, Result<(), Fail>) {
    (w, Err(Fail::NoSuchArea(what)))
}

pub open spec fn dec(n: u64) -> Seq<char> {
    decimal(n as nat)
}

pub open spec fn effect_split(w: WsV, p: JsonV) -> (WsV, Result<(), Fail>) {
    match u64_param(p, "id"@) {
        None => (w, Err(Fail::BadParam("id"@, Want::Integer))),
        Some(id) => match dir_param(p, "dir"@) {
            Err(f) => (w, Err(f)),
            Ok(dir) => {
                let r = match share_param(p, "frac"@) {
                    Some(s) => s,
                    None => (SCALE / 2) as u32,
                };
                if cur(w).next_id >= u64::MAX - 1 {
                    (w, Err(Fail::IdsExhausted))
                } else {
                    (
                        with_cur(w, split_v(cur(w), id, dir, r)),
                        if leaf_at(cur(w).root, id) is Some {
                            Ok(())
                        } else {
                            Err(Fail::NoSuchArea("split "@ + dec(id)))
                        },
                    )
                }
            },
        },
    }
}


/// `cmd` followed by `id` in decimal.
fn what1(cmd: &str, id: u64) -> (r: String)
    ensures
        r@ == cmd@ + dec(id),
{
    let mut r = cmd.to_owned();
    push_decimal(&mut r, id);
    r
}

/// The workbench after its showing layout changed in place.
proof fn lemma_with_cur(before: &Workspaces, after: &Workspaces)
    requires
        workspaces_ok(before),
        after.active == before.active,
        after.tabs@.len() == before.tabs@.len(),
        after.tabs@[before.active as int].name == before.tabs@[before.active as int].name,
        forall|j: int|
            0 <= j < before.tabs@.len() && j != before.active ==> #[trigger] after.tabs@[j]
                == before.tabs@[j],
    ensures
        ws_view(after) == with_cur(ws_view(before), after.tabs@[before.active as int].layout@),
{
    assert(ws_view(after).tabs =~= with_cur(
        ws_view(before),
        after.tabs@[before.active as int].layout@,
    ).tabs);
}

fn op_split(ws: &mut Workspaces, p: &Json) -> (r: Result<(), BusError>)
    requires
        workspaces_ok(old(ws)),
    ensures
        workspaces_ok(final(ws)),
        (ws_view(final(ws)), res_of(r)) == effect_split(ws_view(old(ws)), p@),
{
    let id = u64_field(p, "id")?;
    let dir = dir_field(p, "dir")?;
    let r = match share_field(p, "frac") {
        Ok(s) => s,
        Err(_) => SCALE / 2,
    };
    if ws.current().layout.next_id() >= u64::MAX - 1 {
        return Err(BusError::IdsExhausted);
    }
    let ghost before = *ws;
    let l = ws.current_layout_mut();
    let made = l.split(id, dir, r);
    proof {
        lemma_with_cur(&before, ws);
    }
    match made {
        Some(_) => Ok(()),
        None => Err(BusError::NoSuchArea(what1("split ", id))),
    }
}


/// The answer of a command that acts on the showing layout and may find
/// nothing to act on.
pub open spec fn took(w: WsV, ok: bool, l: LayoutView, what: Seq<char>) -> (WsV, Result<(), Fail>) {
    if ok {
        (with_cur(w, l), Ok(()))
    } else {
        missing(w, what)
    }
}

pub open spec fn effect_join(w: WsV, p: JsonV) -> (WsV, Result<(), Fail>) {
    match u64_param(p, "id"@) {
        None => (w, Err(Fail::BadParam("id"@, Want::Integer))),
        Some(id) => took(
            w,
            ids(cur(w).root).contains(id) && id_of(cur(w).root) != id,
            LayoutView { root: norm(cut(cur(w).root, id)), next_id: cur(w).next_id },
            "join "@ + dec(id),
        ),
    }
}

pub open spec fn effect_join_into(w: WsV, p: JsonV) -> (WsV, Result<(), Fail>) {
    match u64_param(p, "survivor"@) {
        None => (w, Err(Fail::BadParam("survivor"@, Want::Integer))),
        Some(a) => match u64_param(p, "victim"@) {
            None => (w, Err(Fail::BadParam("victim"@, Want::Integer))),
            Some(b) => took(
                w,
                merges(cur(w).root, a, b),
                LayoutView { root: norm(merge(cur(w).root, a, b)), next_id: cur(w).next_id },
                "join "@ + dec(b) + " into "@ + dec(a),
            ),
        },
    }
}

pub open spec fn effect_ratio(w: WsV, p: JsonV) -> (WsV, Result<(), Fail>) {
    match u64_param(p, "id"@) {
        None => (w, Err(Fail::BadParam("id"@, Want::Integer))),
        Some(id) => {
            let index: usize = match u64_param(p, "index"@) {
                Some(n) => n as usize,
                None => 0,
            };
            match share_param(p, "ratio"@) {
                None => (w, Err(Fail::BadParam("ratio"@, Want::Number))),
                Some(pos) => {
                    let n = find(cur(w).root, id)->0;
                    took(
                        w,
                        find(cur(w).root, id) matches Some(Node::Split { sizes, .. }) && index + 1
                            < sizes.len(),
                        put_v(
                            cur(w),
                            id,
                            Node::Split {
                                id,
                                dir: n->dir,
                                sizes: seam_sizes(n->sizes, index as int, pos),
                                children: n->children,
                            },
                        ),
                        "ratio "@ + dec(id),
                    )
                },
            }
        },
    }
}

pub open spec fn effect_set_region_width(w: WsV, p: JsonV) -> (WsV, Result<(), Fail>) {
    match u64_param(p, "id"@) {
        None => (w, Err(Fail::BadParam("id"@, Want::Integer))),
        Some(id) => match region_param(p, "region"@) {
            None => (w, Err(Fail::BadParam("region"@, Want::RegionName))),
            Some(region) => match u64_param(p, "w"@) {
                None => (w, Err(Fail::BadParam("w"@, Want::Integer))),
                Some(px) => {
                    let leaf = leaf_at(cur(w).root, id)->0;
                    took(
                        w,
                        leaf_at(cur(w).root, id) is Some && (region == Region::Toolbar || region
                            == Region::Sidebar),
                        put_v(
                            cur(w),
                            id,
                            restyled(leaf, with_width(leaf->regions, region, clamp_width(px as u16))),
                        ),
                        "set_region_width "@ + dec(id),
                    )
                },
            },
        },
    }
}

pub open spec fn effect_toggle_region(w: WsV, p: JsonV) -> (WsV, Result<(), Fail>) {
    match u64_param(p, "id"@) {
        None => (w, Err(Fail::BadParam("id"@, Want::Integer))),
        Some(id) => match region_param(p, "region"@) {
            None => (w, Err(Fail::BadParam("region"@, Want::RegionName))),
            Some(region) => {
                let leaf = leaf_at(cur(w).root, id)->0;
                took(
                    w,
                    leaf_at(cur(w).root, id) is Some,
                    put_v(cur(w), id, restyled(leaf, toggled(leaf->regions, region))),
                    "toggle_region "@ + dec(id),
                )
            },
        },
    }
}

/// The layout with leaves `a` and `b` showing each other's editor.
pub open spec fn swapped_v(l: LayoutView, a: AreaId, b: AreaId) -> LayoutView {
    let la = leaf_at(l.root, a)->0;
    let lb = leaf_at(l.root, b)->0;
    LayoutView {
        root: replace(
            replace(
                l.root,
                a,
                Node::Leaf { id: a, editor: lb->editor, arg: lb->arg, regions: la->regions },
            ),
            b,
            Node::Leaf { id: b, editor: la->editor, arg: la->arg, regions: lb->regions },
        ),
        next_id: l.next_id,
    }
}

pub open spec fn effect_swap(w: WsV, p: JsonV) -> (WsV, Result<(), Fail>) {
    match u64_param(p, "a"@) {
        None => (w, Err(Fail::BadParam("a"@, Want::Integer))),
        Some(a) => match u64_param(p, "b"@) {
            None => (w, Err(Fail::BadParam("b"@, Want::Integer))),
            Some(b) => took(
                w,
                a != b && leaf_at(cur(w).root, a) is Some && leaf_at(cur(w).root, b) is Some,
                swapped_v(cur(w), a, b),
                "swap "@ + dec(a) + " "@ + dec(b),
            ),
        },
    }
}

/// The layout with leaf `id` showing `editor` with `arg`, regions kept.
pub open spec fn shown_v(l: LayoutView, id: AreaId, editor: Seq<char>, arg: Option<Seq<char>>) -> LayoutView {
    put_v(
        l,
        id,
        Node::Leaf { id, editor, arg, regions: leaf_at(l.root, id)->0->regions },
    )
}

pub open spec fn effect_set_editor(w: WsV, p: JsonV) -> (WsV, Result<(), Fail>) {
    match u64_param(p, "id"@) {
        None => (w, Err(Fail::BadParam("id"@, Want::Integer))),
        Some(id) => match str_param(p, "editor"@) {
            None => (w, Err(Fail::BadParam("editor"@, Want::Text))),
            Some(editor) => took(
                w,
                leaf_at(cur(w).root, id) is Some,
                shown_v(cur(w), id, editor, None),
                "set_editor "@ + dec(id),
            ),
        },
    }
}

pub open spec fn effect_set_target(w: WsV, p: JsonV) -> (WsV, Result<(), Fail>) {
    match u64_param(p, "id"@) {
        None => (w, Err(Fail::BadParam("id"@, Want::Integer))),
        Some(id) => {
            let target = match str_param(p, "target"@) {
                Some(t) => t,
                None => Seq::<char>::empty(),
            };
            took(
                w,
                leaf_at(cur(w).root, id) is Some,
                shown_v(
                    cur(w),
                    id,
                    leaf_at(cur(w).root, id)->0->editor,
                    if target.len() == 0 {
                        None
                    } else {
                        Some(target)
                    },
                ),
                "set_target "@ + dec(id),
            )
        },
    }
}

pub open spec fn effect_open_editor(w: WsV, p: JsonV) -> (WsV, Result<(), Fail>) {
    match u64_param(p, "id"@) {
        None => (w, Err(Fail::BadParam("id"@, Want::Integer))),
        Some(id) => match str_param(p, "editor"@) {
            None => (w, Err(Fail::BadParam("editor"@, Want::Text))),
            Some(editor) => match str_param(p, "arg"@) {
                None => (w, Err(Fail::BadParam("arg"@, Want::Text))),
                Some(arg) => took(
                    w,
                    leaf_at(cur(w).root, id) is Some,
                    shown_v(cur(w), id, editor, Some(arg)),
                    "open_editor "@ + dec(id),
                ),
            },
        },
    }
}

pub open spec fn effect_duplicate_area(w: WsV, p: JsonV) -> (WsV, Result<(), Fail>) {
    match u64_param(p, "id"@) {
        None => (w, Err(Fail::BadParam("id"@, Want::Integer))),
        Some(id) => if cur(w).next_id >= u64::MAX - 1 {
            (w, Err(Fail::IdsExhausted))
        } else {
            let l1 = split_v(cur(w), id, Dir::Row, (SCALE / 2) as u32);
            match leaf_at(cur(w).root, id) {
                None => (with_cur(w, l1), Err(Fail::NoSuchArea("duplicate_area "@ + dec(id)))),
                Some(src) => {
                    let fresh = (cur(w).next_id + 1) as AreaId;
                    (
                        with_cur(
                            w,
                            if leaf_at(l1.root, fresh) is Some {
                                shown_v(l1, fresh, src->editor, src->arg)
                            } else {
                                l1
                            },
                        ),
                        Ok(()),
                    )
                },
            }
        },
    }
}

proof fn lemma_with_cur_same(w: WsV)
    requires
        0 <= w.active < w.tabs.len(),
    ensures
        with_cur(w, cur(w)) == w,
{
    assert(with_cur(w, cur(w)).tabs =~= w.tabs);
}

fn op_join(ws: &mut Workspaces, p: &Json) -> (r: Result<(), BusError>)
    requires
        workspaces_ok(old(ws)),
    ensures
        workspaces_ok(final(ws)),
        (ws_view(final(ws)), res_of(r)) == effect_join(ws_view(old(ws)), p@),
{
    let id = u64_field(p, "id")?;
    let ghost before = *ws;
    let l = ws.current_layout_mut();
    let ok = l.join(id);
    proof {
        lemma_with_cur(&before, ws);
        lemma_with_cur_same(ws_view(&before));
    }
    if ok {
        Ok(())
    } else {
        Err(BusError::NoSuchArea(what1("join ", id)))
    }
}

fn op_join_into(ws: &mut Workspaces, p: &Json) -> (r: Result<(), BusError>)
    requires
        workspaces_ok(old(ws)),
    ensures
        workspaces_ok(final(ws)),
        (ws_view(final(ws)), res_of(r)) == effect_join_into(ws_view(old(ws)), p@),
{
    let a = u64_field(p, "survivor")?;
    let b = u64_field(p, "victim")?;
    let ghost before = *ws;
    let l = ws.current_layout_mut();
    let ok = l.join_into(a, b);
    proof {
        lemma_with_cur(&before, ws);
        lemma_with_cur_same(ws_view(&before));
    }
    if ok {
        Ok(())
    } else {
        let mut m = what1("join ", b);
        push_str(&mut m, " into ");
        push_decimal(&mut m, a);
        Err(BusError::NoSuchArea(m))
    }
}

fn op_ratio(ws: &mut Workspaces, p: &Json) -> (r: Result<(), BusError>)
    requires
        workspaces_ok(old(ws)),
    ensures
        workspaces_ok(final(ws)),
        (ws_view(final(ws)), res_of(r)) == effect_ratio(ws_view(old(ws)), p@),
{
    let id = u64_field(p, "id")?;
    let index: usize = match u64_field(p, "index") {
        Ok(n) => n as usize,
        Err(_) => 0,
    };
    let pos = share_field(p, "ratio")?;
    let ghost before = *ws;
    let l = ws.current_layout_mut();
    let ok = l.set_seam(id, index, pos);
    proof {
        lemma_with_cur(&before, ws);
        lemma_with_cur_same(ws_view(&before));
    }
    if ok {
        Ok(())
    } else {
        Err(BusError::NoSuchArea(what1("ratio ", id)))
    }
}

fn op_set_region_width(ws: &mut Workspaces, p: &Json) -> (r: Result<(), BusError>)
    requires
        workspaces_ok(old(ws)),
    ensures
        workspaces_ok(final(ws)),
        (ws_view(final(ws)), res_of(r)) == effect_set_region_width(ws_view(old(ws)), p@),
{
    let id = u64_field(p, "id")?;
    let region = region_field(p, "region")?;
    let px = u64_field(p, "w")?;
    let ghost before = *ws;
    let l = ws.current_layout_mut();
    let ok = l.set_region_width(id, region, px as u16);
    proof {
        lemma_with_cur(&before, ws);
        lemma_with_cur_same(ws_view(&before));
    }
    if ok {
        Ok(())
    } else {
        Err(BusError::NoSuchArea(what1("set_region_width ", id)))
    }
}

fn op_toggle_region(ws: &mut Workspaces, p: &Json) -> (r: Result<(), BusError>)
    requires
        workspaces_ok(old(ws)),
    ensures
        workspaces_ok(final(ws)),
        (ws_view(final(ws)), res_of(r)) == effect_toggle_region(ws_view(old(ws)), p@),
{
    let id = u64_field(p, "id")?;
    let region = region_field(p, "region")?;
    let ghost before = *ws;
    let l = ws.current_layout_mut();
    let ok = l.toggle_region(id, region);
    proof {
        lemma_with_cur(&before, ws);
        lemma_with_cur_same(ws_view(&before));
    }
    if ok {
        Ok(())
    } else {
        Err(BusError::NoSuchArea(what1("toggle_region ", id)))
    }
}

fn op_swap(ws: &mut Workspaces, p: &Json) -> (r: Result<(), BusError>)
    requires
        workspaces_ok(old(ws)),
    ensures
        workspaces_ok(final(ws)),
        (ws_view(final(ws)), res_of(r)) == effect_swap(ws_view(old(ws)), p@),
{
    let a = u64_field(p, "a")?;
    let b = u64_field(p, "b")?;
    let ghost before = *ws;
    let l = ws.current_layout_mut();
    let ok = l.swap_editors(a, b);
    proof {
        lemma_with_cur(&before, ws);
        lemma_with_cur_same(ws_view(&before));
    }
    if ok {
        Ok(())
    } else {
        let mut m = what1("swap ", a);
        push_str(&mut m, " ");
        push_decimal(&mut m, b);
        Err(BusError::NoSuchArea(m))
    }
}

fn op_set_editor(ws: &mut Workspaces, p: &Json) -> (r: Result<(), BusError>)
    requires
        workspaces_ok(old(ws)),
    ensures
        workspaces_ok(final(ws)),
        (ws_view(final(ws)), res_of(r)) == effect_set_editor(ws_view(old(ws)), p@),
{
    let id = u64_field(p, "id")?;
    let editor = str_field(p, "editor")?;
    let ghost before = *ws;
    let l = ws.current_layout_mut();
    let ok = l.set_editor(id, editor);
    proof {
        lemma_with_cur(&before, ws);
        lemma_with_cur_same(ws_view(&before));
    }
    if ok {
        Ok(())
    } else {
        Err(BusError::NoSuchArea(what1("set_editor ", id)))
    }
}

fn op_set_target(ws: &mut Workspaces, p: &Json) -> (r: Result<(), BusError>)
    requires
        workspaces_ok(old(ws)),
    ensures
        workspaces_ok(final(ws)),
        (ws_view(final(ws)), res_of(r)) == effect_set_target(ws_view(old(ws)), p@),
{
    let id = u64_field(p, "id")?;
    let target = match str_field(p, "target") {
        Ok(t) => t,
        Err(_) => "",
    };
    proof {
        if str_param(p@, "target"@) is None {
            assert(target@ =~= Seq::<char>::empty()) by {
                reveal_strlit("");
            }
        }
    }
    let ghost before = *ws;
    let l = ws.current_layout_mut();
    let ok = l.set_target(id, target);
    proof {
        lemma_with_cur(&before, ws);
        lemma_with_cur_same(ws_view(&before));
    }
    if ok {
        Ok(())
    } else {
        Err(BusError::NoSuchArea(what1("set_target ", id)))
    }
}

fn op_open_editor(ws: &mut Workspaces, p: &Json) -> (r: Result<(), BusError>)
    requires
        workspaces_ok(old(ws)),
    ensures
        workspaces_ok(final(ws)),
        (ws_view(final(ws)), res_of(r)) == effect_open_editor(ws_view(old(ws)), p@),
{
    let id = u64_field(p, "id")?;
    let editor = str_field(p, "editor")?;
    let arg = str_field(p, "arg")?;
    let ghost before = *ws;
    let l = ws.current_layout_mut();
    let ok = l.set_editor_arg(id, editor, arg);
    proof {
        lemma_with_cur(&before, ws);
        lemma_with_cur_same(ws_view(&before));
    }
    if ok {
        Ok(())
    } else {
        Err(BusError::NoSuchArea(what1("open_editor ", id)))
    }
}

fn op_duplicate_area(ws: &mut Workspaces, p: &Json) -> (r: Result<(), BusError>)
    requires
        workspaces_ok(old(ws)),
    ensures
        workspaces_ok(final(ws)),
        (ws_view(final(ws)), res_of(r)) == effect_duplicate_area(ws_view(old(ws)), p@),
{
    let id = u64_field(p, "id")?;
    if ws.current().layout.next_id() >= u64::MAX - 1 {
        return Err(BusError::IdsExhausted);
    }
    let src: Option<(String, Option<String>)> = match ws.current().layout.root().find(id) {
        Some(crate::area::Area::Leaf { editor, arg, .. }) => Some((editor.clone(), arg.clone())),
        _ => None,
    };
    let ghost before = *ws;
    let l = ws.current_layout_mut();
    let made = l.split(id, Dir::Row, SCALE / 2);
    match (src, made) {
        (Some((editor, arg)), Some(fresh)) => {
            match arg {
                Some(a) => {
                    l.set_editor_arg(fresh, editor.as_str(), a.as_str());
                },
                None => {
                    l.set_editor(fresh, editor.as_str());
                },
            }
            proof {
                lemma_with_cur(&before, ws);
            }
            Ok(())
        },
        _ => {
            proof {
                lemma_with_cur(&before, ws);
            }
            Err(BusError::NoSuchArea(what1("duplicate_area ", id)))
        },
    }
}


// --- the workspace family ----------------------------------------------------

pub open spec fn effect_ws_switch(w: WsV, p: JsonV) -> (WsV, Result<(), Fail>) {
    match u64_param(p, "index"@) {
        None => (w, Err(Fail::BadParam("index"@, Want::Integer))),
        Some(n) => {
            let i = (n as usize) as int;
            (
                if i < w.tabs.len() {
                    WsV { tabs: w.tabs, active: i }
                } else {
                    w
                },
                Ok(()),
            )
        },
    }
}

/// The `delta` parameter, one step forward when absent.
pub open spec fn delta_param(p: JsonV) -> i32 {
    match field(p, "delta"@) {
        Some(v) => match as_i64(v) {
            Some(d) => d as i32,
            None => 1,
        },
        None => 1,
    }
}

pub open spec fn effect_ws_cycle(w: WsV, p: JsonV) -> (WsV, Result<(), Fail>) {
    (
        WsV {
            tabs: w.tabs,
            active: wrapped(w.active, delta_param(p) as int, w.tabs.len() as int),
        },
        Ok(()),
    )
}

pub open spec fn effect_ws_add(w: WsV, p: JsonV) -> (WsV, Result<(), Fail>) {
    match str_param(p, "name"@) {
        None => (w, Err(Fail::BadParam("name"@, Want::Text))),
        Some(name) => match field(p, "layout"@) {
            None => (w, Err(Fail::LayoutRequired)),
            Some(j) => match crate::layout_json::layout_of(j) {
                None => (w, Err(Fail::BadLayout)),
                Some(l) => (WsV { tabs: w.tabs.push((name, l)), active: w.tabs.len() as int }, Ok(())),
            },
        },
    }
}

pub open spec fn effect_ws_rename(w: WsV, p: JsonV) -> (WsV, Result<(), Fail>) {
    match u64_param(p, "index"@) {
        None => (w, Err(Fail::BadParam("index"@, Want::Integer))),
        Some(n) => match str_param(p, "name"@) {
            None => (w, Err(Fail::BadParam("name"@, Want::Text))),
            Some(name) => {
                let i = (n as usize) as int;
                (
                    if i < w.tabs.len() && crate::text::trimmed(name).len() > 0 {
                        WsV {
                            tabs: w.tabs.update(i, (crate::text::trimmed(name), w.tabs[i].1)),
                            active: w.active,
                        }
                    } else {
                        w
                    },
                    Ok(()),
                )
            },
        },
    }
}

pub open spec fn effect_ws_duplicate(w: WsV) -> (WsV, Result<(), Fail>) {
    (
        WsV {
            tabs: w.tabs.push((w.tabs[w.active].0 + " copy"@, cur(w))),
            active: w.tabs.len() as int,
        },
        Ok(()),
    )
}

pub open spec fn effect_ws_move(w: WsV, p: JsonV) -> (WsV, Result<(), Fail>) {
    match u64_param(p, "from"@) {
        None => (w, Err(Fail::BadParam("from"@, Want::Integer))),
        Some(f) => match u64_param(p, "to"@) {
            None => (w, Err(Fail::BadParam("to"@, Want::Integer))),
            Some(t) => {
                let from = (f as usize) as int;
                let to = (t as usize) as int;
                let n = w.tabs.len() as int;
                if from < n && to < n && from != to {
                    (
                        WsV {
                            tabs: w.tabs.remove(from).insert(to, w.tabs[from]),
                            active: crate::workspace::moved_active(w.active, from, to, n),
                        },
                        Ok(()),
                    )
                } else {
                    missing(w, "workspace.move "@ + dec(f as usize as u64) + "->"@ + dec(t as usize as u64))
                }
            },
        },
    }
}

pub open spec fn effect_ws_close(w: WsV, p: JsonV) -> (WsV, Result<(), Fail>) {
    match u64_param(p, "index"@) {
        None => (w, Err(Fail::BadParam("index"@, Want::Integer))),
        Some(n) => {
            let i = (n as usize) as int;
            (
                if w.tabs.len() > 1 && i < w.tabs.len() {
                    WsV {
                        tabs: w.tabs.remove(i),
                        active: if w.active >= i && w.active > 0 {
                            w.active - 1
                        } else {
                            w.active
                        },
                    }
                } else {
                    w
                },
                Ok(()),
            )
        },
    }
}

fn op_ws_switch(ws: &mut Workspaces, p: &Json) -> (r: Result<(), BusError>)
    requires
        workspaces_ok(old(ws)),
    ensures
        workspaces_ok(final(ws)),
        (ws_view(final(ws)), res_of(r)) == effect_ws_switch(ws_view(old(ws)), p@),
{
    let n = u64_field(p, "index")?;
    ws.switch(n as usize);
    Ok(())
}

fn op_ws_cycle(ws: &mut Workspaces, p: &Json) -> (r: Result<(), BusError>)
    requires
        workspaces_ok(old(ws)),
    ensures
        workspaces_ok(final(ws)),
        (ws_view(final(ws)), res_of(r)) == effect_ws_cycle(ws_view(old(ws)), p@),
{
    let delta: i32 = match p.get("delta") {
        Some(v) => match v.as_i64() {
            Some(d) => d as i32,
            None => 1,
        },
        None => 1,
    };
    ws.cycle(delta);
    Ok(())
}

fn op_ws_add(ws: &mut Workspaces, p: &Json) -> (r: Result<(), BusError>)
    requires
        workspaces_ok(old(ws)),
    ensures
        workspaces_ok(final(ws)),
        (ws_view(final(ws)), res_of(r)) == effect_ws_add(ws_view(old(ws)), p@),
{
    let name = str_field(p, "name")?;
    let j = match p.get("layout") {
        Some(j) => j,
        None => {
            return Err(BusError::LayoutRequired);
        },
    };
    let layout = match crate::layout_json::layout_from(j) {
        Some(l) => l,
        None => {
            return Err(BusError::BadLayout);
        },
    };
    let ghost before = ws_view(ws);
    ws.add(name, layout);
    assert(ws_view(ws).tabs =~= before.tabs.push((name@, layout@)));
    Ok(())
}

fn op_ws_rename(ws: &mut Workspaces, p: &Json) -> (r: Result<(), BusError>)
    requires
        workspaces_ok(old(ws)),
    ensures
        workspaces_ok(final(ws)),
        (ws_view(final(ws)), res_of(r)) == effect_ws_rename(ws_view(old(ws)), p@),
{
    let n = u64_field(p, "index")?;
    let name = str_field(p, "name")?;
    let ghost before = ws_view(ws);
    let done = ws.rename(n as usize, name);
    proof {
        let i = (n as usize) as int;
        if done {
            assert(ws_view(ws).tabs =~= before.tabs.update(
                i,
                (crate::text::trimmed(name@), before.tabs[i].1),
            ));
        } else {
            assert(ws_view(ws).tabs =~= before.tabs);
        }
    }
    Ok(())
}

fn op_ws_duplicate(ws: &mut Workspaces) -> (r: Result<(), BusError>)
    requires
        workspaces_ok(old(ws)),
    ensures
        workspaces_ok(final(ws)),
        (ws_view(final(ws)), res_of(r)) == effect_ws_duplicate(ws_view(old(ws))),
{
    let name = concat(ws.current().name.as_str(), " copy");
    let layout = ws.current().layout.copy();
    let ghost before = ws_view(ws);
    ws.add(name.as_str(), layout);
    assert(ws_view(ws).tabs =~= before.tabs.push((name@, layout@)));
    Ok(())
}

fn op_ws_move(ws: &mut Workspaces, p: &Json) -> (r: Result<(), BusError>)
    requires
        workspaces_ok(old(ws)),
    ensures
        workspaces_ok(final(ws)),
        (ws_view(final(ws)), res_of(r)) == effect_ws_move(ws_view(old(ws)), p@),
{
    let f = u64_field(p, "from")?;
    let t = u64_field(p, "to")?;
    let from = f as usize;
    let to = t as usize;
    let ghost before = ws_view(ws);
    let ghost old_tabs = ws.tabs@;
    if ws.move_tab(from, to) {
        assert(ws_view(ws).tabs =~= before.tabs.remove(from as int).insert(to as int, before.tabs[from as int]));
        Ok(())
    } else {
        let mut m = what1("workspace.move ", from as u64);
        push_str(&mut m, "->");
        push_decimal(&mut m, to as u64);
        Err(BusError::NoSuchArea(m))
    }
}

fn op_ws_close(ws: &mut Workspaces, p: &Json) -> (r: Result<(), BusError>)
    requires
        workspaces_ok(old(ws)),
    ensures
        workspaces_ok(final(ws)),
        (ws_view(final(ws)), res_of(r)) == effect_ws_close(ws_view(old(ws)), p@),
{
    let n = u64_field(p, "index")?;
    let ghost before = ws_view(ws);
    if ws.close(n as usize) {
        assert(ws_view(ws).tabs =~= before.tabs.remove((n as usize) as int));
    }
    Ok(())
}


// --- the registry ------------------------------------------------------------

/// When a command can run: Blender's `poll()`. A menu greys out what fails
/// it and the bus refuses it, so a control that cannot do anything says so.
#[derive(Debug, Clone, Copy, PartialEq, Eq)]
pub enum Poll {
    /// There is no workbench where it makes no sense.
    Always,
    /// It acts across areas: needs a second one.
    ManyAreas,
    /// It acts across workspaces: needs a second one.
    ManyWorkspaces,
}

pub open spec fn poll_ok(p: Poll, w: WsV) -> bool {
    match p {
        Poll::Always => true,
        Poll::ManyAreas => leaves(cur(w).root).len() > 1,
        Poll::ManyWorkspaces => w.tabs.len() > 1,
    }
}

/// The operations the library ships on its own types.
#[derive(Debug, Clone, Copy, PartialEq, Eq)]
pub enum Builtin {
    Split,
    Join,
    JoinInto,
    Ratio,
    SetRegionWidth,
    ToggleRegion,
    DuplicateArea,
    Swap,
    SetEditor,
    SetTarget,
    OpenEditor,
    WorkspaceSwitch,
    WorkspaceCycle,
    WorkspaceAdd,
    WorkspaceRename,
    WorkspaceDuplicate,
    WorkspaceMove,
    WorkspaceClose,
}

/// What running a command does: a builtin, or whatever the host says.
#[derive(Debug, Clone, Copy, PartialEq, Eq)]
pub enum Op {
    Builtin(Builtin),
    Host,
}

/// One named operation on the workbench.
pub struct Command {
    pub name: String,
    /// Human- and agent-facing: a palette entry, a tool description.
    pub description: String,
    /// Pure navigation: not recorded for undo.
    pub navigational: bool,
    pub poll: Poll,
    pub op: Op,
}

/// A command as a value: its name, description, whether it is navigation,
/// when it can run and what it does.
pub struct CmdV {
    pub name: Seq<char>,
    pub description: Seq<char>,
    pub navigational: bool,
    pub poll: Poll,
    pub op: Op,
}

impl View for Command {
    type V = CmdV;

    open spec fn view(&self) -> CmdV {
        CmdV {
            name: self.name@,
            description: self.description@,
            navigational: self.navigational,
            poll: self.poll,
            op: self.op,
        }
    }
}

/// A host's own commands: the library runs them through the same bus, on a
/// copy of the workbench, and keeps the result only if it is well formed.
pub trait Host {
    fn run(&self, name: &str, ws: &Workspaces, params: &Json) -> Result<Workspaces, String>;
}

/// A host with no commands of its own.
pub struct NoHost;

impl Host for NoHost {
    /// Every host command is refused, by name.
    fn run(&self, name: &str, ws: &Workspaces, params: &Json) -> (r: Result<Workspaces, String>)
        ensures
            r matches Err(m) && m@ == "no host to run "@ + name@,
    {
        Err(concat("no host to run ", name))
    }
}

/// What a builtin does to the workbench and what it answers.
pub open spec fn effect(b: Builtin, w: WsV, p: JsonV) -> (WsV, Result<(), Fail>) {
    match b {
        Builtin::Split => effect_split(w, p),
        Builtin::Join => effect_join(w, p),
        Builtin::JoinInto => effect_join_into(w, p),
        Builtin::Ratio => effect_ratio(w, p),
        Builtin::SetRegionWidth => effect_set_region_width(w, p),
        Builtin::ToggleRegion => effect_toggle_region(w, p),
        Builtin::DuplicateArea => effect_duplicate_area(w, p),
        Builtin::Swap => effect_swap(w, p),
        Builtin::SetEditor => effect_set_editor(w, p),
        Builtin::SetTarget => effect_set_target(w, p),
        Builtin::OpenEditor => effect_open_editor(w, p),
        Builtin::WorkspaceSwitch => effect_ws_switch(w, p),
        Builtin::WorkspaceCycle => effect_ws_cycle(w, p),
        Builtin::WorkspaceAdd => effect_ws_add(w, p),
        Builtin::WorkspaceRename => effect_ws_rename(w, p),
        Builtin::WorkspaceDuplicate => effect_ws_duplicate(w),
        Builtin::WorkspaceMove => effect_ws_move(w, p),
        Builtin::WorkspaceClose => effect_ws_close(w, p),
    }
}

fn run_builtin(b: Builtin, ws: &mut Workspaces, p: &Json) -> (r: Result<(), BusError>)
    requires
        workspaces_ok(old(ws)),
    ensures
        workspaces_ok(final(ws)),
        (ws_view(final(ws)), res_of(r)) == effect(b, ws_view(old(ws)), p@),
{
    match b {
        Builtin::Split => op_split(ws, p),
        Builtin::Join => op_join(ws, p),
        Builtin::JoinInto => op_join_into(ws, p),
        Builtin::Ratio => op_ratio(ws, p),
        Builtin::SetRegionWidth => op_set_region_width(ws, p),
        Builtin::ToggleRegion => op_toggle_region(ws, p),
        Builtin::DuplicateArea => op_duplicate_area(ws, p),
        Builtin::Swap => op_swap(ws, p),
        Builtin::SetEditor => op_set_editor(ws, p),
        Builtin::SetTarget => op_set_target(ws, p),
        Builtin::OpenEditor => op_open_editor(ws, p),
        Builtin::WorkspaceSwitch => op_ws_switch(ws, p),
        Builtin::WorkspaceCycle => op_ws_cycle(ws, p),
        Builtin::WorkspaceAdd => op_ws_add(ws, p),
        Builtin::WorkspaceRename => op_ws_rename(ws, p),
        Builtin::WorkspaceDuplicate => op_ws_duplicate(ws),
        Builtin::WorkspaceMove => op_ws_move(ws, p),
        Builtin::WorkspaceClose => op_ws_close(ws, p),
    }
}

/// Where `name` first occurs in the registry, or `-1`.
pub open spec fn name_index(s: Seq<CmdV>, name: Seq<char>) -> int
    decreases s.len(),
{
    if s.len() == 0 {
        -1
    } else if s[0].name == name {
        0
    } else {
        let r = name_index(s.drop_first(), name);
        if r < 0 {
            -1
        } else {
            r + 1
        }
    }
}

pub proof fn lemma_name_index(s: Seq<CmdV>, name: Seq<char>)
    ensures
        -1 <= name_index(s, name) < s.len(),
        name_index(s, name) >= 0 ==> s[name_index(s, name)].name == name,
        forall|i: int|
            0 <= i < s.len() && (name_index(s, name) < 0 || i < name_index(s, name))
                ==> #[trigger] s[i].name != name,
    decreases s.len(),
{
    if s.len() > 0 && s[0].name != name {
        lemma_name_index(s.drop_first(), name);
        assert forall|i: int|
            0 <= i < s.len() && (name_index(s, name) < 0 || i < name_index(s, name))
                implies #[trigger] s[i].name != name by {
            if i > 0 {
                assert(s[i] == s.drop_first()[i - 1]);
            }
        }
    }
}

/// The command registered under `name`.
pub open spec fn lookup_cmd(s: Seq<CmdV>, name: Seq<char>) -> Option<CmdV> {
    let i = name_index(s, name);
    if i >= 0 {
        Some(s[i])
    } else {
        None
    }
}

/// The commands whose poll accepts `w`, in registry order.
pub open spec fn offered(s: Seq<CmdV>, w: WsV) -> Seq<CmdV>
    decreases s.len(),
{
    if s.len() == 0 {
        seq![]
    } else if poll_ok(s.last().poll, w) {
        offered(s.drop_last(), w).push(s.last())
    } else {
        offered(s.drop_last(), w)
    }
}

/// The builtin registry, ordered by name.
pub open spec fn builtin_list() -> Seq<CmdV> {
    seq![
        CmdV {
            name: "duplicate_area"@,
            description: "Split an area and show the same editor in the new half"@,
            navigational: false,
            poll: Poll::Always,
            op: Op::Builtin(Builtin::DuplicateArea),
        },
        CmdV {
            name: "join"@,
            description: "Close an area; its sibling takes the space"@,
            navigational: false,
            poll: Poll::ManyAreas,
            op: Op::Builtin(Builtin::Join),
        },
        CmdV {
            name: "join_into"@,
            description: "Merge one area into a sibling"@,
            navigational: false,
            poll: Poll::ManyAreas,
            op: Op::Builtin(Builtin::JoinInto),
        },
        CmdV {
            name: "open_editor"@,
            description: "Point an area at a specific thing (editor + argument)"@,
            navigational: false,
            poll: Poll::Always,
            op: Op::Builtin(Builtin::OpenEditor),
        },
        CmdV {
            name: "ratio"@,
            description: "Move a seam between two areas"@,
            navigational: false,
            poll: Poll::ManyAreas,
            op: Op::Builtin(Builtin::Ratio),
        },
        CmdV {
            name: "set_editor"@,
            description: "Change what an area shows"@,
            navigational: false,
            poll: Poll::Always,
            op: Op::Builtin(Builtin::SetEditor),
        },
        CmdV {
            name: "set_region_width"@,
            description: "Resize an area's toolbar or sidebar"@,
            navigational: true,
            poll: Poll::Always,
            op: Op::Builtin(Builtin::SetRegionWidth),
        },
        CmdV {
            name: "set_target"@,
            description: "Point an area at something without changing its editor"@,
            navigational: false,
            poll: Poll::Always,
            op: Op::Builtin(Builtin::SetTarget),
        },
        CmdV {
            name: "split"@,
            description: "Split an area in two"@,
            navigational: false,
            poll: Poll::Always,
            op: Op::Builtin(Builtin::Split),
        },
        CmdV {
            name: "swap"@,
            description: "Swap what two areas show"@,
            navigational: false,
            poll: Poll::ManyAreas,
            op: Op::Builtin(Builtin::Swap),
        },
        CmdV {
            name: "toggle_region"@,
            description: "Show or hide an area's toolbar or sidebar"@,
            navigational: true,
            poll: Poll::Always,
            op: Op::Builtin(Builtin::ToggleRegion),
        },
        CmdV {
            name: "workspace.add"@,
            description: "Add a workspace from a layout"@,
            navigational: false,
            poll: Poll::Always,
            op: Op::Builtin(Builtin::WorkspaceAdd),
        },
        CmdV {
            name: "workspace.close"@,
            description: "Close a workspace"@,
            navigational: false,
            poll: Poll::ManyWorkspaces,
            op: Op::Builtin(Builtin::WorkspaceClose),
        },
        CmdV {
            name: "workspace.cycle"@,
            description: "Show the next or previous workspace"@,
            navigational: true,
            poll: Poll::ManyWorkspaces,
            op: Op::Builtin(Builtin::WorkspaceCycle),
        },
        CmdV {
            name: "workspace.duplicate"@,
            description: "Duplicate a workspace"@,
            navigational: false,
            poll: Poll::Always,
            op: Op::Builtin(Builtin::WorkspaceDuplicate),
        },
        CmdV {
            name: "workspace.move"@,
            description: "Move a workspace tab to another position"@,
            navigational: false,
            poll: Poll::ManyWorkspaces,
            op: Op::Builtin(Builtin::WorkspaceMove),
        },
        CmdV {
            name: "workspace.rename"@,
            description: "Rename a workspace"@,
            navigational: false,
            poll: Poll::Always,
            op: Op::Builtin(Builtin::WorkspaceRename),
        },
        CmdV {
            name: "workspace.switch"@,
            description: "Show a workspace by index"@,
            navigational: true,
            poll: Poll::ManyWorkspaces,
            op: Op::Builtin(Builtin::WorkspaceSwitch),
        }
    ]
}

/// The registry lists by name, each name once: the order a palette shows.
pub open spec fn by_name(s: Seq<CmdV>) -> bool {
    forall|i: int, j: int| 0 <= i < j < s.len() ==> crate::json::key_lt(#[trigger] s[i].name, #[trigger] s[j].name)
}

/// Names sorted pairwise in a row are sorted throughout.
proof fn lemma_chain_by_name(s: Seq<CmdV>)
    requires
        forall|i: int| 0 <= i < s.len() - 1 ==> crate::json::key_lt(#[trigger] s[i].name, s[i + 1].name),
    ensures
        by_name(s),
    decreases s.len(),
{
    if s.len() > 0 {
        let t = s.drop_last();
        assert forall|i: int| 0 <= i < t.len() - 1 implies crate::json::key_lt(#[trigger] t[i].name, t[i + 1].name) by {
            assert(t[i] == s[i] && t[i + 1] == s[i + 1]);
        }
        lemma_chain_by_name(t);
        assert forall|i: int, j: int| 0 <= i < j < s.len() implies crate::json::key_lt(#[trigger] s[i].name, #[trigger] s[j].name) by {
            if j < s.len() - 1 {
                assert(t[i] == s[i] && t[j] == s[j]);
            } else if i < j - 1 {
                assert(t[i] == s[i] && t[j - 1] == s[j - 1]);
                assert(crate::json::key_lt(s[i].name, s[j - 1].name));
                crate::json::lemma_key_lt_transitive(s[i].name, s[j - 1].name, s[j].name);
            }
        }
    }
}

/// The builtin registry lists by name.
proof fn lemma_builtin_by_name()
    ensures
        by_name(builtin_list()),
{
    reveal_strlit("duplicate_area");
    reveal_strlit("join");
    reveal_strlit("join_into");
    reveal_strlit("open_editor");
    reveal_strlit("ratio");
    reveal_strlit("set_editor");
    reveal_strlit("set_region_width");
    reveal_strlit("set_target");
    reveal_strlit("split");
    reveal_strlit("swap");
    reveal_strlit("toggle_region");
    reveal_strlit("workspace.add");
    reveal_strlit("workspace.close");
    reveal_strlit("workspace.cycle");
    reveal_strlit("workspace.duplicate");
    reveal_strlit("workspace.move");
    reveal_strlit("workspace.rename");
    reveal_strlit("workspace.switch");
    reveal_with_fuel(crate::json::key_lt, 12);
    assert(crate::json::key_lt("duplicate_area"@, "join"@));
    assert(crate::json::key_lt("join"@, "join_into"@));
    assert(crate::json::key_lt("join_into"@, "open_editor"@));
    assert(crate::json::key_lt("open_editor"@, "ratio"@));
    assert(crate::json::key_lt("ratio"@, "set_editor"@));
    assert(crate::json::key_lt("set_editor"@, "set_region_width"@));
    assert(crate::json::key_lt("set_region_width"@, "set_target"@));
    assert(crate::json::key_lt("set_target"@, "split"@));
    assert(crate::json::key_lt("split"@, "swap"@));
    assert(crate::json::key_lt("swap"@, "toggle_region"@));
    assert(crate::json::key_lt("toggle_region"@, "workspace.add"@));
    assert(crate::json::key_lt("workspace.add"@, "workspace.close"@));
    assert(crate::json::key_lt("workspace.close"@, "workspace.cycle"@));
    assert(crate::json::key_lt("workspace.cycle"@, "workspace.duplicate"@));
    assert(crate::json::key_lt("workspace.duplicate"@, "workspace.move"@));
    assert(crate::json::key_lt("workspace.move"@, "workspace.rename"@));
    assert(crate::json::key_lt("workspace.rename"@, "workspace.switch"@));
    let s = builtin_list();
    assert forall|i: int| 0 <= i < s.len() - 1 implies crate::json::key_lt(#[trigger] s[i].name, s[i + 1].name) by {}
    lemma_chain_by_name(s);
}

/// The registry. Ordered by name so a palette lists commands predictably.
pub struct Commands {
    list: Vec<Command>,
}

impl View for Commands {
    type V = Seq<CmdV>;

    closed spec fn view(&self) -> Seq<CmdV> {
        Seq::new(self.list@.len(), |i: int| self.list@[i]@)
    }
}

impl Commands {
    /// The commands that operate on the library's own types.
    pub fn builtin() -> (c: Commands)
        ensures
            c@ == builtin_list(),
            by_name(c@),
    {
        let mut list: Vec<Command> = Vec::new();
    list.push(Command {
        name: "duplicate_area".to_owned(),
        description: "Split an area and show the same editor in the new half".to_owned(),
        navigational: false,
        poll: Poll::Always,
        op: Op::Builtin(Builtin::DuplicateArea),
    });
    list.push(Command {
        name: "join".to_owned(),
        description: "Close an area; its sibling takes the space".to_owned(),
        navigational: false,
        poll: Poll::ManyAreas,
        op: Op::Builtin(Builtin::Join),
    });
    list.push(Command {
        name: "join_into".to_owned(),
        description: "Merge one area into a sibling".to_owned(),
        navigational: false,
        poll: Poll::ManyAreas,
        op: Op::Builtin(Builtin::JoinInto),
    });
    list.push(Command {
        name: "open_editor".to_owned(),
        description: "Point an area at a specific thing (editor + argument)".to_owned(),
        navigational: false,
        poll: Poll::Always,
        op: Op::Builtin(Builtin::OpenEditor),
    });
    list.push(Command {
        name: "ratio".to_owned(),
        description: "Move a seam between two areas".to_owned(),
        navigational: false,
        poll: Poll::ManyAreas,
        op: Op::Builtin(Builtin::Ratio),
    });
    list.push(Command {
        name: "set_editor".to_owned(),
        description: "Change what an area shows".to_owned(),
        navigational: false,
        poll: Poll::Always,
        op: Op::Builtin(Builtin::SetEditor),
    });
    list.push(Command {
        name: "set_region_width".to_owned(),
        description: "Resize an area's toolbar or sidebar".to_owned(),
        navigational: true,
        poll: Poll::Always,
        op: Op::Builtin(Builtin::SetRegionWidth),
    });
    list.push(Command {
        name: "set_target".to_owned(),
        description: "Point an area at something without changing its editor".to_owned(),
        navigational: false,
        poll: Poll::Always,
        op: Op::Builtin(Builtin::SetTarget),
    });
    list.push(Command {
        name: "split".to_owned(),
        description: "Split an area in two".to_owned(),
        navigational: false,
        poll: Poll::Always,
        op: Op::Builtin(Builtin::Split),
    });
    list.push(Command {
        name: "swap".to_owned(),
        description: "Swap what two areas show".to_owned(),
        navigational: false,
        poll: Poll::ManyAreas,
        op: Op::Builtin(Builtin::Swap),
    });
    list.push(Command {
        name: "toggle_region".to_owned(),
        description: "Show or hide an area's toolbar or sidebar".to_owned(),
        navigational: true,
        poll: Poll::Always,
        op: Op::Builtin(Builtin::ToggleRegion),
    });
    list.push(Command {
        name: "workspace.add".to_owned(),
        description: "Add a workspace from a layout".to_owned(),
        navigational: false,
        poll: Poll::Always,
        op: Op::Builtin(Builtin::WorkspaceAdd),
    });
    list.push(Command {
        name: "workspace.close".to_owned(),
        description: "Close a workspace".to_owned(),
        navigational: false,
        poll: Poll::ManyWorkspaces,
        op: Op::Builtin(Builtin::WorkspaceClose),
    });
    list.push(Command {
        name: "workspace.cycle".to_owned(),
        description: "Show the next or previous workspace".to_owned(),
        navigational: true,
        poll: Poll::ManyWorkspaces,
        op: Op::Builtin(Builtin::WorkspaceCycle),
    });
    list.push(Command {
        name: "workspace.duplicate".to_owned(),
        description: "Duplicate a workspace".to_owned(),
        navigational: false,
        poll: Poll::Always,
        op: Op::Builtin(Builtin::WorkspaceDuplicate),
    });
    list.push(Command {
        name: "workspace.move".to_owned(),
        description: "Move a workspace tab to another position".to_owned(),
        navigational: false,
        poll: Poll::ManyWorkspaces,
        op: Op::Builtin(Builtin::WorkspaceMove),
    });
    list.push(Command {
        name: "workspace.rename".to_owned(),
        description: "Rename a workspace".to_owned(),
        navigational: false,
        poll: Poll::Always,
        op: Op::Builtin(Builtin::WorkspaceRename),
    });
    list.push(Command {
        name: "workspace.switch".to_owned(),
        description: "Show a workspace by index".to_owned(),
        navigational: true,
        poll: Poll::ManyWorkspaces,
        op: Op::Builtin(Builtin::WorkspaceSwitch),
    });
        let c = Commands { list };
        assert(c@ =~= builtin_list());
        proof {
            lemma_builtin_by_name();
        }
        c
    }

    /// Where `name` is registered.
    fn index_of(&self, name: &str) -> (r: Option<usize>)
        ensures
            match r {
                Some(i) => i as int == name_index(self@, name@) && i < self@.len(),
                None => name_index(self@, name@) < 0,
            },
    {
        proof {
            lemma_name_index(self@, name@);
        }
        let mut i: usize = 0;
        while i < self.list.len()
            invariant
                i <= self.list@.len(),
                self@.len() == self.list@.len(),
                forall|j: int| 0 <= j < i ==> #[trigger] self.list@[j].name@ != name@,
                -1 <= name_index(self@, name@) < self@.len(),
                name_index(self@, name@) >= 0 ==> self@[name_index(self@, name@)].name == name@,
                forall|j: int|
                    0 <= j < self@.len() && (name_index(self@, name@) < 0 || j < name_index(
                        self@,
                        name@,
                    )) ==> #[trigger] self@[j].name != name@,
            decreases self.list.len() - i,
        {
            if str_eq(self.list[i].name.as_str(), name) {
                proof {
                    let k = name_index(self@, name@);
                    if k < 0 || i < k {
                        assert(self@[i as int].name != name@);
                    }
                    if k >= 0 && k < i {
                        assert(self.list@[k].name@ != name@);
                    }
                }
                return Some(i);
            }
            i += 1;
        }
        proof {
            let k = name_index(self@, name@);
            if k >= 0 {
                assert(self.list@[k].name@ != name@);
            }
        }
        None
    }

    /// The command registered under `name`.
    pub fn get(&self, name: &str) -> (r: Option<&Command>)
        ensures
            match r {
                Some(c) => lookup_cmd(self@, name@) == Some(c@),
                None => lookup_cmd(self@, name@) is None,
            },
    {
        match self.index_of(name) {
            Some(i) => Some(&self.list[i]),
            None => None,
        }
    }

    /// Whether `name` could run against the workbench as it is. The params
    /// play no part in any poll the library ships.
    pub fn can(&self, ws: &Workspaces, name: &str, params: &Json) -> (r: bool)
        requires
            workspaces_ok(ws),
        ensures
            r == (lookup_cmd(self@, name@) matches Some(c) && poll_ok(c.poll, ws_view(ws))),
    {
        match self.get(name) {
            Some(c) => poll(c.poll, ws),
            None => false,
        }
    }

    /// Whether running `name` should be recorded for undo: known and not
    /// navigational.
    pub fn records_undo(&self, name: &str) -> (r: bool)
        ensures
            r == (lookup_cmd(self@, name@) matches Some(c) && !c.navigational),
    {
        match self.get(name) {
            Some(c) => !c.navigational,
            None => false,
        }
    }

    /// Every command, in registry order.
    pub fn iter(&self) -> (r: Vec<&Command>)
        ensures
            r@.len() == self@.len(),
            forall|i: int| 0 <= i < r@.len() ==> (*r@[i])@ == #[trigger] self@[i],
    {
        let mut out: Vec<&Command> = Vec::new();
        let mut i: usize = 0;
        while i < self.list.len()
            invariant
                i <= self.list@.len(),
                self@.len() == self.list@.len(),
                out@.len() == i,
                forall|j: int| 0 <= j < i ==> (*out@[j])@ == #[trigger] self@[j],
            decreases self.list.len() - i,
        {
            out.push(&self.list[i]);
            i += 1;
        }
        out
    }

    /// The commands that apply to the workbench as it is: what a palette or
    /// a menu is built from.
    pub fn available(&self, ws: &Workspaces) -> (r: Vec<&Command>)
        requires
            workspaces_ok(ws),
        ensures
            r@.len() == offered(self@, ws_view(ws)).len(),
            forall|i: int| 0 <= i < r@.len() ==> (*r@[i])@ == #[trigger] offered(self@, ws_view(ws))[i],
    {
        let ghost w = ws_view(ws);
        let mut out: Vec<&Command> = Vec::new();
        let mut i: usize = 0;
        assert(self@.subrange(0, 0) =~= Seq::<CmdV>::empty());
        while i < self.list.len()
            invariant
                i <= self.list@.len(),
                self@.len() == self.list@.len(),
                w == ws_view(ws),
                workspaces_ok(ws),
                out@.len() == offered(self@.subrange(0, i as int), w).len(),
                forall|j: int|
                    0 <= j < out@.len() ==> (*out@[j])@ == #[trigger] offered(
                        self@.subrange(0, i as int),
                        w,
                    )[j],
            decreases self.list.len() - i,
        {
            let ghost pre = self@.subrange(0, i as int);
            assert(self@.subrange(0, i + 1).drop_last() =~= pre);
            assert(self@.subrange(0, i + 1).last() == self@[i as int]);
            if poll(self.list[i].poll, ws) {
                out.push(&self.list[i]);
            }
            i += 1;
        }
        assert(self@.subrange(0, self.list@.len() as int) =~= self@);
        out
    }

    /// Add a host command, or replace the one of the same name.
    /// Chainable: `Commands::builtin().with(open_run)`.
    pub fn with(self, cmd: Command) -> (r: Commands)
        ensures
            forall|n: Seq<char>|
                #[trigger] lookup_cmd(r@, n) == if n == cmd.name@ {
                    Some(cmd@)
                } else {
                    lookup_cmd(self@, n)
                },
            by_name(self@) ==> by_name(r@),
    {
        let ghost s = self@;
        let ghost c = cmd@;
        let found = self.index_of(cmd.name.as_str());
        let mut list = self.list;
        match found {
            Some(i) => {
                list.set(i, cmd);
                let r = Commands { list };
                proof {
                    assert(r@ =~= s.update(i as int, c));
                    lemma_replaced(s, i as int, c);
                    lemma_name_index(s, c.name);
                    if by_name(s) {
                        assert forall|a: int, b: int| 0 <= a < b < r@.len() implies crate::json::key_lt(
                            #[trigger] r@[a].name,
                            #[trigger] r@[b].name,
                        ) by {
                            assert(r@[a].name == s[a].name && r@[b].name == s[b].name);
                        }
                    }
                }
                r
            },
            None => {
                let mut p: usize = 0;
                while p < list.len() && crate::json::key_less(list[p].name.as_str(), cmd.name.as_str())
                    invariant
                        p <= list@.len(),
                        s == Seq::new(list@.len(), |i: int| list@[i]@),
                        c == cmd@,
                        forall|k: int| 0 <= k < p ==> crate::json::key_lt(#[trigger] s[k].name, c.name),
                    decreases list.len() - p,
                {
                    assert(s[p as int].name == list@[p as int].name@);
                    p += 1;
                }
                let ghost l0 = list@;
                list.insert(p, cmd);
                let r = Commands { list };
                proof {
                    assert(r@ =~= s.insert(p as int, c));
                    lemma_inserted(s, p as int, c);
                    lemma_name_index(s, c.name);
                    if by_name(s) {
                        if p < s.len() {
                            assert(s[p as int].name == l0[p as int].name@);
                            assert(!crate::json::key_lt(s[p as int].name, c.name));
                            assert(s[p as int].name != c.name);
                            crate::json::lemma_key_lt_total(s[p as int].name, c.name);
                        }
                        assert forall|a: int, b: int| 0 <= a < b < r@.len() implies crate::json::key_lt(
                            #[trigger] r@[a].name,
                            #[trigger] r@[b].name,
                        ) by {
                            if b < p {
                                assert(r@[a] == s[a] && r@[b] == s[b]);
                            } else if b == p {
                                assert(r@[a] == s[a]);
                            } else if a == p {
                                assert(r@[b] == s[b - 1]);
                                if b - 1 > p {
                                    crate::json::lemma_key_lt_transitive(c.name, s[p as int].name, s[b - 1].name);
                                }
                            } else if a < p {
                                assert(r@[a] == s[a] && r@[b] == s[b - 1]);
                            } else {
                                assert(r@[a] == s[a - 1] && r@[b] == s[b - 1]);
                            }
                        }
                    }
                }
                r
            },
        }
    }
}

/// What running `name` does to the workbench and what it answers, with no
/// host: an unknown name and a refused poll change nothing; a builtin does
/// what `effect` says; a host command cannot run.
pub open spec fn bus(c: Seq<CmdV>, w: WsV, name: Seq<char>, p: JsonV) -> (WsV, Result<(), Fail>) {
    match lookup_cmd(c, name) {
        None => (w, Err(Fail::Unknown(name))),
        Some(cmd) => if !poll_ok(cmd.poll, w) {
            (w, Err(Fail::NotApplicable(name)))
        } else {
            match cmd.op {
                Op::Builtin(b) => effect(b, w, p),
                Op::Host => (w, Err(Fail::Host("no host to run "@ + name))),
            }
        },
    }
}

impl Commands {
    /// Run a command against the workbench: the one write path. An unknown
    /// name, or a command whose poll refuses the workbench, is an error that
    /// leaves it untouched; a builtin does exactly what `effect` says. A host
    /// command needs a host: see `run_with`.
    pub fn run(&self, ws: &mut Workspaces, name: &str, params: &Json) -> (r: Result<(), BusError>)
        requires
            workspaces_ok(old(ws)),
        ensures
            workspaces_ok(final(ws)),
            (ws_view(final(ws)), res_of(r)) == bus(self@, ws_view(old(ws)), name@, params@),
            r is Err && !(lookup_cmd(self@, name@) matches Some(c) && c.op is Builtin) ==> *final(ws)
                == *old(ws),
    {
        let c = match self.get(name) {
            Some(c) => c,
            None => {
                return Err(BusError::Unknown(name.to_owned()));
            },
        };
        if !poll(c.poll, ws) {
            return Err(BusError::NotApplicable(name.to_owned()));
        }
        match c.op {
            Op::Builtin(b) => run_builtin(b, ws, params),
            Op::Host => Err(BusError::Host(concat("no host to run ", name))),
        }
    }

    /// `run`, with a host for the host's own commands. The host works on a
    /// copy; its result replaces the workbench only if it is well formed.
    pub fn run_with<H: Host>(&self, host: &H, ws: &mut Workspaces, name: &str, params: &Json) -> (r:
        Result<(), BusError>)
        requires
            workspaces_ok(old(ws)),
        ensures
            workspaces_ok(final(ws)),
            r is Err ==> *final(ws) == *old(ws) || (lookup_cmd(self@, name@) matches Some(c)
                && c.op is Builtin),
            match lookup_cmd(self@, name@) {
                None => r is Err && fail_of(r->Err_0) == Fail::Unknown(name@),
                Some(c) => if !poll_ok(c.poll, ws_view(old(ws))) {
                    r is Err && fail_of(r->Err_0) == Fail::NotApplicable(name@)
                } else {
                    match c.op {
                        Op::Builtin(b) => (ws_view(final(ws)), res_of(r)) == effect(
                            b,
                            ws_view(old(ws)),
                            params@,
                        ),
                        Op::Host => r is Err ==> fail_of(r->Err_0) is Host,
                    }
                },
            },
    {
        let c = match self.get(name) {
            Some(c) => c,
            None => {
                return Err(BusError::Unknown(name.to_owned()));
            },
        };
        if !poll(c.poll, ws) {
            return Err(BusError::NotApplicable(name.to_owned()));
        }
        match c.op {
            Op::Builtin(b) => run_builtin(b, ws, params),
            Op::Host => match host.run(name, ws, params) {
                Ok(next) => if next.is_ok() {
                    *ws = next;
                    Ok(())
                } else {
                    Err(BusError::Host(concat(name, " left the workbench malformed")))
                },
                Err(m) => Err(BusError::Host(m)),
            },
        }
    }
}

/// The text of an error, as a person reads it.
pub open spec fn message_of(f: Fail) -> Seq<char> {
    match f {
        Fail::Unknown(n) => "unknown command "@ + n,
        Fail::NotApplicable(n) => n + " does not apply to the workbench as it is"@,
        Fail::BadParam(k, want) => "param "@ + k + match want {
            Want::Integer => " must be an integer"@,
            Want::Number => " must be a number"@,
            Want::Text => " must be a string"@,
            Want::RegionName => " must be a region name"@,
        },
        Fail::BadDir(k, got) => "param "@ + k + " must be \"row\" or \"col\", got \""@ + got + "\""@,
        Fail::NoSuchArea(w) => w + ": no such area"@,
        Fail::LayoutRequired => "param layout is required"@,
        Fail::BadLayout => "param layout is not a layout"@,
        Fail::IdsExhausted => "the layout has no area ids left"@,
        Fail::Host(m) => m,
    }
}

impl BusError {
    /// The text of the error.
    pub fn message(&self) -> (r: String)
        ensures
            r@ == message_of(fail_of(*self)),
    {
        match self {
            BusError::Unknown(n) => concat("unknown command ", n.as_str()),
            BusError::NotApplicable(n) => concat(n.as_str(), " does not apply to the workbench as it is"),
            BusError::BadParam { key, want } => {
                let mut m = concat("param ", key.as_str());
                match want {
                    Want::Integer => push_str(&mut m, " must be an integer"),
                    Want::Number => push_str(&mut m, " must be a number"),
                    Want::Text => push_str(&mut m, " must be a string"),
                    Want::RegionName => push_str(&mut m, " must be a region name"),
                }
                m
            },
            BusError::BadDir { key, got } => {
                let mut m = concat("param ", key.as_str());
                push_str(&mut m, " must be \"row\" or \"col\", got \"");
                push_str(&mut m, got.as_str());
                push_str(&mut m, "\"");
                m
            },
            BusError::NoSuchArea(w) => concat(w.as_str(), ": no such area"),
            BusError::LayoutRequired => "param layout is required".to_owned(),
            BusError::BadLayout => "param layout is not a layout".to_owned(),
            BusError::IdsExhausted => "the layout has no area ids left".to_owned(),
            BusError::Host(m) => m.clone(),
        }
    }
}

/// `k` is the first index holding `n`, or `-1` when none does.
proof fn lemma_name_index_is(s: Seq<CmdV>, n: Seq<char>, k: int)
    requires
        -1 <= k < s.len(),
        k >= 0 ==> s[k].name == n,
        forall|j: int| 0 <= j < s.len() && (k < 0 || j < k) ==> #[trigger] s[j].name != n,
    ensures
        name_index(s, n) == k,
{
    lemma_name_index(s, n);
    let r = name_index(s, n);
    if r >= 0 && k >= 0 {
        if r < k {
            assert(s[r].name != n);
        }
        if k < r {
            assert(s[k].name != n);
        }
    } else if r >= 0 {
        assert(s[r].name != n);
    } else if k >= 0 {
        assert(s[k].name != n);
    }
}

/// Replacing an entry by one of the same name.
proof fn lemma_replaced(s: Seq<CmdV>, i: int, c: CmdV)
    requires
        0 <= i < s.len(),
        name_index(s, c.name) == i,
    ensures
        forall|n: Seq<char>|
            #[trigger] lookup_cmd(s.update(i, c), n) == if n == c.name {
                Some(c)
            } else {
                lookup_cmd(s, n)
            },
{
    lemma_name_index(s, c.name);
    let t = s.update(i, c);
    assert forall|n: Seq<char>|
        #[trigger] lookup_cmd(t, n) == if n == c.name {
            Some(c)
        } else {
            lookup_cmd(s, n)
        } by {
        lemma_name_index(s, n);
        let k = name_index(s, n);
        assert forall|j: int| 0 <= j < t.len() implies #[trigger] t[j].name == s[j].name by {}
        lemma_name_index_is(t, n, k);
        if n != c.name && k >= 0 {
            assert(k != i);
        }
    }
}

/// Inserting an entry under a name not yet registered.
proof fn lemma_inserted(s: Seq<CmdV>, p: int, c: CmdV)
    requires
        0 <= p <= s.len(),
        name_index(s, c.name) < 0,
    ensures
        forall|n: Seq<char>|
            #[trigger] lookup_cmd(s.insert(p, c), n) == if n == c.name {
                Some(c)
            } else {
                lookup_cmd(s, n)
            },
{
    lemma_name_index(s, c.name);
    let t = s.insert(p, c);
    assert forall|n: Seq<char>|
        #[trigger] lookup_cmd(t, n) == if n == c.name {
            Some(c)
        } else {
            lookup_cmd(s, n)
        } by {
        lemma_name_index(s, n);
        let k = name_index(s, n);
        if n == c.name {
            assert forall|j: int| 0 <= j < t.len() && j < p implies #[trigger] t[j].name != n by {
                assert(t[j] == s[j]);
            }
            lemma_name_index_is(t, n, p);
        } else if k < 0 {
            assert forall|j: int| 0 <= j < t.len() implies #[trigger] t[j].name != n by {
                if j < p {
                    assert(t[j] == s[j]);
                } else if j > p {
                    assert(t[j] == s[j - 1]);
                }
            }
            lemma_name_index_is(t, n, -1);
        } else {
            let k2 = if k < p {
                k
            } else {
                k + 1
            };
            assert(t[k2] == s[k]);
            assert forall|j: int| 0 <= j < t.len() && j < k2 implies #[trigger] t[j].name != n by {
                if j < p {
                    assert(t[j] == s[j]);
                } else if j > p {
                    assert(t[j] == s[j - 1]);
                }
            }
            lemma_name_index_is(t, n, k2);
        }
    }
}

/// Whether a poll accepts the workbench.
pub fn poll(p: Poll, ws: &Workspaces) -> (r: bool)
    requires
        workspaces_ok(ws),
    ensures
        r == poll_ok(p, ws_view(ws)),
{
    match p {
        Poll::Always => true,
        Poll::ManyAreas => ws.current().layout.root().leaves().len() > 1,
        Poll::ManyWorkspaces => ws.tabs.len() > 1,
    }
}

/// A command that is always offered: there is no state in which splitting an
/// area or renaming a workspace makes no sense. The params are not read.
pub fn always(ws: &Workspaces, params: &Json) -> (r: bool)
    ensures
        r,
{
    true
}

/// Needs something to act across: a second area in the current workspace.
/// The params are not read.
pub fn many_areas(ws: &Workspaces, params: &Json) -> (r: bool)
    requires
        workspaces_ok(ws),
    ensures
        r == (leaves(cur(ws_view(ws)).root).len() > 1),
{
    poll(Poll::ManyAreas, ws)
}

/// Needs a second workspace. The params are not read.
pub fn many_workspaces(ws: &Workspaces, params: &Json) -> (r: bool)
    requires
        workspaces_ok(ws),
    ensures
        r == (ws_view(ws).tabs.len() > 1),
{
    poll(Poll::ManyWorkspaces, ws)
}

} // verus!
