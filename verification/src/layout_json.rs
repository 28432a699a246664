//! Reading a layout from its JSON form.
//!
//! A layout travels as `{"root": <area>, "next_id": <n>}`; an area is an
//! object tagged by `kind`: a `leaf` with `id`, `editor`, an optional `arg`
//! and optional `regions`, or a `split` with `id`, `dir`, `sizes` and
//! `children`. Unknown members are ignored, as a serde reader would. Sizes
//! are read as weights and rescaled to shares of `SCALE`, so a tree saved with
//! rounded fractions still partitions its rectangle exactly. A tree that is
//! not a layout the operations accept is refused.

use vstd::prelude::*;

use crate::area::{
    default_regions, layout_ok, nodes_of, lemma_nodes_of, Area, AreaId, Dir, Layout, LayoutView,
    Node, Regions, SCALE,
};
use crate::json::{as_str, as_u64, field, key_index, json_of, lemma_jsons_of, Json, JsonV, Number, jsons_of};
use crate::shares::{apportion, apportion_vec};
use crate::text::str_eq;

verus! {

/// A size as a weight in millionths.
pub open spec fn weight_of(j: JsonV) -> Option<u32> {
    match j {
        JsonV::Num(Number::PosInt(n)) => Some(
            if n >= 4294 {
                u32::MAX
            } else {
                (n * 1_000_000) as u32
            },
        ),
        JsonV::Num(Number::NegInt(_)) => Some(0),
        JsonV::Num(Number::Float(m)) => Some(
            if m <= 0 {
                0
            } else if m >= u32::MAX {
                u32::MAX
            } else {
                m as u32
            },
        ),
        _ => None,
    }
}

/// Every item a weight, or nothing.
pub open spec fn weights_of(s: Seq<JsonV>) -> Option<Seq<u32>>
    decreases s.len(),
{
    if s.len() == 0 {
        Some(seq![])
    } else {
        match (weights_of(s.drop_last()), weight_of(s.last())) {
            (Some(ws), Some(w)) => Some(ws.push(w)),
            _ => None,
        }
    }
}

/// An optional flag: absent is `false`.
pub open spec fn flag_of(j: JsonV, key: Seq<char>) -> Option<bool> {
    match field(j, key) {
        None => Some(false),
        Some(JsonV::Bool(b)) => Some(b),
        Some(_) => None,
    }
}

/// An optional width: absent is `0`.
pub open spec fn width_of(j: JsonV, key: Seq<char>) -> Option<u16> {
    match field(j, key) {
        None => Some(0),
        Some(JsonV::Num(Number::PosInt(n))) => if n <= u16::MAX {
            Some(n as u16)
        } else {
            None
        },
        Some(_) => None,
    }
}

pub open spec fn regions_of(j: JsonV) -> Option<Regions> {
    if !(j is Object) {
        None
    } else {
        match (
            flag_of(j, "toolbar"@),
            flag_of(j, "sidebar"@),
            width_of(j, "toolbar_w"@),
            width_of(j, "sidebar_w"@),
            flag_of(j, "header_hidden"@),
            flag_of(j, "header_bottom"@),
        ) {
            (Some(a), Some(b), Some(c), Some(d), Some(e), Some(f)) => Some(
                Regions {
                    toolbar: a,
                    sidebar: b,
                    toolbar_w: c,
                    sidebar_w: d,
                    header_hidden: e,
                    header_bottom: f,
                },
            ),
            _ => None,
        }
    }
}

/// An optional argument: absent or `null` is none.
pub open spec fn arg_of(j: JsonV) -> Option<Option<Seq<char>>> {
    match field(j, "arg"@) {
        None => Some(None),
        Some(JsonV::Null) => Some(None),
        Some(JsonV::Str(s)) => Some(Some(s)),
        Some(_) => None,
    }
}

pub open spec fn dir_of(j: JsonV) -> Option<Dir> {
    match j {
        JsonV::Str(s) => if s == "row"@ {
            Some(Dir::Row)
        } else if s == "col"@ {
            Some(Dir::Col)
        } else {
            None
        },
        _ => None,
    }
}

/// A direction reads back as it was saved: `"row"` is children side by
/// side, `"col"` children stacked, and no other text is a direction.
pub proof fn law_a_saved_direction_reads_back(s: Seq<char>)
    ensures
        dir_of(JsonV::Str(s)) == Some(Dir::Row) <==> s == "row"@,
        dir_of(JsonV::Str(s)) == Some(Dir::Col) <==> s == "col"@,
        dir_of(JsonV::Str("row"@)) == Some(Dir::Row),
        dir_of(JsonV::Str("col"@)) == Some(Dir::Col),
{
    reveal_strlit("row");
    reveal_strlit("col");
    assert("row"@ != "col"@) by {
        assert("row"@[0] != "col"@[0]);
    }
}

/// A saved split loads with the direction it was saved with.
pub proof fn law_a_split_loads_the_way_it_was_saved(j: JsonV, d: Dir)
    requires
        field(j, "kind"@) == Some(JsonV::Str("split"@)),
        field(j, "dir"@) == Some(JsonV::Str(
            match d {
                Dir::Row => "row"@,
                Dir::Col => "col"@,
            },
        )),
    ensures
        match area_of(j) {
            Some(Node::Split { dir, .. }) => dir == d,
            Some(Node::Leaf { .. }) => false,
            None => true,
        },
{
    law_a_saved_direction_reads_back("row"@);
    reveal_strlit("split");
    reveal_strlit("leaf");
    assert("split"@ != "leaf"@) by {
        assert("split"@.len() != "leaf"@.len());
    }
    if j !is Object {
        assert(field(j, "kind"@) is None);
    }
}

/// The area an object describes.
pub open spec fn area_of(j: JsonV) -> Option<Node>
    decreases j,
{
    match j {
        JsonV::Object(ms) => {
            let id = match field(j, "id"@) {
                Some(v) => as_u64(v),
                None => None,
            };
            let kind = match field(j, "kind"@) {
                Some(v) => as_str(v),
                None => None,
            };
            if id is None || kind is None {
                None
            } else if kind->0 == "leaf"@ {
                let editor = match field(j, "editor"@) {
                    Some(v) => as_str(v),
                    None => None,
                };
                let regions = match field(j, "regions"@) {
                    None => Some(default_regions()),
                    Some(r) => regions_of(r),
                };
                match (editor, arg_of(j), regions) {
                    (Some(e), Some(a), Some(r)) => Some(
                        Node::Leaf { id: id->0, editor: e, arg: a, regions: r },
                    ),
                    _ => None,
                }
            } else if kind->0 == "split"@ {
                let dir = match field(j, "dir"@) {
                    Some(v) => dir_of(v),
                    None => None,
                };
                let sizes = match field(j, "sizes"@) {
                    Some(JsonV::Array(items)) => weights_of(items),
                    _ => None,
                };
                let k = key_index(ms, "children"@);
                if dir is None || sizes is None || k < 0 {
                    None
                } else {
                    match ms[k].1 {
                        JsonV::Array(items) => {
                            proof {
                                crate::json::lemma_key_index(ms, "children"@);
                                assert(decreases_to!(j => ms));
                                assert(decreases_to!(ms => ms[k]));
                                assert(decreases_to!(ms[k] => ms[k].1));
                            }
                            if forall|i: int| 0 <= i < items.len() ==> area_of(#[trigger] items[i]) is Some {
                                Some(
                                    Node::Split {
                                        id: id->0,
                                        dir: dir->0,
                                        sizes: apportion(sizes->0, SCALE as nat),
                                        children: Seq::new(
                                            items.len(),
                                            |i: int|
                                                if 0 <= i < items.len() {
                                                    area_of(items[i])->0
                                                } else {
                                                    Node::Leaf {
                                                        id: 0,
                                                        editor: seq![],
                                                        arg: None,
                                                        regions: default_regions(),
                                                    }
                                                },
                                        ),
                                    },
                                )
                            } else {
                                None
                            }
                        },
                        _ => None,
                    }
                }
            } else {
                None
            }
        },
        _ => None,
    }
}


/// The layout an object describes, if it is one the operations accept.
pub open spec fn layout_of(j: JsonV) -> Option<LayoutView> {
    let root = match field(j, "root"@) {
        Some(r) => area_of(r),
        None => None,
    };
    let next = match field(j, "next_id"@) {
        Some(v) => as_u64(v),
        None => None,
    };
    match (root, next) {
        (Some(r), Some(n)) => if layout_ok(LayoutView { root: r, next_id: n }) {
            Some(LayoutView { root: r, next_id: n })
        } else {
            None
        },
        _ => None,
    }
}

fn weight(j: &Json) -> (r: Option<u32>)
    ensures
        r == weight_of(j@),
{
    match j {
        Json::Num(Number::PosInt(n)) => Some(
            if *n >= 4294 {
                u32::MAX
            } else {
                (*n * 1_000_000) as u32
            },
        ),
        Json::Num(Number::NegInt(_)) => Some(0),
        Json::Num(Number::Float(m)) => Some(
            if *m <= 0 {
                0
            } else if *m >= u32::MAX as i64 {
                u32::MAX
            } else {
                *m as u32
            },
        ),
        _ => None,
    }
}

fn weights(items: &Vec<Json>) -> (r: Option<Vec<u32>>)
    ensures
        match r {
            Some(w) => weights_of(jsons_of(items@)) == Some(w@),
            None => weights_of(jsons_of(items@)) is None,
        },
{
    let mut out: Vec<u32> = Vec::new();
    let mut i: usize = 0;
    assert(items@.subrange(0, 0) =~= Seq::<Json>::empty());
    while i < items.len()
        invariant
            i <= items.len(),
            weights_of(jsons_of(items@.subrange(0, i as int))) == Some(out@),
        decreases items.len() - i,
    {
        let ghost pre = items@.subrange(0, i as int);
        assert(items@.subrange(0, i + 1).drop_last() =~= pre);
        assert(items@.subrange(0, i + 1).last() == items@[i as int]);
        let ghost js = jsons_of(items@.subrange(0, i + 1));
        assert(js == jsons_of(pre).push(json_of(items@[i as int])));
        assert(js.drop_last() =~= jsons_of(pre));
        match weight(&items[i]) {
            Some(w) => out.push(w),
            None => {
                proof {
                    lemma_weights_none(items@, (i + 1) as int);
                }
                return None;
            },
        }
        i += 1;
    }
    assert(items@.subrange(0, items.len() as int) =~= items@);
    Some(out)
}

/// A prefix without weights has no weights, and neither has the whole.
proof fn lemma_weights_none(items: Seq<Json>, k: int)
    requires
        0 < k <= items.len(),
        weights_of(jsons_of(items.subrange(0, k))) is None,
    ensures
        weights_of(jsons_of(items)) is None,
    decreases items.len() - k,
{
    if k < items.len() {
        assert(items.subrange(0, k + 1).drop_last() =~= items.subrange(0, k));
        let js = jsons_of(items.subrange(0, k + 1));
        assert(js == jsons_of(items.subrange(0, k)).push(json_of(items[k])));
        assert(js.drop_last() =~= jsons_of(items.subrange(0, k)));
        lemma_weights_none(items, k + 1);
    } else {
        assert(items.subrange(0, k) =~= items);
    }
}

fn flag(j: &Json, key: &str) -> (r: Option<bool>)
    ensures
        r == flag_of(j@, key@),
{
    match j.get(key) {
        None => Some(false),
        Some(Json::Bool(b)) => Some(*b),
        Some(_) => None,
    }
}

fn width(j: &Json, key: &str) -> (r: Option<u16>)
    ensures
        r == width_of(j@, key@),
{
    match j.get(key) {
        None => Some(0),
        Some(Json::Num(Number::PosInt(n))) => if *n <= u16::MAX as u64 {
            Some(*n as u16)
        } else {
            None
        },
        Some(_) => None,
    }
}

fn regions(j: &Json) -> (r: Option<Regions>)
    ensures
        r == regions_of(j@),
{
    match j {
        Json::Object(_) => {},
        _ => {
            return None;
        },
    }
    let a = flag(j, "toolbar");
    let b = flag(j, "sidebar");
    let c = width(j, "toolbar_w");
    let d = width(j, "sidebar_w");
    let e = flag(j, "header_hidden");
    let f = flag(j, "header_bottom");
    match (a, b, c, d, e, f) {
        (Some(a), Some(b), Some(c), Some(d), Some(e), Some(f)) => Some(
            Regions {
                toolbar: a,
                sidebar: b,
                toolbar_w: c,
                sidebar_w: d,
                header_hidden: e,
                header_bottom: f,
            },
        ),
        _ => None,
    }
}

/// Where `key` first occurs among the members.
fn member_index(ms: &Vec<crate::json::Member>, key: &str) -> (r: Option<usize>)
    ensures
        match r {
            Some(k) => k as int == key_index(crate::json::members_of(ms@), key@),
            None => key_index(crate::json::members_of(ms@), key@) < 0,
        },
{
    proof {
        crate::json::lemma_members_of(ms@);
        crate::json::lemma_key_index(crate::json::members_of(ms@), key@);
    }
    let ghost mv = crate::json::members_of(ms@);
    let mut i: usize = 0;
    while i < ms.len()
        invariant
            i <= ms.len(),
            mv == crate::json::members_of(ms@),
            mv.len() == ms@.len(),
            forall|j: int| 0 <= j < i ==> #[trigger] ms@[j].key@ != key@,
            forall|j: int| 0 <= j < ms@.len() ==> #[trigger] mv[j].0 == ms@[j].key@,
            -1 <= key_index(mv, key@) < mv.len(),
            key_index(mv, key@) >= 0 ==> mv[key_index(mv, key@)].0 == key@,
            forall|j: int|
                0 <= j < mv.len() && (key_index(mv, key@) < 0 || j < key_index(mv, key@))
                    ==> #[trigger] mv[j].0 != key@,
        decreases ms.len() - i,
    {
        if str_eq(ms[i].key.as_str(), key) {
            proof {
                let k = key_index(mv, key@);
                if k < 0 || i < k {
                    assert(mv[i as int].0 != key@);
                }
                if k >= 0 && k < i {
                    assert(ms@[k].key@ != key@);
                }
            }
            return Some(i);
        }
        i += 1;
    }
    proof {
        let k = key_index(mv, key@);
        if k >= 0 {
            assert(ms@[k].key@ != key@);
        }
    }
    None
}


fn dir_from(j: &Json) -> (r: Option<Dir>)
    ensures
        r == dir_of(j@),
{
    match j {
        Json::Str(s) => if str_eq(s.as_str(), "row") {
            Some(Dir::Row)
        } else if str_eq(s.as_str(), "col") {
            Some(Dir::Col)
        } else {
            None
        },
        _ => None,
    }
}

/// The area an object describes.
#[verifier::loop_isolation(false)]
pub fn area_from(j: &Json) -> (r: Option<Area>)
    ensures
        match r {
            Some(a) => area_of(j@) == Some(a@),
            None => area_of(j@) is None,
        },
    decreases j,
{
    let ms = match j {
        Json::Object(ms) => ms,
        _ => {
            return None;
        },
    };
    let id = match j.get("id") {
        Some(v) => v.as_u64(),
        None => None,
    };
    let kind = match j.get("kind") {
        Some(v) => v.as_str(),
        None => None,
    };
    if id.is_none() || kind.is_none() {
        return None;
    }
    let id = id.unwrap();
    let kind = kind.unwrap();
    if str_eq(kind, "leaf") {
        let editor = match j.get("editor") {
            Some(v) => v.as_str(),
            None => None,
        };
        let arg: Option<Option<String>> = match j.get("arg") {
            None => Some(None),
            Some(Json::Null) => Some(None),
            Some(Json::Str(s)) => Some(Some(s.clone())),
            Some(_) => None,
        };
        let regs = match j.get("regions") {
            None => Some(Regions::new()),
            Some(r) => regions(r),
        };
        match (editor, arg, regs) {
            (Some(e), Some(a), Some(r)) => {
                let out = Area::Leaf { id, editor: e.to_owned(), arg: a, regions: r };
                proof {
                    assert(out@ == area_of(j@)->0);
                }
                Some(out)
            },
            _ => None,
        }
    } else if str_eq(kind, "split") {
        let dir = match j.get("dir") {
            Some(v) => dir_from(v),
            None => None,
        };
        let sizes = match j.get("sizes") {
            Some(Json::Array(items)) => weights(items),
            _ => None,
        };
        let k = member_index(ms, "children");
        if dir.is_none() || sizes.is_none() || k.is_none() {
            return None;
        }
        let dir = dir.unwrap();
        let w = sizes.unwrap();
        let k = k.unwrap();
        proof {
            crate::json::lemma_members_of(ms@);
            crate::json::lemma_key_index(crate::json::members_of(ms@), "children"@);
            assert(json_of(*j) == JsonV::Object(crate::json::members_of(ms@)));
        }
        match &ms[k].value {
            Json::Array(items) => {
                let ghost iv = jsons_of(items@);
                proof {
                    lemma_jsons_of(items@);
                }
                let mut children: Vec<Area> = Vec::new();
                let mut i: usize = 0;
                while i < items.len()
                    invariant
                        i <= items.len(),
                        children@.len() == i,
                        forall|t: int| 0 <= t < i ==> area_of(#[trigger] iv[t]) == Some(children@[t]@),
                    decreases items.len() - i,
                {
                    assert(decreases_to!(*j => *ms));
                    assert(decreases_to!(*ms => ms@));
                    assert(decreases_to!(ms@ => ms@[k as int]));
                    assert(decreases_to!(ms@[k as int] => ms@[k as int].value));
                    assert(decreases_to!(ms@[k as int].value => *items));
                    assert(decreases_to!(*items => items@));
                    assert(decreases_to!(items@ => items@[i as int]));
                    match area_from(&items[i]) {
                        Some(a) => {
                            children.push(a);
                        },
                        None => {
                            assert(area_of(iv[i as int]) is None);
                            return None;
                        },
                    }
                    i += 1;
                }
                let out = Area::Split { id, dir, sizes: apportion_vec(&w, SCALE), children };
                proof {
                    lemma_nodes_of(children@);
                    assert(crate::json::members_of(ms@)[k as int].1 == json_of(ms@[k as int].value));
                    assert(json_of(ms@[k as int].value) == JsonV::Array(iv));
                    let want = area_of(j@)->0;
                    assert(nodes_of(children@) =~= want->children);
                    assert(out@ == want);
                }
                Some(out)
            },
            _ => None,
        }
    } else {
        None
    }
}

/// The layout an object describes, if it is one the operations accept.
pub fn layout_from(j: &Json) -> (r: Option<Layout>)
    ensures
        match r {
            Some(l) => layout_of(j@) == Some(l@) && layout_ok(l@),
            None => layout_of(j@) is None,
        },
{
    let root = match j.get("root") {
        Some(r) => area_from(r),
        None => None,
    };
    let next = match j.get("next_id") {
        Some(v) => v.as_u64(),
        None => None,
    };
    match (root, next) {
        (Some(r), Some(n)) => Layout::restore(r, n),
        _ => None,
    }
}

} // verus!
