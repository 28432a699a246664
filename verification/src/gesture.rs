//! What the pointer gestures on the tiling surface mean as commands.
//!
//! Dragging a seam, a corner or a region edge is read in the browser and
//! arrives as a gesture; each becomes the named command a button or an agent
//! would send, so a drag and a click land on the same bus.

use vstd::prelude::*;

use crate::area::{AreaId, Dir, Region, SCALE};
use crate::command::{dir_param, region_param, share_param, u64_param};
use crate::json::{lemma_members_of, members_of, Json, JsonV, Member, Number};

verus! {

/// A finished gesture. Shares are millionths of the split's extent.
pub enum Gesture {
    /// A seam of a split moved to `ratio`.
    Ratio { id: AreaId, index: usize, ratio: u32 },
    /// A corner dragged into an area: split it at `frac`.
    Split { id: AreaId, dir: Dir, frac: u32 },
    /// A corner dragged over a sibling: join it into the survivor.
    Join { survivor: AreaId, victim: AreaId },
    /// An area's header dropped on another's: exchange their editors.
    Swap { a: AreaId, b: AreaId },
    /// A region's edge dragged to `w` pixels.
    RegionWidth { id: AreaId, region: String, w: u16 },
}

pub open spec fn int_v(n: u64) -> JsonV {
    JsonV::Num(Number::PosInt(n))
}

pub open spec fn share_v(s: u32) -> JsonV {
    JsonV::Num(Number::Float(s as i64))
}

pub open spec fn dir_name(d: Dir) -> Seq<char> {
    match d {
        Dir::Row => "row"@,
        Dir::Col => "col"@,
    }
}

/// The command a gesture runs.
pub open spec fn gesture_name(g: Gesture) -> Seq<char> {
    match g {
        Gesture::Ratio { .. } => "ratio"@,
        Gesture::Split { .. } => "split"@,
        Gesture::Join { .. } => "join_into"@,
        Gesture::Swap { .. } => "swap"@,
        Gesture::RegionWidth { .. } => "set_region_width"@,
    }
}

/// The parameters it runs the command with, keys in order.
pub open spec fn gesture_params(g: Gesture) -> JsonV {
    match g {
        Gesture::Ratio { id, index, ratio } => JsonV::Object(
            seq![("id"@, int_v(id)), ("index"@, int_v(index as u64)), ("ratio"@, share_v(ratio))],
        ),
        Gesture::Split { id, dir, frac } => JsonV::Object(
            seq![("dir"@, JsonV::Str(dir_name(dir))), ("frac"@, share_v(frac)), ("id"@, int_v(id))],
        ),
        Gesture::Join { survivor, victim } => JsonV::Object(
            seq![("survivor"@, int_v(survivor)), ("victim"@, int_v(victim))],
        ),
        Gesture::Swap { a, b } => JsonV::Object(seq![("a"@, int_v(a)), ("b"@, int_v(b))]),
        Gesture::RegionWidth { id, region, w } => JsonV::Object(
            seq![("id"@, int_v(id)), ("region"@, JsonV::Str(region@)), ("w"@, int_v(w as u64))],
        ),
    }
}

fn entry(key: &str, value: Json) -> (m: Member)
    ensures
        m.key@ == key@,
        m.value == value,
{
    Member { key: key.to_owned(), value }
}

impl Gesture {
    /// The command this gesture runs, and its parameters.
    pub fn command(&self) -> (r: (&'static str, Json))
        ensures
            r.0@ == gesture_name(*self),
            r.1@ == gesture_params(*self),
    {
        let mut ms: Vec<Member> = Vec::new();
        let name = match self {
            Gesture::Ratio { id, index, ratio } => {
                ms.push(entry("id", Json::Num(Number::PosInt(*id))));
                ms.push(entry("index", Json::Num(Number::PosInt(*index as u64))));
                ms.push(entry("ratio", Json::Num(Number::Float(*ratio as i64))));
                "ratio"
            },
            Gesture::Split { id, dir, frac } => {
                let d = match dir {
                    Dir::Row => "row",
                    Dir::Col => "col",
                };
                ms.push(entry("dir", Json::Str(d.to_owned())));
                ms.push(entry("frac", Json::Num(Number::Float(*frac as i64))));
                ms.push(entry("id", Json::Num(Number::PosInt(*id))));
                "split"
            },
            Gesture::Join { survivor, victim } => {
                ms.push(entry("survivor", Json::Num(Number::PosInt(*survivor))));
                ms.push(entry("victim", Json::Num(Number::PosInt(*victim))));
                "join_into"
            },
            Gesture::Swap { a, b } => {
                ms.push(entry("a", Json::Num(Number::PosInt(*a))));
                ms.push(entry("b", Json::Num(Number::PosInt(*b))));
                "swap"
            },
            Gesture::RegionWidth { id, region, w } => {
                ms.push(entry("id", Json::Num(Number::PosInt(*id))));
                ms.push(entry("region", Json::Str(region.clone())));
                ms.push(entry("w", Json::Num(Number::PosInt(*w as u64))));
                "set_region_width"
            },
        };
        proof {
            lemma_members_of(ms@);
            assert(members_of(ms@) =~= match gesture_params(*self) {
                JsonV::Object(m) => m,
                _ => seq![],
            });
        }
        (name, Json::Object(ms))
    }
}

proof fn lemma_two(k0: Seq<char>, v0: JsonV, k1: Seq<char>, v1: JsonV)
    requires
        k0 != k1,
    ensures
        crate::json::field(JsonV::Object(seq![(k0, v0), (k1, v1)]), k0) == Some(v0),
        crate::json::field(JsonV::Object(seq![(k0, v0), (k1, v1)]), k1) == Some(v1),
{
    let ms = seq![(k0, v0), (k1, v1)];
    assert(ms.drop_first() =~= seq![(k1, v1)]);
    assert(crate::json::key_index(ms.drop_first(), k1) == 0);
}

proof fn lemma_three(k0: Seq<char>, v0: JsonV, k1: Seq<char>, v1: JsonV, k2: Seq<char>, v2: JsonV)
    requires
        k0 != k1,
        k0 != k2,
        k1 != k2,
    ensures
        crate::json::field(JsonV::Object(seq![(k0, v0), (k1, v1), (k2, v2)]), k0) == Some(v0),
        crate::json::field(JsonV::Object(seq![(k0, v0), (k1, v1), (k2, v2)]), k1) == Some(v1),
        crate::json::field(JsonV::Object(seq![(k0, v0), (k1, v1), (k2, v2)]), k2) == Some(v2),
{
    let ms = seq![(k0, v0), (k1, v1), (k2, v2)];
    assert(ms.drop_first() =~= seq![(k1, v1), (k2, v2)]);
    assert(ms.drop_first().drop_first() =~= seq![(k2, v2)]);
    assert(crate::json::key_index(ms.drop_first().drop_first(), k2) == 0);
    assert(crate::json::key_index(ms.drop_first(), k1) == 0);
    assert(crate::json::key_index(ms.drop_first(), k2) == 1);
}

/// A gesture means on the bus what it meant on the screen: the command it
/// names reads back, from the parameters it sends, the ids, direction,
/// share, region and width the gesture carried.
pub proof fn law_a_gesture_reads_back(g: Gesture)
    requires
        g matches Gesture::Ratio { ratio, .. } ==> ratio <= SCALE,
        g matches Gesture::Split { frac, .. } ==> frac <= SCALE,
    ensures
        match g {
            Gesture::Ratio { id, index, ratio } => {
                &&& u64_param(gesture_params(g), "id"@) == Some(id)
                &&& u64_param(gesture_params(g), "index"@) == Some(index as u64)
                &&& share_param(gesture_params(g), "ratio"@) == Some(ratio)
            },
            Gesture::Split { id, dir, frac } => u64_param(gesture_params(g), "id"@) == Some(id) && dir_param(
                gesture_params(g),
                "dir"@,
            ) == Ok::<Dir, crate::command::Fail>(dir) && share_param(gesture_params(g), "frac"@) == Some(frac),
            Gesture::Join { survivor, victim } => u64_param(gesture_params(g), "survivor"@) == Some(survivor)
                && u64_param(gesture_params(g), "victim"@) == Some(victim),
            Gesture::Swap { a, b } => u64_param(gesture_params(g), "a"@) == Some(a) && u64_param(
                gesture_params(g),
                "b"@,
            ) == Some(b),
            Gesture::RegionWidth { id, region, w } => u64_param(gesture_params(g), "id"@) == Some(id)
                && u64_param(gesture_params(g), "w"@) == Some(w as u64) && match region_param(
                gesture_params(g),
                "region"@,
            ) {
                Some(r) => crate::area::region_name(r)@ == region@,
                None => !(region@ == "toolbar"@ || region@ == "sidebar"@ || region@ == "header"@
                    || region@ == "header_flip"@),
            },
        },
{
    match g {
        Gesture::Ratio { id, index, ratio } => {
            reveal_strlit("id");
            reveal_strlit("index");
            reveal_strlit("ratio");
            assert("id"@.len() == 2 && "index"@.len() == 5 && "ratio"@.len() == 5);
            assert("index"@[0] != "ratio"@[0]);
            lemma_three("id"@, int_v(id), "index"@, int_v(index as u64), "ratio"@, share_v(ratio));
        },
        Gesture::Split { id, dir, frac } => {
            reveal_strlit("dir");
            reveal_strlit("frac");
            reveal_strlit("id");
            reveal_strlit("row");
            reveal_strlit("col");
            assert("dir"@.len() == 3 && "frac"@.len() == 4 && "id"@.len() == 2);
            assert("dir"@[0] != "id"@[0]);
            lemma_three("dir"@, JsonV::Str(dir_name(dir)), "frac"@, share_v(frac), "id"@, int_v(id));
            assert("row"@ != "col"@) by {
                assert("row"@[0] != "col"@[0]);
            }
        },
        Gesture::Join { survivor, victim } => {
            reveal_strlit("survivor");
            reveal_strlit("victim");
            assert("survivor"@.len() == 8 && "victim"@.len() == 6);
            lemma_two("survivor"@, int_v(survivor), "victim"@, int_v(victim));
        },
        Gesture::Swap { a, b } => {
            reveal_strlit("a");
            reveal_strlit("b");
            assert("a"@[0] != "b"@[0]);
            lemma_two("a"@, int_v(a), "b"@, int_v(b));
        },
        Gesture::RegionWidth { id, region, w } => {
            reveal_strlit("id");
            reveal_strlit("region");
            reveal_strlit("w");
            assert("id"@.len() == 2 && "region"@.len() == 6 && "w"@.len() == 1);
            lemma_three("id"@, int_v(id), "region"@, JsonV::Str(region@), "w"@, int_v(w as u64));
        },
    }
}

} // verus!
