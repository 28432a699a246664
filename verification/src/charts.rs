//! Charts: specs in, drawings out.
//!
//! A chart is a Vega-Lite spec living at `/charts/<name>` in the settings
//! document. Resolving one for drawing fills in the feeds it names, turns the
//! workbench chrome off, and declines to draw a window with nothing in it.
//! The host's own series arrive as rows already made (`HostFeeds`); the
//! renderer and the page around it stay with the host.

use vstd::prelude::*;

use crate::json::{
    field, json_of, jsons_of, key_index, lemma_jsons_of, lemma_key_index, lemma_members_of, lookup,
    members_of, upsert, Json, JsonV, Member, Number,
};
use crate::cron::pieces;
use crate::settings::upsert_members;
use crate::text::{concat, str_eq};
use crate::tree::{at_pointer, resolve};

verus! {

// --- errors ------------------------------------------------------------------

/// What went wrong, in words a person can act on. `column` is 1-based and
/// set only where the error has a position in typed text.
pub struct EditorError {
    pub message: String,
    pub column: Option<usize>,
}

impl EditorError {
    /// An error with no position: a failed command, a rejected document.
    pub fn message(message: &str) -> (e: EditorError)
        ensures
            e.message@ == message@,
            e.column is None,
    {
        EditorError { message: message.to_owned(), column: None }
    }
}

/// What `format!("{:?}", s)` writes for a string: the text in double quotes,
/// with the characters Rust's `Debug` escapes written as escapes.
pub uninterp spec fn debug_quoted(s: Seq<char>) -> Seq<char>;

/// `format!("{:?}", s)` for a string slice. Claimed: the result is the name
/// `debug_quoted` applied to the text; which characters are escaped, and how,
/// is left to std's `Debug` for `str` and not stated.
#[verifier::external_body]
fn quoted(s: &str) -> (r: String)
    ensures
        r@ == debug_quoted(s@),
{
    format!("{:?}", s)
}

// --- feeds -------------------------------------------------------------------

/// The host's own data, one list of rows per feed it serves. The rows are
/// what the host's samples read as JSON (`{"at", "value"}` for a series).
pub struct HostFeeds {
    pub cpu: Vec<Json>,
    pub memory: Vec<Json>,
    pub runs: Vec<Json>,
    pub fleet: Vec<Json>,
    pub annotations: Vec<Json>,
}

/// The rows a feed names: one of the host's five, or an array the document
/// keeps under `/feeds/<name>`. Nothing for a name nobody serves.
pub open spec fn feed_values(h: HostFeeds, doc: JsonV, feed: Seq<char>) -> Option<Seq<JsonV>> {
    if feed == "cpu"@ {
        Some(jsons_of(h.cpu@))
    } else if feed == "memory"@ {
        Some(jsons_of(h.memory@))
    } else if feed == "runs"@ {
        Some(jsons_of(h.runs@))
    } else if feed == "fleet"@ {
        Some(jsons_of(h.fleet@))
    } else if feed == "annotations"@ {
        Some(jsons_of(h.annotations@))
    } else {
        match at_pointer(doc, "/feeds/"@ + feed) {
            Some(JsonV::Array(rows)) => Some(rows),
            _ => None,
        }
    }
}

/// The message for a feed nobody serves: its name, quoted, and the host's
/// own feeds.
pub open spec fn no_feed_message(feed: Seq<char>) -> Seq<char> {
    "no feed called "@ + debug_quoted(feed) + " \u{2014} this host serves cpu, memory, runs, fleet, annotations"@
}

/// The feed a spec object names: `data.name`, when that is a string.
pub open spec fn data_feed(ms: Seq<(Seq<char>, JsonV)>) -> Option<Seq<char>> {
    match lookup(ms, "data"@) {
        Some(d) => match field(d, "name"@) {
            Some(JsonV::Str(n)) => Some(n),
            _ => None,
        },
        None => None,
    }
}

/// The data block a resolved feed leaves: its values, and its name still.
pub open spec fn data_block(feed: Seq<char>, rows: Seq<JsonV>) -> JsonV {
    JsonV::Object(seq![("name"@, JsonV::Str(feed)), ("values"@, JsonV::Array(rows))])
}

/// Exact copies of some rows.
fn copy_rows(rows: &Vec<Json>) -> (r: Vec<Json>)
    ensures
        jsons_of(r@) == jsons_of(rows@),
{
    let mut out: Vec<Json> = Vec::new();
    let mut i: usize = 0;
    proof {
        lemma_jsons_of(rows@);
    }
    while i < rows.len()
        invariant
            i <= rows.len(),
            out@.len() == i,
            forall|j: int| 0 <= j < i ==> (#[trigger] out@[j])@ == rows@[j]@,
        decreases rows.len() - i,
    {
        out.push(rows[i].copy());
        i += 1;
    }
    proof {
        lemma_jsons_of(out@);
        assert(jsons_of(out@) =~= jsons_of(rows@));
    }
    out
}

/// The rows a feed names (`feed_values`).
fn feed_rows(h: &HostFeeds, doc: &Json, feed: &str) -> (r: Option<Vec<Json>>)
    ensures
        match r {
            Some(rows) => feed_values(*h, doc@, feed@) == Some(jsons_of(rows@)),
            None => feed_values(*h, doc@, feed@) is None,
        },
{
    if str_eq(feed, "cpu") {
        Some(copy_rows(&h.cpu))
    } else if str_eq(feed, "memory") {
        Some(copy_rows(&h.memory))
    } else if str_eq(feed, "runs") {
        Some(copy_rows(&h.runs))
    } else if str_eq(feed, "fleet") {
        Some(copy_rows(&h.fleet))
    } else if str_eq(feed, "annotations") {
        Some(copy_rows(&h.annotations))
    } else {
        let pointer = concat("/feeds/", feed);
        match resolve(doc, pointer.as_str()) {
            Some(Json::Array(rows)) => {
                proof {
                    lemma_jsons_of(rows@);
                }
                Some(copy_rows(rows))
            },
            _ => None,
        }
    }
}

/// The message for a feed nobody serves (`no_feed_message`).
fn no_feed_error(feed: &str) -> (e: EditorError)
    ensures
        e.message@ == no_feed_message(feed@),
        e.column is None,
{
    let q = quoted(feed);
    let head = concat("no feed called ", q.as_str());
    let text = concat(head.as_str(), " \u{2014} this host serves cpu, memory, runs, fleet, annotations");
    EditorError { message: text, column: None }
}

/// The feed a spec object names (`data_feed`).
fn data_feed_of(node: &Json) -> (r: Option<&str>)
    requires
        node@ is Object,
    ensures
        match r {
            Some(f) => data_feed(node@->Object_0) == Some(f@),
            None => data_feed(node@->Object_0) is None,
        },
{
    match node.get("data") {
        Some(d) => match d.get("name") {
            Some(Json::Str(n)) => Some(n.as_str()),
            _ => None,
        },
        None => None,
    }
}

// --- resolving a spec --------------------------------------------------------

/// Whether a layer has been left with no rows to draw: its `/data/values` is
/// an empty array. A layer with inline values, or one that inherits the
/// parent's data, is the author's business.
pub open spec fn is_empty_layer(l: JsonV) -> bool {
    match at_pointer(l, "/data/values"@) {
        Some(JsonV::Array(rows)) => rows.len() == 0,
        _ => false,
    }
}

/// The layers that still have something to draw, in order.
pub open spec fn kept_layers(ls: Seq<JsonV>) -> Seq<JsonV>
    decreases ls.len(),
{
    if ls.len() == 0 {
        ls
    } else if is_empty_layer(ls.last()) {
        kept_layers(ls.drop_last())
    } else {
        kept_layers(ls.drop_last()).push(ls.last())
    }
}

/// An object's members with its `layer` array, if it has one, rid of empty
/// layers.
pub open spec fn without_empty_layers(ms: Seq<(Seq<char>, JsonV)>) -> Seq<(Seq<char>, JsonV)> {
    match lookup(ms, "layer"@) {
        Some(JsonV::Array(ls)) => upsert(ms, "layer"@, JsonV::Array(kept_layers(ls))),
        _ => ms,
    }
}

/// A spec node with every feed it names filled in, wherever it appears:
/// objects and arrays are walked, an object's `data` block is replaced by
/// the feed's rows (and not walked again), and a layer left empty is
/// dropped after its feed resolves. The first feed nobody serves, in
/// document order, is the error instead.
pub open spec fn resolved(h: HostFeeds, doc: JsonV, v: JsonV) -> Result<JsonV, Seq<char>>
    decreases v,
{
    match v {
        JsonV::Object(ms) => {
            let feed = data_feed(ms);
            if feed is Some && feed_values(h, doc, feed->0) is None {
                Err(no_feed_message(feed->0))
            } else {
                proof {
                    assert(decreases_to!(v => ms));
                }
                match resolved_members(h, doc, ms) {
                    Err(e) => Err(e),
                    Ok(rs) => {
                        let with_data = match feed {
                            Some(f) => upsert(rs, "data"@, data_block(f, feed_values(h, doc, f)->0)),
                            None => rs,
                        };
                        Ok(JsonV::Object(without_empty_layers(with_data)))
                    },
                }
            }
        },
        JsonV::Array(items) => {
            proof {
                assert(decreases_to!(v => items));
            }
            match resolved_items(h, doc, items) {
                Err(e) => Err(e),
                Ok(xs) => Ok(JsonV::Array(xs)),
            }
        },
        _ => Ok(v),
    }
}

/// Members in order, each value but `data`'s resolved; the first failure.
pub open spec fn resolved_members(h: HostFeeds, doc: JsonV, ms: Seq<(Seq<char>, JsonV)>) -> Result<
    Seq<(Seq<char>, JsonV)>,
    Seq<char>,
>
    decreases ms,
{
    if ms.len() == 0 {
        Ok(seq![])
    } else {
        proof {
            assert(ms.drop_last() =~= ms.subrange(0, ms.len() - 1));
            assert(decreases_to!(ms => ms.drop_last()));
            assert(decreases_to!(ms => ms[ms.len() - 1]));
            assert(decreases_to!(ms[ms.len() - 1] => ms[ms.len() - 1].1));
        }
        match resolved_members(h, doc, ms.drop_last()) {
            Err(e) => Err(e),
            Ok(rs) => if ms[ms.len() - 1].0 == "data"@ {
                Ok(rs.push(ms[ms.len() - 1]))
            } else {
                match resolved(h, doc, ms[ms.len() - 1].1) {
                    Err(e) => Err(e),
                    Ok(x) => Ok(rs.push((ms[ms.len() - 1].0, x))),
                }
            },
        }
    }
}

/// Items in order, each resolved; the first failure.
pub open spec fn resolved_items(h: HostFeeds, doc: JsonV, items: Seq<JsonV>) -> Result<Seq<JsonV>, Seq<char>>
    decreases items,
{
    if items.len() == 0 {
        Ok(seq![])
    } else {
        proof {
            assert(items.drop_last() =~= items.subrange(0, items.len() - 1));
            assert(decreases_to!(items => items.drop_last()));
            assert(decreases_to!(items => items[items.len() - 1]));
        }
        match resolved_items(h, doc, items.drop_last()) {
            Err(e) => Err(e),
            Ok(xs) => match resolved(h, doc, items[items.len() - 1]) {
                Err(e) => Err(e),
                Ok(x) => Ok(xs.push(x)),
            },
        }
    }
}

proof fn lemma_members_fail(h: HostFeeds, doc: JsonV, s: Seq<(Seq<char>, JsonV)>, i: int, e: Seq<char>)
    requires
        0 <= i <= s.len(),
        resolved_members(h, doc, s.subrange(0, i)) == Err::<Seq<(Seq<char>, JsonV)>, Seq<char>>(e),
    ensures
        resolved_members(h, doc, s) == Err::<Seq<(Seq<char>, JsonV)>, Seq<char>>(e),
    decreases s.len() - i,
{
    if i < s.len() {
        assert(s.subrange(0, i + 1).drop_last() =~= s.subrange(0, i));
        lemma_members_fail(h, doc, s, i + 1, e);
    } else {
        assert(s.subrange(0, i) =~= s);
    }
}

proof fn lemma_items_fail(h: HostFeeds, doc: JsonV, s: Seq<JsonV>, i: int, e: Seq<char>)
    requires
        0 <= i <= s.len(),
        resolved_items(h, doc, s.subrange(0, i)) == Err::<Seq<JsonV>, Seq<char>>(e),
    ensures
        resolved_items(h, doc, s) == Err::<Seq<JsonV>, Seq<char>>(e),
    decreases s.len() - i,
{
    if i < s.len() {
        assert(s.subrange(0, i + 1).drop_last() =~= s.subrange(0, i));
        lemma_items_fail(h, doc, s, i + 1, e);
    } else {
        assert(s.subrange(0, i) =~= s);
    }
}

/// The data block for a resolved feed (`data_block`).
fn make_block(feed: &str, rows: Vec<Json>) -> (r: Json)
    ensures
        r@ == data_block(feed@, jsons_of(rows@)),
{
    let mut ms: Vec<Member> = Vec::new();
    ms.push(Member { key: "name".to_owned(), value: Json::Str(feed.to_owned()) });
    ms.push(Member { key: "values".to_owned(), value: Json::Array(rows) });
    proof {
        lemma_members_of(ms@);
        assert(members_of(ms@) =~= seq![("name"@, JsonV::Str(feed@)), ("values"@, JsonV::Array(jsons_of(rows@)))]);
    }
    Json::Object(ms)
}

/// Whether a layer has no rows left to draw (`is_empty_layer`).
fn empty_layer(l: &Json) -> (r: bool)
    ensures
        r == is_empty_layer(l@),
{
    match resolve(l, "/data/values") {
        Some(Json::Array(rows)) => {
            proof {
                lemma_jsons_of(rows@);
            }
            rows.len() == 0
        },
        _ => false,
    }
}

/// The layers that still have something to draw (`kept_layers`).
fn keep_layers(ls: &Vec<Json>) -> (r: Vec<Json>)
    ensures
        jsons_of(r@) == kept_layers(jsons_of(ls@)),
{
    let ghost all = jsons_of(ls@);
    proof {
        lemma_jsons_of(ls@);
    }
    let mut out: Vec<Json> = Vec::new();
    let mut i: usize = 0;
    assert(all.subrange(0, 0) =~= Seq::<JsonV>::empty());
    while i < ls.len()
        invariant
            i <= ls.len(),
            all == jsons_of(ls@),
            all.len() == ls@.len(),
            forall|j: int| 0 <= j < ls@.len() ==> #[trigger] all[j] == ls@[j]@,
            jsons_of(out@) == kept_layers(all.subrange(0, i as int)),
        decreases ls.len() - i,
    {
        let ghost pre = all.subrange(0, i + 1);
        assert(pre.drop_last() =~= all.subrange(0, i as int));
        assert(pre.last() == ls@[i as int]@);
        if !empty_layer(&ls[i]) {
            let ghost before = out@;
            out.push(ls[i].copy());
            assert(out@.drop_last() =~= before);
        }
        i += 1;
    }
    assert(all.subrange(0, ls@.len() as int) =~= all);
    out
}

/// Members with their `layer` array rid of empty layers
/// (`without_empty_layers`).
fn drop_empty_layers(ms: Vec<Member>) -> (r: Vec<Member>)
    ensures
        members_of(r@) == without_empty_layers(members_of(ms@)),
{
    proof {
        lemma_members_of(ms@);
        lemma_key_index(members_of(ms@), "layer"@);
    }
    match crate::settings::member_index(&ms, "layer") {
        Some(i) => {
            let kept = match &ms[i].value {
                Json::Array(ls) => Some(keep_layers(ls)),
                _ => None,
            };
            match kept {
                Some(k) => {
                    assert(members_of(ms@)[i as int] == (ms@[i as int].key@, json_of(ms@[i as int].value)));
                    upsert_members(ms, "layer".to_owned(), Json::Array(k))
                },
                None => ms,
            }
        },
        None => ms,
    }
}

/// A spec node with its feeds filled in (`resolved`).
#[verifier::loop_isolation(false)]
fn resolve_node(h: &HostFeeds, doc: &Json, node: &Json) -> (r: Result<Json, EditorError>)
    ensures
        match r {
            Ok(j) => resolved(*h, doc@, node@) == Ok::<JsonV, Seq<char>>(j@),
            Err(e) => resolved(*h, doc@, node@) == Err::<JsonV, Seq<char>>(e.message@),
        },
    decreases node,
{
    match node {
        Json::Object(ms) => {
            let ghost mv = members_of(ms@);
            proof {
                lemma_members_of(ms@);
            }
            let feed = data_feed_of(node);
            let mut block: Option<Json> = None;
            match feed {
                Some(f) => match feed_rows(h, doc, f) {
                    Some(rows) => {
                        block = Some(make_block(f, rows));
                    },
                    None => {
                        return Err(no_feed_error(f));
                    },
                },
                None => {},
            }
            let mut out: Vec<Member> = Vec::new();
            let mut i: usize = 0;
            assert(mv.subrange(0, 0) =~= Seq::<(Seq<char>, JsonV)>::empty());
            assert(members_of(out@) =~= Seq::<(Seq<char>, JsonV)>::empty());
            while i < ms.len()
                invariant
                    i <= ms.len(),
                    mv == members_of(ms@),
                    mv.len() == ms@.len(),
                    forall|j: int| 0 <= j < ms@.len() ==> #[trigger] mv[j] == (ms@[j].key@, json_of(ms@[j].value)),
                    resolved_members(*h, doc@, mv.subrange(0, i as int)) == Ok::<
                        Seq<(Seq<char>, JsonV)>,
                        Seq<char>,
                    >(members_of(out@)),
                decreases ms.len() - i,
            {
                let ghost pre = mv.subrange(0, i + 1);
                assert(pre.drop_last() =~= mv.subrange(0, i as int));
                assert(pre[pre.len() - 1] == mv[i as int]);
                let ghost before = out@;
                if str_eq(ms[i].key.as_str(), "data") {
                    out.push(Member { key: ms[i].key.clone(), value: ms[i].value.copy() });
                } else {
                    assert(decreases_to!(*node => *ms));
                    assert(decreases_to!(*ms => ms@));
                    assert(decreases_to!(ms@ => ms@[i as int]));
                    assert(decreases_to!(ms@[i as int] => ms@[i as int].value));
                    match resolve_node(h, doc, &ms[i].value) {
                        Ok(x) => {
                            out.push(Member { key: ms[i].key.clone(), value: x });
                        },
                        Err(e) => {
                            proof {
                                lemma_members_fail(*h, doc@, mv, i + 1, e.message@);
                            }
                            return Err(e);
                        },
                    }
                }
                assert(out@.drop_last() =~= before);
                i += 1;
            }
            assert(mv.subrange(0, ms@.len() as int) =~= mv);
            let with_data = match block {
                Some(b) => upsert_members(out, "data".to_owned(), b),
                None => out,
            };
            Ok(Json::Object(drop_empty_layers(with_data)))
        },
        Json::Array(items) => {
            let ghost iv = jsons_of(items@);
            proof {
                lemma_jsons_of(items@);
            }
            let mut out: Vec<Json> = Vec::new();
            let mut i: usize = 0;
            assert(iv.subrange(0, 0) =~= Seq::<JsonV>::empty());
            assert(jsons_of(out@) =~= Seq::<JsonV>::empty());
            while i < items.len()
                invariant
                    i <= items.len(),
                    iv == jsons_of(items@),
                    iv.len() == items@.len(),
                    forall|j: int| 0 <= j < items@.len() ==> #[trigger] iv[j] == items@[j]@,
                    resolved_items(*h, doc@, iv.subrange(0, i as int)) == Ok::<Seq<JsonV>, Seq<char>>(
                        jsons_of(out@),
                    ),
                decreases items.len() - i,
            {
                let ghost pre = iv.subrange(0, i + 1);
                assert(pre.drop_last() =~= iv.subrange(0, i as int));
                assert(pre[pre.len() - 1] == iv[i as int]);
                let ghost before = out@;
                assert(decreases_to!(*node => *items));
                assert(decreases_to!(*items => items@));
                assert(decreases_to!(items@ => items@[i as int]));
                match resolve_node(h, doc, &items[i]) {
                    Ok(x) => {
                        out.push(x);
                    },
                    Err(e) => {
                        proof {
                            lemma_items_fail(*h, doc@, iv, i + 1, e.message@);
                        }
                        return Err(e);
                    },
                }
                assert(out@.drop_last() =~= before);
                i += 1;
            }
            assert(iv.subrange(0, items@.len() as int) =~= iv);
            Ok(Json::Array(out))
        },
        _ => Ok(node.copy()),
    }
}

// --- the spec the renderer gets ------------------------------------------------

/// `ms` with `k` set to `v` only where `k` is missing (`entry().or_insert`).
pub open spec fn or_insert(ms: Seq<(Seq<char>, JsonV)>, k: Seq<char>, v: JsonV) -> Seq<(Seq<char>, JsonV)> {
    if key_index(ms, k) >= 0 {
        ms
    } else {
        upsert(ms, k, v)
    }
}

/// `{"stroke": null}`: no border round the view.
pub open spec fn no_stroke() -> JsonV {
    JsonV::Object(seq![("stroke"@, JsonV::Null)])
}

/// `{"contains": "padding", "type": "fit"}`: fill the area and re-measure.
pub open spec fn fit_autosize() -> JsonV {
    JsonV::Object(seq![("contains"@, JsonV::Str("padding"@)), ("type"@, JsonV::Str("fit"@))])
}

/// The workbench chrome turned off, where the author did not say otherwise:
/// a transparent background, a chart the size of its area, and no view
/// border. A `config` that is not an object is replaced.
pub open spec fn chrome_off(ms: Seq<(Seq<char>, JsonV)>) -> Seq<(Seq<char>, JsonV)> {
    let m = or_insert(
        or_insert(
            or_insert(or_insert(ms, "background"@, JsonV::Str("transparent"@)), "width"@, JsonV::Str("container"@)),
            "height"@,
            JsonV::Str("container"@),
        ),
        "autosize"@,
        fit_autosize(),
    );
    match lookup(m, "config"@) {
        Some(JsonV::Object(cfg)) => upsert(m, "config"@, JsonV::Object(or_insert(cfg, "view"@, no_stroke()))),
        _ => upsert(m, "config"@, JsonV::Object(seq![("view"@, no_stroke())])),
    }
}

/// The message for a spec that is not a JSON object.
pub open spec fn not_an_object_message() -> Seq<char> {
    "a chart is a Vega-Lite spec: a JSON object"@
}

/// A chart spec as the renderer gets it: its feeds resolved and the chrome
/// off; refused when it is not an object or names a feed nobody serves.
pub open spec fn resolved_spec(h: HostFeeds, doc: JsonV, spec: JsonV) -> Result<JsonV, Seq<char>> {
    match spec {
        JsonV::Object(_) => match resolved(h, doc, spec) {
            Ok(JsonV::Object(ms)) => Ok(JsonV::Object(chrome_off(ms))),
            other => other,
        },
        _ => Err(not_an_object_message()),
    }
}

/// Whether a resolved spec has no rows at all: every layer went, or the one
/// data block it has is empty.
pub open spec fn nothing_to_draw_v(spec: JsonV) -> bool {
    match field(spec, "layer"@) {
        Some(JsonV::Array(ls)) => ls.len() == 0,
        _ => is_empty_layer(spec),
    }
}

/// `ms` with `key` set to `v` where it is missing (`or_insert`).
fn or_insert_members(ms: Vec<Member>, key: &str, v: Json) -> (r: Vec<Member>)
    ensures
        members_of(r@) == or_insert(members_of(ms@), key@, v@),
{
    match crate::settings::member_index(&ms, key) {
        Some(_) => ms,
        None => upsert_members(ms, key.to_owned(), v),
    }
}

fn str_json(s: &str) -> (j: Json)
    ensures
        j@ == JsonV::Str(s@),
{
    Json::Str(s.to_owned())
}

fn no_stroke_json() -> (j: Json)
    ensures
        j@ == no_stroke(),
{
    let mut ms: Vec<Member> = Vec::new();
    ms.push(Member { key: "stroke".to_owned(), value: Json::Null });
    proof {
        lemma_members_of(ms@);
        assert(members_of(ms@) =~= seq![("stroke"@, JsonV::Null)]);
    }
    Json::Object(ms)
}

fn fit_autosize_json() -> (j: Json)
    ensures
        j@ == fit_autosize(),
{
    let mut ms: Vec<Member> = Vec::new();
    ms.push(Member { key: "contains".to_owned(), value: str_json("padding") });
    ms.push(Member { key: "type".to_owned(), value: str_json("fit") });
    proof {
        lemma_members_of(ms@);
        assert(members_of(ms@) =~= seq![("contains"@, JsonV::Str("padding"@)), ("type"@, JsonV::Str("fit"@))]);
    }
    Json::Object(ms)
}

/// The chrome turned off (`chrome_off`).
fn turn_chrome_off(ms: Vec<Member>) -> (r: Vec<Member>)
    ensures
        members_of(r@) == chrome_off(members_of(ms@)),
{
    let m = or_insert_members(ms, "background", str_json("transparent"));
    let m = or_insert_members(m, "width", str_json("container"));
    let m = or_insert_members(m, "height", str_json("container"));
    let m = or_insert_members(m, "autosize", fit_autosize_json());
    proof {
        lemma_members_of(m@);
        lemma_key_index(members_of(m@), "config"@);
    }
    let cfg: Option<Vec<Member>> = match crate::settings::member_index(&m, "config") {
        Some(i) => {
            assert(members_of(m@)[i as int] == (m@[i as int].key@, json_of(m@[i as int].value)));
            match m[i].value.copy() {
                Json::Object(c) => Some(c),
                _ => None,
            }
        },
        None => None,
    };
    match cfg {
        Some(c) => {
            let c2 = or_insert_members(c, "view", no_stroke_json());
            upsert_members(m, "config".to_owned(), Json::Object(c2))
        },
        None => {
            let mut one: Vec<Member> = Vec::new();
            one.push(Member { key: "view".to_owned(), value: no_stroke_json() });
            proof {
                lemma_members_of(one@);
                assert(members_of(one@) =~= seq![("view"@, no_stroke())]);
            }
            upsert_members(m, "config".to_owned(), Json::Object(one))
        },
    }
}

/// Resolve a chart spec for drawing: fill in every feed it names, wherever
/// it names one, and turn the workbench chrome off (`resolved_spec`). A spec
/// that is not an object, or that names a feed nobody serves, is refused
/// with a message saying which.
pub fn resolve_spec(h: &HostFeeds, doc: &Json, spec: &Json) -> (r: Result<Json, EditorError>)
    ensures
        match r {
            Ok(j) => resolved_spec(*h, doc@, spec@) == Ok::<JsonV, Seq<char>>(j@),
            Err(e) => resolved_spec(*h, doc@, spec@) == Err::<JsonV, Seq<char>>(e.message@) && e.column is None,
        },
{
    match spec {
        Json::Object(_) => {},
        _ => {
            return Err(EditorError::message("a chart is a Vega-Lite spec: a JSON object"));
        },
    }
    match resolve_node(h, doc, spec) {
        Ok(Json::Object(ms)) => Ok(Json::Object(turn_chrome_off(ms))),
        Ok(other) => Ok(other),
        Err(e) => Err(EditorError { message: e.message, column: None }),
    }
}

/// Whether a resolved spec has any rows at all (`nothing_to_draw_v`).
pub fn nothing_to_draw(spec: &Json) -> (r: bool)
    ensures
        r == nothing_to_draw_v(spec@),
{
    match spec.get("layer") {
        Some(Json::Array(ls)) => {
            proof {
                lemma_jsons_of(ls@);
            }
            ls.len() == 0
        },
        _ => empty_layer(spec),
    }
}

/// The names of the charts the document keeps, in key order.
pub open spec fn chart_names_v(doc: JsonV) -> Seq<Seq<char>> {
    match field(doc, "charts"@) {
        Some(JsonV::Object(ms)) => Seq::new(ms.len(), |i: int| ms[i].0),
        _ => seq![],
    }
}

/// The chart names, for the picker and the empty state.
pub fn chart_names(doc: &Json) -> (r: Vec<String>)
    ensures
        r@.len() == chart_names_v(doc@).len(),
        forall|i: int| 0 <= i < r@.len() ==> #[trigger] r@[i]@ == chart_names_v(doc@)[i],
{
    let mut out: Vec<String> = Vec::new();
    match doc.get("charts") {
        Some(Json::Object(ms)) => {
            proof {
                lemma_members_of(ms@);
            }
            let mut i: usize = 0;
            while i < ms.len()
                invariant
                    i <= ms.len(),
                    out@.len() == i,
                    members_of(ms@).len() == ms@.len(),
                    forall|j: int| 0 <= j < ms@.len() ==> #[trigger] members_of(ms@)[j] == (ms@[j].key@, json_of(ms@[j].value)),
                    forall|j: int| 0 <= j < i ==> #[trigger] out@[j]@ == ms@[j].key@,
                decreases ms.len() - i,
            {
                out.push(ms[i].key.clone());
                i += 1;
            }
            out
        },
        _ => out,
    }
}

// --- one chart, by name ---------------------------------------------------------

/// The spec the document keeps for a chart: `/charts/<name>`, the name
/// escaped as a pointer token.
pub open spec fn chart_at(doc: JsonV, name: Seq<char>) -> Option<JsonV> {
    at_pointer(doc, "/charts/"@ + crate::tree::escape(name))
}

/// What one named chart comes to: no such chart, a refusal, an empty
/// window, or the spec to hand the renderer.
pub enum ChartView {
    Missing,
    Failed(EditorError),
    Empty,
    Ready(Json),
}

/// One named chart, resolved for the renderer. A chart whose window has no
/// rows says so rather than drawing bare axes.
pub fn chart_view(h: &HostFeeds, doc: &Json, name: &str) -> (r: ChartView)
    ensures
        match chart_at(doc@, name@) {
            None => r is Missing,
            Some(spec) => match resolved_spec(*h, doc@, spec) {
                Err(m) => r matches ChartView::Failed(e) && e.message@ == m,
                Ok(j) => if nothing_to_draw_v(j) {
                    r is Empty
                } else {
                    r matches ChartView::Ready(x) && x@ == j
                },
            },
        },
{
    let token = crate::tree::escape_pointer(name);
    let pointer = concat("/charts/", token.as_str());
    match resolve(doc, pointer.as_str()) {
        None => ChartView::Missing,
        Some(spec) => match resolve_spec(h, doc, spec) {
            Err(e) => ChartView::Failed(e),
            Ok(j) => if nothing_to_draw(&j) {
                ChartView::Empty
            } else {
                ChartView::Ready(j)
            },
        },
    }
}

/// `s` with every leading copy of `p` taken off (`trim_start_matches`).
pub open spec fn trim_prefix(s: Seq<char>, p: Seq<char>) -> Seq<char>
    decreases s.len(),
{
    if p.len() > 0 && p.len() <= s.len() && s.subrange(0, p.len() as int) == p {
        trim_prefix(s.skip(p.len() as int), p)
    } else {
        s
    }
}

/// A chart target as a chart name: the target without its `/charts/`
/// prefix, however many times it was written.
pub fn chart_key(target: &str) -> (r: String)
    ensures
        r@ == trim_prefix(target@, "/charts/"@),
{
    let cs = crate::text::chars_of(target);
    let pc = crate::text::chars_of("/charts/");
    let mut i: usize = 0;
    assert(cs@.skip(0) =~= cs@);
    while pc.len() > 0 && pc.len() <= cs.len() - i && crate::text::matches_at(&cs, &pc, i)
        invariant
            cs@ == target@,
            pc@ == "/charts/"@,
            i <= cs@.len(),
            trim_prefix(cs@, pc@) == trim_prefix(cs@.skip(i as int), pc@),
        decreases cs.len() - i,
    {
        let ghost rest = cs@.skip(i as int);
        assert(rest.subrange(0, pc@.len() as int) =~= cs@.subrange(i as int, i + pc@.len()));
        assert(rest.skip(pc@.len() as int) =~= cs@.skip(i + pc@.len()));
        i += pc.len();
    }
    proof {
        let rest = cs@.skip(i as int);
        if pc@.len() > 0 && pc@.len() <= rest.len() {
            assert(rest.subrange(0, pc@.len() as int) =~= cs@.subrange(i as int, i + pc@.len()));
        }
    }
    let tail = crate::text::slice_of(&cs, i, cs.len());
    assert(tail@ =~= cs@.skip(i as int));
    crate::text::string_of(tail.as_slice())
}

/// The chart editor's bottom line: which chart, and how many points are in
/// the window it draws (the longer of the two series). Nothing without a
/// chart.
pub open spec fn footer_text(target: Option<Seq<char>>, cpu_points: nat, mem_points: nat) -> Seq<char> {
    match target {
        None => seq![],
        Some(t) => {
            let name = trim_prefix(t, "/charts/"@);
            if name.len() == 0 {
                seq![]
            } else {
                let points = if cpu_points >= mem_points {
                    cpu_points
                } else {
                    mem_points
                };
                name + " \u{b7} "@ + crate::text::decimal(points) + " points"@
            }
        },
    }
}

/// The chart editor's footer (`footer_text`).
pub fn footer(target: Option<&str>, cpu_points: usize, mem_points: usize) -> (r: String)
    ensures
        r@ == footer_text(
            match target {
                Some(t) => Some(t@),
                None => None,
            },
            cpu_points as nat,
            mem_points as nat,
        ),
{
    match target {
        None => String::new(),
        Some(t) => {
            let name = chart_key(t);
            if name.unicode_len() == 0 {
                String::new()
            } else {
                let points = if cpu_points >= mem_points {
                    cpu_points
                } else {
                    mem_points
                };
                let a = concat(name.as_str(), " \u{b7} ");
                let n = crate::text::decimal_string(points as u64);
                let b = concat(a.as_str(), n.as_str());
                concat(b.as_str(), " points")
            }
        },
    }
}

// --- a new chart -------------------------------------------------------------------

/// The names the new-chart button tries, in order: `new chart`, then
/// `new chart 2`, `new chart 3`, ...
pub open spec fn candidate(n: nat) -> Seq<char> {
    if n <= 1 {
        "new chart"@
    } else {
        "new chart "@ + crate::text::decimal(n)
    }
}

proof fn lemma_candidate_injective(n: nat, m: nat)
    requires
        1 <= n,
        1 <= m,
        candidate(n) == candidate(m),
    ensures
        n == m,
{
    reveal_strlit("new chart");
    reveal_strlit("new chart ");
    assert("new chart"@.len() == 9);
    assert("new chart "@.len() == 10);
    crate::text::lemma_decimal_len(n);
    crate::text::lemma_decimal_len(m);
    if n >= 2 && m >= 2 {
        let p = "new chart "@;
        assert(candidate(n).skip(p.len() as int) =~= crate::text::decimal(n));
        assert(candidate(m).skip(p.len() as int) =~= crate::text::decimal(m));
        crate::text::lemma_decimal_injective(n, m);
    } else if n >= 2 {
        assert(candidate(n).len() != candidate(m).len());
    } else if m >= 2 {
        assert(candidate(n).len() != candidate(m).len());
    }
}

/// However many names are taken, one of the first `len + 1` candidates is
/// free.
proof fn lemma_free_candidate(t: Seq<Seq<char>>)
    ensures
        exists|n: nat| 1 <= n <= t.len() + 1 && !t.contains(#[trigger] candidate(n)),
    decreases t.len(),
{
    let last = (t.len() + 1) as nat;
    if !t.contains(candidate(last)) {
        assert(1 <= last <= t.len() + 1 && !t.contains(candidate(last)));
    } else {
        let j = choose|j: int| 0 <= j < t.len() && t[j] == candidate(last);
        let t2 = t.remove(j);
        lemma_free_candidate(t2);
        let n = choose|n: nat| 1 <= n <= t2.len() + 1 && !t2.contains(#[trigger] candidate(n));
        if t.contains(candidate(n)) {
            let i = choose|i: int| 0 <= i < t.len() && t[i] == candidate(n);
            if i == j {
                lemma_candidate_injective(n, last);
            } else if i < j {
                assert(t2[i] == t[i]);
            } else {
                assert(t2[i - 1] == t[i]);
            }
        }
        assert(1 <= n <= t.len() + 1 && !t.contains(candidate(n)));
    }
}

fn candidate_name(n: usize) -> (r: String)
    ensures
        r@ == candidate(n as nat),
{
    if n <= 1 {
        "new chart".to_owned()
    } else {
        let d = crate::text::decimal_string(n as u64);
        concat("new chart ", d.as_str())
    }
}

fn name_taken(taken: &Vec<String>, name: &str) -> (r: bool)
    ensures
        r == taken@.map_values(|s: String| s@).contains(name@),
{
    let ghost tv = taken@.map_values(|s: String| s@);
    let mut i: usize = 0;
    while i < taken.len()
        invariant
            i <= taken.len(),
            tv == taken@.map_values(|s: String| s@),
            forall|j: int| 0 <= j < i ==> tv[j] != name@,
        decreases taken.len() - i,
    {
        if str_eq(taken[i].as_str(), name) {
            assert(tv[i as int] == name@);
            return true;
        }
        i += 1;
    }
    false
}

/// A chart name nobody has used yet, so the new-chart button never
/// overwrites a chart: the first free candidate.
pub fn fresh_chart_name(taken: &Vec<String>) -> (r: String)
    requires
        taken@.len() < usize::MAX,
    ensures
        exists|n: nat|
            1 <= n && r@ == candidate(n) && forall|m: nat|
                1 <= m < n ==> taken@.map_values(|s: String| s@).contains(#[trigger] candidate(m)),
        !taken@.map_values(|s: String| s@).contains(r@),
{
    let ghost tv = taken@.map_values(|s: String| s@);
    proof {
        lemma_free_candidate(tv);
    }
    let mut n: usize = 1;
    while n <= taken.len()
        invariant
            1 <= n <= taken@.len() + 1,
            taken@.len() < usize::MAX,
            tv == taken@.map_values(|s: String| s@),
            tv.len() == taken@.len(),
            forall|m: nat| 1 <= m < n ==> tv.contains(#[trigger] candidate(m)),
        decreases taken.len() + 1 - n,
    {
        let c = candidate_name(n);
        if !name_taken(taken, c.as_str()) {
            return c;
        }
        n += 1;
    }
    let c = candidate_name(n);
    if !name_taken(taken, c.as_str()) {
        return c;
    }
    proof {
        let k = choose|k: nat| 1 <= k <= tv.len() + 1 && !tv.contains(#[trigger] candidate(k));
        if k < n {
            assert(tv.contains(candidate(k)));
        }
        assert(false);
    }
    c
}

/// The spec a new chart starts from: a line of the cpu feed over time.
pub open spec fn chart_template_v() -> JsonV {
    JsonV::Object(
        seq![
            ("$schema"@, JsonV::Str("https://vega.github.io/schema/vega-lite/v6.json"@)),
            ("data"@, JsonV::Object(seq![("name"@, JsonV::Str("cpu"@))])),
            ("encoding"@, JsonV::Object(seq![
                ("x"@, JsonV::Object(seq![
                    ("field"@, JsonV::Str("at"@)),
                    ("title"@, JsonV::Null),
                    ("type"@, JsonV::Str("temporal"@)),
                ])),
                ("y"@, JsonV::Object(seq![
                    ("field"@, JsonV::Str("value"@)),
                    ("type"@, JsonV::Str("quantitative"@)),
                ])),
            ])),
            ("mark"@, JsonV::Str("line"@)),
        ],
    )
}

fn object_of(ms: Vec<Member>) -> (j: Json)
    ensures
        j@ == JsonV::Object(members_of(ms@)),
{
    Json::Object(ms)
}

fn chart_template() -> (j: Json)
    ensures
        j@ == chart_template_v(),
{
    let mut data: Vec<Member> = Vec::new();
    data.push(Member { key: "name".to_owned(), value: str_json("cpu") });
    let mut x: Vec<Member> = Vec::new();
    x.push(Member { key: "field".to_owned(), value: str_json("at") });
    x.push(Member { key: "title".to_owned(), value: Json::Null });
    x.push(Member { key: "type".to_owned(), value: str_json("temporal") });
    let mut y: Vec<Member> = Vec::new();
    y.push(Member { key: "field".to_owned(), value: str_json("value") });
    y.push(Member { key: "type".to_owned(), value: str_json("quantitative") });
    proof {
        lemma_members_of(data@);
        lemma_members_of(x@);
        lemma_members_of(y@);
        assert(members_of(data@) =~= seq![("name"@, JsonV::Str("cpu"@))]);
        assert(members_of(x@) =~= seq![
            ("field"@, JsonV::Str("at"@)),
            ("title"@, JsonV::Null),
            ("type"@, JsonV::Str("temporal"@)),
        ]);
        assert(members_of(y@) =~= seq![("field"@, JsonV::Str("value"@)), ("type"@, JsonV::Str("quantitative"@))]);
    }
    let xj = object_of(x);
    let yj = object_of(y);
    let mut enc: Vec<Member> = Vec::new();
    enc.push(Member { key: "x".to_owned(), value: xj });
    enc.push(Member { key: "y".to_owned(), value: yj });
    let mut top: Vec<Member> = Vec::new();
    top.push(Member { key: "$schema".to_owned(), value: str_json("https://vega.github.io/schema/vega-lite/v6.json") });
    top.push(Member { key: "data".to_owned(), value: object_of(data) });
    top.push(Member { key: "encoding".to_owned(), value: object_of(enc) });
    top.push(Member { key: "mark".to_owned(), value: str_json("line") });
    proof {
        lemma_members_of(enc@);
        lemma_members_of(top@);
        let want = chart_template_v()->Object_0;
        assert(members_of(enc@) =~= want[2].1->Object_0);
        assert(members_of(top@) =~= want);
    }
    Json::Object(top)
}

/// What the new-chart button writes: a name nobody has used, under
/// `/charts/`, and the template spec.
pub fn new_chart(doc: &Json) -> (r: (String, Json))
    requires
        chart_names_v(doc@).len() < usize::MAX,
    ensures
        exists|n: nat|
            1 <= n && r.0@ == "/charts/"@ + crate::tree::escape(candidate(n)) && !chart_names_v(doc@).contains(
                candidate(n),
            ) && forall|m: nat| 1 <= m < n ==> chart_names_v(doc@).contains(#[trigger] candidate(m)),
        r.1@ == chart_template_v(),
{
    let names = chart_names(doc);
    assert(names@.map_values(|s: String| s@) =~= chart_names_v(doc@));
    let fresh = fresh_chart_name(&names);
    let token = crate::tree::escape_pointer(fresh.as_str());
    (concat("/charts/", token.as_str()), chart_template())
}

// --- the host's rows ---------------------------------------------------------------

/// A sample of a series: `{"at": .., "value": ..}`.
pub open spec fn series_row_v(at: i64, value: Number) -> JsonV {
    JsonV::Object(seq![("at"@, crate::mcp::delta_json(at)), ("value"@, JsonV::Num(value))])
}

/// A sample of a series as a row (`series_row_v`).
pub fn series_row(at: i64, value: Number) -> (j: Json)
    ensures
        j@ == series_row_v(at, value),
{
    let mut ms: Vec<Member> = Vec::new();
    ms.push(Member { key: "at".to_owned(), value: crate::mcp::delta_value(at) });
    ms.push(Member { key: "value".to_owned(), value: Json::Num(value) });
    proof {
        lemma_members_of(ms@);
        assert(members_of(ms@) =~= series_row_v(at, value)->Object_0);
    }
    Json::Object(ms)
}

/// A run as the `runs` feed serves it.
pub open spec fn run_row_v(workflow: Seq<char>, status: Seq<char>, at: i64) -> JsonV {
    JsonV::Object(
        seq![("at"@, crate::mcp::delta_json(at)), ("status"@, JsonV::Str(status)), ("workflow"@, JsonV::Str(workflow))],
    )
}

/// A run as a row (`run_row_v`).
pub fn run_row(workflow: &str, status: &str, at: i64) -> (j: Json)
    ensures
        j@ == run_row_v(workflow@, status@, at),
{
    let mut ms: Vec<Member> = Vec::new();
    ms.push(Member { key: "at".to_owned(), value: crate::mcp::delta_value(at) });
    ms.push(Member { key: "status".to_owned(), value: str_json(status) });
    ms.push(Member { key: "workflow".to_owned(), value: str_json(workflow) });
    proof {
        lemma_members_of(ms@);
        assert(members_of(ms@) =~= run_row_v(workflow@, status@, at)->Object_0);
    }
    Json::Object(ms)
}

/// A run's window as the `annotations` feed serves it, for charts that
/// shade it behind a series.
pub open spec fn annotation_row_v(from: i64, to: i64, status: Seq<char>, workflow: Seq<char>) -> JsonV {
    JsonV::Object(
        seq![
            ("from"@, crate::mcp::delta_json(from)),
            ("status"@, JsonV::Str(status)),
            ("to"@, crate::mcp::delta_json(to)),
            ("workflow"@, JsonV::Str(workflow)),
        ],
    )
}

/// A run's window as a row (`annotation_row_v`).
pub fn annotation_row(from: i64, to: i64, status: &str, workflow: &str) -> (j: Json)
    ensures
        j@ == annotation_row_v(from, to, status@, workflow@),
{
    let mut ms: Vec<Member> = Vec::new();
    ms.push(Member { key: "from".to_owned(), value: crate::mcp::delta_value(from) });
    ms.push(Member { key: "status".to_owned(), value: str_json(status) });
    ms.push(Member { key: "to".to_owned(), value: crate::mcp::delta_value(to) });
    ms.push(Member { key: "workflow".to_owned(), value: str_json(workflow) });
    proof {
        lemma_members_of(ms@);
        assert(members_of(ms@) =~= annotation_row_v(from, to, status@, workflow@)->Object_0);
    }
    Json::Object(ms)
}

/// An agent as the `fleet` feed serves it: its name, status and resident
/// memory.
pub open spec fn fleet_row_v(name: Seq<char>, status: Seq<char>, rss: Number) -> JsonV {
    JsonV::Object(seq![("name"@, JsonV::Str(name)), ("rss"@, JsonV::Num(rss)), ("status"@, JsonV::Str(status))])
}

/// An agent as a row (`fleet_row_v`).
pub fn fleet_row(name: &str, status: &str, rss: Number) -> (j: Json)
    ensures
        j@ == fleet_row_v(name@, status@, rss),
{
    let mut ms: Vec<Member> = Vec::new();
    ms.push(Member { key: "name".to_owned(), value: str_json(name) });
    ms.push(Member { key: "rss".to_owned(), value: Json::Num(rss) });
    ms.push(Member { key: "status".to_owned(), value: str_json(status) });
    proof {
        lemma_members_of(ms@);
        assert(members_of(ms@) =~= fleet_row_v(name@, status@, rss)->Object_0);
    }
    Json::Object(ms)
}

// --- laws --------------------------------------------------------------------------

proof fn lemma_kept_layers(ls: Seq<JsonV>)
    ensures
        forall|i: int| 0 <= i < kept_layers(ls).len() ==> !is_empty_layer(#[trigger] kept_layers(ls)[i]),
    decreases ls.len(),
{
    if ls.len() > 0 {
        let k = kept_layers(ls.drop_last());
        lemma_kept_layers(ls.drop_last());
        if !is_empty_layer(ls.last()) {
            assert forall|i: int| 0 <= i < kept_layers(ls).len() implies !is_empty_layer(#[trigger] kept_layers(ls)[i]) by {
                if i < k.len() {
                    assert(kept_layers(ls)[i] == k[i]);
                }
            }
        }
    }
}

proof fn lemma_lookup_or_insert(ms: Seq<(Seq<char>, JsonV)>, k: Seq<char>, v: JsonV, k2: Seq<char>)
    ensures
        lookup(or_insert(ms, k, v), k2) == if k2 == k && lookup(ms, k) is None {
            Some(v)
        } else {
            lookup(ms, k2)
        },
{
    crate::settings::lemma_lookup_upsert(ms, k, v, k2);
}

proof fn lemma_chrome_literals()
    ensures
        "background"@ != "width"@,
        "background"@ != "height"@,
        "background"@ != "autosize"@,
        "background"@ != "config"@,
        "width"@ != "height"@,
        "width"@ != "autosize"@,
        "width"@ != "config"@,
        "height"@ != "autosize"@,
        "height"@ != "config"@,
        "autosize"@ != "config"@,
        "data"@ != "layer"@,
        "data"@ != "background"@,
        "data"@ != "width"@,
        "data"@ != "height"@,
        "data"@ != "autosize"@,
        "data"@ != "config"@,
        "layer"@ != "background"@,
        "layer"@ != "width"@,
        "layer"@ != "height"@,
        "layer"@ != "autosize"@,
        "layer"@ != "config"@,
{
    reveal_strlit("background");
    reveal_strlit("width");
    reveal_strlit("height");
    reveal_strlit("autosize");
    reveal_strlit("config");
    reveal_strlit("data");
    reveal_strlit("layer");
    assert("height"@[0] != "config"@[0]);
    assert("background"@.len() != "autosize"@.len());
    assert("background"@.len() != "config"@.len());
    assert("width"@.len() != "autosize"@.len());
    assert("autosize"@.len() != "config"@.len());
    assert("data"@.len() != "layer"@.len());
    assert("layer"@[0] != "width"@[0]);
}

/// The key the chrome leaves alone reads as it did.
proof fn lemma_chrome_keeps(ms: Seq<(Seq<char>, JsonV)>, k: Seq<char>)
    requires
        k != "background"@,
        k != "width"@,
        k != "height"@,
        k != "autosize"@,
        k != "config"@,
    ensures
        lookup(chrome_off(ms), k) == lookup(ms, k),
{
    let m1 = or_insert(ms, "background"@, JsonV::Str("transparent"@));
    let m2 = or_insert(m1, "width"@, JsonV::Str("container"@));
    let m3 = or_insert(m2, "height"@, JsonV::Str("container"@));
    let m4 = or_insert(m3, "autosize"@, fit_autosize());
    lemma_lookup_or_insert(ms, "background"@, JsonV::Str("transparent"@), k);
    lemma_lookup_or_insert(m1, "width"@, JsonV::Str("container"@), k);
    lemma_lookup_or_insert(m2, "height"@, JsonV::Str("container"@), k);
    lemma_lookup_or_insert(m3, "autosize"@, fit_autosize(), k);
    match lookup(m4, "config"@) {
        Some(JsonV::Object(cfg)) => {
            crate::settings::lemma_lookup_upsert(m4, "config"@, JsonV::Object(or_insert(cfg, "view"@, no_stroke())), k);
        },
        _ => {
            crate::settings::lemma_lookup_upsert(m4, "config"@, JsonV::Object(seq![("view"@, no_stroke())]), k);
        },
    }
}

/// What the chrome sets a key to when the author did not.
pub open spec fn chrome_default(k: Seq<char>) -> JsonV {
    if k == "background"@ {
        JsonV::Str("transparent"@)
    } else if k == "autosize"@ {
        fit_autosize()
    } else {
        JsonV::Str("container"@)
    }
}

/// The chrome defers to the author: a background, size or autosize the spec
/// sets is kept as it is, and only a missing one gets the workbench's.
pub proof fn law_the_chrome_defers_to_the_author(ms: Seq<(Seq<char>, JsonV)>, k: Seq<char>)
    requires
        k == "background"@ || k == "width"@ || k == "height"@ || k == "autosize"@,
    ensures
        lookup(chrome_off(ms), k) == match lookup(ms, k) {
            Some(v) => Some(v),
            None => Some(chrome_default(k)),
        },
{
    lemma_chrome_literals();
    let m1 = or_insert(ms, "background"@, JsonV::Str("transparent"@));
    let m2 = or_insert(m1, "width"@, JsonV::Str("container"@));
    let m3 = or_insert(m2, "height"@, JsonV::Str("container"@));
    let m4 = or_insert(m3, "autosize"@, fit_autosize());
    lemma_lookup_or_insert(ms, "background"@, JsonV::Str("transparent"@), k);
    lemma_lookup_or_insert(m1, "width"@, JsonV::Str("container"@), k);
    lemma_lookup_or_insert(m2, "height"@, JsonV::Str("container"@), k);
    lemma_lookup_or_insert(m3, "autosize"@, fit_autosize(), k);
    lemma_lookup_or_insert(ms, "background"@, JsonV::Str("transparent"@), "width"@);
    lemma_lookup_or_insert(ms, "background"@, JsonV::Str("transparent"@), "height"@);
    lemma_lookup_or_insert(ms, "background"@, JsonV::Str("transparent"@), "autosize"@);
    lemma_lookup_or_insert(m1, "width"@, JsonV::Str("container"@), "height"@);
    lemma_lookup_or_insert(m1, "width"@, JsonV::Str("container"@), "autosize"@);
    lemma_lookup_or_insert(m2, "height"@, JsonV::Str("container"@), "autosize"@);
    match lookup(m4, "config"@) {
        Some(JsonV::Object(cfg)) => {
            crate::settings::lemma_lookup_upsert(m4, "config"@, JsonV::Object(or_insert(cfg, "view"@, no_stroke())), k);
        },
        _ => {
            crate::settings::lemma_lookup_upsert(m4, "config"@, JsonV::Object(seq![("view"@, no_stroke())]), k);
        },
    }
}

/// A layer left with no rows is never handed to the renderer: every layer a
/// resolved spec still has, has rows or inherits them.
pub proof fn law_no_empty_layer_is_drawn(h: HostFeeds, doc: JsonV, spec: JsonV)
    requires
        resolved_spec(h, doc, spec) is Ok,
    ensures
        match field(resolved_spec(h, doc, spec)->Ok_0, "layer"@) {
            Some(JsonV::Array(ls)) => forall|i: int| 0 <= i < ls.len() ==> !is_empty_layer(#[trigger] ls[i]),
            _ => true,
        },
{
    lemma_chrome_literals();
    let ms = spec->Object_0;
    let feed = data_feed(ms);
    let rs = resolved_members(h, doc, ms)->Ok_0;
    let with_data = match feed {
        Some(f) => upsert(rs, "data"@, data_block(f, feed_values(h, doc, f)->0)),
        None => rs,
    };
    let w = without_empty_layers(with_data);
    assert(resolved(h, doc, spec) == Ok::<JsonV, Seq<char>>(JsonV::Object(w)));
    lemma_chrome_keeps(w, "layer"@);
    match lookup(with_data, "layer"@) {
        Some(JsonV::Array(ls0)) => {
            crate::settings::lemma_lookup_upsert(with_data, "layer"@, JsonV::Array(kept_layers(ls0)), "layer"@);
            lemma_kept_layers(ls0);
        },
        _ => {},
    }
}

/// The point of a chart spec: it names the data it wants, and what reaches
/// the renderer carries that feed's rows under `data`, with the name kept.
pub proof fn law_a_named_feed_becomes_the_data(h: HostFeeds, doc: JsonV, spec: JsonV)
    requires
        spec is Object,
        data_feed(spec->Object_0) is Some,
        resolved_spec(h, doc, spec) is Ok,
    ensures
        feed_values(h, doc, data_feed(spec->Object_0)->0) is Some,
        field(resolved_spec(h, doc, spec)->Ok_0, "data"@) == Some(
            data_block(
                data_feed(spec->Object_0)->0,
                feed_values(h, doc, data_feed(spec->Object_0)->0)->0,
            ),
        ),
{
    lemma_chrome_literals();
    let ms = spec->Object_0;
    let f = data_feed(ms)->0;
    let block = data_block(f, feed_values(h, doc, f)->0);
    let rs = resolved_members(h, doc, ms)->Ok_0;
    let with_data = upsert(rs, "data"@, block);
    let w = without_empty_layers(with_data);
    assert(resolved(h, doc, spec) == Ok::<JsonV, Seq<char>>(JsonV::Object(w)));
    crate::settings::lemma_lookup_upsert(rs, "data"@, block, "data"@);
    match lookup(with_data, "layer"@) {
        Some(JsonV::Array(ls0)) => {
            crate::settings::lemma_lookup_upsert(with_data, "layer"@, JsonV::Array(kept_layers(ls0)), "data"@);
        },
        _ => {},
    }
    lemma_chrome_keeps(w, "data"@);
}

/// A feed nobody serves is refused by name, before anything is drawn.
pub proof fn law_an_unknown_feed_is_refused(h: HostFeeds, doc: JsonV, spec: JsonV)
    requires
        spec is Object,
        data_feed(spec->Object_0) is Some,
        feed_values(h, doc, data_feed(spec->Object_0)->0) is None,
    ensures
        resolved_spec(h, doc, spec) == Err::<JsonV, Seq<char>>(no_feed_message(data_feed(spec->Object_0)->0)),
{
}

/// The charts a document keeps, as members.
pub open spec fn charts_of(doc: JsonV) -> Seq<(Seq<char>, JsonV)> {
    match field(doc, "charts"@) {
        Some(c) => crate::settings::members(c),
        None => seq![],
    }
}

/// The pointer the new-chart button writes a candidate name to.
pub open spec fn new_chart_pointer(n: nat) -> Seq<char> {
    "/charts/"@ + crate::tree::escape(candidate(n))
}

proof fn lemma_decimal_digits(n: nat)
    ensures
        forall|i: int| 0 <= i < crate::text::decimal(n).len() ==> {
            let c = #[trigger] crate::text::decimal(n)[i];
            c != '~' && c != '/'
        },
    decreases n,
{
    if n >= 10 {
        lemma_decimal_digits(n / 10);
        let d = crate::text::decimal(n);
        assert forall|i: int| 0 <= i < d.len() implies {
            let c = #[trigger] d[i];
            c != '~' && c != '/'
        } by {
            if i < d.len() - 1 {
                assert(d[i] == crate::text::decimal(n / 10)[i]);
            }
        }
    }
}

/// A candidate name holds neither `~` nor `/`.
proof fn lemma_candidate_plain(n: nat)
    ensures
        forall|i: int| 0 <= i < candidate(n).len() ==> {
            let c = #[trigger] candidate(n)[i];
            c != '~' && c != '/'
        },
{
    reveal_strlit("new chart");
    reveal_strlit("new chart ");
    lemma_decimal_digits(n);
    if n >= 2 {
        let p = "new chart "@;
        assert forall|i: int| 0 <= i < candidate(n).len() implies {
            let c = #[trigger] candidate(n)[i];
            c != '~' && c != '/'
        } by {
            if i >= p.len() {
                assert(candidate(n)[i] == crate::text::decimal(n)[i - p.len()]);
            }
        }
    }
}

/// A key with neither `~` nor `/` is its own pointer token.
proof fn lemma_escape_plain(k: Seq<char>)
    requires
        forall|i: int| 0 <= i < k.len() ==> k[i] != '~' && k[i] != '/',
    ensures
        crate::tree::escape(k) == k,
    decreases k.len(),
{
    if k.len() > 0 {
        lemma_escape_plain(k.drop_last());
        assert(k.drop_last().push(k.last()) =~= k);
    }
}

/// The new chart's pointer, split as an edit splits it: `charts`, then the
/// name.
proof fn lemma_new_chart_parts(n: nat)
    ensures
        new_chart_pointer(n)[0] == '/',
        new_chart_pointer(n).len() >= 2,
        new_chart_pointer(n)[1] != '/',
        forall|i: int| 0 <= i < new_chart_pointer(n).len() ==> #[trigger] new_chart_pointer(n)[i] != '~',
        crate::settings::strip_slashes(new_chart_pointer(n)).len() > 0,
        crate::settings::edit_parts(new_chart_pointer(n)) == seq!["charts"@, candidate(n)],
{
    reveal_strlit("/charts/");
    reveal_strlit("charts/");
    reveal_strlit("charts");
    lemma_candidate_plain(n);
    lemma_escape_plain(candidate(n));
    let c = candidate(n);
    let p = new_chart_pointer(n);
    assert(p == "/charts/"@ + c);
    assert forall|i: int| 0 <= i < p.len() implies #[trigger] p[i] != '~' by {
        if i >= 8 {
            assert(p[i] == c[i - 8]);
        }
    }
    let rest = p.drop_first();
    assert(rest =~= "charts/"@ + c);
    assert(crate::settings::strip_slashes(rest) == rest);
    assert(crate::settings::strip_slashes(p) == rest);
    let a = "charts"@;
    crate::cron::lemma_pieces_whole(a, '/');
    assert(a.push('/') =~= "charts/"@);
    assert(a.push('/').drop_last() =~= a);
    assert(a.push('/').last() == '/');
    assert(pieces(a.push('/'), '/') == pieces(a, '/').push(seq![]));
    crate::cron::lemma_pieces_extend("charts/"@, c, '/');
    assert(seq![] + c =~= c);
    assert(pieces(rest, '/') =~= seq![a, c]);
    assert forall|i: int| 0 <= i < a.len() implies a[i] != '~' by {}
    crate::settings::lemma_swap_id(a, '~', '1', '/');
    crate::settings::lemma_swap_id(a, '~', '0', '~');
    crate::settings::lemma_swap_id(c, '~', '1', '/');
    crate::settings::lemma_swap_id(c, '~', '0', '~');
    assert(crate::settings::unescaped(seq![a, c]) =~= seq![a, c]);
}

/// A new chart's spec reads back under its name: the button's write lands
/// where the chart editor looks.
pub proof fn law_a_new_chart_reads_back(doc: JsonV, n: nat, spec: JsonV)
    ensures
        chart_at(crate::settings::edited(doc, new_chart_pointer(n), spec), candidate(n)) == Some(spec),
{
    lemma_new_chart_parts(n);
    crate::settings::law_an_edit_reads_back(doc, new_chart_pointer(n), spec);
}

/// The new-chart button overwrites nothing: every other chart is kept as it
/// was.
pub proof fn law_a_new_chart_overwrites_nothing(doc: JsonV, n: nat, spec: JsonV, k: Seq<char>)
    requires
        k != candidate(n),
    ensures
        lookup(charts_of(crate::settings::edited(doc, new_chart_pointer(n), spec)), k) == lookup(charts_of(doc), k),
        lookup(charts_of(crate::settings::edited(doc, new_chart_pointer(n), spec)), candidate(n)) == Some(spec),
{
    lemma_new_chart_parts(n);
    let ps = seq!["charts"@, candidate(n)];
    let ms = crate::settings::members(doc);
    let child = match lookup(ms, "charts"@) {
        Some(c) => c,
        None => JsonV::Object(seq![]),
    };
    let inner = crate::settings::set_path(child, ps.drop_first(), spec);
    assert(ps.drop_first() =~= seq![candidate(n)]);
    assert(inner == JsonV::Object(upsert(crate::settings::members(child), candidate(n), spec)));
    let e = crate::settings::edited(doc, new_chart_pointer(n), spec);
    assert(e == JsonV::Object(upsert(ms, "charts"@, inner)));
    crate::settings::lemma_lookup_upsert(ms, "charts"@, inner, "charts"@);
    assert(charts_of(e) == upsert(crate::settings::members(child), candidate(n), spec));
    assert(crate::settings::members(child) == charts_of(doc));
    crate::settings::lemma_lookup_upsert(charts_of(doc), candidate(n), spec, k);
    crate::settings::lemma_lookup_upsert(charts_of(doc), candidate(n), spec, candidate(n));
}

// --- a chart by its name ------------------------------------------------------

/// A chart is found by its name, whatever the name holds: a `/` or a `~`
/// in it is escaped on the way in and unescaped on the way back.
pub proof fn law_a_chart_is_found_by_its_name(doc: JsonV, name: Seq<char>)
    requires
        field(doc, "charts"@) matches Some(JsonV::Object(_)),
    ensures
        chart_at(doc, name) == lookup(charts_of(doc), name),
{
    reveal_strlit("/charts/");
    reveal_strlit("charts/");
    reveal_strlit("charts");
    let e = crate::tree::escape(name);
    crate::tree::lemma_unescape_first(name);
    crate::tree::lemma_unescape_escape(name);
    let p = "/charts/"@ + e;
    let a = "charts"@;
    crate::cron::lemma_pieces_whole(a, '/');
    assert(a.push('/').drop_last() =~= a);
    assert(a.push('/').last() == '/');
    assert(pieces(a.push('/'), '/') == pieces(a, '/').push(seq![]));
    assert(a.push('/') =~= "charts/"@);
    crate::cron::lemma_pieces_extend("charts/"@, e, '/');
    assert(seq![] + e =~= e);
    assert(pieces("charts/"@ + e, '/') =~= seq![a, e]);
    assert(p =~= seq!['/'] + ("charts/"@ + e));
    crate::settings::lemma_pieces_lead("charts/"@ + e, '/');
    assert(pieces(p, '/').drop_first() =~= seq![a, e]);
    crate::settings::lemma_swap_id(a, '~', '1', '/');
    crate::settings::lemma_swap_id(a, '~', '0', '~');
    assert(crate::tree::unescape(a) == a);
    let tokens = seq![a, e];
    assert(tokens.drop_first() =~= seq![e]);
    assert(seq![e].drop_first() =~= Seq::<Seq<char>>::empty());
    reveal_with_fuel(crate::tree::walk, 3);
    assert(chart_at(doc, name) == crate::tree::walk(doc, tokens));
}

} // verus!
