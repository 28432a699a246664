//! The settings document: what the workbench remembers about how it looks,
//! and the one way a widget changes it.
//!
//! Settings are a small JSON object. Defaults fill every key the stored
//! document lacks, so adding a setting needs no migration; an edit names a
//! place by pointer and sets the value there, growing the path if it has to.

use vstd::prelude::*;

use crate::cron::{lemma_pieces_len, pieces, split_pieces, vviews};
use crate::json::{
    insert_pos, json_of, key_index, key_less, key_lt, lemma_insert_pos, lemma_key_index, lemma_members_of,
    lookup, members_of, upsert, Json, JsonV, Member, Number,
};
use crate::text::{chars_of, slice_of, str_eq, string_of};

verus! {

// --- members -----------------------------------------------------------------

/// Where `key` first occurs among the members.
pub(crate) fn member_index(ms: &Vec<Member>, key: &str) -> (r: Option<usize>)
    ensures
        match r {
            Some(i) => i < ms@.len() && key_index(members_of(ms@), key@) == i as int,
            None => key_index(members_of(ms@), key@) < 0,
        },
{
    proof {
        lemma_members_of(ms@);
        lemma_key_index(members_of(ms@), key@);
    }
    let ghost k = key_index(members_of(ms@), key@);
    let mut i: usize = 0;
    while i < ms.len()
        invariant
            i <= ms@.len(),
            k == key_index(members_of(ms@), key@),
            members_of(ms@).len() == ms@.len(),
            forall|j: int| 0 <= j < ms@.len() ==> #[trigger] members_of(ms@)[j] == (ms@[j].key@, json_of(ms@[j].value)),
            forall|j: int| 0 <= j < i ==> #[trigger] ms@[j].key@ != key@,
            -1 <= k < ms@.len(),
            k >= 0 ==> members_of(ms@)[k].0 == key@,
            forall|j: int| 0 <= j < ms@.len() && (k < 0 || j < k) ==> #[trigger] members_of(ms@)[j].0 != key@,
        decreases ms.len() - i,
    {
        if str_eq(ms[i].key.as_str(), key) {
            proof {
                if k < 0 || i < k {
                    assert(members_of(ms@)[i as int].0 != key@);
                }
                if k >= 0 && k < i {
                    assert(ms@[k].key@ != key@);
                }
            }
            return Some(i);
        }
        i += 1;
    }
    proof {
        if k >= 0 {
            assert(ms@[k].key@ != key@);
        }
    }
    None
}

/// How many leading members sort before `key`.
fn sort_pos(ms: &Vec<Member>, key: &str) -> (r: usize)
    ensures
        r as int == insert_pos(members_of(ms@), key@),
{
    proof {
        lemma_members_of(ms@);
    }
    let ghost all = members_of(ms@);
    let mut i: usize = 0;
    assert(all.skip(0) =~= all);
    while i < ms.len() && key_less(ms[i].key.as_str(), key)
        invariant
            i <= ms@.len(),
            all == members_of(ms@),
            all.len() == ms@.len(),
            forall|j: int| 0 <= j < ms@.len() ==> #[trigger] all[j] == (ms@[j].key@, json_of(ms@[j].value)),
            insert_pos(all, key@) == i + insert_pos(all.skip(i as int), key@),
        decreases ms.len() - i,
    {
        let ghost rest = all.skip(i as int);
        assert(rest[0] == all[i as int]);
        assert(rest.drop_first() =~= all.skip(i + 1));
        i += 1;
    }
    proof {
        let rest = all.skip(i as int);
        if i < ms.len() {
            assert(rest[0] == all[i as int]);
        }
    }
    i
}

/// The members with `key` set to `v`: in place when the key is there,
/// otherwise added where it sorts (`Map::insert`).
pub(crate) fn upsert_members(ms: Vec<Member>, key: String, v: Json) -> (r: Vec<Member>)
    ensures
        members_of(r@) == upsert(members_of(ms@), key@, v@),
{
    let mut out = ms;
    let ghost before = out@;
    proof {
        lemma_members_of(before);
    }
    match member_index(&out, key.as_str()) {
        Some(i) => {
            let ghost kv = key@;
            out.set(i, Member { key, value: v });
            proof {
                lemma_members_of(out@);
                assert(members_of(out@) =~= members_of(before).update(i as int, (kv, v@)));
            }
        },
        None => {
            let p = sort_pos(&out, key.as_str());
            proof {
                lemma_insert_pos(members_of(before), key@);
            }
            let ghost kv = key@;
            out.insert(p, Member { key, value: v });
            proof {
                lemma_members_of(out@);
                assert(members_of(out@) =~= members_of(before).insert(p as int, (kv, v@)));
            }
        },
    }
    out
}

// --- edits -------------------------------------------------------------------

/// `s` without its leading slashes (`trim_start_matches('/')`).
pub open spec fn strip_slashes(s: Seq<char>) -> Seq<char>
    decreases s.len(),
{
    if s.len() > 0 && s[0] == '/' {
        strip_slashes(s.drop_first())
    } else {
        s
    }
}

/// Pointer tokens unescaped (RFC 6901): `~1` is `/`, then `~0` is `~`.
pub open spec fn unescaped(tokens: Seq<Seq<char>>) -> Seq<Seq<char>> {
    Seq::new(tokens.len(), |i: int| crate::tree::unescape(tokens[i]))
}

/// The keys an edit pointer names, outermost first: its text after the
/// leading slashes, split at every slash, each token unescaped as a JSON
/// pointer's are.
pub open spec fn edit_parts(pointer: Seq<char>) -> Seq<Seq<char>> {
    unescaped(pieces(strip_slashes(pointer), '/'))
}

/// The members of an object; nothing for anything else.
pub open spec fn members(doc: JsonV) -> Seq<(Seq<char>, JsonV)> {
    match doc {
        JsonV::Object(ms) => ms,
        _ => seq![],
    }
}

/// `doc` with the value at the path `parts` set to `v`. Every level on the
/// way that is not an object becomes an empty one; a level that is missing
/// is created.
pub open spec fn set_path(doc: JsonV, parts: Seq<Seq<char>>, v: JsonV) -> JsonV
    decreases parts.len(),
{
    if parts.len() == 0 {
        v
    } else if parts.len() == 1 {
        JsonV::Object(upsert(members(doc), parts[0], v))
    } else {
        let child = match lookup(members(doc), parts[0]) {
            Some(c) => c,
            None => JsonV::Object(seq![]),
        };
        JsonV::Object(upsert(members(doc), parts[0], set_path(child, parts.drop_first(), v)))
    }
}

/// What an edit makes of a document: a pointer with nothing after its
/// slashes replaces the whole of it, any other sets the value at its path.
pub open spec fn edited(doc: JsonV, pointer: Seq<char>, v: JsonV) -> JsonV {
    if strip_slashes(pointer).len() == 0 {
        v
    } else {
        set_path(doc, edit_parts(pointer), v)
    }
}

fn set_path_exec(doc: Json, parts: &Vec<Vec<char>>, i: usize, v: Json) -> (r: Json)
    requires
        i < parts@.len(),
    ensures
        r@ == set_path(doc@, vviews(parts@).skip(i as int), v@),
    decreases parts@.len() - i,
{
    let ghost ps = vviews(parts@).skip(i as int);
    let ghost d = doc@;
    assert(ps[0] == parts@[i as int]@);
    assert(ps.drop_first() =~= vviews(parts@).skip(i + 1));
    let ms: Vec<Member> = match doc {
        Json::Object(ms) => ms,
        _ => {
            assert(members_of(Seq::<Member>::empty()) =~= Seq::<(Seq<char>, JsonV)>::empty());
            Vec::new()
        },
    };
    assert(members_of(ms@) == members(d));
    let key = string_of(parts[i].as_slice());
    if i == parts.len() - 1 {
        assert(ps.len() == 1);
        Json::Object(upsert_members(ms, key, v))
    } else {
        let child = match member_index(&ms, key.as_str()) {
            Some(k) => {
                proof {
                    lemma_members_of(ms@);
                }
                ms[k].value.copy()
            },
            None => Json::Object(Vec::new()),
        };
        proof {
            assert(members_of(Seq::<Member>::empty()) =~= Seq::<(Seq<char>, JsonV)>::empty());
        }
        assert(child@ == match lookup(members(d), ps[0]) {
            Some(c) => c,
            None => JsonV::Object(seq![]),
        });
        let next = set_path_exec(child, parts, i + 1, v);
        Json::Object(upsert_members(ms, key, next))
    }
}

/// Set the value a pointer names, growing the path as needed: a widget's
/// edit, `(pointer, value)`. `""` and `"/"` replace the whole document.
pub fn apply_edit(doc: &mut Json, pointer: &str, value: Json)
    ensures
        final(doc)@ == edited(old(doc)@, pointer@, value@),
{
    let cs = chars_of(pointer);
    let mut k: usize = 0;
    assert(cs@.skip(0) =~= cs@);
    while k < cs.len() && cs[k] == '/'
        invariant
            k <= cs@.len(),
            cs@ == pointer@,
            strip_slashes(pointer@) == strip_slashes(cs@.skip(k as int)),
        decreases cs.len() - k,
    {
        assert(cs@.skip(k as int).drop_first() =~= cs@.skip(k + 1));
        k += 1;
    }
    let rest = slice_of(&cs, k, cs.len());
    assert(rest@ =~= cs@.skip(k as int));
    assert(strip_slashes(pointer@) == rest@);
    if rest.len() == 0 {
        *doc = value;
        return;
    }
    let raw = split_pieces(&rest, '/');
    proof {
        lemma_pieces_len(rest@, '/');
    }
    let mut parts: Vec<Vec<char>> = Vec::new();
    let mut j: usize = 0;
    while j < raw.len()
        invariant
            j <= raw@.len(),
            vviews(raw@) == pieces(rest@, '/'),
            parts@.len() == j,
            forall|q: int| 0 <= q < j ==> (#[trigger] parts@[q])@ == crate::tree::unescape(raw@[q]@),
        decreases raw.len() - j,
    {
        let t1 = crate::tree::swap_pair_exec(&raw[j], '~', '1', '/');
        let t = crate::tree::swap_pair_exec(&t1, '~', '0', '~');
        parts.push(t);
        j += 1;
    }
    proof {
        assert(vviews(parts@) =~= unescaped(vviews(raw@)));
        assert(vviews(parts@).skip(0) =~= vviews(parts@));
    }
    let mut cur = Json::Null;
    std::mem::swap(&mut cur, doc);
    *doc = set_path_exec(cur, &parts, 0, value);
}

// --- the document ------------------------------------------------------------

pub open spec fn favorite_v(label: Seq<char>, action: Seq<char>) -> JsonV {
    JsonV::Object(seq![("action"@, JsonV::Str(action)), ("label"@, JsonV::Str(label)), ("params"@, JsonV::Null)])
}

/// What a fresh workbench starts from, keys in order.
pub open spec fn default_settings_v() -> JsonV {
    JsonV::Object(
        seq![
            ("accent"@, JsonV::Str("#5680c2"@)),
            ("chart_window"@, JsonV::Array(seq![
                JsonV::Num(Number::PosInt(1)),
                JsonV::Num(Number::PosInt(60)),
                JsonV::Num(Number::PosInt(3)),
            ])),
            ("density"@, JsonV::Str("cozy"@)),
            ("favorites"@, JsonV::Array(seq![
                favorite_v("Command palette"@, "palette"@),
                favorite_v("Maximize area"@, "maximize"@),
                favorite_v("Adjust last operation"@, "adjust_last"@),
            ])),
            ("poll_ms"@, JsonV::Num(Number::PosInt(1000))),
            ("splash_on_start"@, JsonV::Bool(true)),
            ("sweep_limit"@, JsonV::Num(Number::PosInt(100))),
            ("theme"@, JsonV::Str("Blender Dark"@)),
            ("tooltips_on"@, JsonV::Bool(true)),
            ("ui_scale"@, JsonV::Num(Number::Float(1_000_000))),
        ],
    )
}

fn member(key: &str, value: Json) -> (m: Member)
    ensures
        m.key@ == key@,
        m.value == value,
{
    Member { key: key.to_owned(), value }
}

fn favorite(label: &str, action: &str) -> (j: Json)
    ensures
        j@ == favorite_v(label@, action@),
{
    let mut ms: Vec<Member> = Vec::new();
    ms.push(member("action", Json::Str(action.to_owned())));
    ms.push(member("label", Json::Str(label.to_owned())));
    ms.push(member("params", Json::Null));
    proof {
        lemma_members_of(ms@);
        assert(members_of(ms@) =~= members(favorite_v(label@, action@)));
    }
    Json::Object(ms)
}

/// The defaults (`default_settings_v`).
pub fn default_settings() -> (j: Json)
    ensures
        j@ == default_settings_v(),
{
    let mut window: Vec<Json> = Vec::new();
    window.push(Json::Num(Number::PosInt(1)));
    window.push(Json::Num(Number::PosInt(60)));
    window.push(Json::Num(Number::PosInt(3)));
    let mut favorites: Vec<Json> = Vec::new();
    favorites.push(favorite("Command palette", "palette"));
    favorites.push(favorite("Maximize area", "maximize"));
    favorites.push(favorite("Adjust last operation", "adjust_last"));
    proof {
        crate::json::lemma_jsons_of(window@);
        crate::json::lemma_jsons_of(favorites@);
        assert(crate::json::jsons_of(window@) =~= seq![
            JsonV::Num(Number::PosInt(1)),
            JsonV::Num(Number::PosInt(60)),
            JsonV::Num(Number::PosInt(3)),
        ]);
        assert(crate::json::jsons_of(favorites@) =~= seq![
            favorite_v("Command palette"@, "palette"@),
            favorite_v("Maximize area"@, "maximize"@),
            favorite_v("Adjust last operation"@, "adjust_last"@),
        ]);
    }
    let mut ms: Vec<Member> = Vec::new();
    ms.push(member("accent", Json::Str("#5680c2".to_owned())));
    ms.push(member("chart_window", Json::Array(window)));
    ms.push(member("density", Json::Str("cozy".to_owned())));
    ms.push(member("favorites", Json::Array(favorites)));
    ms.push(member("poll_ms", Json::Num(Number::PosInt(1000))));
    ms.push(member("splash_on_start", Json::Bool(true)));
    ms.push(member("sweep_limit", Json::Num(Number::PosInt(100))));
    ms.push(member("theme", Json::Str("Blender Dark".to_owned())));
    ms.push(member("tooltips_on", Json::Bool(true)));
    ms.push(member("ui_scale", Json::Num(Number::Float(1_000_000))));
    proof {
        lemma_members_of(ms@);
        assert(members_of(ms@) =~= members(default_settings_v()));
    }
    Json::Object(ms)
}

/// `base` with each of `over`'s members set in turn.
pub open spec fn overlay(base: Seq<(Seq<char>, JsonV)>, over: Seq<(Seq<char>, JsonV)>) -> Seq<
    (Seq<char>, JsonV),
>
    decreases over.len(),
{
    if over.len() == 0 {
        base
    } else {
        upsert(overlay(base, over.drop_last()), over.last().0, over.last().1)
    }
}

/// The settings in force: the defaults with every stored member over them.
/// A stored document that is not an object leaves the defaults.
pub open spec fn settings_of(stored: JsonV) -> JsonV {
    match stored {
        JsonV::Object(st) => JsonV::Object(overlay(members(default_settings_v()), st)),
        _ => default_settings_v(),
    }
}

/// The settings in force, given what was stored (`Null` when nothing was).
pub fn settings_doc(stored: &Json) -> (r: Json)
    ensures
        r@ == settings_of(stored@),
{
    let d = default_settings();
    match stored {
        Json::Object(st) => {
            let mut ms = match d {
                Json::Object(ms) => ms,
                _ => Vec::new(),
            };
            proof {
                lemma_members_of(st@);
            }
            let mut i: usize = 0;
            assert(st@.subrange(0, 0) =~= Seq::<Member>::empty());
            assert(members_of(st@.subrange(0, 0)) =~= Seq::<(Seq<char>, JsonV)>::empty());
            while i < st.len()
                invariant
                    i <= st@.len(),
                    members_of(ms@) == overlay(members(default_settings_v()), members_of(st@).subrange(0, i as int)),
                    members_of(st@).len() == st@.len(),
                    forall|j: int| 0 <= j < st@.len() ==> #[trigger] members_of(st@)[j] == (st@[j].key@, json_of(st@[j].value)),
                decreases st.len() - i,
            {
                let ghost pre = members_of(st@).subrange(0, i + 1);
                assert(pre.drop_last() =~= members_of(st@).subrange(0, i as int));
                ms = upsert_members(ms, st[i].key.clone(), st[i].value.copy());
                i += 1;
            }
            assert(members_of(st@).subrange(0, st@.len() as int) =~= members_of(st@));
            Json::Object(ms)
        },
        _ => d,
    }
}

/// One widget edit to the settings in force: what the document becomes.
pub fn set_setting(stored: &Json, pointer: &str, value: Json) -> (r: Json)
    ensures
        r@ == edited(settings_of(stored@), pointer@, value@),
{
    let mut doc = settings_doc(stored);
    apply_edit(&mut doc, pointer, value);
    doc
}

// --- laws --------------------------------------------------------------------

/// `key_index` is the first position holding the key.
proof fn lemma_first_key(s: Seq<(Seq<char>, JsonV)>, k: Seq<char>, x: int)
    requires
        -1 <= x < s.len(),
        x >= 0 ==> s[x].0 == k,
        forall|j: int| 0 <= j < s.len() && (x < 0 || j < x) ==> #[trigger] s[j].0 != k,
    ensures
        key_index(s, k) == x,
{
    lemma_key_index(s, k);
    let y = key_index(s, k);
    if y >= 0 && (x < 0 || y < x) {
        assert(s[y].0 != k);
    } else if x >= 0 && (y < 0 || x < y) {
        assert(s[x].0 != k);
    }
}

/// Setting a key: it reads back, and every other key reads as before.
pub proof fn lemma_lookup_upsert(ms: Seq<(Seq<char>, JsonV)>, k: Seq<char>, v: JsonV, k2: Seq<char>)
    ensures
        lookup(upsert(ms, k, v), k2) == if k2 == k {
            Some(v)
        } else {
            lookup(ms, k2)
        },
{
    lemma_key_index(ms, k);
    lemma_key_index(ms, k2);
    let i = key_index(ms, k);
    let a = key_index(ms, k2);
    let u = upsert(ms, k, v);
    if i >= 0 {
        assert(u == ms.update(i, (k, v)));
        if k2 == k {
            lemma_first_key(u, k, i);
        } else {
            assert forall|j: int| 0 <= j < u.len() && (a < 0 || j < a) implies #[trigger] u[j].0 != k2 by {
                if j != i {
                    assert(u[j] == ms[j]);
                }
            }
            if a >= 0 {
                assert(a != i);
                assert(u[a] == ms[a]);
            }
            lemma_first_key(u, k2, a);
        }
    } else {
        let p = insert_pos(ms, k);
        lemma_insert_pos(ms, k);
        assert(u == ms.insert(p, (k, v)));
        if k2 == k {
            assert forall|j: int| 0 <= j < u.len() && j < p implies #[trigger] u[j].0 != k by {
                assert(u[j] == ms[j]);
            }
            lemma_first_key(u, k, p);
        } else {
            let b = if a < 0 {
                -1
            } else if a < p {
                a
            } else {
                a + 1
            };
            assert forall|j: int| 0 <= j < u.len() && (b < 0 || j < b) implies #[trigger] u[j].0 != k2 by {
                if j < p {
                    assert(u[j] == ms[j]);
                } else if j > p {
                    assert(u[j] == ms[j - 1]);
                }
            }
            if a >= 0 {
                if a < p {
                    assert(u[a] == ms[a]);
                } else {
                    assert(u[a + 1] == ms[a]);
                }
            }
            lemma_first_key(u, k2, b);
        }
    }
}

/// With no `a` in `s`, there is no pair to write.
pub(crate) proof fn lemma_swap_id(s: Seq<char>, a: char, b: char, c: char)
    requires
        forall|i: int| 0 <= i < s.len() ==> s[i] != a,
    ensures
        crate::tree::swap_pair(s, a, b, c) == s,
    decreases s.len(),
{
    if s.len() > 0 {
        assert(s[0] != a);
        lemma_swap_id(s.skip(1), a, b, c);
        assert(seq![s[0]] + s.skip(1) =~= s);
    }
}

/// A leading separator adds one empty piece in front.
pub(crate) proof fn lemma_pieces_lead(s: Seq<char>, sep: char)
    ensures
        pieces(seq![sep] + s, sep) == seq![Seq::<char>::empty()] + pieces(s, sep),
    decreases s.len(),
{
    let t = seq![sep] + s;
    if s.len() == 0 {
        assert(t.drop_last() =~= Seq::<char>::empty());
        assert(t.last() == sep);
        assert(pieces(Seq::<char>::empty(), sep) == seq![Seq::<char>::empty()]);
        assert(s =~= Seq::<char>::empty());
        assert(pieces(t, sep) == seq![Seq::<char>::empty()].push(Seq::<char>::empty()));
        assert(pieces(t, sep) =~= seq![Seq::<char>::empty()] + pieces(s, sep));
    } else {
        assert(t.drop_last() =~= seq![sep] + s.drop_last());
        assert(t.last() == s.last());
        lemma_pieces_lead(s.drop_last(), sep);
        lemma_pieces_len(s.drop_last(), sep);
        let r0 = pieces(s.drop_last(), sep);
        let r = pieces(t.drop_last(), sep);
        assert(r == seq![Seq::<char>::empty()] + r0);
        if s.last() == sep {
            assert(pieces(t, sep) == r.push(Seq::<char>::empty()));
            assert(pieces(s, sep) == r0.push(Seq::<char>::empty()));
            assert(r.push(Seq::<char>::empty()) =~= seq![Seq::<char>::empty()] + r0.push(Seq::<char>::empty()));
        } else {
            assert(r.last() == r0.last());
            assert(pieces(t, sep) == r.update(r.len() - 1, r.last().push(s.last())));
            assert(pieces(s, sep) == r0.update(r0.len() - 1, r0.last().push(s.last())));
            assert(r.update(r.len() - 1, r.last().push(s.last())) =~= seq![Seq::<char>::empty()] + r0.update(
                r0.len() - 1,
                r0.last().push(s.last()),
            ));
        }
    }
}

/// Walking the path just set, by the tokens it was set from, arrives at the
/// value set.
proof fn lemma_walk_set(d: JsonV, ts: Seq<Seq<char>>, v: JsonV)
    requires
        ts.len() >= 1,
    ensures
        crate::tree::walk(set_path(d, unescaped(ts), v), ts) == Some(v),
    decreases ts.len(),
{
    let ps = unescaped(ts);
    let k = ps[0];
    assert(crate::tree::unescape(ts[0]) == k);
    assert(unescaped(ts.drop_first()) =~= ps.drop_first());
    if ts.len() == 1 {
        lemma_lookup_upsert(members(d), k, v, k);
        assert(ps.drop_first().len() == 0);
        assert(set_path(d, ps, v) == JsonV::Object(upsert(members(d), k, v)));
        assert(crate::tree::walk(v, ts.drop_first()) == Some(v));
    } else {
        let child = match lookup(members(d), k) {
            Some(c) => c,
            None => JsonV::Object(seq![]),
        };
        let x = set_path(child, ps.drop_first(), v);
        lemma_lookup_upsert(members(d), k, x, k);
        lemma_walk_set(child, ts.drop_first(), v);
        assert(set_path(d, ps, v) == JsonV::Object(upsert(members(d), k, x)));
    }
}

/// An edit reads back: after setting the value a pointer names, reading that
/// pointer gives the value, escapes and all. An edit strips every leading
/// slash where a read expects exactly one, so this holds of pointers with
/// one leading slash and something after it.
pub proof fn law_an_edit_reads_back(doc: JsonV, pointer: Seq<char>, v: JsonV)
    requires
        pointer.len() >= 2,
        pointer[0] == '/',
        pointer[1] != '/',
    ensures
        crate::tree::at_pointer(edited(doc, pointer, v), pointer) == Some(v),
{
    let s = pointer.drop_first();
    assert(pointer =~= seq!['/'] + s);
    assert(strip_slashes(s) == s);
    assert(strip_slashes(pointer) == s);
    lemma_pieces_lead(s, '/');
    lemma_pieces_len(s, '/');
    assert(pieces(pointer, '/').drop_first() =~= pieces(s, '/'));
    lemma_walk_set(doc, pieces(s, '/'), v);
}

/// An edit touches one top-level key: every other key of the document reads
/// as it did.
pub proof fn law_an_edit_leaves_other_keys(doc: JsonV, pointer: Seq<char>, v: JsonV, key: Seq<char>)
    requires
        strip_slashes(pointer).len() > 0,
        key != edit_parts(pointer)[0],
    ensures
        crate::json::field(edited(doc, pointer, v), key) == crate::json::field(doc, key),
{
    let ps = edit_parts(pointer);
    lemma_pieces_len(strip_slashes(pointer), '/');
    if ps.len() == 1 {
        lemma_lookup_upsert(members(doc), ps[0], v, key);
    } else {
        let child = match lookup(members(doc), ps[0]) {
            Some(c) => c,
            None => JsonV::Object(seq![]),
        };
        lemma_lookup_upsert(members(doc), ps[0], set_path(child, ps.drop_first(), v), key);
    }
}

/// No key occurs twice: a parsed JSON object.
pub open spec fn distinct_keys(ms: Seq<(Seq<char>, JsonV)>) -> bool {
    forall|i: int, j: int| 0 <= i < j < ms.len() ==> #[trigger] ms[i].0 != #[trigger] ms[j].0
}

proof fn lemma_overlay(base: Seq<(Seq<char>, JsonV)>, over: Seq<(Seq<char>, JsonV)>, key: Seq<char>)
    requires
        distinct_keys(over),
    ensures
        lookup(overlay(base, over), key) == match lookup(over, key) {
            Some(v) => Some(v),
            None => lookup(base, key),
        },
    decreases over.len(),
{
    if over.len() > 0 {
        let pre = over.drop_last();
        let l = over.last();
        assert(distinct_keys(pre)) by {
            assert forall|i: int, j: int| 0 <= i < j < pre.len() implies #[trigger] pre[i].0 != #[trigger] pre[j].0 by {
                assert(pre[i] == over[i] && pre[j] == over[j]);
            }
        }
        lemma_overlay(base, pre, key);
        lemma_lookup_upsert(overlay(base, pre), l.0, l.1, key);
        lemma_key_index(pre, key);
        let a = key_index(pre, key);
        if key == l.0 {
            assert forall|j: int| 0 <= j < over.len() && j < over.len() - 1 implies #[trigger] over[j].0 != key by {
                assert(over[j].0 != over[over.len() - 1].0);
            }
            lemma_first_key(over, key, over.len() - 1);
            assert forall|j: int| 0 <= j < pre.len() implies #[trigger] pre[j].0 != key by {
                assert(pre[j] == over[j]);
            }
            lemma_first_key(pre, key, -1);
        } else {
            assert forall|j: int| 0 <= j < over.len() && (a < 0 || j < a) implies #[trigger] over[j].0 != key by {
                if j < pre.len() {
                    assert(pre[j] == over[j]);
                }
            }
            if a >= 0 {
                assert(pre[a] == over[a]);
            }
            lemma_first_key(over, key, a);
        }
    }
}

/// Defaults fill what was not stored: every key of the settings in force
/// reads as stored when the stored document has it, else as its default.
/// (A stored object, being parsed JSON, holds each key once.)
pub proof fn law_defaults_fill_missing_keys(stored: JsonV, key: Seq<char>)
    requires
        distinct_keys(members(stored)),
    ensures
        crate::json::field(settings_of(stored), key) == match crate::json::field(stored, key) {
            Some(v) => Some(v),
            None => crate::json::field(default_settings_v(), key),
        },
{
    match stored {
        JsonV::Object(st) => {
            lemma_overlay(members(default_settings_v()), st, key);
        },
        _ => {},
    }
}

// --- the machine window ------------------------------------------------------

/// How many hours a machine area looks back: the integer at
/// `/chart_window/0` when it is positive, else one.
pub open spec fn window_hours_of(settings: JsonV) -> i64 {
    match crate::tree::at_pointer(settings, "/chart_window/0"@) {
        Some(h) => match crate::json::as_i64(h) {
            Some(n) => if n > 0 {
                n
            } else {
                1
            },
            None => 1,
        },
        None => 1,
    }
}

/// How many hours a machine area looks back (`window_hours_of`).
pub fn window_hours(settings: &Json) -> (r: i64)
    ensures
        r == window_hours_of(settings@),
{
    match crate::tree::resolve(settings, "/chart_window/0") {
        Some(h) => match h.as_i64() {
            Some(n) => if n > 0 {
                n
            } else {
                1
            },
            None => 1,
        },
        None => 1,
    }
}

/// The machine header writes the window where the snapshot reads it: after
/// the header's edit of `/chart_window/0` to a positive number of hours, the
/// window is that many hours, whatever the document held before.
pub proof fn law_the_window_reads_what_the_header_wrote(settings: JsonV, hours: i64)
    requires
        hours > 0,
    ensures
        window_hours_of(edited(settings, "/chart_window/0"@, JsonV::Num(Number::PosInt(hours as u64))))
            == hours,
{
    let p = "/chart_window/0"@;
    reveal_strlit("/chart_window/0");
    assert(p.len() == 15);
    assert(p[0] == '/' && p[1] != '/');
    assert forall|i: int| 0 <= i < p.len() implies p[i] != '~' by {}
    law_an_edit_reads_back(settings, p, JsonV::Num(Number::PosInt(hours as u64)));
}

} // verus!
