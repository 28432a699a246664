//! Reading a tool's JSON Schema for the reference: each parameter's name,
//! a readable type, whether it is required, and its description.
//!
//! An enum arrives as a `$ref` into the schema's own definitions, so the
//! reference is followed before the type is read; a list of constants
//! (`enum`, or `oneOf`/`anyOf` over `const`s) reads as its values.

use vstd::prelude::*;

use crate::cron::{lemma_pieces_len, pieces, split_pieces, vviews};
use crate::json::{field, json_of, jsons_of, lemma_jsons_of, lemma_members_of, lookup, members_of, Json, JsonV, Member};
use crate::order::{lemma_insert_in_order, stable_sorted};
use crate::reference::{params_view, Param, ParamV};
use crate::text::{push_str, str_eq, string_of};
use crate::tree::{json_string, json_text};

verus! {

// --- following a reference ---------------------------------------------------

/// The text after the last `/` (`rsplit('/').next()`).
pub open spec fn last_piece(r: Seq<char>) -> Seq<char> {
    pieces(r, '/').last()
}

/// The definition `name` in one of the schema's bags, if the bag is there.
pub open spec fn in_bag(root: Seq<(Seq<char>, JsonV)>, bag: Seq<char>, name: Seq<char>) -> Option<JsonV> {
    match lookup(root, bag) {
        Some(b) => field(b, name),
        None => None,
    }
}

/// Where a node's `$ref` leads: the named definition under `$defs`, or else
/// under `definitions`. Nothing for a node without one, or a name neither
/// bag holds.
pub open spec fn ref_target(root: Seq<(Seq<char>, JsonV)>, def: JsonV) -> Option<JsonV> {
    match field(def, "$ref"@) {
        Some(JsonV::Str(r)) => match in_bag(root, "$defs"@, last_piece(r)) {
            Some(t) => Some(t),
            None => in_bag(root, "definitions"@, last_piece(r)),
        },
        _ => None,
    }
}

/// Following references from `def` at most `fuel` times: the node where
/// they stop, or nothing if they go on longer.
pub open spec fn chase(root: Seq<(Seq<char>, JsonV)>, def: JsonV, fuel: nat) -> Option<JsonV>
    decreases fuel,
{
    match ref_target(root, def) {
        None => Some(def),
        Some(t) => if fuel == 0 {
            None
        } else {
            chase(root, t, (fuel - 1) as nat)
        },
    }
}

/// The references from `def` stop somewhere (a cycle would not).
pub open spec fn refs_end(root: Seq<(Seq<char>, JsonV)>, def: JsonV) -> bool {
    exists|n: nat| #[trigger] chase(root, def, n) is Some
}

/// The node `def`'s references lead to.
pub open spec fn final_def(root: Seq<(Seq<char>, JsonV)>, def: JsonV) -> JsonV {
    chase(root, def, choose|n: nat| #[trigger] chase(root, def, n) is Some)->0
}

proof fn lemma_chase_more(root: Seq<(Seq<char>, JsonV)>, def: JsonV, n: nat, m: nat)
    requires
        chase(root, def, n) is Some,
        n <= m,
    ensures
        chase(root, def, m) == chase(root, def, n),
    decreases n,
{
    match ref_target(root, def) {
        None => {},
        Some(t) => {
            lemma_chase_more(root, t, (n - 1) as nat, (m - 1) as nat);
        },
    }
}

/// However far it is followed, a chain of references that ends ends at one
/// node.
proof fn lemma_chase_unique(root: Seq<(Seq<char>, JsonV)>, def: JsonV, n: nat, m: nat)
    requires
        chase(root, def, n) is Some,
        chase(root, def, m) is Some,
    ensures
        chase(root, def, n) == chase(root, def, m),
{
    if n <= m {
        lemma_chase_more(root, def, n, m);
    } else {
        lemma_chase_more(root, def, m, n);
    }
}

// --- a readable type ---------------------------------------------------------

/// The strings among some values, in order.
pub open spec fn strs_of(a: Seq<JsonV>) -> Seq<Seq<char>>
    decreases a.len(),
{
    if a.len() == 0 {
        seq![]
    } else {
        match a.last() {
            JsonV::Str(s) => strs_of(a.drop_last()).push(s),
            _ => strs_of(a.drop_last()),
        }
    }
}

/// The type names in a list of types, `null` left out: the null is the
/// optionality, which the required column already says.
pub open spec fn type_names(a: Seq<JsonV>) -> Seq<Seq<char>>
    decreases a.len(),
{
    if a.len() == 0 {
        seq![]
    } else {
        match a.last() {
            JsonV::Str(s) => if s == "null"@ {
                type_names(a.drop_last())
            } else {
                type_names(a.drop_last()).push(s)
            },
            _ => type_names(a.drop_last()),
        }
    }
}

/// Words joined by a separator.
pub open spec fn joined(items: Seq<Seq<char>>, sep: Seq<char>) -> Seq<char>
    decreases items.len(),
{
    if items.len() == 0 {
        seq![]
    } else if items.len() == 1 {
        items[0]
    } else {
        joined(items.drop_last(), sep) + sep + items.last()
    }
}

/// A value as a reader would say it: a string unquoted, anything else as
/// JSON.
pub open spec fn value_word(v: JsonV) -> Seq<char> {
    match v {
        JsonV::Str(s) => s,
        _ => json_text(v),
    }
}

/// Values as words, `a | b | c`.
pub open spec fn values_text(list: Seq<JsonV>) -> Seq<char> {
    joined(Seq::new(list.len(), |i: int| value_word(list[i])), " | "@)
}

/// The `const` of each item that has one, in order.
pub open spec fn consts_of(list: Seq<JsonV>) -> Seq<JsonV>
    decreases list.len(),
{
    if list.len() == 0 {
        seq![]
    } else {
        match field(list.last(), "const"@) {
            Some(c) => consts_of(list.drop_last()).push(c),
            None => consts_of(list.drop_last()),
        }
    }
}

/// A `oneOf` or `anyOf` list that is all constants, as its values.
pub open spec fn listed_kind(def: JsonV, key: Seq<char>) -> Option<Seq<char>> {
    match field(def, key) {
        Some(JsonV::Array(list)) => if consts_of(list).len() == list.len() && list.len() > 0 {
            Some(values_text(consts_of(list)))
        } else {
            None
        },
        _ => None,
    }
}

/// The `type` of a node: a name, names joined, or `any`.
pub open spec fn type_kind(def: JsonV) -> Seq<char> {
    match field(def, "type"@) {
        Some(JsonV::Str(t)) => t,
        Some(JsonV::Array(ts)) => joined(type_names(ts), " | "@),
        _ => "any"@,
    }
}

/// A readable type for a node whose references have been followed.
pub open spec fn local_kind(def: JsonV) -> Seq<char> {
    match field(def, "enum"@) {
        Some(JsonV::Array(list)) => values_text(list),
        _ => match listed_kind(def, "oneOf"@) {
            Some(k) => k,
            None => match listed_kind(def, "anyOf"@) {
                Some(k) => k,
                None => type_kind(def),
            },
        },
    }
}

/// A readable type for a schema node, its references followed first.
pub open spec fn schema_kind_v(root: Seq<(Seq<char>, JsonV)>, def: JsonV) -> Seq<char> {
    local_kind(final_def(root, def))
}

// --- the parameters ------------------------------------------------------------

/// The names a schema lists as required.
pub open spec fn required_of(root: Seq<(Seq<char>, JsonV)>) -> Seq<Seq<char>> {
    match lookup(root, "required"@) {
        Some(JsonV::Array(a)) => strs_of(a),
        _ => seq![],
    }
}

/// A parameter's description, or nothing.
pub open spec fn description_of(def: JsonV) -> Seq<char> {
    match field(def, "description"@) {
        Some(JsonV::Str(d)) => d,
        _ => seq![],
    }
}

/// One property of a schema as a documented parameter.
pub open spec fn param_of(root: Seq<(Seq<char>, JsonV)>, m: (Seq<char>, JsonV)) -> ParamV {
    ParamV {
        name: m.0,
        kind: schema_kind_v(root, m.1),
        required: required_of(root).contains(m.0),
        about: description_of(m.1),
    }
}

/// Required parameters first, then by name.
pub open spec fn param_before(a: ParamV, b: ParamV) -> bool {
    (a.required && !b.required) || (a.required == b.required && crate::json::key_lt(a.name, b.name))
}

pub open spec fn param_order() -> spec_fn(ParamV, ParamV) -> bool {
    |a: ParamV, b: ParamV| param_before(a, b)
}

/// Every property's references end somewhere.
pub open spec fn schema_ends(root: Seq<(Seq<char>, JsonV)>) -> bool {
    match lookup(root, "properties"@) {
        Some(JsonV::Object(ps)) => forall|i: int| 0 <= i < ps.len() ==> refs_end(root, #[trigger] ps[i].1),
        _ => true,
    }
}

/// A schema's parameters, required first and then by name; none when it has
/// no `properties` object.
pub open spec fn params_of_v(root: Seq<(Seq<char>, JsonV)>) -> Seq<ParamV> {
    match lookup(root, "properties"@) {
        Some(JsonV::Object(ps)) => stable_sorted(Seq::new(ps.len(), |i: int| param_of(root, ps[i])), param_order()),
        _ => seq![],
    }
}

// --- reading it ----------------------------------------------------------------------

pub open spec fn words_view(v: Seq<String>) -> Seq<Seq<char>> {
    Seq::new(v.len(), |i: int| v[i]@)
}

/// The text after the last `/` (`last_piece`).
fn last_piece_of(r: &str) -> (n: String)
    ensures
        n@ == last_piece(r@),
{
    let cs = crate::text::chars_of(r);
    let parts = split_pieces(&cs, '/');
    proof {
        lemma_pieces_len(cs@, '/');
        assert(vviews(parts@)[parts@.len() - 1] == parts@[parts@.len() - 1]@);
    }
    string_of(parts[parts.len() - 1].as_slice())
}

/// The definition `name` in a bag (`in_bag`).
fn in_bag_of<'a>(root: &'a Vec<Member>, bag: &str, name: &str) -> (r: Option<&'a Json>)
    ensures
        match r {
            Some(t) => in_bag(members_of(root@), bag@, name@) == Some(t@),
            None => in_bag(members_of(root@), bag@, name@) is None,
        },
{
    proof {
        lemma_members_of(root@);
    }
    match crate::settings::member_index(root, bag) {
        Some(i) => {
            assert(members_of(root@)[i as int] == (root@[i as int].key@, json_of(root@[i as int].value)));
            root[i].value.get(name)
        },
        None => None,
    }
}

/// Where a node's `$ref` leads (`ref_target`).
fn ref_target_of<'a>(root: &'a Vec<Member>, def: &Json) -> (r: Option<&'a Json>)
    ensures
        match r {
            Some(t) => ref_target(members_of(root@), def@) == Some(t@),
            None => ref_target(members_of(root@), def@) is None,
        },
{
    match def.get("$ref") {
        Some(Json::Str(r)) => {
            let n = last_piece_of(r.as_str());
            match in_bag_of(root, "$defs", n.as_str()) {
                Some(t) => Some(t),
                None => in_bag_of(root, "definitions", n.as_str()),
            }
        },
        _ => None,
    }
}

/// The node a chain of references from `def` ends at (`final_def`).
fn final_node<'a>(root: &'a Vec<Member>, def: &'a Json) -> (r: &'a Json)
    requires
        refs_end(members_of(root@), def@),
    ensures
        r@ == final_def(members_of(root@), def@),
{
    let ghost rv = members_of(root@);
    let ghost n = choose|n: nat| #[trigger] chase(rv, def@, n) is Some;
    let ghost target = chase(rv, def@, n)->0;
    let ghost mut k: nat = n;
    let mut cur: &Json = def;
    let mut next = ref_target_of(root, cur);
    while next.is_some()
        invariant
            rv == members_of(root@),
            chase(rv, cur@, k) == Some(target),
            match next {
                Some(t) => ref_target(rv, cur@) == Some(t@),
                None => ref_target(rv, cur@) is None,
            },
        decreases k,
    {
        let t = next.unwrap();
        proof {
            k = (k - 1) as nat;
        }
        cur = t;
        next = ref_target_of(root, cur);
    }
    cur
}

/// Words joined by a separator (`joined`).
fn join_words(items: &Vec<String>, sep: &str) -> (r: String)
    ensures
        r@ == joined(words_view(items@), sep@),
{
    let ghost w = words_view(items@);
    let mut out = String::new();
    let mut i: usize = 0;
    assert(w.subrange(0, 0) =~= Seq::<Seq<char>>::empty());
    while i < items.len()
        invariant
            i <= items@.len(),
            w == words_view(items@),
            out@ == joined(w.subrange(0, i as int), sep@),
        decreases items.len() - i,
    {
        let ghost pre = w.subrange(0, i + 1);
        assert(pre.drop_last() =~= w.subrange(0, i as int));
        if i > 0 {
            push_str(&mut out, sep);
        }
        push_str(&mut out, items[i].as_str());
        proof {
            if i == 0 {
                assert(out@ =~= pre[0]);
            }
        }
        i += 1;
    }
    assert(w.subrange(0, items@.len() as int) =~= w);
    out
}

/// The strings among some values (`strs_of`), or the type names among them
/// (`type_names`) when `types` is set.
fn strings_in(a: &Vec<Json>, types: bool) -> (r: Vec<String>)
    ensures
        words_view(r@) == if types {
            type_names(jsons_of(a@))
        } else {
            strs_of(jsons_of(a@))
        },
{
    let ghost av = jsons_of(a@);
    proof {
        lemma_jsons_of(a@);
    }
    let mut out: Vec<String> = Vec::new();
    let mut i: usize = 0;
    assert(av.subrange(0, 0) =~= Seq::<JsonV>::empty());
    while i < a.len()
        invariant
            i <= a@.len(),
            av == jsons_of(a@),
            av.len() == a@.len(),
            forall|j: int| 0 <= j < a@.len() ==> #[trigger] av[j] == a@[j]@,
            words_view(out@) == if types {
                type_names(av.subrange(0, i as int))
            } else {
                strs_of(av.subrange(0, i as int))
            },
        decreases a.len() - i,
    {
        let ghost pre = av.subrange(0, i + 1);
        assert(pre.drop_last() =~= av.subrange(0, i as int));
        assert(pre.last() == a@[i as int]@);
        let ghost before = words_view(out@);
        match &a[i] {
            Json::Str(s) => {
                if !(types && str_eq(s.as_str(), "null")) {
                    out.push(s.clone());
                    assert(words_view(out@) =~= before.push(s@));
                }
            },
            _ => {},
        }
        i += 1;
    }
    assert(av.subrange(0, a@.len() as int) =~= av);
    out
}

/// Values as words (`values_text`).
fn values_words(list: &Vec<Json>) -> (r: String)
    ensures
        r@ == values_text(jsons_of(list@)),
{
    let ghost lv = jsons_of(list@);
    proof {
        lemma_jsons_of(list@);
    }
    let mut words: Vec<String> = Vec::new();
    let mut i: usize = 0;
    while i < list.len()
        invariant
            i <= list@.len(),
            lv == jsons_of(list@),
            lv.len() == list@.len(),
            forall|j: int| 0 <= j < list@.len() ==> #[trigger] lv[j] == list@[j]@,
            words@.len() == i,
            forall|j: int| 0 <= j < i ==> #[trigger] words@[j]@ == value_word(lv[j]),
        decreases list.len() - i,
    {
        let w = match &list[i] {
            Json::Str(s) => s.clone(),
            other => json_string(other),
        };
        words.push(w);
        i += 1;
    }
    assert(words_view(words@) =~= Seq::new(lv.len(), |i: int| value_word(lv[i])));
    join_words(&words, " | ")
}

/// The `const` of each item that has one (`consts_of`).
fn consts_in(list: &Vec<Json>) -> (r: Vec<Json>)
    ensures
        jsons_of(r@) == consts_of(jsons_of(list@)),
{
    let ghost lv = jsons_of(list@);
    proof {
        lemma_jsons_of(list@);
    }
    let mut out: Vec<Json> = Vec::new();
    let mut i: usize = 0;
    assert(lv.subrange(0, 0) =~= Seq::<JsonV>::empty());
    while i < list.len()
        invariant
            i <= list@.len(),
            lv == jsons_of(list@),
            lv.len() == list@.len(),
            forall|j: int| 0 <= j < list@.len() ==> #[trigger] lv[j] == list@[j]@,
            jsons_of(out@) == consts_of(lv.subrange(0, i as int)),
        decreases list.len() - i,
    {
        let ghost pre = lv.subrange(0, i + 1);
        assert(pre.drop_last() =~= lv.subrange(0, i as int));
        assert(pre.last() == list@[i as int]@);
        match list[i].get("const") {
            Some(c) => {
                let ghost before = out@;
                out.push(c.copy());
                assert(out@.drop_last() =~= before);
            },
            None => {},
        }
        i += 1;
    }
    assert(lv.subrange(0, list@.len() as int) =~= lv);
    out
}

/// A `oneOf` or `anyOf` list of constants as its values (`listed_kind`).
fn listed_kind_of(def: &Json, key: &str) -> (r: Option<String>)
    ensures
        match r {
            Some(k) => listed_kind(def@, key@) == Some(k@),
            None => listed_kind(def@, key@) is None,
        },
{
    match def.get(key) {
        Some(Json::Array(list)) => {
            proof {
                lemma_jsons_of(list@);
            }
            let cs = consts_in(list);
            proof {
                lemma_jsons_of(cs@);
            }
            if cs.len() == list.len() && list.len() > 0 {
                Some(values_words(&cs))
            } else {
                None
            }
        },
        _ => None,
    }
}

/// The `type` of a node (`type_kind`).
fn type_kind_of(def: &Json) -> (r: String)
    ensures
        r@ == type_kind(def@),
{
    match def.get("type") {
        Some(Json::Str(t)) => t.clone(),
        Some(Json::Array(ts)) => {
            let names = strings_in(ts, true);
            join_words(&names, " | ")
        },
        _ => "any".to_owned(),
    }
}

/// A readable type for a node whose references were followed
/// (`local_kind`).
fn local_kind_of(def: &Json) -> (r: String)
    ensures
        r@ == local_kind(def@),
{
    match def.get("enum") {
        Some(Json::Array(list)) => values_words(list),
        _ => match listed_kind_of(def, "oneOf") {
            Some(k) => k,
            None => match listed_kind_of(def, "anyOf") {
                Some(k) => k,
                None => type_kind_of(def),
            },
        },
    }
}

/// A readable type for a schema node (`schema_kind_v`): its `$ref` followed
/// into the schema's definitions, then its enum values, constants, or type.
pub fn schema_kind(root: &Vec<Member>, def: &Json) -> (r: String)
    requires
        refs_end(members_of(root@), def@),
    ensures
        r@ == schema_kind_v(members_of(root@), def@),
{
    let node = final_node(root, def);
    local_kind_of(node)
}

fn param_less(a: &Param, b: &Param) -> (r: bool)
    ensures
        r == param_before(a@, b@),
{
    (a.required && !b.required) || (a.required == b.required && crate::json::key_less(a.name.as_str(), b.name.as_str()))
}

/// Parameters in order, ties kept as they came (`sort_by`).
fn sort_params(ps: Vec<Param>) -> (r: Vec<Param>)
    ensures
        params_view(r@) == stable_sorted(params_view(ps@), param_order()),
{
    let ghost all = params_view(ps@);
    let mut out: Vec<Param> = Vec::new();
    let mut rest = ps;
    let n = rest.len();
    let mut i: usize = 0;
    assert(params_view(out@) =~= stable_sorted(all.subrange(0, 0), param_order()));
    while i < n
        invariant
            i <= n,
            n == all.len(),
            all.len() == ps@.len(),
            forall|j: int| 0 <= j < n ==> #[trigger] all[j] == ps@[j]@,
            rest@ == ps@.subrange(i as int, n as int),
            params_view(out@) == stable_sorted(all.subrange(0, i as int), param_order()),
        decreases n - i,
    {
        let x = rest.remove(0);
        assert(x == ps@[i as int]);
        assert(rest@ =~= ps@.subrange(i + 1, n as int));
        let ghost o = params_view(out@);
        let mut p: usize = 0;
        while p < out.len() && !param_less(&x, &out[p])
            invariant
                p <= out@.len(),
                o == params_view(out@),
                forall|k: int| 0 <= k < p ==> !param_before(x@, #[trigger] o[k]),
            decreases out.len() - p,
        {
            p += 1;
        }
        let ghost xv = x@;
        out.insert(p, x);
        proof {
            assert(params_view(out@) =~= o.insert(p as int, xv));
            lemma_insert_in_order(o, xv, param_order(), p as int);
            let pre = all.subrange(0, i + 1);
            assert(pre.drop_last() =~= all.subrange(0, i as int));
            assert(pre.last() == xv);
        }
        i += 1;
    }
    assert(all.subrange(0, n as int) =~= all);
    out
}

/// Whether `name` is among `names`.
fn listed(names: &Vec<String>, name: &str) -> (r: bool)
    ensures
        r == words_view(names@).contains(name@),
{
    let ghost w = words_view(names@);
    let mut i: usize = 0;
    while i < names.len()
        invariant
            i <= names@.len(),
            w == words_view(names@),
            forall|j: int| 0 <= j < i ==> w[j] != name@,
        decreases names.len() - i,
    {
        if str_eq(names[i].as_str(), name) {
            assert(w[i as int] == name@);
            return true;
        }
        i += 1;
    }
    false
}

/// The parameters out of a tool's JSON Schema (`params_of_v`): each
/// property's name, readable type, whether it is required, and its
/// description; required ones first, then by name.
pub fn params_of(schema: &Vec<Member>) -> (r: Vec<Param>)
    requires
        schema_ends(members_of(schema@)),
    ensures
        params_view(r@) == params_of_v(members_of(schema@)),
{
    let ghost root = members_of(schema@);
    proof {
        lemma_members_of(schema@);
    }
    let required: Vec<String> = match crate::settings::member_index(schema, "required") {
        Some(i) => {
            assert(root[i as int] == (schema@[i as int].key@, json_of(schema@[i as int].value)));
            match &schema[i].value {
                Json::Array(a) => strings_in(a, false),
                _ => Vec::new(),
            }
        },
        None => Vec::new(),
    };
    assert(words_view(required@) == required_of(root));
    let k = crate::settings::member_index(schema, "properties");
    if k.is_none() {
        return Vec::new();
    }
    let k = k.unwrap();
    assert(root[k as int] == (schema@[k as int].key@, json_of(schema@[k as int].value)));
    let props = match &schema[k].value {
        Json::Object(props) => props,
        _ => {
            return Vec::new();
        },
    };
    let ghost pv = members_of(props@);
    proof {
        lemma_members_of(props@);
    }
    let ghost want = Seq::new(pv.len(), |i: int| param_of(root, pv[i]));
    let mut out: Vec<Param> = Vec::new();
    let mut i: usize = 0;
    while i < props.len()
        invariant
            i <= props@.len(),
            root == members_of(schema@),
            pv == members_of(props@),
            pv.len() == props@.len(),
            forall|j: int| 0 <= j < props@.len() ==> #[trigger] pv[j] == (props@[j].key@, json_of(props@[j].value)),
            forall|j: int| 0 <= j < pv.len() ==> refs_end(root, #[trigger] pv[j].1),
            words_view(required@) == required_of(root),
            want == Seq::new(pv.len(), |i: int| param_of(root, pv[i])),
            out@.len() == i,
            forall|j: int| 0 <= j < i ==> (#[trigger] out@[j])@ == want[j],
        decreases props.len() - i,
    {
        let m = &props[i];
        assert(pv[i as int].1 == m.value@);
        let about = match m.value.get("description") {
            Some(Json::Str(d)) => d.clone(),
            _ => String::new(),
        };
        let prm = Param {
            name: m.key.clone(),
            kind: schema_kind(schema, &m.value),
            required: listed(&required, m.key.as_str()),
            about,
        };
        assert(prm@ == want[i as int]);
        out.push(prm);
        i += 1;
    }
    assert(params_view(out@) =~= want);
    sort_params(out)
}

/// Whether the references from `def` stop within `fuel` steps: when they
/// do, they end (`refs_end`).
pub fn refs_end_within(root: &Vec<Member>, def: &Json, fuel: usize) -> (r: bool)
    ensures
        r == (chase(members_of(root@), def@, fuel as nat) is Some),
        r ==> refs_end(members_of(root@), def@),
{
    let ghost rv = members_of(root@);
    let mut cur: &Json = def;
    let mut k: usize = fuel;
    let mut next = ref_target_of(root, cur);
    while next.is_some()
        invariant
            rv == members_of(root@),
            chase(rv, def@, fuel as nat) == chase(rv, cur@, k as nat),
            match next {
                Some(t) => ref_target(rv, cur@) == Some(t@),
                None => ref_target(rv, cur@) is None,
            },
        decreases k,
    {
        if k == 0 {
            return false;
        }
        cur = next.unwrap();
        k -= 1;
        next = ref_target_of(root, cur);
    }
    proof {
        assert(chase(rv, def@, fuel as nat) is Some);
    }
    true
}

/// Every property's references stop within `fuel` steps.
pub open spec fn schema_ends_in(root: Seq<(Seq<char>, JsonV)>, fuel: nat) -> bool {
    match lookup(root, "properties"@) {
        Some(JsonV::Object(ps)) => forall|i: int| 0 <= i < ps.len() ==> (#[trigger] chase(root, ps[i].1, fuel) is Some),
        _ => true,
    }
}

/// Whether every property of a schema has references that stop within
/// `fuel` steps (`schema_ends_in`): when so, `params_of` may read it.
pub fn schema_ends_within(schema: &Vec<Member>, fuel: usize) -> (r: bool)
    ensures
        r == schema_ends_in(members_of(schema@), fuel as nat),
        r ==> schema_ends(members_of(schema@)),
{
    let ghost root = members_of(schema@);
    proof {
        lemma_members_of(schema@);
    }
    let k = crate::settings::member_index(schema, "properties");
    if k.is_none() {
        return true;
    }
    let k = k.unwrap();
    assert(root[k as int] == (schema@[k as int].key@, json_of(schema@[k as int].value)));
    let props = match &schema[k].value {
        Json::Object(props) => props,
        _ => {
            return true;
        },
    };
    let ghost pv = members_of(props@);
    proof {
        lemma_members_of(props@);
    }
    assert(lookup(root, "properties"@) == Some(JsonV::Object(pv)));
    let mut i: usize = 0;
    while i < props.len()
        invariant
            i <= props@.len(),
            root == members_of(schema@),
            pv == members_of(props@),
            pv.len() == props@.len(),
            forall|j: int| 0 <= j < props@.len() ==> #[trigger] pv[j] == (props@[j].key@, json_of(props@[j].value)),
            forall|j: int| 0 <= j < i ==> refs_end(root, #[trigger] pv[j].1),
            forall|j: int| 0 <= j < i ==> (#[trigger] chase(root, pv[j].1, fuel as nat) is Some),
            lookup(root, "properties"@) == Some(JsonV::Object(pv)),
        decreases props.len() - i,
    {
        if !refs_end_within(schema, &props[i].value, fuel) {
            assert(pv[i as int].1 == props@[i as int].value@);
            assert(!(chase(root, pv[i as int].1, fuel as nat) is Some));
            return false;
        }
        assert(pv[i as int].1 == props@[i as int].value@);
        i += 1;
    }
    true
}

} // verus!
