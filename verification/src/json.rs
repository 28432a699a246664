//! A JSON document as the library holds it.
//!
//! Command parameters, the settings document and the data editor's trees are
//! JSON. Numbers are kept the way JSON parsers classify them: a non-negative
//! integer, a negative integer, or anything else, which is held to six
//! decimal places (in millionths) because the library computes with integers.
//! An object's members keep their keys in ascending order, one member per key,
//! as a sorted map would.

use vstd::prelude::*;

use crate::text::{chars_of, str_eq, string_of};

verus! {

/// A JSON number, as a parser classifies it.
#[derive(Debug)]
pub enum Number {
    /// An integer `>= 0`.
    PosInt(u64),
    /// An integer `< 0`.
    NegInt(i64),
    /// Any other number, in millionths.
    Float(i64),
}

/// One member of an object: its key and its value.
#[derive(Debug)]
pub struct Member {
    pub key: String,
    pub value: Json,
}

/// A JSON value.
#[derive(Debug)]
pub enum Json {
    Null,
    Bool(bool),
    Num(Number),
    Str(String),
    Array(Vec<Json>),
    Object(Vec<Member>),
}

/// The mathematical model of a document.
pub enum JsonV {
    Null,
    Bool(bool),
    Num(Number),
    Str(Seq<char>),
    Array(Seq<JsonV>),
    Object(Seq<(Seq<char>, JsonV)>),
}

pub open spec fn json_of(j: Json) -> JsonV
    decreases j,
{
    match j {
        Json::Null => JsonV::Null,
        Json::Bool(b) => JsonV::Bool(b),
        Json::Num(n) => JsonV::Num(n),
        Json::Str(s) => JsonV::Str(s@),
        Json::Array(v) => JsonV::Array(jsons_of(v@)),
        Json::Object(ms) => JsonV::Object(members_of(ms@)),
    }
}

pub open spec fn jsons_of(s: Seq<Json>) -> Seq<JsonV>
    decreases s,
{
    if s.len() == 0 {
        seq![]
    } else {
        jsons_of(s.drop_last()).push(json_of(s.last()))
    }
}

pub open spec fn members_of(s: Seq<Member>) -> Seq<(Seq<char>, JsonV)>
    decreases s,
{
    if s.len() == 0 {
        seq![]
    } else {
        members_of(s.drop_last()).push((s.last().key@, json_of(s.last().value)))
    }
}

impl View for Json {
    type V = JsonV;

    open spec fn view(&self) -> JsonV {
        json_of(*self)
    }
}

pub proof fn lemma_jsons_of(s: Seq<Json>)
    ensures
        jsons_of(s).len() == s.len(),
        forall|i: int| 0 <= i < s.len() ==> #[trigger] jsons_of(s)[i] == json_of(s[i]),
    decreases s.len(),
{
    if s.len() > 0 {
        lemma_jsons_of(s.drop_last());
    }
}

pub proof fn lemma_members_of(s: Seq<Member>)
    ensures
        members_of(s).len() == s.len(),
        forall|i: int|
            0 <= i < s.len() ==> #[trigger] members_of(s)[i] == (s[i].key@, json_of(s[i].value)),
    decreases s.len(),
{
    if s.len() > 0 {
        lemma_members_of(s.drop_last());
    }
}

/// Where `key` first occurs among the members, or `-1`.
pub open spec fn key_index(ms: Seq<(Seq<char>, JsonV)>, key: Seq<char>) -> int
    decreases ms.len(),
{
    if ms.len() == 0 {
        -1
    } else if ms[0].0 == key {
        0
    } else {
        let r = key_index(ms.drop_first(), key);
        if r < 0 {
            -1
        } else {
            r + 1
        }
    }
}

pub proof fn lemma_key_index(ms: Seq<(Seq<char>, JsonV)>, key: Seq<char>)
    ensures
        -1 <= key_index(ms, key) < ms.len(),
        key_index(ms, key) >= 0 ==> ms[key_index(ms, key)].0 == key,
        forall|i: int|
            0 <= i < ms.len() && (key_index(ms, key) < 0 || i < key_index(ms, key)) ==> #[trigger] ms[i].0
                != key,
    decreases ms.len(),
{
    if ms.len() > 0 && ms[0].0 != key {
        lemma_key_index(ms.drop_first(), key);
        assert forall|i: int|
            0 <= i < ms.len() && (key_index(ms, key) < 0 || i < key_index(ms, key)) implies #[trigger] ms[i].0
                != key by {
            if i > 0 {
                assert(ms[i] == ms.drop_first()[i - 1]);
            }
        }
    }
}

/// The value under `key` in a member list.
pub open spec fn lookup(ms: Seq<(Seq<char>, JsonV)>, key: Seq<char>) -> Option<JsonV> {
    let i = key_index(ms, key);
    if i >= 0 {
        Some(ms[i].1)
    } else {
        None
    }
}

/// The member `key` of an object; nothing for anything else.
pub open spec fn field(j: JsonV, key: Seq<char>) -> Option<JsonV> {
    match j {
        JsonV::Object(ms) => lookup(ms, key),
        _ => None,
    }
}

/// A non-negative integer, as a JSON parser's `as_u64` gives it.
pub open spec fn as_u64(j: JsonV) -> Option<u64> {
    match j {
        JsonV::Num(Number::PosInt(n)) => Some(n),
        _ => None,
    }
}

/// An integer that fits `i64`, as `as_i64` gives it.
pub open spec fn as_i64(j: JsonV) -> Option<i64> {
    match j {
        JsonV::Num(Number::PosInt(n)) => if n <= i64::MAX {
            Some(n as i64)
        } else {
            None
        },
        JsonV::Num(Number::NegInt(n)) => Some(n),
        _ => None,
    }
}

/// The text of a string value.
pub open spec fn as_str(j: JsonV) -> Option<Seq<char>> {
    match j {
        JsonV::Str(s) => Some(s),
        _ => None,
    }
}

/// `a` sorts before `b`: character by character, a proper prefix first.
pub open spec fn key_lt(a: Seq<char>, b: Seq<char>) -> bool
    decreases a.len(),
{
    if b.len() == 0 {
        false
    } else if a.len() == 0 {
        true
    } else if a[0] != b[0] {
        (a[0] as int) < (b[0] as int)
    } else {
        key_lt(a.drop_first(), b.drop_first())
    }
}

pub proof fn lemma_key_lt_irreflexive(a: Seq<char>)
    ensures
        !key_lt(a, a),
    decreases a.len(),
{
    if a.len() > 0 {
        lemma_key_lt_irreflexive(a.drop_first());
    }
}

pub proof fn lemma_key_lt_transitive(a: Seq<char>, b: Seq<char>, c: Seq<char>)
    requires
        key_lt(a, b),
        key_lt(b, c),
    ensures
        key_lt(a, c),
    decreases a.len(),
{
    if a.len() > 0 && b.len() > 0 && c.len() > 0 && a[0] == b[0] && b[0] == c[0] {
        lemma_key_lt_transitive(a.drop_first(), b.drop_first(), c.drop_first());
    }
}

#[verifier::spinoff_prover]
pub proof fn lemma_key_lt_total(a: Seq<char>, b: Seq<char>)
    ensures
        a == b || key_lt(a, b) || key_lt(b, a),
    decreases a.len(),
{
    if a.len() == 0 && b.len() == 0 {
        assert(a =~= b);
    } else if a.len() == 0 {
        assert(key_lt(a, b));
    } else if b.len() == 0 {
        assert(key_lt(b, a));
    } else if a[0] != b[0] {
        if (a[0] as int) < (b[0] as int) {
            assert(key_lt(a, b));
        } else {
            assert(key_lt(b, a));
        }
    } else {
        let (ta, tb) = (a.drop_first(), b.drop_first());
        lemma_key_lt_total(ta, tb);
        if ta == tb {
            assert(ta.len() == tb.len());
            assert forall|i: int| 0 <= i < a.len() implies a[i] == b[i] by {
                if i > 0 {
                    assert(a[i] == ta[i - 1]);
                    assert(b[i] == tb[i - 1]);
                }
            }
            assert(a =~= b);
        } else if key_lt(ta, tb) {
            assert(key_lt(a, b));
        } else {
            assert(key_lt(b, a));
        }
    }
}

/// How many leading members sort before `key`: where a new key goes.
pub open spec fn insert_pos(ms: Seq<(Seq<char>, JsonV)>, key: Seq<char>) -> int
    decreases ms.len(),
{
    if ms.len() == 0 || !key_lt(ms[0].0, key) {
        0
    } else {
        1 + insert_pos(ms.drop_first(), key)
    }
}

pub proof fn lemma_insert_pos(ms: Seq<(Seq<char>, JsonV)>, key: Seq<char>)
    ensures
        0 <= insert_pos(ms, key) <= ms.len(),
        forall|i: int| 0 <= i < insert_pos(ms, key) ==> key_lt(#[trigger] ms[i].0, key),
        insert_pos(ms, key) < ms.len() ==> !key_lt(ms[insert_pos(ms, key)].0, key),
    decreases ms.len(),
{
    if ms.len() > 0 && key_lt(ms[0].0, key) {
        lemma_insert_pos(ms.drop_first(), key);
        assert forall|i: int| 0 <= i < insert_pos(ms, key) implies key_lt(#[trigger] ms[i].0, key) by {
            if i > 0 {
                assert(ms[i] == ms.drop_first()[i - 1]);
            }
        }
    }
}

/// The members with `key` set to `v`: in place when the key is there,
/// otherwise added where it sorts.
pub open spec fn upsert(ms: Seq<(Seq<char>, JsonV)>, key: Seq<char>, v: JsonV) -> Seq<
    (Seq<char>, JsonV),
> {
    let i = key_index(ms, key);
    if i >= 0 {
        ms.update(i, (key, v))
    } else {
        ms.insert(insert_pos(ms, key), (key, v))
    }
}

/// Whether `a` sorts before `b`.
pub fn key_less(a: &str, b: &str) -> (r: bool)
    ensures
        r == key_lt(a@, b@),
{
    let n = a.unicode_len();
    let m = b.unicode_len();
    let mut i: usize = 0;
    assert(a@.skip(0) =~= a@);
    assert(b@.skip(0) =~= b@);
    while i < n && i < m && a.get_char(i) == b.get_char(i)
        invariant
            n == a@.len(),
            m == b@.len(),
            i <= n,
            i <= m,
            key_lt(a@, b@) == key_lt(a@.skip(i as int), b@.skip(i as int)),
        decreases n - i,
    {
        proof {
            let sa = a@.skip(i as int);
            let sb = b@.skip(i as int);
            assert(sa.drop_first() =~= a@.skip(i + 1));
            assert(sb.drop_first() =~= b@.skip(i + 1));
        }
        i += 1;
    }
    if i == m {
        assert(b@.skip(i as int).len() == 0);
        false
    } else if i == n {
        assert(a@.skip(i as int).len() == 0);
        true
    } else {
        assert(a@.skip(i as int)[0] == a@[i as int]);
        assert(b@.skip(i as int)[0] == b@[i as int]);
        let (x, y) = (a.get_char(i), b.get_char(i));
        assert((x as u32) as int == x as int);
        assert((y as u32) as int == y as int);
        (x as u32) < (y as u32)
    }
}

impl Number {
    /// An exact copy.
    pub fn copy(&self) -> (r: Number)
        ensures
            r == *self,
    {
        match self {
            Number::PosInt(n) => Number::PosInt(*n),
            Number::NegInt(n) => Number::NegInt(*n),
            Number::Float(n) => Number::Float(*n),
        }
    }
}

impl Json {
    /// An exact copy.
    #[verifier::loop_isolation(false)]
    pub fn copy(&self) -> (r: Json)
        ensures
            r@ == self@,
        decreases self,
    {
        match self {
            Json::Null => Json::Null,
            Json::Bool(b) => Json::Bool(*b),
            Json::Num(n) => Json::Num(n.copy()),
            Json::Str(s) => Json::Str(s.clone()),
            Json::Array(items) => {
                let mut out: Vec<Json> = Vec::new();
                let mut i: usize = 0;
                proof {
                    lemma_jsons_of(items@);
                }
                while i < items.len()
                    invariant
                        i <= items.len(),
                        out@.len() == i,
                        forall|j: int| 0 <= j < i ==> (#[trigger] out@[j])@ == items@[j]@,
                    decreases items.len() - i,
                {
                    assert(decreases_to!(*self => items));
                    assert(decreases_to!(items => items@));
                    assert(decreases_to!(items@ => items@[i as int]));
                    out.push(items[i].copy());
                    i += 1;
                }
                proof {
                    lemma_jsons_of(out@);
                    assert(jsons_of(out@) =~= jsons_of(items@));
                }
                Json::Array(out)
            },
            Json::Object(ms) => {
                let mut out: Vec<Member> = Vec::new();
                let mut i: usize = 0;
                proof {
                    lemma_members_of(ms@);
                }
                while i < ms.len()
                    invariant
                        i <= ms.len(),
                        out@.len() == i,
                        forall|j: int|
                            0 <= j < i ==> (#[trigger] out@[j]).key@ == ms@[j].key@ && out@[j].value@
                                == ms@[j].value@,
                    decreases ms.len() - i,
                {
                    assert(decreases_to!(*self => ms));
                    assert(decreases_to!(ms => ms@));
                    assert(decreases_to!(ms@ => ms@[i as int]));
                    assert(decreases_to!(ms@[i as int] => ms@[i as int].value));
                    let v = ms[i].value.copy();
                    out.push(Member { key: ms[i].key.clone(), value: v });
                    i += 1;
                }
                proof {
                    lemma_members_of(out@);
                    assert(members_of(out@) =~= members_of(ms@));
                }
                Json::Object(out)
            },
        }
    }

    /// The member `key` of an object (`Value::get` with a string key).
    #[verifier::loop_isolation(false)]
    pub fn get(&self, key: &str) -> (r: Option<&Json>)
        ensures
            match r {
                Some(v) => field(self@, key@) == Some(v@),
                None => field(self@, key@) is None,
            },
    {
        match self {
            Json::Object(ms) => {
                proof {
                    lemma_members_of(ms@);
                    lemma_key_index(members_of(ms@), key@);
                }
                let mut i: usize = 0;
                while i < ms.len()
                    invariant
                        i <= ms.len(),
                        members_of(ms@).len() == ms@.len(),
                        forall|j: int| 0 <= j < i ==> #[trigger] ms@[j].key@ != key@,
                        forall|j: int|
                            0 <= j < ms@.len() ==> #[trigger] members_of(ms@)[j] == (
                                ms@[j].key@,
                                json_of(ms@[j].value),
                            ),
                    decreases ms.len() - i,
                {
                    if str_eq(ms[i].key.as_str(), key) {
                        let ghost k = key_index(members_of(ms@), key@);
                        proof {
                            lemma_key_index(members_of(ms@), key@);
                            if k < 0 || i < k {
                                assert(members_of(ms@)[i as int].0 != key@);
                            }
                            if k >= 0 && k < i {
                                assert(ms@[k].key@ != key@);
                            }
                            assert(k == i);
                            assert(json_of(*self) == JsonV::Object(members_of(ms@)));
                        }
                        return Some(&ms[i].value);
                    }
                    i += 1;
                }
                proof {
                    lemma_key_index(members_of(ms@), key@);
                    let k = key_index(members_of(ms@), key@);
                    if k >= 0 {
                        assert(ms@[k].key@ != key@);
                    }
                }
                None
            },
            _ => None,
        }
    }

    /// The value as a non-negative integer (`Value::as_u64`).
    pub fn as_u64(&self) -> (r: Option<u64>)
        ensures
            r == as_u64(self@),
    {
        match self {
            Json::Num(Number::PosInt(n)) => Some(*n),
            _ => None,
        }
    }

    /// The value as an `i64` (`Value::as_i64`).
    pub fn as_i64(&self) -> (r: Option<i64>)
        ensures
            r == as_i64(self@),
    {
        match self {
            Json::Num(Number::PosInt(n)) => if *n <= i64::MAX as u64 {
                Some(*n as i64)
            } else {
                None
            },
            Json::Num(Number::NegInt(n)) => Some(*n),
            _ => None,
        }
    }

    /// The text of a string value (`Value::as_str`).
    pub fn as_str(&self) -> (r: Option<&str>)
        ensures
            match r {
                Some(s) => as_str(self@) == Some(s@),
                None => as_str(self@) is None,
            },
    {
        match self {
            Json::Str(s) => Some(s.as_str()),
            _ => None,
        }
    }
}

} // verus!
