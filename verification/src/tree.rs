//! Rows of a tree view, and walking a JSON document level by level.
//!
//! A tree view asks, for a row's pointer, what is under it; the host answers
//! with rows. Every row carries its pointer, a label, a short preview and
//! whether it can open.

use vstd::prelude::*;

use crate::cron::{all_digits, digits_value, pieces, split_pieces, vviews};
use crate::json::{
    field, json_of, jsons_of, key_less, key_lt, lemma_jsons_of, lemma_key_lt_irreflexive,
    lemma_key_lt_transitive, lemma_members_of,
    members_of, Json, JsonV, Number,
};
use crate::order::stable_sorted;
use crate::text::{decimal, push_char, push_decimal, push_str, string_of};

verus! {

/// One row a host hands back for a pointer.
pub struct TreeRow {
    /// Where this node lives: a JSON pointer, a relative path.
    pub pointer: String,
    /// The name shown on the row.
    pub label: String,
    /// A short value preview after the label; empty shows nothing.
    pub preview: String,
    /// Whether the row can expand.
    pub has_children: bool,
}

/// A row as a value.
pub struct RowV {
    pub pointer: Seq<char>,
    pub label: Seq<char>,
    pub preview: Seq<char>,
    pub has_children: bool,
}

impl View for TreeRow {
    type V = RowV;

    open spec fn view(&self) -> RowV {
        RowV {
            pointer: self.pointer@,
            label: self.label@,
            preview: self.preview@,
            has_children: self.has_children,
        }
    }
}

pub open spec fn rows_view(s: Seq<TreeRow>) -> Seq<RowV> {
    Seq::new(s.len(), |i: int| s[i]@)
}

/// `a` lists before `b`: branches first, then by label.
pub open spec fn row_lt(a: RowV, b: RowV) -> bool {
    (a.has_children && !b.has_children) || (a.has_children == b.has_children && key_lt(a.label, b.label))
}

/// In listing order: nothing is out of order.
pub open spec fn listed(s: Seq<RowV>) -> bool {
    forall|i: int, j: int| 0 <= i < j < s.len() ==> !row_lt(#[trigger] s[j], #[trigger] s[i])
}

proof fn lemma_row_lt_transitive(a: RowV, b: RowV, c: RowV)
    requires
        row_lt(a, b),
        row_lt(b, c),
    ensures
        row_lt(a, c),
{
    if a.has_children == b.has_children && b.has_children == c.has_children {
        lemma_key_lt_transitive(a.label, b.label, c.label);
    }
}

fn row_less(a: &TreeRow, b: &TreeRow) -> (r: bool)
    ensures
        r == row_lt(a@, b@),
{
    (a.has_children && !b.has_children) || (a.has_children == b.has_children && key_less(
        a.label.as_str(),
        b.label.as_str(),
    ))
}

/// The listing order as a function.
pub open spec fn row_order() -> spec_fn(RowV, RowV) -> bool {
    |a: RowV, b: RowV| row_lt(a, b)
}

/// The rows in listing order, branches first and then by label, ties in the
/// order given (a stable sort); the same rows, each as often as before.
pub fn list_rows(rows: Vec<TreeRow>) -> (r: Vec<TreeRow>)
    ensures
        rows_view(r@) == stable_sorted(rows_view(rows@), row_order()),
        rows_view(r@).to_multiset() == rows_view(rows@).to_multiset(),
        listed(rows_view(r@)),
{
    broadcast use vstd::seq_lib::to_multiset_insert, vstd::seq_lib::to_multiset_build;

    let mut out: Vec<TreeRow> = Vec::new();
    let ghost all = rows_view(rows@);
    assert(rows_view(out@) =~= all.subrange(0, 0));
    let mut i: usize = 0;
    while i < rows.len()
        invariant
            i <= rows@.len(),
            all == rows_view(rows@),
            listed(rows_view(out@)),
            rows_view(out@).to_multiset() == all.subrange(0, i as int).to_multiset(),
            rows_view(out@) == stable_sorted(all.subrange(0, i as int), row_order()),
        decreases rows.len() - i,
    {
        let x = TreeRow {
            pointer: rows[i].pointer.clone(),
            label: rows[i].label.clone(),
            preview: rows[i].preview.clone(),
            has_children: rows[i].has_children,
        };
        assert(all.subrange(0, i + 1) =~= all.subrange(0, i as int).push(x@));
        let ghost o = rows_view(out@);
        let mut p: usize = 0;
        while p < out.len() && !row_less(&x, &out[p])
            invariant
                p <= out@.len(),
                o == rows_view(out@),
                forall|k: int| 0 <= k < p ==> !row_lt(x@, #[trigger] o[k]),
            decreases out.len() - p,
        {
            p += 1;
        }
        let ghost xv = x@;
        out.insert(p, x);
        proof {
            let s = rows_view(out@);
            assert(s =~= o.insert(p as int, xv));
            crate::order::lemma_insert_in_order(o, xv, row_order(), p as int);
            assert(all.subrange(0, i + 1).drop_last() =~= all.subrange(0, i as int));
            assert forall|i: int, j: int| 0 <= i < j < s.len() implies !row_lt(#[trigger] s[j], #[trigger] s[i]) by {
                if i < p && j == p {
                } else if i == p && j > p {
                    if row_lt(s[j], xv) {
                        if p < o.len() {
                            assert(row_lt(xv, o[p as int]));
                            lemma_row_lt_transitive(s[j], xv, o[p as int]);
                            if j - 1 == p {
                                lemma_key_lt_irreflexive(o[p as int].label);
                            } else {
                                assert(!row_lt(o[j - 1], o[p as int]));
                            }
                        }
                    }
                } else if i < p && j > p {
                    assert(!row_lt(o[j - 1], o[i]));
                } else if j < p {
                    assert(!row_lt(o[j], o[i]));
                } else {
                    assert(!row_lt(o[j - 1], o[i - 1]));
                }
            }
            vstd::seq_lib::to_multiset_insert(o, p as int, xv);
            vstd::seq_lib::to_multiset_build(all.subrange(0, i as int), xv);
        }
        i += 1;
    }
    assert(all.subrange(0, rows@.len() as int) =~= all);
    out
}


// --- walking a document ------------------------------------------------------

/// `s` with every `a b` pair written `c`, scanning left to right.
pub open spec fn swap_pair(s: Seq<char>, a: char, b: char, c: char) -> Seq<char>
    decreases s.len(),
{
    if s.len() == 0 {
        seq![]
    } else if s.len() >= 2 && s[0] == a && s[1] == b {
        seq![c] + swap_pair(s.skip(2), a, b, c)
    } else {
        seq![s[0]] + swap_pair(s.skip(1), a, b, c)
    }
}

/// A pointer token as written (RFC 6901): `~1` is `/`, then `~0` is `~`.
pub open spec fn unescape(t: Seq<char>) -> Seq<char> {
    swap_pair(swap_pair(t, '~', '1', '/'), '~', '0', '~')
}

/// A key as a pointer token: `~` is `~0`, `/` is `~1`.
pub open spec fn escape(k: Seq<char>) -> Seq<char>
    decreases k.len(),
{
    if k.len() == 0 {
        seq![]
    } else {
        escape(k.drop_last()) + if k.last() == '~' {
            seq!['~', '0']
        } else if k.last() == '/' {
            seq!['~', '1']
        } else {
            seq![k.last()]
        }
    }
}

/// Rewriting pairs distributes over a join that does not split a pair.
pub(crate) proof fn lemma_swap_concat(x: Seq<char>, y: Seq<char>, a: char, b: char, c: char)
    requires
        x.len() == 0 || x.last() != a,
    ensures
        swap_pair(x + y, a, b, c) == swap_pair(x, a, b, c) + swap_pair(
            y,
            a,
            b,
            c,
        ),
    decreases x.len(),
{
    if x.len() == 0 {
        assert(x + y =~= y);
        assert(seq![] + swap_pair(y, a, b, c) =~= swap_pair(y, a, b, c));
    } else if x.len() >= 2 && x[0] == a && x[1] == b {
        assert((x + y).skip(2) =~= x.skip(2) + y);
        lemma_swap_concat(x.skip(2), y, a, b, c);
        assert(seq![c] + (swap_pair(x.skip(2), a, b, c) + swap_pair(y, a, b, c)) =~= (
        seq![c] + swap_pair(x.skip(2), a, b, c)) + swap_pair(y, a, b, c));
    } else {
        assert(x.len() == 1 ==> x[0] != a);
        assert((x + y).skip(1) =~= x.skip(1) + y);
        if x.len() > 1 {
            assert(x.skip(1).last() == x.last());
        }
        lemma_swap_concat(x.skip(1), y, a, b, c);
        assert(seq![x[0]] + (swap_pair(x.skip(1), a, b, c) + swap_pair(y, a, b, c)) =~= (
        seq![x[0]] + swap_pair(x.skip(1), a, b, c)) + swap_pair(y, a, b, c));
    }
}

/// A key with every `/` restored but `~` still written `~0`.
pub open spec fn half_escaped(k: Seq<char>) -> Seq<char>
    decreases k.len(),
{
    if k.len() == 0 {
        seq![]
    } else {
        half_escaped(k.drop_last()) + if k.last() == '~' {
            seq!['~', '0']
        } else {
            seq![k.last()]
        }
    }
}

pub(crate) proof fn lemma_unescape_first(k: Seq<char>)
    ensures
        swap_pair(escape(k), '~', '1', '/') == half_escaped(k),
        escape(k).len() == 0 || escape(k).last() != '~',
        half_escaped(k).len() == 0 || half_escaped(k).last() != '~',
        forall|i: int| 0 <= i < escape(k).len() ==> #[trigger] escape(k)[i] != '/',
    decreases k.len(),
{
    reveal_with_fuel(swap_pair, 3);
    if k.len() > 0 {
        let k0 = k.drop_last();
        lemma_unescape_first(k0);
        let e0 = escape(k0);
        let t = if k.last() == '~' {
            seq!['~', '0']
        } else if k.last() == '/' {
            seq!['~', '1']
        } else {
            seq![k.last()]
        };
        assert(escape(k) == e0 + t);
        lemma_swap_concat(e0, t, '~', '1', '/');
        if k.last() == '~' {
            assert(t.skip(1) =~= seq!['0']);
            assert(seq!['0'].skip(1) =~= Seq::<char>::empty());
            assert(swap_pair(t, '~', '1', '/') =~= seq!['~', '0']);
        } else if k.last() == '/' {
            assert(t.skip(2) =~= Seq::<char>::empty());
            assert(swap_pair(t, '~', '1', '/') =~= seq!['/']);
        } else {
            assert(t.skip(1) =~= Seq::<char>::empty());
            assert(swap_pair(t, '~', '1', '/') =~= t);
        }
        let e = escape(k);
        assert forall|i: int| 0 <= i < e.len() implies #[trigger] e[i] != '/' by {
            if i < e0.len() {
                assert(e[i] == e0[i]);
            } else {
                assert(e[i] == t[i - e0.len()]);
            }
        }
    }
}

pub(crate) proof fn lemma_unescape_second(k: Seq<char>)
    ensures
        swap_pair(half_escaped(k), '~', '0', '~') == k,
    decreases k.len(),
{
    reveal_with_fuel(swap_pair, 3);
    if k.len() > 0 {
        let k0 = k.drop_last();
        lemma_unescape_second(k0);
        lemma_unescape_first(k0);
        let h0 = half_escaped(k0);
        let t = if k.last() == '~' {
            seq!['~', '0']
        } else {
            seq![k.last()]
        };
        assert(half_escaped(k) == h0 + t);
        lemma_swap_concat(h0, t, '~', '0', '~');
        if k.last() == '~' {
            assert(t.skip(2) =~= Seq::<char>::empty());
            assert(swap_pair(t, '~', '0', '~') =~= seq!['~']);
        } else {
            assert(t.skip(1) =~= Seq::<char>::empty());
            assert(swap_pair(t, '~', '0', '~') =~= t);
        }
        assert(k0.push(k.last()) =~= k);
    } else {
        assert(k =~= Seq::<char>::empty());
    }
}

/// Unescaping an escaped key gives the key back.
pub proof fn lemma_unescape_escape(k: Seq<char>)
    ensures
        unescape(escape(k)) == k,
{
    lemma_unescape_first(k);
    lemma_unescape_second(k);
}


/// An array index token: digits, no leading zero but `0` itself, fitting a
/// machine index.
pub open spec fn index_token(t: Seq<char>) -> Option<nat> {
    if t.len() == 0 || !all_digits(t) || (t[0] == '0' && t.len() != 1) || digits_value(t) > usize::MAX {
        None
    } else {
        Some(digits_value(t))
    }
}

/// The node a list of tokens leads to from `doc`.
pub open spec fn walk(doc: JsonV, tokens: Seq<Seq<char>>) -> Option<JsonV>
    decreases tokens.len(),
{
    if tokens.len() == 0 {
        Some(doc)
    } else {
        let t = unescape(tokens[0]);
        let next = match doc {
            JsonV::Object(ms) => crate::json::lookup(ms, t),
            JsonV::Array(items) => match index_token(t) {
                Some(i) => if i < items.len() {
                    Some(items[i as int])
                } else {
                    None
                },
                None => None,
            },
            _ => None,
        };
        match next {
            Some(n) => walk(n, tokens.drop_first()),
            None => None,
        }
    }
}

/// The node a JSON pointer addresses: the whole document for `""`, nothing
/// for a pointer that does not start with `/`.
pub open spec fn at_pointer(doc: JsonV, pointer: Seq<char>) -> Option<JsonV> {
    if pointer.len() == 0 {
        Some(doc)
    } else if pointer[0] != '/' {
        None
    } else {
        walk(doc, pieces(pointer, '/').drop_first())
    }
}

/// Whether a value can open: a non-empty object or array.
pub open spec fn branches(v: JsonV) -> bool {
    match v {
        JsonV::Object(ms) => ms.len() > 0,
        JsonV::Array(a) => a.len() > 0,
        _ => false,
    }
}

/// A number as text: integers in decimal, other numbers with their
/// millionths trimmed of trailing zeros.
pub open spec fn number_text(n: Number) -> Seq<char> {
    match n {
        Number::PosInt(v) => decimal(v as nat),
        Number::NegInt(v) => if v < 0 {
            seq!['-'] + decimal((-(v as int)) as nat)
        } else {
            decimal(v as nat)
        },
        Number::Float(m) => if m < 0 {
            seq!['-'] + fraction_text((-(m as int)) as nat)
        } else {
            fraction_text(m as nat)
        },
    }
}

/// Millionths as a decimal fraction, at least one digit after the point.
pub open spec fn fraction_text(m: nat) -> Seq<char> {
    decimal(m / 1_000_000) + seq!['.'] + strip_zeros(six_digits(m % 1_000_000))
}

/// `f < 10^6` as exactly six digits.
pub open spec fn six_digits(f: nat) -> Seq<char> {
    seq![
        crate::text::digit((f / 100_000) % 10),
        crate::text::digit((f / 10_000) % 10),
        crate::text::digit((f / 1_000) % 10),
        crate::text::digit((f / 100) % 10),
        crate::text::digit((f / 10) % 10),
        crate::text::digit(f % 10),
    ]
}

/// Trailing zeros dropped, one digit kept.
pub open spec fn strip_zeros(s: Seq<char>) -> Seq<char>
    decreases s.len(),
{
    if s.len() > 1 && s.last() == '0' {
        strip_zeros(s.drop_last())
    } else {
        s
    }
}


/// The dimmed glimpse of a value after its label: scalars show themselves
/// (a string quoted, cut at forty characters), containers their size.
pub open spec fn preview_text(v: JsonV) -> Seq<char> {
    match v {
        JsonV::Null => "null"@,
        JsonV::Bool(b) => if b {
            "true"@
        } else {
            "false"@
        },
        JsonV::Num(n) => number_text(n),
        JsonV::Str(t) => seq!['\u{201c}'] + (if t.len() > 40 {
            t.subrange(0, 40) + seq!['\u{2026}']
        } else {
            t
        }) + seq!['\u{201d}'],
        JsonV::Array(a) => seq!['['] + decimal(a.len()) + seq![']'],
        JsonV::Object(m) => seq!['{'] + decimal(m.len()) + seq!['}'],
    }
}

/// The rows under the node `pointer` addresses: an object's members in key
/// order, an array's items by index; nothing under anything else.
pub open spec fn children_of(doc: JsonV, pointer: Seq<char>) -> Seq<RowV> {
    match at_pointer(doc, pointer) {
        Some(JsonV::Object(ms)) => Seq::new(
            ms.len(),
            |i: int|
                RowV {
                    pointer: pointer + seq!['/'] + escape(ms[i].0),
                    label: ms[i].0,
                    preview: preview_text(ms[i].1),
                    has_children: branches(ms[i].1),
                },
        ),
        Some(JsonV::Array(items)) => Seq::new(
            items.len(),
            |i: int|
                RowV {
                    pointer: pointer + seq!['/'] + decimal(i as nat),
                    label: seq!['['] + decimal(i as nat) + seq![']'],
                    preview: preview_text(items[i]),
                    has_children: branches(items[i]),
                },
        ),
        _ => seq![],
    }
}

pub(crate) fn swap_pair_exec(s: &Vec<char>, a: char, b: char, c: char) -> (r: Vec<char>)
    ensures
        r@ == swap_pair(s@, a, b, c),
{
    let mut out: Vec<char> = Vec::new();
    let n = s.len();
    let mut i: usize = 0;
    assert(s@.skip(0) =~= s@);
    while i < n
        invariant
            i <= n,
            n == s@.len(),
            out@ + swap_pair(s@.skip(i as int), a, b, c) == swap_pair(s@, a, b, c),
        decreases n - i,
    {
        let ghost rest = s@.skip(i as int);
        if n - i >= 2 && s[i] == a && s[i + 1] == b {
            assert(rest.skip(2) =~= s@.skip(i + 2));
            out.push(c);
            assert(out@ + swap_pair(s@.skip(i + 2), a, b, c) =~= swap_pair(s@, a, b, c));
            i += 2;
        } else {
            assert(rest.skip(1) =~= s@.skip(i + 1));
            out.push(s[i]);
            assert(out@ + swap_pair(s@.skip(i + 1), a, b, c) =~= swap_pair(s@, a, b, c));
            i += 1;
        }
    }
    assert(s@.skip(n as int).len() == 0);
    assert(out@ =~= swap_pair(s@, a, b, c));
    out
}

/// A key as a pointer token.
pub fn escape_pointer(key: &str) -> (r: String)
    ensures
        r@ == escape(key@),
{
    let mut out = String::new();
    let n = key.unicode_len();
    let mut i: usize = 0;
    assert(key@.subrange(0, 0) =~= Seq::<char>::empty());
    while i < n
        invariant
            i <= n,
            n == key@.len(),
            out@ == escape(key@.subrange(0, i as int)),
        decreases n - i,
    {
        let c = key.get_char(i);
        assert(key@.subrange(0, i + 1).drop_last() =~= key@.subrange(0, i as int));
        let ghost before = out@;
        if c == '~' {
            push_char(&mut out, '~');
            push_char(&mut out, '0');
        } else if c == '/' {
            push_char(&mut out, '~');
            push_char(&mut out, '1');
        } else {
            push_char(&mut out, c);
        }
        assert(out@ =~= escape(key@.subrange(0, i + 1)));
        i += 1;
    }
    assert(key@.subrange(0, n as int) =~= key@);
    out
}

fn index_token_exec(t: &Vec<char>) -> (r: Option<usize>)
    ensures
        match r {
            Some(i) => index_token(t@) == Some(i as nat),
            None => index_token(t@) is None,
        },
{
    let n = t.len();
    if n == 0 || (t[0] == '0' && n != 1) {
        return None;
    }
    let mut v: usize = 0;
    let mut i: usize = 0;
    assert(t@.subrange(0, 0) =~= Seq::<char>::empty());
    while i < n
        invariant
            i <= n,
            n == t@.len(),
            n > 0,
            !(t@[0] == '0' && n != 1),
            forall|j: int| 0 <= j < i ==> crate::cron::is_digit(#[trigger] t@[j]),
            v == digits_value(t@.subrange(0, i as int)),
        decreases n - i,
    {
        let c = t[i];
        if !('0' <= c && c <= '9') {
            assert(!crate::cron::is_digit(t@[i as int]));
            return None;
        }
        assert(t@.subrange(0, i + 1).drop_last() =~= t@.subrange(0, i as int));
        let d = ((c as u32) - ('0' as u32)) as usize;
        if v > (usize::MAX - d) / 10 {
            proof {
                if all_digits(t@) {
                    lemma_digit_prefix(t@, i + 1);
                }
            }
            return None;
        }
        v = v * 10 + d;
        i += 1;
    }
    assert(t@.subrange(0, n as int) =~= t@);
    Some(v)
}

proof fn lemma_digit_prefix(d: Seq<char>, k: int)
    requires
        0 <= k <= d.len(),
        all_digits(d),
    ensures
        digits_value(d.subrange(0, k)) <= digits_value(d),
    decreases d.len() - k,
{
    if k < d.len() {
        lemma_digit_prefix(d, k + 1);
        assert(d.subrange(0, k + 1).drop_last() =~= d.subrange(0, k));
        assert(crate::cron::is_digit(d[k]));
    } else {
        assert(d.subrange(0, k) =~= d);
    }
}

/// The node a JSON pointer addresses.
#[verifier::loop_isolation(false)]
pub fn resolve<'a>(doc: &'a Json, pointer: &str) -> (r: Option<&'a Json>)
    ensures
        match r {
            Some(n) => at_pointer(doc@, pointer@) == Some(n@),
            None => at_pointer(doc@, pointer@) is None,
        },
{
    let pc = crate::text::chars_of(pointer);
    if pc.len() == 0 {
        return Some(doc);
    }
    if pc[0] != '/' {
        return None;
    }
    let parts = split_pieces(&pc, '/');
    let ghost tokens = vviews(parts@).drop_first();
    proof {
        crate::cron::lemma_pieces_len(pc@, '/');
    }
    let mut cur: &Json = doc;
    let mut i: usize = 1;
    assert(vviews(parts@).skip(1) =~= tokens);
    while i < parts.len()
        invariant
            1 <= i <= parts@.len(),
            tokens == vviews(parts@).drop_first(),
            walk(doc@, tokens) == walk(cur@, vviews(parts@).skip(i as int)),
        decreases parts.len() - i,
    {
        let ghost rest = vviews(parts@).skip(i as int);
        assert(rest[0] == parts@[i as int]@);
        assert(rest.drop_first() =~= vviews(parts@).skip(i + 1));
        let t1 = swap_pair_exec(&parts[i], '~', '1', '/');
        let t = swap_pair_exec(&t1, '~', '0', '~');
        let ts = crate::text::string_of(t.as_slice());
        let next: Option<&Json> = match cur {
            Json::Object(_) => cur.get(ts.as_str()),
            Json::Array(items) => match index_token_exec(&t) {
                Some(k) => if k < items.len() {
                    proof {
                        lemma_jsons_of(items@);
                    }
                    Some(&items[k])
                } else {
                    proof {
                        lemma_jsons_of(items@);
                    }
                    None
                },
                None => None,
            },
            _ => None,
        };
        match next {
            Some(n) => {
                cur = n;
            },
            None => {
                return None;
            },
        }
        i += 1;
    }
    assert(vviews(parts@).skip(i as int).len() == 0);
    Some(cur)
}


fn digit_of(d: u64) -> (c: char)
    requires
        d < 10,
    ensures
        c == crate::text::digit(d as nat),
{
    if d == 0 { '0' } else if d == 1 { '1' } else if d == 2 { '2' } else if d == 3 { '3' }
    else if d == 4 { '4' } else if d == 5 { '5' } else if d == 6 { '6' } else if d == 7 { '7' }
    else if d == 8 { '8' } else { '9' }
}

fn push_fraction(out: &mut String, m: u64)
    ensures
        final(out)@ == old(out)@ + fraction_text(m as nat),
{
    push_decimal(out, m / 1_000_000);
    push_char(out, '.');
    let f = m % 1_000_000;
    let mut ds: Vec<char> = Vec::new();
    ds.push(digit_of((f / 100_000) % 10));
    ds.push(digit_of((f / 10_000) % 10));
    ds.push(digit_of((f / 1_000) % 10));
    ds.push(digit_of((f / 100) % 10));
    ds.push(digit_of((f / 10) % 10));
    ds.push(digit_of(f % 10));
    assert(ds@ =~= six_digits(f as nat));
    let mut k: usize = 6;
    assert(ds@.subrange(0, 6) =~= ds@);
    while k > 1 && ds[k - 1] == '0'
        invariant
            1 <= k <= 6,
            ds@.len() == 6,
            strip_zeros(ds@) == strip_zeros(ds@.subrange(0, k as int)),
        decreases k,
    {
        assert(ds@.subrange(0, k as int).drop_last() =~= ds@.subrange(0, k - 1));
        k -= 1;
    }
    let mut j: usize = 0;
    let ghost base = out@;
    while j < k
        invariant
            j <= k <= 6,
            ds@.len() == 6,
            out@ == base + ds@.subrange(0, j as int),
        decreases k - j,
    {
        push_char(out, ds[j]);
        assert(ds@.subrange(0, j + 1) =~= ds@.subrange(0, j as int).push(ds@[j as int]));
        j += 1;
    }
}

pub(crate) fn number_string(n: &Number) -> (r: String)
    ensures
        r@ == number_text(*n),
{
    let mut out = String::new();
    match n {
        Number::PosInt(v) => push_decimal(&mut out, *v),
        Number::NegInt(v) => {
            if *v < 0 {
                push_char(&mut out, '-');
                let w: i128 = 0i128 - (*v as i128);
                assert(0 < w <= 0x8000_0000_0000_0000);
                push_decimal(&mut out, w as u64);
            } else {
                push_decimal(&mut out, *v as u64);
            }
        },
        Number::Float(m) => {
            if *m < 0 {
                push_char(&mut out, '-');
                let w: i128 = 0i128 - (*m as i128);
                assert(0 < w <= 0x8000_0000_0000_0000);
                push_fraction(&mut out, w as u64);
            } else {
                push_fraction(&mut out, *m as u64);
            }
        },
    }
    out
}

/// The glimpse of a value after its label.
pub fn preview(v: &Json) -> (r: String)
    ensures
        r@ == preview_text(v@),
{
    match v {
        Json::Null => "null".to_owned(),
        Json::Bool(b) => if *b {
            "true".to_owned()
        } else {
            "false".to_owned()
        },
        Json::Num(n) => number_string(n),
        Json::Str(t) => {
            let cs = crate::text::chars_of(t.as_str());
            let mut out = String::new();
            push_char(&mut out, '\u{201c}');
            let ghost base = out@;
            let k: usize = if cs.len() > 40 {
                40
            } else {
                cs.len()
            };
            let mut i: usize = 0;
            while i < k
                invariant
                    i <= k <= cs@.len(),
                    out@ == base + cs@.subrange(0, i as int),
                decreases k - i,
            {
                push_char(&mut out, cs[i]);
                assert(cs@.subrange(0, i + 1) =~= cs@.subrange(0, i as int).push(cs@[i as int]));
                i += 1;
            }
            if cs.len() > 40 {
                push_char(&mut out, '\u{2026}');
            }
            push_char(&mut out, '\u{201d}');
            proof {
                if cs@.len() <= 40 {
                    assert(cs@.subrange(0, cs@.len() as int) =~= cs@);
                }
            }
            out
        },
        Json::Array(a) => {
            let mut out = String::new();
            push_char(&mut out, '[');
            push_decimal(&mut out, a.len() as u64);
            push_char(&mut out, ']');
            proof {
                lemma_jsons_of(a@);
            }
            out
        },
        Json::Object(m) => {
            let mut out = String::new();
            push_char(&mut out, '{');
            push_decimal(&mut out, m.len() as u64);
            push_char(&mut out, '}');
            proof {
                lemma_members_of(m@);
            }
            out
        },
    }
}

fn branches_exec(v: &Json) -> (r: bool)
    ensures
        r == branches(v@),
{
    match v {
        Json::Object(m) => {
            proof {
                lemma_members_of(m@);
            }
            m.len() > 0
        },
        Json::Array(a) => {
            proof {
                lemma_jsons_of(a@);
            }
            a.len() > 0
        },
        _ => false,
    }
}

/// Children of a node inside a document: the traversal every document-backed
/// tree shares. Rows carry pointers extended the same way, so a host that
/// mounts several documents under prefixes re-prefixes the result.
#[verifier::loop_isolation(false)]
pub fn value_children(doc: &Json, pointer: &str) -> (r: Vec<TreeRow>)
    ensures
        rows_view(r@) == children_of(doc@, pointer@),
{
    let mut out: Vec<TreeRow> = Vec::new();
    let node = match resolve(doc, pointer) {
        Some(n) => n,
        None => {
            assert(rows_view(out@) =~= children_of(doc@, pointer@));
            return out;
        },
    };
    let mut base = pointer.to_owned();
    push_char(&mut base, '/');
    match node {
        Json::Object(ms) => {
            proof {
                lemma_members_of(ms@);
            }
            let ghost want = children_of(doc@, pointer@);
            assert(at_pointer(doc@, pointer@) == Some(JsonV::Object(members_of(ms@))));
            assert(want.len() == ms@.len());
            let mut i: usize = 0;
            while i < ms.len()
                invariant
                    i <= ms@.len(),
                    want == children_of(doc@, pointer@),
                    base@ == pointer@ + seq!['/'],
                    rows_view(out@).len() == i,
                    forall|j: int| 0 <= j < i ==> #[trigger] rows_view(out@)[j] == children_of(doc@, pointer@)[j],
                decreases ms.len() - i,
            {
                let mut p = base.clone();
                let e = escape_pointer(ms[i].key.as_str());
                push_str(&mut p, e.as_str());
                let row = TreeRow {
                    pointer: p,
                    label: ms[i].key.clone(),
                    preview: preview(&ms[i].value),
                    has_children: branches_exec(&ms[i].value),
                };
                assert(members_of(ms@)[i as int] == (ms@[i as int].key@, json_of(ms@[i as int].value)));
                assert(row@ == want[i as int]);
                let ghost before = rows_view(out@);
                out.push(row);
                assert(rows_view(out@) =~= before.push(row@));
                i += 1;
            }
            assert(rows_view(out@) =~= children_of(doc@, pointer@));
        },
        Json::Array(items) => {
            proof {
                lemma_jsons_of(items@);
            }
            let ghost want = children_of(doc@, pointer@);
            assert(at_pointer(doc@, pointer@) == Some(JsonV::Array(jsons_of(items@))));
            assert(want.len() == items@.len());
            let mut i: usize = 0;
            while i < items.len()
                invariant
                    i <= items@.len(),
                    want == children_of(doc@, pointer@),
                    base@ == pointer@ + seq!['/'],
                    rows_view(out@).len() == i,
                    forall|j: int| 0 <= j < i ==> #[trigger] rows_view(out@)[j] == children_of(doc@, pointer@)[j],
                decreases items.len() - i,
            {
                let mut p = base.clone();
                push_decimal(&mut p, i as u64);
                let mut label = String::new();
                push_char(&mut label, '[');
                push_decimal(&mut label, i as u64);
                push_char(&mut label, ']');
                let row = TreeRow {
                    pointer: p,
                    label,
                    preview: preview(&items[i]),
                    has_children: branches_exec(&items[i]),
                };
                assert(jsons_of(items@)[i as int] == json_of(items@[i as int]));
                assert(row@.pointer =~= want[i as int].pointer);
                assert(row@.label =~= want[i as int].label);
                assert(row@.preview == want[i as int].preview);
                assert(row@.has_children == want[i as int].has_children);
                assert(row@ == want[i as int]);
                let ghost before = rows_view(out@);
                out.push(row);
                assert(rows_view(out@) =~= before.push(row@));
                i += 1;
            }
            assert(rows_view(out@) =~= children_of(doc@, pointer@));
        },
        _ => {
            assert(rows_view(out@) =~= children_of(doc@, pointer@));
        },
    }
    out
}

// --- the data editor's mounts -------------------------------------------------

/// The documents the data editor mounts, each under its name: the workspace
/// tree, the settings, the chord overrides, the favourites, and the host's
/// snapshot.
pub struct DataMounts {
    pub layout: Json,
    pub settings: Json,
    pub keymap: Json,
    pub favorites: Json,
    pub state: Json,
}

/// One mount as a row of the root listing.
pub open spec fn mount_row(name: Seq<char>, preview: Seq<char>) -> RowV {
    RowV { pointer: seq!['/'] + name, label: seq!['/'] + name, preview, has_children: true }
}

/// The root listing: the mounts, in a fixed order.
pub open spec fn mount_rows() -> Seq<RowV> {
    seq![
        mount_row("layout"@, "the workspace tree"@),
        mount_row("settings"@, "the settings document"@),
        mount_row("keymap"@, "chord overrides"@),
        mount_row("favorites"@, "the Q menu"@),
        mount_row("state"@, "host snapshot (read-only)"@),
    ]
}

/// The first `/` at or after `i`, or the end.
pub open spec fn slash_from(p: Seq<char>, i: int) -> int
    decreases p.len() - i,
{
    if i >= p.len() {
        p.len() as int
    } else if p[i] == '/' {
        i
    } else {
        slash_from(p, i + 1)
    }
}

/// The document a mount name stands for.
pub open spec fn mount_doc(m: DataMounts, mount: Seq<char>) -> Option<JsonV> {
    if mount == "/layout"@ {
        Some(m.layout@)
    } else if mount == "/settings"@ {
        Some(m.settings@)
    } else if mount == "/keymap"@ {
        Some(m.keymap@)
    } else if mount == "/favorites"@ {
        Some(m.favorites@)
    } else if mount == "/state"@ {
        Some(m.state@)
    } else {
        None
    }
}

/// Rows with the mount written in front of their pointers.
pub open spec fn under_mount(mount: Seq<char>, rows: Seq<RowV>) -> Seq<RowV> {
    Seq::new(
        rows.len(),
        |i: int|
            RowV {
                pointer: mount + rows[i].pointer,
                label: rows[i].label,
                preview: rows[i].preview,
                has_children: rows[i].has_children,
            },
    )
}

/// The data editor's rows under a pointer: the mounts at the root; below,
/// the pointer starts with the mount's name and the rest addresses within
/// that document. Nothing under a name that is not mounted.
pub open spec fn data_children_v(m: DataMounts, pointer: Seq<char>) -> Seq<RowV> {
    if pointer.len() == 0 {
        mount_rows()
    } else {
        let e = slash_from(pointer, 1);
        match mount_doc(m, pointer.subrange(0, e)) {
            Some(d) => under_mount(pointer.subrange(0, e), children_of(d, pointer.skip(e))),
            None => seq![],
        }
    }
}

fn mount_row_of(name: &str, preview: &str) -> (r: TreeRow)
    ensures
        r@ == mount_row(name@, preview@),
{
    let mut p = String::new();
    push_char(&mut p, '/');
    push_str(&mut p, name);
    TreeRow { pointer: p.clone(), label: p, preview: preview.to_owned(), has_children: true }
}

/// Children under the mounted root (`data_children_v`). The pointer starts
/// with a one-byte character, as every pointer the editor hands back does.
pub fn data_children(m: &DataMounts, pointer: &str) -> (r: Vec<TreeRow>)
    requires
        pointer@.len() == 0 || (pointer@[0] as u32) < 0x80,
    ensures
        rows_view(r@) == data_children_v(*m, pointer@),
{
    let cs = crate::text::chars_of(pointer);
    if cs.len() == 0 {
        let mut out: Vec<TreeRow> = Vec::new();
        out.push(mount_row_of("layout", "the workspace tree"));
        out.push(mount_row_of("settings", "the settings document"));
        out.push(mount_row_of("keymap", "chord overrides"));
        out.push(mount_row_of("favorites", "the Q menu"));
        out.push(mount_row_of("state", "host snapshot (read-only)"));
        assert(rows_view(out@) =~= mount_rows());
        return out;
    }
    let mut e: usize = 1;
    while e < cs.len() && cs[e] != '/'
        invariant
            1 <= e <= cs@.len(),
            cs@ == pointer@,
            slash_from(cs@, 1) == slash_from(cs@, e as int),
        decreases cs.len() - e,
    {
        e += 1;
    }
    let mount = string_of(crate::text::slice_of(&cs, 0, e).as_slice());
    let inner = string_of(crate::text::slice_of(&cs, e, cs.len()).as_slice());
    assert(inner@ =~= pointer@.skip(e as int));
    let doc: Option<&Json> = if crate::text::str_eq(mount.as_str(), "/layout") {
        Some(&m.layout)
    } else if crate::text::str_eq(mount.as_str(), "/settings") {
        Some(&m.settings)
    } else if crate::text::str_eq(mount.as_str(), "/keymap") {
        Some(&m.keymap)
    } else if crate::text::str_eq(mount.as_str(), "/favorites") {
        Some(&m.favorites)
    } else if crate::text::str_eq(mount.as_str(), "/state") {
        Some(&m.state)
    } else {
        None
    };
    match doc {
        None => Vec::new(),
        Some(d) => {
            let rows = value_children(d, inner.as_str());
            let ghost want = under_mount(mount@, rows_view(rows@));
            let mut out: Vec<TreeRow> = Vec::new();
            let mut i: usize = 0;
            while i < rows.len()
                invariant
                    i <= rows@.len(),
                    want == under_mount(mount@, rows_view(rows@)),
                    out@.len() == i,
                    forall|k: int| 0 <= k < i ==> (#[trigger] out@[k])@ == want[k],
                decreases rows.len() - i,
            {
                let r = &rows[i];
                let row = TreeRow {
                    pointer: crate::text::concat(mount.as_str(), r.pointer.as_str()),
                    label: r.label.clone(),
                    preview: r.preview.clone(),
                    has_children: r.has_children,
                };
                out.push(row);
                i += 1;
            }
            assert(rows_view(out@) =~= want);
            out
        },
    }
}

// --- a value as JSON text -------------------------------------------------------

/// A digit of lowercase hexadecimal.
pub open spec fn hex_digit(d: nat) -> char {
    if d < 10 {
        ((d + 48) as u32) as char
    } else {
        ((d + 87) as u32) as char
    }
}

/// How serde_json writes one character inside a string: `"` and `\` behind
/// a backslash; backspace, tab, line feed, form feed and carriage return as
/// `\b \t \n \f \r`; every other character below U+0020 as `\u00` and
/// two lowercase hex digits; anything else as itself.
pub open spec fn json_escape(c: char) -> Seq<char> {
    if c == '"' {
        seq!['\\', '"']
    } else if c == '\\' {
        seq!['\\', '\\']
    } else if c == '\u{8}' {
        seq!['\\', 'b']
    } else if c == '\t' {
        seq!['\\', 't']
    } else if c == '\n' {
        seq!['\\', 'n']
    } else if c == '\u{c}' {
        seq!['\\', 'f']
    } else if c == '\r' {
        seq!['\\', 'r']
    } else if (c as u32) < 0x20 {
        seq!['\\', 'u', '0', '0', hex_digit((c as u32) as nat / 16), hex_digit((c as u32) as nat % 16)]
    } else {
        seq![c]
    }
}

/// Every character of `s`, escaped.
pub open spec fn json_escaped(s: Seq<char>) -> Seq<char>
    decreases s.len(),
{
    if s.len() == 0 {
        seq![]
    } else {
        json_escaped(s.drop_last()) + json_escape(s.last())
    }
}

/// What serde_json writes for a string value: the text in double quotes,
/// each character escaped as JSON asks.
pub open spec fn json_quoted(s: Seq<char>) -> Seq<char> {
    seq!['"'] + json_escaped(s) + seq!['"']
}

/// serde_json's `Display` for a string `Value` (`Value::to_string`), which
/// writes the string through its escaper: claimed to be `json_quoted` of the
/// text.
#[verifier::external_body]
fn quote_json(s: &str) -> (r: String)
    ensures
        r@ == json_quoted(s@),
{
    serde_json::Value::String(s.to_owned()).to_string()
}

/// A value as compact JSON text: no space anywhere, members in the order
/// held, numbers as `number_text` writes them.
pub open spec fn json_text(v: JsonV) -> Seq<char>
    decreases v,
{
    match v {
        JsonV::Null => "null"@,
        JsonV::Bool(b) => if b {
            "true"@
        } else {
            "false"@
        },
        JsonV::Num(n) => number_text(n),
        JsonV::Str(s) => json_quoted(s),
        JsonV::Array(items) => {
            proof {
                assert(decreases_to!(v => items));
            }
            seq!['['] + items_text(items) + seq![']']
        },
        JsonV::Object(ms) => {
            proof {
                assert(decreases_to!(v => ms));
            }
            seq!['{'] + members_text(ms) + seq!['}']
        },
    }
}

/// Items as JSON, separated by commas.
pub open spec fn items_text(items: Seq<JsonV>) -> Seq<char>
    decreases items,
{
    if items.len() == 0 {
        seq![]
    } else {
        proof {
            assert(items.drop_last() =~= items.subrange(0, items.len() - 1));
            assert(decreases_to!(items => items.drop_last()));
            assert(decreases_to!(items => items[items.len() - 1]));
        }
        if items.len() == 1 {
            json_text(items[0])
        } else {
            items_text(items.drop_last()) + seq![','] + json_text(items[items.len() - 1])
        }
    }
}

/// Members as JSON, `"key":value`, separated by commas.
pub open spec fn members_text(ms: Seq<(Seq<char>, JsonV)>) -> Seq<char>
    decreases ms,
{
    if ms.len() == 0 {
        seq![]
    } else {
        proof {
            assert(ms.drop_last() =~= ms.subrange(0, ms.len() - 1));
            assert(decreases_to!(ms => ms.drop_last()));
            assert(decreases_to!(ms => ms[ms.len() - 1]));
            assert(decreases_to!(ms[ms.len() - 1] => ms[ms.len() - 1].1));
        }
        let m = json_quoted(ms[ms.len() - 1].0) + seq![':'] + json_text(ms[ms.len() - 1].1);
        if ms.len() == 1 {
            m
        } else {
            members_text(ms.drop_last()) + seq![','] + m
        }
    }
}

/// Appends a value as compact JSON (`json_text`).
#[verifier::loop_isolation(false)]
pub fn push_json(out: &mut String, v: &Json)
    ensures
        final(out)@ == old(out)@ + json_text(v@),
    decreases v,
{
    match v {
        Json::Null => push_str(out, "null"),
        Json::Bool(b) => if *b {
            push_str(out, "true")
        } else {
            push_str(out, "false")
        },
        Json::Num(n) => {
            let t = number_string(n);
            push_str(out, t.as_str());
        },
        Json::Str(s) => {
            let q = quote_json(s.as_str());
            push_str(out, q.as_str());
        },
        Json::Array(items) => {
            let ghost start = out@;
            let ghost iv = jsons_of(items@);
            proof {
                lemma_jsons_of(items@);
            }
            push_char(out, '[');
            let mut i: usize = 0;
            assert(iv.subrange(0, 0) =~= Seq::<JsonV>::empty());
            while i < items.len()
                invariant
                    i <= items@.len(),
                    iv == jsons_of(items@),
                    iv.len() == items@.len(),
                    forall|j: int| 0 <= j < items@.len() ==> #[trigger] iv[j] == items@[j]@,
                    out@ == start + seq!['['] + items_text(iv.subrange(0, i as int)),
                decreases items.len() - i,
            {
                let ghost pre = iv.subrange(0, i + 1);
                assert(pre.drop_last() =~= iv.subrange(0, i as int));
                assert(pre[pre.len() - 1] == iv[i as int]);
                if i > 0 {
                    push_char(out, ',');
                }
                assert(decreases_to!(*v => *items));
                assert(decreases_to!(*items => items@));
                assert(decreases_to!(items@ => items@[i as int]));
                push_json(out, &items[i]);
                proof {
                    if i == 0 {
                        assert(pre =~= seq![iv[0]]);
                    }
                }
                i += 1;
            }
            assert(iv.subrange(0, items@.len() as int) =~= iv);
            push_char(out, ']');
        },
        Json::Object(ms) => {
            let ghost start = out@;
            let ghost mv = members_of(ms@);
            proof {
                lemma_members_of(ms@);
            }
            push_char(out, '{');
            let mut i: usize = 0;
            assert(mv.subrange(0, 0) =~= Seq::<(Seq<char>, JsonV)>::empty());
            while i < ms.len()
                invariant
                    i <= ms@.len(),
                    mv == members_of(ms@),
                    mv.len() == ms@.len(),
                    forall|j: int| 0 <= j < ms@.len() ==> #[trigger] mv[j] == (ms@[j].key@, json_of(ms@[j].value)),
                    out@ == start + seq!['{'] + members_text(mv.subrange(0, i as int)),
                decreases ms.len() - i,
            {
                let ghost pre = mv.subrange(0, i + 1);
                assert(pre.drop_last() =~= mv.subrange(0, i as int));
                assert(pre[pre.len() - 1] == mv[i as int]);
                if i > 0 {
                    push_char(out, ',');
                }
                let q = quote_json(ms[i].key.as_str());
                push_str(out, q.as_str());
                push_char(out, ':');
                assert(decreases_to!(*v => *ms));
                assert(decreases_to!(*ms => ms@));
                assert(decreases_to!(ms@ => ms@[i as int]));
                assert(decreases_to!(ms@[i as int] => ms@[i as int].value));
                push_json(out, &ms[i].value);
                i += 1;
            }
            assert(mv.subrange(0, ms@.len() as int) =~= mv);
            push_char(out, '}');
        },
    }
}

/// A value as compact JSON text.
pub fn json_string(v: &Json) -> (r: String)
    ensures
        r@ == json_text(v@),
{
    let mut out = String::new();
    push_json(&mut out, v);
    out
}

} // verus!
