//! A five-field cron parser and matcher.
//!
//! Supports what crontab supports and nothing else: `*`, `n`, `a-b`,
//! `a,b,c`, and `*/n` or `a-b/n`. No `@daily`, no month names, no seconds
//! field. A bad expression is an error when it is parsed rather than a
//! schedule that silently never fires.
//!
//! Times are wall-clock values (`WallTime`): the matcher reads the minute,
//! hour, day, month and weekday, and the search for the next firing steps
//! through civil minutes.

use vstd::prelude::*;

use crate::text::{is_space, push_char, push_decimal, push_str, space, chars_of, decimal};

verus! {

// --- splitting text ----------------------------------------------------------

/// The words of `s` and the word still open at its end, scanning left to
/// right with white space as the separator.
pub open spec fn scan_words(s: Seq<char>) -> (Seq<Seq<char>>, Seq<char>)
    decreases s.len(),
{
    if s.len() == 0 {
        (seq![], seq![])
    } else {
        let (done, open) = scan_words(s.drop_last());
        if is_space(s.last()) {
            if open.len() > 0 {
                (done.push(open), seq![])
            } else {
                (done, seq![])
            }
        } else {
            (done, open.push(s.last()))
        }
    }
}

/// The white-space separated words of `s` (`str::split_whitespace`).
pub open spec fn words(s: Seq<char>) -> Seq<Seq<char>> {
    let (done, open) = scan_words(s);
    if open.len() > 0 {
        done.push(open)
    } else {
        done
    }
}

/// The pieces of `s` between occurrences of `sep` (`str::split`); at least
/// one, possibly empty.
pub open spec fn pieces(s: Seq<char>, sep: char) -> Seq<Seq<char>>
    decreases s.len(),
{
    if s.len() == 0 {
        seq![seq![]]
    } else {
        let r = pieces(s.drop_last(), sep);
        if s.last() == sep {
            r.push(seq![])
        } else {
            r.update(r.len() - 1, r.last().push(s.last()))
        }
    }
}

pub proof fn lemma_pieces_len(s: Seq<char>, sep: char)
    ensures
        pieces(s, sep).len() >= 1,
    decreases s.len(),
{
    if s.len() > 0 {
        lemma_pieces_len(s.drop_last(), sep);
    }
}

/// Where `c` first occurs in `s`, or `-1`.
pub open spec fn index_of(s: Seq<char>, c: char) -> int
    decreases s.len(),
{
    if s.len() == 0 {
        -1
    } else if s[0] == c {
        0
    } else {
        let r = index_of(s.drop_first(), c);
        if r < 0 {
            -1
        } else {
            r + 1
        }
    }
}

/// With no separator in it, text is one piece.
pub(crate) proof fn lemma_pieces_whole(s: Seq<char>, sep: char)
    requires
        forall|i: int| 0 <= i < s.len() ==> s[i] != sep,
    ensures
        pieces(s, sep) == seq![s],
    decreases s.len(),
{
    if s.len() > 0 {
        lemma_pieces_whole(s.drop_last(), sep);
        assert(s[s.len() - 1] != sep);
        assert(s.drop_last().push(s.last()) =~= s);
        assert(seq![s.drop_last()].update(0, s.drop_last().push(s.last())) =~= seq![s]);
    } else {
        assert(s =~= Seq::<char>::empty());
        assert(pieces(s, sep) =~= seq![s]);
    }
}

/// Text with no separator added to the end extends the last piece.
pub(crate) proof fn lemma_pieces_extend(t: Seq<char>, b: Seq<char>, sep: char)
    requires
        forall|i: int| 0 <= i < b.len() ==> b[i] != sep,
    ensures
        pieces(t + b, sep) == pieces(t, sep).drop_last().push(pieces(t, sep).last() + b),
    decreases b.len(),
{
    crate::cron::lemma_pieces_len(t, sep);
    if b.len() == 0 {
        assert(t + b =~= t);
        assert(pieces(t, sep).last() + b =~= pieces(t, sep).last());
        assert(pieces(t, sep).drop_last().push(pieces(t, sep).last()) =~= pieces(t, sep));
    } else {
        let b0 = b.drop_last();
        lemma_pieces_extend(t, b0, sep);
        assert((t + b).drop_last() =~= t + b0);
        assert((t + b).last() == b.last());
        crate::cron::lemma_pieces_len(t + b0, sep);
        let r = pieces(t + b0, sep);
        assert(b[b.len() - 1] != sep);
        assert((t + b).last() != sep);
        assert(b0.push(b.last()) =~= b);
        assert((pieces(t, sep).last() + b0).push(b.last()) =~= pieces(t, sep).last() + b);
        assert(pieces(t + b, sep) == r.update(r.len() - 1, r.last().push(b.last())));
        assert(r.update(r.len() - 1, r.last().push(b.last())) =~= pieces(t, sep).drop_last().push(
            pieces(t, sep).last() + b,
        ));
    }
}

pub proof fn lemma_index_of(s: Seq<char>, c: char)
    ensures
        -1 <= index_of(s, c) < s.len(),
        index_of(s, c) >= 0 ==> s[index_of(s, c)] == c,
        forall|i: int|
            0 <= i < s.len() && (index_of(s, c) < 0 || i < index_of(s, c)) ==> #[trigger] s[i] != c,
    decreases s.len(),
{
    if s.len() > 0 && s[0] != c {
        lemma_index_of(s.drop_first(), c);
        assert forall|i: int|
            0 <= i < s.len() && (index_of(s, c) < 0 || i < index_of(s, c)) implies #[trigger] s[i]
                != c by {
            if i > 0 {
                assert(s[i] == s.drop_first()[i - 1]);
            }
        }
    }
}

/// `s` cut at the first `c` (`str::split_once`).
pub open spec fn split_once(s: Seq<char>, c: char) -> Option<(Seq<char>, Seq<char>)> {
    let i = index_of(s, c);
    if i >= 0 {
        Some((s.subrange(0, i), s.subrange(i + 1, s.len() as int)))
    } else {
        None
    }
}

// --- numbers -----------------------------------------------------------------

pub open spec fn is_digit(c: char) -> bool {
    '0' <= c && c <= '9'
}

/// The value of a string of decimal digits.
pub open spec fn digits_value(d: Seq<char>) -> nat
    decreases d.len(),
{
    if d.len() == 0 {
        0
    } else {
        digits_value(d.drop_last()) * 10 + ((d.last() as u32) - ('0' as u32)) as nat
    }
}

/// `s` without one leading `+`.
pub open spec fn unsigned_part(s: Seq<char>) -> Seq<char> {
    if s.len() > 0 && s[0] == '+' {
        s.drop_first()
    } else {
        s
    }
}

pub open spec fn all_digits(d: Seq<char>) -> bool {
    forall|i: int| 0 <= i < d.len() ==> is_digit(#[trigger] d[i])
}

/// `s` as a `u32` (`str::parse::<u32>`): an optional `+`, then one or more
/// decimal digits, with a value that fits.
pub open spec fn parse_u32(s: Seq<char>) -> Option<u32> {
    let d = unsigned_part(s);
    if d.len() == 0 || !all_digits(d) {
        None
    } else if digits_value(d) > u32::MAX {
        None
    } else {
        Some(digits_value(d) as u32)
    }
}

/// The value of `d[0..k]`, capped so it stays a machine number.
pub fn parse_u32_exec(s: &Vec<char>) -> (r: Option<u32>)
    ensures
        r == parse_u32(s@),
{
    let n = s.len();
    let start: usize = if n > 0 && s[0] == '+' {
        1
    } else {
        0
    };
    let ghost d = unsigned_part(s@);
    assert(d =~= s@.subrange(start as int, n as int));
    if start == n {
        return None;
    }
    let mut v: u64 = 0;
    let mut i: usize = start;
    while i < n
        invariant
            n == s@.len(),
            d == unsigned_part(s@),
            start <= i <= n,
            d =~= s@.subrange(start as int, n as int),
            forall|j: int| start <= j < i ==> is_digit(#[trigger] s@[j]),
            v == digits_value(s@.subrange(start as int, i as int)),
            v <= u32::MAX,
        decreases n - i,
    {
        let c = s[i];
        if !('0' <= c && c <= '9') {
            assert(!is_digit(d[i - start]));
            return None;
        }
        let ghost pre = s@.subrange(start as int, i as int);
        assert(s@.subrange(start as int, i + 1).drop_last() =~= pre);
        let nv = v * 10 + ((c as u32) - ('0' as u32)) as u64;
        if nv > u32::MAX as u64 {
            proof {
                assert(nv == digits_value(s@.subrange(start as int, i + 1)));
                if all_digits(d) {
                    lemma_digits_grow(d, (i + 1 - start) as int);
                    assert(d.subrange(0, (i + 1 - start) as int) =~= s@.subrange(start as int, i + 1));
                }
            }
            return None;
        }
        v = nv;
        i += 1;
    }
    assert(s@.subrange(start as int, n as int) =~= d);
    Some(v as u32)
}

/// A prefix's value never exceeds the whole's.
proof fn lemma_digits_grow(d: Seq<char>, k: int)
    requires
        0 <= k <= d.len(),
        forall|i: int| 0 <= i < d.len() ==> is_digit(#[trigger] d[i]),
    ensures
        digits_value(d.subrange(0, k)) <= digits_value(d),
    decreases d.len() - k,
{
    if k < d.len() {
        lemma_digits_grow(d, k + 1);
        let p = d.subrange(0, k + 1);
        assert(p.drop_last() =~= d.subrange(0, k));
        assert(is_digit(d[k]));
    } else {
        assert(d.subrange(0, k) =~= d);
    }
}


pub open spec fn vviews(v: Seq<Vec<char>>) -> Seq<Seq<char>> {
    Seq::new(v.len(), |i: int| v[i]@)
}

/// The white-space separated words of `s`.
pub fn split_words(s: &Vec<char>) -> (r: Vec<Vec<char>>)
    ensures
        vviews(r@) == words(s@),
{
    let mut done: Vec<Vec<char>> = Vec::new();
    let mut open: Vec<char> = Vec::new();
    let mut i: usize = 0;
    assert(s@.subrange(0, 0) =~= Seq::<char>::empty());
    assert(vviews(done@) =~= Seq::<Seq<char>>::empty());
    while i < s.len()
        invariant
            i <= s@.len(),
            (vviews(done@), open@) == scan_words(s@.subrange(0, i as int)),
        decreases s.len() - i,
    {
        let ghost pre = s@.subrange(0, i as int);
        assert(s@.subrange(0, i + 1).drop_last() =~= pre);
        assert(s@.subrange(0, i + 1).last() == s@[i as int]);
        let c = s[i];
        if space(c) {
            if open.len() > 0 {
                let ghost d0 = done@;
                let w = open;
                done.push(w);
                open = Vec::new();
                assert(vviews(done@) =~= vviews(d0).push(w@));
                assert(open@ =~= Seq::<char>::empty());
            } else {
                open = Vec::new();
                assert(open@ =~= Seq::<char>::empty());
            }
        } else {
            open.push(c);
        }
        i += 1;
    }
    assert(s@.subrange(0, s.len() as int) =~= s@);
    if open.len() > 0 {
        let ghost d0 = done@;
        done.push(open);
        assert(vviews(done@) =~= vviews(d0).push(open@));
    }
    done
}

/// The pieces of `s` between occurrences of `sep`.
pub fn split_pieces(s: &Vec<char>, sep: char) -> (r: Vec<Vec<char>>)
    ensures
        vviews(r@) == pieces(s@, sep),
{
    let mut done: Vec<Vec<char>> = Vec::new();
    let mut open: Vec<char> = Vec::new();
    let mut i: usize = 0;
    assert(s@.subrange(0, 0) =~= Seq::<char>::empty());
    assert(vviews(done@).push(open@) =~= pieces(Seq::<char>::empty(), sep));
    while i < s.len()
        invariant
            i <= s@.len(),
            vviews(done@).push(open@) == pieces(s@.subrange(0, i as int), sep),
        decreases s.len() - i,
    {
        let ghost pre = s@.subrange(0, i as int);
        assert(s@.subrange(0, i + 1).drop_last() =~= pre);
        assert(s@.subrange(0, i + 1).last() == s@[i as int]);
        let ghost before = vviews(done@).push(open@);
        let c = s[i];
        if c == sep {
            let w = open;
            done.push(w);
            open = Vec::new();
            assert(vviews(done@).push(open@) =~= before.push(seq![]));
        } else {
            let ghost o0 = open@;
            open.push(c);
            assert(vviews(done@).push(open@) =~= before.update(before.len() - 1, o0.push(c)));
        }
        i += 1;
    }
    assert(s@.subrange(0, s.len() as int) =~= s@);
    let ghost d0 = done@;
    done.push(open);
    assert(vviews(done@) =~= vviews(d0).push(open@));
    done
}

/// `s` cut at the first `c`.
pub fn split_at_first(s: &Vec<char>, c: char) -> (r: Option<(Vec<char>, Vec<char>)>)
    ensures
        match r {
            Some((a, b)) => split_once(s@, c) == Some((a@, b@)),
            None => split_once(s@, c) is None,
        },
{
    proof {
        lemma_index_of(s@, c);
    }
    let mut i: usize = 0;
    while i < s.len()
        invariant
            i <= s@.len(),
            forall|j: int| 0 <= j < i ==> #[trigger] s@[j] != c,
            -1 <= index_of(s@, c) < s@.len(),
            index_of(s@, c) >= 0 ==> s@[index_of(s@, c)] == c,
            forall|j: int|
                0 <= j < s@.len() && (index_of(s@, c) < 0 || j < index_of(s@, c)) ==> #[trigger] s@[j]
                    != c,
        decreases s.len() - i,
    {
        if s[i] == c {
            proof {
                let k = index_of(s@, c);
                if k < 0 || i < k {
                    assert(s@[i as int] != c);
                }
                if k >= 0 && k < i {
                    assert(s@[k] != c);
                }
            }
            let a = crate::text::slice_of(s, 0, i);
            let b = crate::text::slice_of(s, i + 1, s.len());
            return Some((a, b));
        }
        i += 1;
    }
    proof {
        let k = index_of(s@, c);
        if k >= 0 {
            assert(s@[k] != c);
        }
    }
    None
}


// --- fields ------------------------------------------------------------------

/// Why one comma-separated part of a field is refused.
pub enum Fault {
    /// The step after `/` is not a number of at least one.
    BadStep(Seq<char>),
    /// An `a-b` range whose ends are not both numbers.
    BadRange(Seq<char>),
    /// A single value that is not a number.
    BadValue(Seq<char>),
    /// Outside the field's allowed range, or a range that runs backwards.
    OutOfRange,
}

/// The step a part asks for: one without `/`.
pub open spec fn step_of(part: Seq<char>) -> Result<u32, Fault> {
    match split_once(part, '/') {
        Some((_, st)) => match parse_u32(st) {
            Some(n) => if n >= 1 {
                Ok(n)
            } else {
                Err(Fault::BadStep(st))
            },
            None => Err(Fault::BadStep(st)),
        },
        None => Ok(1),
    }
}

/// The range of a part, before its step.
pub open spec fn range_text(part: Seq<char>) -> Seq<char> {
    match split_once(part, '/') {
        Some((r, _)) => r,
        None => part,
    }
}

/// The ends a range names: `*` is the whole field.
pub open spec fn ends_of(range: Seq<char>, min: u32, max: u32) -> Result<(u32, u32), Fault> {
    if range == seq!['*'] {
        Ok((min, max))
    } else {
        match split_once(range, '-') {
            Some((a, b)) => match (parse_u32(a), parse_u32(b)) {
                (Some(a), Some(b)) => Ok((a, b)),
                _ => Err(Fault::BadRange(range)),
            },
            None => match parse_u32(range) {
                Some(v) => Ok((v, v)),
                None => Err(Fault::BadValue(range)),
            },
        }
    }
}

/// A part as `(lo, hi, step)`, checked against the field's range.
pub open spec fn part_bounds(part: Seq<char>, min: u32, max: u32) -> Result<(u32, u32, u32), Fault> {
    match step_of(part) {
        Err(f) => Err(f),
        Ok(step) => match ends_of(range_text(part), min, max) {
            Err(f) => Err(f),
            Ok((lo, hi)) => if lo < min || hi > max || lo > hi {
                Err(Fault::OutOfRange)
            } else {
                Ok((lo, hi, step))
            },
        },
    }
}

/// `lo, lo + step, ...` up to `hi`.
pub open spec fn stepped(lo: u32, hi: u32, step: u32) -> Set<u32> {
    Set::new(|v: u32| lo <= v <= hi && on_step(v, lo, step))
}

/// `v` is a whole number of steps past `lo`.
pub open spec fn on_step(v: u32, lo: u32, step: u32) -> bool {
    (v - lo) % (step as int) == 0
}

/// The values a list of parts selects; the first bad part's fault otherwise.
pub open spec fn parts_set(parts: Seq<Seq<char>>, min: u32, max: u32) -> Result<Set<u32>, Fault>
    decreases parts.len(),
{
    if parts.len() == 0 {
        Ok(Set::empty())
    } else {
        match parts_set(parts.drop_last(), min, max) {
            Err(f) => Err(f),
            Ok(s) => match part_bounds(parts.last(), min, max) {
                Err(f) => Err(f),
                Ok((lo, hi, step)) => Ok(s.union(stepped(lo, hi, step))),
            },
        }
    }
}

/// The values a field's text selects.
pub open spec fn field_of(text: Seq<char>, min: u32, max: u32) -> Result<Set<u32>, Fault> {
    parts_set(pieces(text, ','), min, max)
}

/// The first place `c` occurs is the one before which it does not.
proof fn lemma_index_of_first(s: Seq<char>, c: char, k: int)
    requires
        0 <= k < s.len(),
        s[k] == c,
        forall|i: int| 0 <= i < k ==> s[i] != c,
    ensures
        index_of(s, c) == k,
{
    lemma_index_of(s, c);
}

/// A range `a-b` of two numbers within the field selects every value from
/// `a` through `b`, both ends included, and nothing else.
pub proof fn law_a_range_selects_both_ends(ta: Seq<char>, tb: Seq<char>, a: u32, b: u32, min: u32, max: u32)
    requires
        all_digits(ta),
        all_digits(tb),
        parse_u32(ta) == Some(a),
        parse_u32(tb) == Some(b),
        min <= a <= b <= max,
    ensures
        field_of(ta + seq!['-'] + tb, min, max) == Ok::<Set<u32>, Fault>(Set::new(|v: u32| a <= v <= b)),
        part_bounds(ta + seq!['-'] + tb, min, max) == Ok::<(u32, u32, u32), Fault>((a, b, 1)),
{
    let part = ta + seq!['-'] + tb;
    let n = ta.len() as int;
    assert(ta.len() > 0);
    assert forall|i: int| 0 <= i < part.len() implies part[i] != ',' && part[i] != '/' && (i != n ==> part[i] != '-') by {
        if i < n {
            assert(part[i] == ta[i]);
            assert(is_digit(ta[i]));
        } else if i > n {
            assert(part[i] == tb[i - n - 1]);
            assert(is_digit(tb[i - n - 1]));
        }
    }
    lemma_index_of(part, '/');
    assert(split_once(part, '/') is None);
    assert(step_of(part) == Ok::<u32, Fault>(1));
    assert(range_text(part) == part);
    assert(part != seq!['*']) by {
        if part.len() == 1 {
            assert(n == 0);
        }
    }
    lemma_index_of_first(part, '-', n);
    assert(part.subrange(0, n) =~= ta);
    assert(part.subrange(n + 1, part.len() as int) =~= tb);
    assert(split_once(part, '-') == Some((ta, tb)));
    assert(ends_of(part, min, max) == Ok::<(u32, u32), Fault>((a, b)));
    assert(part_bounds(part, min, max) == Ok::<(u32, u32, u32), Fault>((a, b, 1)));
    lemma_pieces_whole(part, ',');
    let ps = pieces(part, ',');
    assert(ps.drop_last() =~= Seq::<Seq<char>>::empty());
    assert(ps.last() == part);
    assert(parts_set(ps.drop_last(), min, max) == Ok::<Set<u32>, Fault>(Set::empty()));
    assert(Set::<u32>::empty().union(stepped(a, b, 1)) =~= Set::new(|v: u32| a <= v <= b)) by {
        assert forall|v: u32| a <= v <= b implies on_step(v, a, 1) by {
            assert(((v - a) as int) % 1 == 0);
        }
    }
}

/// A set of small values as a membership table.
pub open spec fn mask_set(m: Seq<bool>) -> Set<u32> {
    Set::new(|v: u32| v < m.len() && m[v as int])
}

/// What is wrong with one field, carrying the text it was about.
#[derive(Debug)]
pub enum FaultE {
    BadStep(String),
    BadRange(String),
    BadValue(String),
    OutOfRange,
}

pub open spec fn fault_of(f: FaultE) -> Fault {
    match f {
        FaultE::BadStep(s) => Fault::BadStep(s@),
        FaultE::BadRange(s) => Fault::BadRange(s@),
        FaultE::BadValue(s) => Fault::BadValue(s@),
        FaultE::OutOfRange => Fault::OutOfRange,
    }
}

fn part_bounds_exec(part: &Vec<char>, min: u32, max: u32) -> (r: Result<(u32, u32, u32), FaultE>)
    ensures
        match r {
            Ok(b) => part_bounds(part@, min, max) == Ok::<(u32, u32, u32), Fault>(b),
            Err(f) => part_bounds(part@, min, max) == Err::<(u32, u32, u32), Fault>(fault_of(f)),
        },
{
    let (range, step): (Vec<char>, u32) = match split_at_first(part, '/') {
        Some((r, st)) => match parse_u32_exec(&st) {
            Some(n) => if n >= 1 {
                (r, n)
            } else {
                return Err(FaultE::BadStep(crate::text::string_of(&st)));
            },
            None => {
                return Err(FaultE::BadStep(crate::text::string_of(&st)));
            },
        },
        None => (crate::text::slice_of(part, 0, part.len()), 1),
    };
    assert(part@.subrange(0, part@.len() as int) =~= part@);
    assert(range@ == range_text(part@));
    let (lo, hi): (u32, u32) = if range.len() == 1 && range[0] == '*' {
        assert(range@ =~= seq!['*']);
        (min, max)
    } else {
        assert(range@ != seq!['*']);
        match split_at_first(&range, '-') {
            Some((a, b)) => match (parse_u32_exec(&a), parse_u32_exec(&b)) {
                (Some(a), Some(b)) => (a, b),
                _ => {
                    return Err(FaultE::BadRange(crate::text::string_of(&range)));
                },
            },
            None => match parse_u32_exec(&range) {
                Some(v) => (v, v),
                None => {
                    return Err(FaultE::BadValue(crate::text::string_of(&range)));
                },
            },
        }
    };
    if lo < min || hi > max || lo > hi {
        return Err(FaultE::OutOfRange);
    }
    Ok((lo, hi, step))
}

/// No whole step lands strictly between two consecutive steps.
proof fn lemma_between_steps(a: int, b: int, step: int)
    requires
        step >= 1,
        a >= 0,
        a % step == 0,
        a < b < a + step,
    ensures
        b % step != 0,
{
    vstd::arithmetic::div_mod::lemma_fundamental_div_mod(a, step);
    let q = a / step;
    assert(b == q * step + (b - a)) by (nonlinear_arith)
        requires
            a == step * q + 0,
            a % step == 0,
    ;
    vstd::arithmetic::div_mod::lemma_fundamental_div_mod_converse_mod(b, step, q, b - a);
}

/// The stepped values below `v`.
pub open spec fn stepped_below(lo: u32, hi: u32, step: u32, v: int) -> Set<u32> {
    Set::new(|x: u32| lo <= x <= hi && x < v && on_step(x, lo, step))
}

/// Marks `lo, lo + step, ...` up to `hi` in the table.
fn mark(mask: &mut Vec<bool>, lo: u32, hi: u32, step: u32)
    requires
        step >= 1,
        lo <= hi,
        (hi as int) < old(mask)@.len(),
    ensures
        final(mask)@.len() == old(mask)@.len(),
        mask_set(final(mask)@) == mask_set(old(mask)@).union(stepped(lo, hi, step)),
{
    let ghost m0 = mask_set(mask@);
    let mut v: u64 = lo as u64;
    proof {
        vstd::arithmetic::div_mod::lemma_small_mod(0, step as nat);
        assert(mask_set(mask@) =~= m0.union(stepped_below(lo, hi, step, v as int)));
    }
    while v <= hi as u64
        invariant
            step >= 1,
            lo <= v,
            lo <= hi,
            (hi as int) < mask@.len(),
            mask@.len() == old(mask)@.len(),
            m0 == mask_set(old(mask)@),
            v <= hi as u64 + step as u64,
            (v - lo) % (step as int) == 0,
            mask_set(mask@) == m0.union(stepped_below(lo, hi, step, v as int)),
        decreases hi as u64 + step as u64 - v,
    {
        let ghost before = mask@;
        mask.set(v as usize, true);
        let nv = v + step as u64;
        proof {
            vstd::arithmetic::div_mod::lemma_mod_add_multiples_vanish((v - lo) as int, step as int);
            assert((nv - lo) % (step as int) == 0);
            assert forall|x: u32| v < x < nv implies !#[trigger] on_step(x, lo, step) by {
                lemma_between_steps((v - lo) as int, (x - lo) as int, step as int);
            }
            assert(on_step(v as u32, lo, step));
            assert forall|x: u32|
                #[trigger] mask_set(mask@).contains(x) == m0.union(
                    stepped_below(lo, hi, step, nv as int),
                ).contains(x) by {
                if x as u64 != v {
                    assert(mask@[x as int] == before[x as int] || x as int >= mask@.len());
                    assert(mask_set(before).contains(x) == m0.union(
                        stepped_below(lo, hi, step, v as int),
                    ).contains(x));
                }
            }
            assert(mask_set(mask@) =~= m0.union(stepped_below(lo, hi, step, nv as int)));
        }
        v = nv;
    }
    assert(mask_set(mask@) =~= m0.union(stepped(lo, hi, step)));
}

/// The membership table of the values a field's text selects.
fn field_exec(text: &Vec<char>, min: u32, max: u32) -> (r: Result<Vec<bool>, FaultE>)
    requires
        min <= max < 100,
    ensures
        match r {
            Ok(m) => m@.len() == max + 1 && field_of(text@, min, max) == Ok::<Set<u32>, Fault>(
                mask_set(m@),
            ),
            Err(f) => field_of(text@, min, max) == Err::<Set<u32>, Fault>(fault_of(f)),
        },
{
    let parts = split_pieces(text, ',');
    let ghost ps = vviews(parts@);
    let mut mask: Vec<bool> = Vec::new();
    let mut k: usize = 0;
    while k <= max as usize
        invariant
            max < 100,
            k <= max + 1,
            mask@.len() == k,
            forall|j: int| 0 <= j < k ==> !#[trigger] mask@[j],
        decreases max + 1 - k,
    {
        mask.push(false);
        k += 1;
    }
    assert(mask_set(mask@) =~= Set::<u32>::empty());
    let mut i: usize = 0;
    assert(ps.subrange(0, 0) =~= Seq::<Seq<char>>::empty());
    while i < parts.len()
        invariant
            min <= max < 100,
            ps == vviews(parts@),
            ps == pieces(text@, ','),
            i <= parts@.len(),
            mask@.len() == max + 1,
            parts_set(ps.subrange(0, i as int), min, max) == Ok::<Set<u32>, Fault>(mask_set(mask@)),
        decreases parts.len() - i,
    {
        assert(ps.subrange(0, i + 1).drop_last() =~= ps.subrange(0, i as int));
        assert(ps.subrange(0, i + 1).last() == parts@[i as int]@);
        match part_bounds_exec(&parts[i], min, max) {
            Ok((lo, hi, step)) => {
                let ghost m1 = mask_set(mask@);
                mark(&mut mask, lo, hi, step);
                assert(parts_set(ps.subrange(0, i + 1), min, max) == Ok::<Set<u32>, Fault>(
                    m1.union(stepped(lo, hi, step)),
                ));
            },
            Err(f) => {
                proof {
                    assert(parts_set(ps.subrange(0, i + 1), min, max) == Err::<Set<u32>, Fault>(
                        fault_of(f),
                    ));
                    lemma_parts_err(ps, (i + 1) as int, min, max);
                    assert(field_of(text@, min, max) == parts_set(ps, min, max));
                }
                return Err(f);
            },
        }
        i += 1;
    }
    assert(ps.subrange(0, parts@.len() as int) =~= ps);
    Ok(mask)
}

/// Once a prefix of the parts fails, the whole fails the same way.
proof fn lemma_parts_err(ps: Seq<Seq<char>>, k: int, min: u32, max: u32)
    requires
        0 < k <= ps.len(),
        parts_set(ps.subrange(0, k), min, max) is Err,
    ensures
        parts_set(ps, min, max) == parts_set(ps.subrange(0, k), min, max),
    decreases ps.len() - k,
{
    if k < ps.len() {
        assert(ps.subrange(0, k + 1).drop_last() =~= ps.subrange(0, k));
        lemma_parts_err(ps, k + 1, min, max);
    } else {
        assert(ps.subrange(0, k) =~= ps);
    }
}


// --- expressions -------------------------------------------------------------

/// A parsed expression: the values each field selects, whether day-of-month
/// and day-of-week are both restricted, and the source with its white space
/// normalized.
#[derive(Debug)]
pub struct Cron {
    minute: Vec<bool>,
    hour: Vec<bool>,
    dom: Vec<bool>,
    month: Vec<bool>,
    dow: Vec<bool>,
    dom_and_dow_both_set: bool,
    pub source: String,
}

/// A schedule as a value: the minutes, hours, days, months and weekdays
/// it fires in.
pub struct CronV {
    pub minute: Set<u32>,
    pub hour: Set<u32>,
    pub dom: Set<u32>,
    pub month: Set<u32>,
    pub dow: Set<u32>,
    pub both: bool,
    pub source: Seq<char>,
}

impl View for Cron {
    type V = CronV;

    closed spec fn view(&self) -> CronV {
        CronV {
            minute: mask_set(self.minute@),
            hour: mask_set(self.hour@),
            dom: mask_set(self.dom@),
            month: mask_set(self.month@),
            dow: mask_set(self.dow@),
            both: self.dom_and_dow_both_set,
            source: self.source@,
        }
    }
}

/// Why an expression is refused, or never fires.
pub enum CronFail {
    FieldCount(nat),
    Field(int, Seq<char>, Fault),
    NeverFires(Seq<char>),
}

/// Why an expression is not a schedule.
#[derive(Debug)]
pub enum CronError {
    /// Not five white-space separated fields.
    FieldCount { got: usize, source: String },
    /// Field `field` (0 is the minute) is refused.
    Field { field: usize, text: String, fault: FaultE },
    /// Nothing in the next four years matches.
    NeverFires { source: String },
}

pub open spec fn cron_fail(e: CronError) -> CronFail {
    match e {
        CronError::FieldCount { got, .. } => CronFail::FieldCount(got as nat),
        CronError::Field { field, text, fault } => CronFail::Field(field as int, text@, fault_of(fault)),
        CronError::NeverFires { source } => CronFail::NeverFires(source@),
    }
}

/// The words joined by single spaces.
pub open spec fn joined(w: Seq<Seq<char>>) -> Seq<char>
    decreases w.len(),
{
    if w.len() == 0 {
        seq![]
    } else if w.len() == 1 {
        w[0]
    } else {
        joined(w.drop_last()) + seq![' '] + w.last()
    }
}

/// The smallest and largest value of each field, minute first.
pub open spec fn field_min(i: int) -> u32 {
    if i == 2 || i == 3 {
        1
    } else {
        0
    }
}

pub open spec fn field_max(i: int) -> u32 {
    if i == 0 {
        59
    } else if i == 1 {
        23
    } else if i == 2 {
        31
    } else if i == 3 {
        12
    } else {
        6
    }
}

/// What `parse` makes of a source text.
pub open spec fn cron_of(src: Seq<char>) -> Result<CronV, CronFail> {
    let w = words(src);
    if w.len() != 5 {
        Err(CronFail::FieldCount(w.len()))
    } else {
        match field_of(w[0], 0, 59) {
            Err(f) => Err(CronFail::Field(0, w[0], f)),
            Ok(mi) => match field_of(w[1], 0, 23) {
                Err(f) => Err(CronFail::Field(1, w[1], f)),
                Ok(ho) => match field_of(w[2], 1, 31) {
                    Err(f) => Err(CronFail::Field(2, w[2], f)),
                    Ok(dm) => match field_of(w[3], 1, 12) {
                        Err(f) => Err(CronFail::Field(3, w[3], f)),
                        Ok(mo) => match field_of(w[4], 0, 6) {
                            Err(f) => Err(CronFail::Field(4, w[4], f)),
                            Ok(dw) => Ok(
                                CronV {
                                    minute: mi,
                                    hour: ho,
                                    dom: dm,
                                    month: mo,
                                    dow: dw,
                                    both: w[2] != seq!['*'] && w[4] != seq!['*'],
                                    source: joined(w),
                                },
                            ),
                        },
                    },
                },
            },
        }
    }
}

fn is_star(w: &Vec<char>) -> (r: bool)
    ensures
        r == (w@ == seq!['*']),
{
    if w.len() == 1 && w[0] == '*' {
        assert(w@ =~= seq!['*']);
        true
    } else {
        false
    }
}

fn join_words(w: &Vec<Vec<char>>) -> (r: String)
    ensures
        r@ == joined(vviews(w@)),
{
    let mut out = String::new();
    let mut i: usize = 0;
    assert(vviews(w@).subrange(0, 0) =~= Seq::<Seq<char>>::empty());
    while i < w.len()
        invariant
            i <= w@.len(),
            out@ == joined(vviews(w@).subrange(0, i as int)),
        decreases w.len() - i,
    {
        let ghost vs = vviews(w@);
        let ghost before = out@;
        assert(vs.subrange(0, i + 1).drop_last() =~= vs.subrange(0, i as int));
        if i > 0 {
            push_char(&mut out, ' ');
        }
        let s = crate::text::string_of(w[i].as_slice());
        push_str(&mut out, s.as_str());
        proof {
            if i == 0 {
                assert(before =~= Seq::<char>::empty());
                assert(out@ =~= vs[0]);
            } else {
                assert(out@ =~= before + seq![' '] + vs[i as int]);
            }
        }
        i += 1;
    }
    assert(vviews(w@).subrange(0, w@.len() as int) =~= vviews(w@));
    out
}

/// The values a well-formed expression's tables can hold.
pub closed spec fn tables_ok(c: &Cron) -> bool {
    c.minute@.len() == 60 && c.hour@.len() == 24 && c.dom@.len() == 32 && c.month@.len() == 13
        && c.dow@.len() == 7
}

/// Parse a five-field expression. Refused exactly when `cron_of` refuses it:
/// the wrong number of fields, or the first field with a bad part.
pub fn parse(source: &str) -> (r: Result<Cron, CronError>)
    ensures
        match r {
            Ok(c) => cron_of(source@) == Ok::<CronV, CronFail>(c@) && tables_ok(&c),
            Err(e) => cron_of(source@) == Err::<CronV, CronFail>(cron_fail(e)),
        },
{
    let cs = chars_of(source);
    let w = split_words(&cs);
    if w.len() != 5 {
        return Err(CronError::FieldCount { got: w.len(), source: source.to_owned() });
    }
    let minute = match field_exec(&w[0], 0, 59) {
        Ok(m) => m,
        Err(f) => {
            return Err(CronError::Field { field: 0, text: crate::text::string_of(w[0].as_slice()), fault: f });
        },
    };
    let hour = match field_exec(&w[1], 0, 23) {
        Ok(m) => m,
        Err(f) => {
            return Err(CronError::Field { field: 1, text: crate::text::string_of(w[1].as_slice()), fault: f });
        },
    };
    let dom = match field_exec(&w[2], 1, 31) {
        Ok(m) => m,
        Err(f) => {
            return Err(CronError::Field { field: 2, text: crate::text::string_of(w[2].as_slice()), fault: f });
        },
    };
    let month = match field_exec(&w[3], 1, 12) {
        Ok(m) => m,
        Err(f) => {
            return Err(CronError::Field { field: 3, text: crate::text::string_of(w[3].as_slice()), fault: f });
        },
    };
    let dow = match field_exec(&w[4], 0, 6) {
        Ok(m) => m,
        Err(f) => {
            return Err(CronError::Field { field: 4, text: crate::text::string_of(w[4].as_slice()), fault: f });
        },
    };
    let both = !is_star(&w[2]) && !is_star(&w[4]);
    let source = join_words(&w);
    Ok(Cron { minute, hour, dom, month, dow, dom_and_dow_both_set: both, source })
}

// --- time --------------------------------------------------------------------

/// A wall-clock minute: the fields a schedule reads. `weekday` counts from
/// Sunday as 0.
#[derive(Debug, Clone, Copy, PartialEq, Eq, Structural)]
pub struct WallTime {
    pub year: i32,
    pub month: u32,
    pub day: u32,
    pub hour: u32,
    pub minute: u32,
    pub weekday: u32,
}

pub open spec fn leap(y: int) -> bool {
    (y % 4 == 0 && y % 100 != 0) || y % 400 == 0
}

pub open spec fn days_in(y: int, m: u32) -> u32 {
    if m == 2 {
        if leap(y) {
            29
        } else {
            28
        }
    } else if m == 4 || m == 6 || m == 9 || m == 11 {
        30
    } else {
        31
    }
}

/// A real calendar minute.
pub open spec fn wall_ok(t: WallTime) -> bool {
    &&& 1 <= t.month <= 12
    &&& 1 <= t.day <= days_in(t.year as int, t.month)
    &&& t.hour < 24
    &&& t.minute < 60
    &&& t.weekday < 7
}

/// The next calendar minute.
pub open spec fn tick(t: WallTime) -> WallTime {
    if t.minute < 59 {
        WallTime { minute: (t.minute + 1) as u32, ..t }
    } else if t.hour < 23 {
        WallTime { hour: (t.hour + 1) as u32, minute: 0, ..t }
    } else {
        let wd = ((t.weekday + 1) % 7) as u32;
        if t.day < days_in(t.year as int, t.month) {
            WallTime { day: (t.day + 1) as u32, hour: 0, minute: 0, weekday: wd, ..t }
        } else if t.month < 12 {
            WallTime { month: (t.month + 1) as u32, day: 1, hour: 0, minute: 0, weekday: wd, ..t }
        } else {
            WallTime { year: (t.year + 1) as i32, month: 1, day: 1, hour: 0, minute: 0, weekday: wd }
        }
    }
}

/// `k` minutes after `t`.
pub open spec fn advance(t: WallTime, k: nat) -> WallTime
    decreases k,
{
    if k == 0 {
        t
    } else {
        tick(advance(t, (k - 1) as nat))
    }
}

/// How far ahead `next_after` looks: four years of minutes, which covers
/// every leap-year case; past that an expression cannot fire.
pub const HORIZON: u64 = 2_108_160;

/// Whether `at` falls in a firing minute. When day-of-month and day-of-week
/// are both restricted they are OR-ed, as cron does; otherwise AND-ed.
pub open spec fn fires(c: CronV, at: WallTime) -> bool {
    &&& c.minute.contains(at.minute)
    &&& c.hour.contains(at.hour)
    &&& c.month.contains(at.month)
    &&& if c.both {
        c.dom.contains(at.day) || c.dow.contains(at.weekday)
    } else {
        c.dom.contains(at.day) && c.dow.contains(at.weekday)
    }
}

fn holds(m: &Vec<bool>, v: u32) -> (r: bool)
    ensures
        r == mask_set(m@).contains(v),
{
    (v as usize) < m.len() && m[v as usize]
}

/// Divisibility does not see the sign.
proof fn lemma_divides_neg(a: int, d: int)
    requires
        d > 0,
    ensures
        (a % d == 0) == ((-a) % d == 0),
{
    vstd::arithmetic::div_mod::lemma_fundamental_div_mod(a, d);
    vstd::arithmetic::div_mod::lemma_fundamental_div_mod(-a, d);
    if a % d == 0 {
        assert(-a == (-(a / d)) * d + 0) by (nonlinear_arith)
            requires
                a == d * (a / d) + 0,
        ;
        vstd::arithmetic::div_mod::lemma_fundamental_div_mod_converse_mod(-a, d, -(a / d), 0);
    }
    if (-a) % d == 0 {
        assert(a == (-((-a) / d)) * d + 0) by (nonlinear_arith)
            requires
                -a == d * ((-a) / d) + 0,
        ;
        vstd::arithmetic::div_mod::lemma_fundamental_div_mod_converse_mod(a, d, -((-a) / d), 0);
    }
}

fn leap_exec(y: i32) -> (r: bool)
    ensures
        r == leap(y as int),
{
    let a: u64 = if y < 0 {
        (-(y as i64)) as u64
    } else {
        y as u64
    };
    proof {
        lemma_divides_neg(y as int, 4);
        lemma_divides_neg(y as int, 100);
        lemma_divides_neg(y as int, 400);
    }
    (a % 4 == 0 && a % 100 != 0) || a % 400 == 0
}

fn days_in_exec(y: i32, m: u32) -> (r: u32)
    ensures
        r == days_in(y as int, m),
{
    if m == 2 {
        if leap_exec(y) {
            29
        } else {
            28
        }
    } else if m == 4 || m == 6 || m == 9 || m == 11 {
        30
    } else {
        31
    }
}

/// The next calendar minute.
pub fn tick_exec(t: WallTime) -> (r: WallTime)
    requires
        wall_ok(t),
        t.year < i32::MAX,
    ensures
        r == tick(t),
        wall_ok(r),
{
    if t.minute < 59 {
        WallTime { minute: t.minute + 1, ..t }
    } else if t.hour < 23 {
        WallTime { hour: t.hour + 1, minute: 0, ..t }
    } else {
        let wd = (t.weekday + 1) % 7;
        if t.day < days_in_exec(t.year, t.month) {
            WallTime { day: t.day + 1, hour: 0, minute: 0, weekday: wd, ..t }
        } else if t.month < 12 {
            WallTime { month: t.month + 1, day: 1, hour: 0, minute: 0, weekday: wd, ..t }
        } else {
            WallTime { year: t.year + 1, month: 1, day: 1, hour: 0, minute: 0, weekday: wd }
        }
    }
}

impl Cron {
    /// Whether `at` falls in a firing minute.
    pub fn matches(&self, at: &WallTime) -> (r: bool)
        ensures
            r == fires(self@, *at),
    {
        if !holds(&self.minute, at.minute) {
            return false;
        }
        if !holds(&self.hour, at.hour) {
            return false;
        }
        if !holds(&self.month, at.month) {
            return false;
        }
        let dom = holds(&self.dom, at.day);
        let dow = holds(&self.dow, at.weekday);
        if self.dom_and_dow_both_set {
            dom || dow
        } else {
            dom && dow
        }
    }

    /// The first firing minute strictly after `from`, looking four years
    /// ahead; an error if nothing in that span fires.
    pub fn next_after(&self, from: WallTime) -> (r: Result<WallTime, CronError>)
        requires
            wall_ok(from),
            from.year < i32::MAX - HORIZON - 1,
        ensures
            match r {
                Ok(t) => exists|k: nat|
                    1 <= k <= HORIZON && t == advance(from, k) && fires(self@, t) && forall|j: nat|
                        1 <= j < k ==> !fires(self@, #[trigger] advance(from, j)),
                Err(e) => cron_fail(e) == CronFail::NeverFires(self@.source) && forall|j: nat|
                    1 <= j <= HORIZON ==> !fires(self@, #[trigger] advance(from, j)),
            },
    {
        let mut t = tick_exec(from);
        let mut k: u64 = 1;
        assert(advance(from, 1) == tick(advance(from, 0)));
        while k <= HORIZON
            invariant
                1 <= k <= HORIZON + 1,
                wall_ok(t),
                t == advance(from, k as nat),
                t.year <= from.year + k,
                from.year < i32::MAX - HORIZON - 1,
                forall|j: nat| 1 <= j < k ==> !fires(self@, #[trigger] advance(from, j)),
            decreases HORIZON + 1 - k,
        {
            if self.matches(&t) {
                return Ok(t);
            }
            t = tick_exec(t);
            k += 1;
        }
        Err(CronError::NeverFires { source: self.source.clone() })
    }
}

/// The wall-clock minute an instant (seconds since the epoch) falls in: the
/// unit a schedule fires at most once per.
pub fn minute_of(at_seconds: i64) -> (r: i64)
    ensures
        r == (at_seconds as int) / 60,
{
    let q = at_seconds / 60;
    let rem = at_seconds % 60;
    if rem < 0 {
        q - 1
    } else {
        q
    }
}

} // verus!
