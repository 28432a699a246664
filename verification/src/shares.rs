//! Shares: dividing a whole among weights so the parts sum to it exactly.

use vstd::prelude::*;

verus! {

/// The sum of a sequence of shares.
pub open spec fn sum(s: Seq<u32>) -> nat
    decreases s.len(),
{
    if s.len() == 0 {
        0
    } else {
        sum(s.drop_last()) + (s.last() as nat)
    }
}

/// Part `i` of `total` divided among weights `w`, rounding down. With no
/// weight at all every part is an even share.
pub open spec fn part(w: Seq<u32>, total: nat, i: int) -> nat {
    if sum(w) > 0 {
        ((w[i] as nat) * total / sum(w)) as nat
    } else {
        total / w.len()
    }
}

/// The sum of the first `k` rounded-down parts.
pub open spec fn parts_sum(w: Seq<u32>, total: nat, k: nat) -> nat
    decreases k,
{
    if k == 0 {
        0
    } else {
        parts_sum(w, total, (k - 1) as nat) + part(w, total, k - 1)
    }
}

/// `total` divided among `w` in proportion: every part rounds down, and the
/// last takes what rounding left over, so the parts sum to `total` exactly.
pub open spec fn apportion(w: Seq<u32>, total: nat) -> Seq<u32> {
    Seq::new(
        w.len(),
        |i: int|
            if i < w.len() - 1 {
                part(w, total, i) as u32
            } else {
                (total - parts_sum(w, total, (w.len() - 1) as nat)) as u32
            },
    )
}

pub proof fn lemma_sum_concat(a: Seq<u32>, b: Seq<u32>)
    ensures
        sum(a + b) == sum(a) + sum(b),
    decreases b.len(),
{
    if b.len() == 0 {
        assert(a + b =~= a);
    } else {
        lemma_sum_concat(a, b.drop_last());
        assert((a + b).drop_last() =~= a + b.drop_last());
    }
}

pub proof fn lemma_sum_prefix_le(s: Seq<u32>, k: int)
    requires
        0 <= k <= s.len(),
    ensures
        sum(s.subrange(0, k)) <= sum(s),
{
    lemma_sum_concat(s.subrange(0, k), s.subrange(k, s.len() as int));
    assert(s =~= s.subrange(0, k) + s.subrange(k, s.len() as int));
}

pub proof fn lemma_sum_elem_le(s: Seq<u32>, i: int)
    requires
        0 <= i < s.len(),
    ensures
        s[i] <= sum(s),
{
    lemma_sum_concat(s.subrange(0, i), s.subrange(i, s.len() as int));
    assert(s =~= s.subrange(0, i) + s.subrange(i, s.len() as int));
    let t = s.subrange(i, s.len() as int);
    lemma_sum_concat(seq![s[i]], t.subrange(1, t.len() as int));
    assert(t =~= seq![s[i]] + t.subrange(1, t.len() as int));
    assert(seq![s[i]].drop_last() =~= Seq::<u32>::empty());
}

proof fn lemma_part_mul(a: nat, t: nat, w: nat)
    requires
        w > 0,
    ensures
        (a * t / w) * w <= a * t,
{
    assert((a * t / w) * w <= a * t) by (nonlinear_arith)
        requires
            w > 0,
    ;
}

/// The rounded-down parts never add up to more than their weights' share.
pub proof fn lemma_parts_sum_bound(w: Seq<u32>, total: nat, k: nat)
    requires
        k <= w.len(),
        sum(w) > 0,
    ensures
        parts_sum(w, total, k) * sum(w) <= sum(w.subrange(0, k as int)) * total,
    decreases k,
{
    if k > 0 {
        lemma_parts_sum_bound(w, total, (k - 1) as nat);
        let km = (k - 1) as int;
        assert(w.subrange(0, k as int).drop_last() =~= w.subrange(0, km));
        lemma_part_mul(w[km] as nat, total, sum(w));
        let p = parts_sum(w, total, (k - 1) as nat);
        let q = part(w, total, km);
        let sp = sum(w.subrange(0, km));
        let sw = sum(w);
        let wk = w[km] as nat;
        assert(q == wk * total / sw);
        assert(q * sw <= wk * total);
        assert(sum(w.subrange(0, k as int)) == sp + wk);
        assert(p * sw <= sp * total);
        assert((p + q) * sw == p * sw + q * sw) by (nonlinear_arith);
        assert((sp + wk) * total == sp * total + wk * total) by (nonlinear_arith);
        assert(parts_sum(w, total, k) == p + q);
        assert((p + q) * sw <= (sp + wk) * total);
        assert(parts_sum(w, total, k) * sum(w) == (p + q) * sw);
        assert(sum(w.subrange(0, k as int)) * total == (sp + wk) * total);
    } else {
        assert(sum(w.subrange(0, 0)) == 0);
        assert(0 * sum(w) == 0) by (nonlinear_arith);
        assert(0 * total == 0) by (nonlinear_arith);
    }
}

pub proof fn lemma_parts_sum_le_total(w: Seq<u32>, total: nat, k: nat)
    requires
        k <= w.len(),
        w.len() > 0,
    ensures
        parts_sum(w, total, k) <= total,
        forall|i: int| 0 <= i < w.len() ==> #[trigger] part(w, total, i) <= total,
    decreases k,
{
    if sum(w) > 0 {
        lemma_parts_sum_bound(w, total, k);
        lemma_sum_prefix_le(w, k as int);
        let ps = parts_sum(w, total, k);
        let sw = sum(w);
        let sp = sum(w.subrange(0, k as int));
        assert(sp * total <= sw * total) by (nonlinear_arith)
            requires
                sp <= sw,
        ;
        assert(ps <= total) by (nonlinear_arith)
            requires
                ps * sw <= sw * total,
                sw > 0,
        ;
        assert forall|i: int| 0 <= i < w.len() implies #[trigger] part(w, total, i) <= total by {
            lemma_sum_elem_le(w, i);
            let wi = w[i] as nat;
            assert(wi * total / sw <= total) by (nonlinear_arith)
                requires
                    wi <= sw,
                    sw > 0,
            ;
        }
    } else {
        lemma_even_parts(w.len(), total, k);
        lemma_even_parts_sum(w, total, k);
    }
}

proof fn lemma_even_parts_sum(w: Seq<u32>, total: nat, k: nat)
    requires
        sum(w) == 0,
        w.len() > 0,
    ensures
        parts_sum(w, total, k) == k * (total / w.len()),
    decreases k,
{
    if k > 0 {
        lemma_even_parts_sum(w, total, (k - 1) as nat);
        let d = total / w.len();
        let km = (k - 1) as nat;
        assert(km * d + d == k * d) by (nonlinear_arith)
            requires
                km + 1 == k,
        ;
    } else {
        assert(0 * (total / w.len()) == 0) by (nonlinear_arith);
    }
}

proof fn lemma_even_parts(n: nat, total: nat, k: nat)
    requires
        k <= n,
        n > 0,
    ensures
        k * (total / n) <= total,
{
    assert(k * (total / n) <= n * (total / n)) by (nonlinear_arith)
        requires
            k <= n,
    ;
    assert(n * (total / n) <= total) by (nonlinear_arith)
        requires
            n > 0,
    ;
}


/// The apportioned parts of `total` sum to it, and none exceeds it.
pub proof fn lemma_apportion(w: Seq<u32>, total: nat)
    requires
        w.len() > 0,
        total <= u32::MAX,
    ensures
        apportion(w, total).len() == w.len(),
        sum(apportion(w, total)) == total,
        forall|i: int| 0 <= i < w.len() ==> #[trigger] apportion(w, total)[i] <= total,
        forall|i: int| 0 <= i < w.len() - 1 ==> #[trigger] apportion(w, total)[i] == part(w, total, i),
{
    let n = w.len();
    let a = apportion(w, total);
    lemma_parts_sum_le_total(w, total, (n - 1) as nat);
    lemma_apportion_prefix(w, total, (n - 1) as nat);
    assert(a.drop_last() =~= a.subrange(0, n - 1));
}

proof fn lemma_apportion_prefix(w: Seq<u32>, total: nat, k: nat)
    requires
        w.len() > 0,
        k <= w.len() - 1,
        total <= u32::MAX,
    ensures
        sum(apportion(w, total).subrange(0, k as int)) == parts_sum(w, total, k),
    decreases k,
{
    lemma_parts_sum_le_total(w, total, k);
    if k > 0 {
        lemma_apportion_prefix(w, total, (k - 1) as nat);
        let a = apportion(w, total);
        assert(a.subrange(0, k as int).drop_last() =~= a.subrange(0, k - 1));
        assert(part(w, total, k - 1) <= total);
    } else {
        assert(apportion(w, total).subrange(0, 0) =~= Seq::<u32>::empty());
    }
}

/// Executable `apportion`.
pub fn apportion_vec(w: &Vec<u32>, total: u32) -> (out: Vec<u32>)
    ensures
        out@ == apportion(w@, total as nat),
{
    let n = w.len();
    let mut big: u128 = 0;
    let mut i: usize = 0;
    while i < n
        invariant
            n == w@.len(),
            i <= n,
            big == sum(w@.subrange(0, i as int)),
            big <= i * (u32::MAX as nat),
        decreases n - i,
    {
        assert(w@.subrange(0, i + 1).drop_last() =~= w@.subrange(0, i as int));
        big = big + w[i] as u128;
        i += 1;
    }
    assert(w@.subrange(0, n as int) =~= w@);
    let ghost W = sum(w@);
    let mut out: Vec<u32> = Vec::new();
    if n == 0 {
        assert(out@ =~= apportion(w@, total as nat));
        return out;
    }
    proof {
        lemma_parts_sum_le_total(w@, total as nat, (n - 1) as nat);
    }
    let mut acc: u32 = 0;
    let mut j: usize = 0;
    while j + 1 < n
        invariant
            n == w@.len(),
            n > 0,
            j < n,
            big == W,
            W == sum(w@),
            acc == parts_sum(w@, total as nat, j as nat),
            out@.len() == j,
            forall|k: int| 0 <= k < j ==> #[trigger] out@[k] == part(w@, total as nat, k) as u32,
            forall|k: int| 0 <= k < n ==> #[trigger] part(w@, total as nat, k) <= total,
        decreases n - j,
    {
        let p: u32 = if big > 0 {
            proof {
                lemma_sum_elem_le(w@, j as int);
            }
            let a: u128 = w[j] as u128;
            let b: u128 = total as u128;
            assert(a * b <= (u32::MAX as u128) * (u32::MAX as u128)) by (nonlinear_arith)
                requires
                    a <= u32::MAX,
                    b <= u32::MAX,
            ;
            let num: u128 = a * b;
            assert(num == (w@[j as int] as nat) * (total as nat)) by (nonlinear_arith)
                requires
                    num == a * b,
                    a == w@[j as int],
                    b == total,
            ;
            assert(num / big == part(w@, total as nat, j as int));
            (num / big) as u32
        } else {
            ((total as u64) / (n as u64)) as u32
        };
        assert(p == part(w@, total as nat, j as int));
        proof {
            lemma_parts_sum_le_total(w@, total as nat, (j + 1) as nat);
        }
        acc = acc + p;
        out.push(p);
        j += 1;
    }
    out.push(total - acc);
    assert(out@ =~= apportion(w@, total as nat));
    out
}

/// Changing one share changes the sum by the difference.
pub proof fn lemma_sum_update(s: Seq<u32>, i: int, v: u32)
    requires
        0 <= i < s.len(),
    ensures
        sum(s.update(i, v)) + s[i] == sum(s) + v,
{
    let t = s.update(i, v);
    lemma_sum_concat(s.subrange(0, i), s.subrange(i, s.len() as int));
    assert(s =~= s.subrange(0, i) + s.subrange(i, s.len() as int));
    lemma_sum_concat(t.subrange(0, i), t.subrange(i, t.len() as int));
    assert(t =~= t.subrange(0, i) + t.subrange(i, t.len() as int));
    assert(t.subrange(0, i) =~= s.subrange(0, i));
    let a = s.subrange(i, s.len() as int);
    let b = t.subrange(i, t.len() as int);
    lemma_sum_concat(seq![s[i]], a.subrange(1, a.len() as int));
    assert(a =~= seq![s[i]] + a.subrange(1, a.len() as int));
    lemma_sum_concat(seq![v], b.subrange(1, b.len() as int));
    assert(b =~= seq![v] + b.subrange(1, b.len() as int));
    assert(a.subrange(1, a.len() as int) =~= b.subrange(1, b.len() as int));
    assert(seq![s[i]].drop_last() =~= Seq::<u32>::empty());
    assert(seq![v].drop_last() =~= Seq::<u32>::empty());
}

/// Removing a share takes it off the sum.
pub proof fn lemma_sum_remove(s: Seq<u32>, i: int)
    requires
        0 <= i < s.len(),
    ensures
        sum(s.remove(i)) + s[i] == sum(s),
{
    lemma_sum_concat(s.subrange(0, i), s.subrange(i, s.len() as int));
    assert(s =~= s.subrange(0, i) + s.subrange(i, s.len() as int));
    let a = s.subrange(i, s.len() as int);
    lemma_sum_concat(seq![s[i]], a.subrange(1, a.len() as int));
    assert(a =~= seq![s[i]] + a.subrange(1, a.len() as int));
    assert(seq![s[i]].drop_last() =~= Seq::<u32>::empty());
    assert(sum(Seq::<u32>::empty()) == 0);
    assert(seq![s[i]].last() == s[i]);
    assert(sum(seq![s[i]]) == s[i] as nat);
    lemma_sum_concat(s.subrange(0, i), s.subrange(i + 1, s.len() as int));
    assert(s.remove(i) =~= s.subrange(0, i) + s.subrange(i + 1, s.len() as int));
    assert(a.subrange(1, a.len() as int) =~= s.subrange(i + 1, s.len() as int));
}

/// Shares that already fill the whole are their own apportionment.
pub proof fn lemma_apportion_whole(w: Seq<u32>, total: nat)
    requires
        w.len() > 0,
        sum(w) == total,
        total > 0,
    ensures
        apportion(w, total) == w,
{
    let n = w.len();
    assert forall|i: int| 0 <= i < n implies part(w, total, i) == w[i] as nat by {
        let a = w[i] as nat;
        assert(a * total / total == a) by (nonlinear_arith)
            requires
                total > 0,
        ;
    }
    lemma_parts_sum_whole(w, total, (n - 1) as nat);
    assert(w.subrange(0, n - 1) =~= w.drop_last());
    assert(apportion(w, total) =~= w);
}

proof fn lemma_parts_sum_whole(w: Seq<u32>, total: nat, k: nat)
    requires
        k <= w.len(),
        sum(w) == total,
        total > 0,
        forall|i: int| 0 <= i < w.len() ==> #[trigger] part(w, total, i) == w[i] as nat,
    ensures
        parts_sum(w, total, k) == sum(w.subrange(0, k as int)),
    decreases k,
{
    if k > 0 {
        lemma_parts_sum_whole(w, total, (k - 1) as nat);
        assert(w.subrange(0, k as int).drop_last() =~= w.subrange(0, k - 1));
        assert(part(w, total, k - 1) == w[k - 1] as nat);
    } else {
        assert(w.subrange(0, 0) =~= Seq::<u32>::empty());
    }
}

} // verus!
