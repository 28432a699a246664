//! What every layout operation keeps: canonical form, the areas on screen
//! and their order, and the seams' grabbable minimum.

use vstd::prelude::*;

use crate::area::{
    clamp_ratio, collapse, cut, cut_list, default_regions, distinct, drop_share, find,
    gather_children, gather_sizes, id_of, ids, ids_list, is_split_in, layout_ok, leaf_at,
    lemma_concat_contains, lemma_cut_absent, lemma_cut_list, lemma_distinct_children,
    lemma_find_contains, lemma_find_list_unique, lemma_gather_lens, lemma_ids_contains_own,
    lemma_ids_list_in_some_child, lemma_norm_list, lemma_pos_of, lemma_replace_absent,
    lemma_replace_list, lemma_sum_pair, norm, norm_list, pos_of, replace, replace_list,
    seam_sizes, split_node, AreaId, Dir, LayoutView, Node, MIN_RATIO, SCALE,
};
use crate::shares::{apportion, lemma_apportion, sum};

verus! {

/// Every split has at least one child (true of every layout the operations
/// build; only a hand-made tree can break it).
pub open spec fn no_empty_splits(n: Node) -> bool
    decreases n,
{
    match n {
        Node::Leaf { .. } => true,
        Node::Split { children, .. } => {
            &&& children.len() > 0
            &&& forall|i: int| 0 <= i < children.len() ==> no_empty_splits(#[trigger] children[i])
        },
    }
}

/// The canonical form: every split has two or more children and one share
/// per child summing to the whole, and no split holds a split running the
/// same way (three areas in a row are one split of three).
pub open spec fn canonical(n: Node) -> bool
    decreases n,
{
    match n {
        Node::Leaf { .. } => true,
        Node::Split { dir, sizes, children, .. } => {
            &&& children.len() >= 2
            &&& sizes.len() == children.len()
            &&& sum(sizes) == SCALE
            &&& forall|i: int|
                0 <= i < children.len() ==> canonical(#[trigger] children[i]) && !is_split_in(
                    children[i],
                    dir,
                )
        },
    }
}

/// The areas on screen, in reading order, with what each shows.
pub open spec fn leaf_nodes(n: Node) -> Seq<Node>
    decreases n,
{
    match n {
        Node::Leaf { .. } => seq![n],
        Node::Split { children, .. } => leaf_nodes_list(children),
    }
}

pub open spec fn leaf_nodes_list(s: Seq<Node>) -> Seq<Node>
    decreases s,
{
    if s.len() == 0 {
        seq![]
    } else {
        leaf_nodes_list(s.drop_last()) + leaf_nodes(s.last())
    }
}

pub proof fn lemma_leaf_nodes_list_concat(a: Seq<Node>, b: Seq<Node>)
    ensures
        leaf_nodes_list(a + b) == leaf_nodes_list(a) + leaf_nodes_list(b),
    decreases b.len(),
{
    if b.len() == 0 {
        assert(a + b =~= a);
    } else {
        lemma_leaf_nodes_list_concat(a, b.drop_last());
        assert((a + b).drop_last() =~= a + b.drop_last());
    }
}

pub proof fn lemma_leaf_nodes_single(n: Node)
    ensures
        leaf_nodes_list(seq![n]) == leaf_nodes(n),
{
    assert(seq![n].drop_last() =~= Seq::<Node>::empty());
    assert(seq![n].last() == n);
    assert(leaf_nodes_list(Seq::<Node>::empty()) == Seq::<Node>::empty());
    assert(leaf_nodes_list(seq![n]) =~= leaf_nodes(n));
}

pub proof fn lemma_leaf_nodes_split_at(s: Seq<Node>, i: int)
    requires
        0 <= i < s.len(),
    ensures
        leaf_nodes_list(s) == leaf_nodes_list(s.subrange(0, i)) + leaf_nodes(s[i])
            + leaf_nodes_list(s.subrange(i + 1, s.len() as int)),
        leaf_nodes_list(s.remove(i)) == leaf_nodes_list(s.subrange(0, i)) + leaf_nodes_list(
            s.subrange(i + 1, s.len() as int),
        ),
{
    let a = s.subrange(0, i);
    let b = s.subrange(i + 1, s.len() as int);
    assert(s =~= a + seq![s[i]] + b);
    assert(s.remove(i) =~= a + b);
    lemma_leaf_nodes_list_concat(a + seq![s[i]], b);
    lemma_leaf_nodes_list_concat(a, seq![s[i]]);
    lemma_leaf_nodes_list_concat(a, b);
    lemma_leaf_nodes_single(s[i]);
}

proof fn lemma_gather_leaf_nodes(dir: Dir, cs: Seq<Node>)
    ensures
        leaf_nodes_list(gather_children(dir, cs)) == leaf_nodes_list(cs),
    decreases cs.len(),
{
    if cs.len() > 0 {
        lemma_gather_leaf_nodes(dir, cs.drop_last());
        let last = cs.last();
        let add = if is_split_in(last, dir) {
            last->children
        } else {
            seq![last]
        };
        lemma_leaf_nodes_list_concat(gather_children(dir, cs.drop_last()), add);
        assert(gather_children(dir, cs) == gather_children(dir, cs.drop_last()) + add);
        assert(leaf_nodes_list(cs) == leaf_nodes_list(cs.drop_last()) + leaf_nodes(last));
        if !is_split_in(last, dir) {
            lemma_leaf_nodes_single(last);
        } else {
            assert(leaf_nodes(last) == leaf_nodes_list(last->children));
        }
    }
}

/// Normalizing never changes what is on screen: the same areas, showing the
/// same things, in the same order.
pub proof fn lemma_norm_keeps_leaves(a: Node)
    ensures
        leaf_nodes(norm(a)) == leaf_nodes(a),
    decreases a,
{
    match a {
        Node::Leaf { .. } => {},
        Node::Split { id, dir, sizes, children } => {
            let cs = norm_list(children);
            lemma_norm_list_keeps_leaves(children);
            lemma_gather_leaf_nodes(dir, cs);
            let nc = gather_children(dir, cs);
            if nc.len() == 1 {
                assert(nc =~= seq![nc[0]]);
                lemma_leaf_nodes_single(nc[0]);
            }
        },
    }
}

pub proof fn lemma_norm_list_keeps_leaves(s: Seq<Node>)
    ensures
        leaf_nodes_list(norm_list(s)) == leaf_nodes_list(s),
    decreases s,
{
    if s.len() > 0 {
        lemma_norm_list_keeps_leaves(s.drop_last());
        lemma_norm_keeps_leaves(s.last());
        let ns = norm_list(s);
        assert(ns.drop_last() =~= norm_list(s.drop_last()));
        assert(ns.last() == norm(s.last()));
    }
}

proof fn lemma_gather_canonical(dir: Dir, cs: Seq<Node>)
    requires
        forall|i: int| 0 <= i < cs.len() ==> canonical(#[trigger] cs[i]),
    ensures
        gather_children(dir, cs).len() >= cs.len(),
        forall|i: int|
            0 <= i < gather_children(dir, cs).len() ==> canonical(
                #[trigger] gather_children(dir, cs)[i],
            ) && !is_split_in(gather_children(dir, cs)[i], dir),
    decreases cs.len(),
{
    if cs.len() > 0 {
        lemma_gather_canonical(dir, cs.drop_last());
        let prev = gather_children(dir, cs.drop_last());
        let last = cs.last();
        assert(canonical(cs[cs.len() - 1]));
        let add = if is_split_in(last, dir) {
            last->children
        } else {
            seq![last]
        };
        assert forall|i: int| 0 <= i < (prev + add).len() implies canonical(#[trigger] (prev + add)[i]) && !is_split_in((prev + add)[i], dir) by {
            if i >= prev.len() {
                assert((prev + add)[i] == add[i - prev.len()]);
            }
        }
    }
}

/// Normalizing yields the canonical form, whatever shape the tree was in,
/// as long as no split in it is empty.
pub proof fn lemma_norm_canonical(a: Node)
    requires
        no_empty_splits(a),
    ensures
        canonical(norm(a)),
    decreases a,
{
    match a {
        Node::Leaf { .. } => {},
        Node::Split { id, dir, sizes, children } => {
            let cs = norm_list(children);
            lemma_norm_list(children);
            assert forall|i: int| 0 <= i < cs.len() implies canonical(#[trigger] cs[i]) by {
                lemma_norm_canonical(children[i]);
            }
            lemma_gather_canonical(dir, cs);
            let nc = gather_children(dir, cs);
            let gs = gather_sizes(dir, sizes, cs);
            lemma_gather_lens(dir, sizes, cs);
            if nc.len() != 1 {
                lemma_apportion(gs, SCALE as nat);
            }
        },
    }
}


pub proof fn lemma_canonical_no_empty(a: Node)
    requires
        canonical(a),
    ensures
        no_empty_splits(a),
    decreases a,
{
    match a {
        Node::Leaf { .. } => {},
        Node::Split { children, .. } => {
            assert forall|i: int| 0 <= i < children.len() implies no_empty_splits(#[trigger] children[i]) by {
                lemma_canonical_no_empty(children[i]);
            }
        },
    }
}

/// Swapping a subtree: the areas before and after it stay, and its areas give
/// way to the new subtree's.
pub proof fn lemma_replace_leaf_nodes(a: Node, t: AreaId, n: Node)
    requires
        distinct(ids(a)),
        find(a, t) is Some,
    ensures
        exists|pre: Seq<Node>, post: Seq<Node>|
            leaf_nodes(a) == pre + leaf_nodes(find(a, t)->0) + post && leaf_nodes(
                replace(a, t, n),
            ) == pre + leaf_nodes(n) + post,
        no_empty_splits(a) && no_empty_splits(n) ==> no_empty_splits(replace(a, t, n)),
    decreases a,
{
    if id_of(a) == t {
        assert(leaf_nodes(a) =~= Seq::<Node>::empty() + leaf_nodes(a) + Seq::<Node>::empty());
        assert(leaf_nodes(n) =~= Seq::<Node>::empty() + leaf_nodes(n) + Seq::<Node>::empty());
    } else {
        match a {
            Node::Leaf { .. } => {},
            Node::Split { id: sid, dir, sizes, children } => {
                lemma_find_contains(a, t);
                lemma_concat_contains(seq![sid], ids_list(children), t);
                if seq![sid].contains(t) {
                    assert(seq![sid][0] == t);
                }
                lemma_ids_list_in_some_child(children, t);
                let i = choose|i: int| 0 <= i < children.len() && ids(#[trigger] children[i]).contains(t);
                lemma_distinct_children(a);
                lemma_find_list_unique(children, i, t);
                lemma_find_contains(children[i], t);
                lemma_replace_leaf_nodes(children[i], t, n);
                let rs = replace_list(children, t, n);
                lemma_replace_list(children, t, n);
                assert forall|j: int| 0 <= j < children.len() && j != i implies #[trigger] rs[j] == children[j] by {
                    lemma_replace_absent(children[j], t, n);
                }
                let (pre, post) = choose|pre: Seq<Node>, post: Seq<Node>|
                    leaf_nodes(children[i]) == pre + leaf_nodes(find(a, t)->0) + post && leaf_nodes(
                        replace(children[i], t, n),
                    ) == pre + leaf_nodes(n) + post;
                lemma_leaf_nodes_split_at(children, i);
                lemma_leaf_nodes_split_at(rs, i);
                assert(rs.subrange(0, i) =~= children.subrange(0, i));
                assert(rs.subrange(i + 1, rs.len() as int) =~= children.subrange(i + 1, children.len() as int));
                let before = leaf_nodes_list(children.subrange(0, i));
                let after = leaf_nodes_list(children.subrange(i + 1, children.len() as int));
                assert(leaf_nodes(a) =~= (before + pre) + leaf_nodes(find(a, t)->0) + (post + after));
                assert(leaf_nodes(replace(a, t, n)) =~= (before + pre) + leaf_nodes(n) + (post + after));
                if no_empty_splits(a) && no_empty_splits(n) {
                    assert forall|j: int| 0 <= j < rs.len() implies no_empty_splits(#[trigger] rs[j]) by {
                        if j != i {
                            assert(no_empty_splits(children[j]));
                        } else {
                            assert(no_empty_splits(children[i]));
                        }
                    }
                }
            },
        }
    }
}

/// Closing an area: the areas before and after it stay, in order, and its
/// own areas leave; a canonical tree loses no split's last child.
pub proof fn lemma_cut_leaf_nodes(a: Node, v: AreaId)
    requires
        distinct(ids(a)),
        ids(a).contains(v),
        id_of(a) != v,
        canonical(a),
    ensures
        exists|pre: Seq<Node>, post: Seq<Node>|
            leaf_nodes(a) == pre + leaf_nodes(find(a, v)->0) + post && leaf_nodes(cut(a, v))
                == pre + post,
        no_empty_splits(cut(a, v)),
    decreases a,
{
    match a {
        Node::Leaf { .. } => {
            assert(ids(a) =~= seq![id_of(a)]);
            assert(ids(a)[0] == id_of(a));
            let j = choose|j: int| 0 <= j < ids(a).len() && ids(a)[j] == v;
        },
        Node::Split { id: sid, dir, sizes, children } => {
            lemma_find_contains(a, v);
            lemma_concat_contains(seq![sid], ids_list(children), v);
            if seq![sid].contains(v) {
                assert(seq![sid][0] == v);
            }
            lemma_ids_list_in_some_child(children, v);
            let i = choose|i: int| 0 <= i < children.len() && ids(#[trigger] children[i]).contains(v);
            lemma_distinct_children(a);
            lemma_find_list_unique(children, i, v);
            lemma_pos_of(children, v);
            let p = pos_of(children, v);
            assert forall|j: int| 0 <= j < children.len() implies no_empty_splits(#[trigger] children[j]) by {
                lemma_canonical_no_empty(children[j]);
            }
            if p >= 0 {
                lemma_ids_contains_own(children[p]);
                if p != i {
                    assert(!ids(children[p]).contains(v));
                }
                assert(find(children[i], v) == Some(children[i]));
                lemma_leaf_nodes_split_at(children, i);
                let kids = children.remove(i);
                let before = leaf_nodes_list(children.subrange(0, i));
                let after = leaf_nodes_list(children.subrange(i + 1, children.len() as int));
                assert(leaf_nodes(a) =~= before + leaf_nodes(children[i]) + after);
                let m = Node::Split { id: sid, dir, sizes: drop_share(sizes, i), children: kids };
                assert forall|j: int| 0 <= j < kids.len() implies no_empty_splits(#[trigger] kids[j]) by {
                    if j < i {
                        assert(kids[j] == children[j]);
                    } else {
                        assert(kids[j] == children[j + 1]);
                    }
                }
                if kids.len() == 1 {
                    assert(kids =~= seq![kids[0]]);
                    lemma_leaf_nodes_single(kids[0]);
                }
                assert(leaf_nodes(collapse(m)) == leaf_nodes(m));
                assert(leaf_nodes(cut(a, v)) =~= before + after);
            } else {
                lemma_cut_list(children, v);
                let rs = cut_list(children, v);
                assert forall|j: int| 0 <= j < children.len() && j != i implies #[trigger] rs[j] == children[j] by {
                    assert(!ids(children[j]).contains(v));
                    if children[j] is Split && ids_list(children[j]->children).contains(v) {
                        lemma_concat_contains(seq![id_of(children[j])], ids_list(children[j]->children), v);
                    }
                    lemma_cut_absent(children[j], v);
                }
                assert(id_of(children[i]) != v);
                lemma_cut_leaf_nodes(children[i], v);
                let (pre, post) = choose|pre: Seq<Node>, post: Seq<Node>|
                    leaf_nodes(children[i]) == pre + leaf_nodes(find(children[i], v)->0) + post
                        && leaf_nodes(cut(children[i], v)) == pre + post;
                lemma_leaf_nodes_split_at(children, i);
                lemma_leaf_nodes_split_at(rs, i);
                assert(rs.subrange(0, i) =~= children.subrange(0, i));
                assert(rs.subrange(i + 1, rs.len() as int) =~= children.subrange(i + 1, children.len() as int));
                let before = leaf_nodes_list(children.subrange(0, i));
                let after = leaf_nodes_list(children.subrange(i + 1, children.len() as int));
                assert(leaf_nodes(a) =~= (before + pre) + leaf_nodes(find(a, v)->0) + (post + after));
                assert(leaf_nodes(cut(a, v)) =~= (before + pre) + (post + after));
                assert forall|j: int| 0 <= j < rs.len() implies no_empty_splits(#[trigger] rs[j]) by {
                    if j != i {
                        assert(rs[j] == children[j]);
                    }
                }
            }
        },
    }
}

/// The new area a split makes.
pub open spec fn fresh_leaf(l: Node, new_id: AreaId) -> Node {
    Node::Leaf { id: new_id, editor: l->editor, arg: l->arg, regions: default_regions() }
}

/// Splitting keeps every area and its order: the original stays where it
/// was and the new area, showing the same thing, comes right after it. A
/// canonical layout stays canonical.
pub proof fn law_split_keeps_order(
    v: LayoutView,
    target: AreaId,
    dir: Dir,
    ratio: u32,
)
    requires
        layout_ok(v),
        leaf_at(v.root, target) is Some,
    ensures
        ({
            let l = leaf_at(v.root, target)->0;
            let after = norm(
                replace(
                    v.root,
                    target,
                    split_node(l, v.next_id, (v.next_id + 1) as AreaId, dir, clamp_ratio(ratio)),
                ),
            );
            &&& exists|pre: Seq<Node>, post: Seq<Node>|
                leaf_nodes(v.root) == pre + seq![l] + post && leaf_nodes(after) == pre + seq![
                    l,
                    fresh_leaf(l, (v.next_id + 1) as AreaId),
                ] + post
            &&& canonical(v.root) ==> canonical(after)
        }),
{
    let l = leaf_at(v.root, target)->0;
    let sn = split_node(l, v.next_id, (v.next_id + 1) as AreaId, dir, clamp_ratio(ratio));
    lemma_replace_leaf_nodes(v.root, target, sn);
    lemma_norm_keeps_leaves(replace(v.root, target, sn));
    assert(leaf_nodes(l) =~= seq![l]);
    let f = fresh_leaf(l, (v.next_id + 1) as AreaId);
    assert(sn->children =~= seq![l] + seq![f]);
    lemma_leaf_nodes_list_concat(seq![l], seq![f]);
    lemma_leaf_nodes_single(l);
    lemma_leaf_nodes_single(f);
    assert(leaf_nodes(sn) =~= seq![l, f]);
    if canonical(v.root) {
        lemma_canonical_no_empty(v.root);
        assert(no_empty_splits(sn)) by {
            assert(no_empty_splits(sn->children[0]));
            assert(no_empty_splits(sn->children[1]));
        }
        lemma_norm_canonical(replace(v.root, target, sn));
    }
}

/// Joining removes exactly the closed area's areas and keeps every other
/// area in order; a canonical layout stays canonical.
pub proof fn law_join_keeps_the_rest(v: LayoutView, victim: AreaId)
    requires
        layout_ok(v),
        canonical(v.root),
        ids(v.root).contains(victim),
        id_of(v.root) != victim,
    ensures
        exists|pre: Seq<Node>, post: Seq<Node>|
            leaf_nodes(v.root) == pre + leaf_nodes(find(v.root, victim)->0) + post && leaf_nodes(
                norm(cut(v.root, victim)),
            ) == pre + post,
        canonical(norm(cut(v.root, victim))),
{
    lemma_cut_leaf_nodes(v.root, victim);
    lemma_norm_keeps_leaves(cut(v.root, victim));
    lemma_norm_canonical(cut(v.root, victim));
}

/// A moved seam changes only its two areas, keeps the whole, and leaves
/// each of the pair at least `MIN_RATIO` of their joint span.
pub proof fn law_seam_is_local(sizes: Seq<u32>, i: int, pos: u32)
    requires
        0 <= i,
        i + 1 < sizes.len(),
        sum(sizes) == SCALE,
    ensures
        ({
            let out = seam_sizes(sizes, i, pos);
            let span = sizes[i] + sizes[i + 1];
            &&& out.len() == sizes.len()
            &&& sum(out) == sum(sizes)
            &&& forall|j: int| 0 <= j < sizes.len() && j != i && j != i + 1 ==> #[trigger] out[j] == sizes[j]
            &&& out[i] + out[i + 1] == span
            &&& out[i] >= (MIN_RATIO as nat) * (span as nat) / (SCALE as nat)
            &&& out[i + 1] >= (MIN_RATIO as nat) * (span as nat) / (SCALE as nat)
        }),
{
    let lo = sum(sizes.subrange(0, i));
    let span = sizes[i] + sizes[i + 1];
    let pad = (MIN_RATIO as nat) * (span as nat) / (SCALE as nat);
    assert(pad * 2 <= span) by (nonlinear_arith)
        requires
            pad == (MIN_RATIO as nat) * (span as nat) / (SCALE as nat),
            MIN_RATIO == 50_000,
            SCALE == 1_000_000,
            span >= 0,
    ;
    lemma_sum_pair(sizes, i, 0, 0);
    let out = seam_sizes(sizes, i, pos);
    lemma_sum_pair(sizes, i, out[i], out[i + 1]);
    assert(sizes.update(i, out[i]).update(i + 1, out[i + 1]) =~= out);
}

/// Closing a split's child hands its share to the neighbour it was taken
/// from: the sibling before it, or the one after when it was first. That
/// sibling's share grows by exactly the closed one's, and every other
/// sibling keeps its own share, in order.
pub proof fn law_a_closed_share_goes_to_its_neighbour(s: Seq<u32>, p: int)
    requires
        sum(s) == SCALE,
        s.len() >= 2,
        0 <= p < s.len(),
    ensures
        drop_share(s, p).len() == s.len() - 1,
        p > 0 ==> drop_share(s, p)[p - 1] == s[p - 1] + s[p],
        p == 0 ==> drop_share(s, p)[0] == s[0] + s[1],
        forall|j: int| 0 <= j < p - 1 ==> #[trigger] drop_share(s, p)[j] == s[j],
        forall|j: int| p <= j < s.len() - 1 && j != 0 ==> #[trigger] drop_share(s, p)[j] == s[j + 1],
{
    let rest = s.remove(p);
    let nb = if p == 0 { 0 } else { p - 1 };
    crate::shares::lemma_sum_remove(s, p);
    crate::shares::lemma_sum_elem_le(rest, nb);
    let w = rest.update(nb, (rest[nb] + s[p]) as u32);
    crate::shares::lemma_sum_update(rest, nb, (rest[nb] + s[p]) as u32);
    crate::shares::lemma_apportion_whole(w, SCALE as nat);
    assert(drop_share(s, p) == w);
    if p == 0 {
        assert(rest[0] == s[1]);
    } else {
        assert(rest[p - 1] == s[p - 1]);
    }
}

/// Dragging a seam puts it where it was dragged, measured from the start of
/// the whole split: the shares before the pair plus the first of the pair
/// come to `pos` whenever `pos` leaves both of the pair their minimum, and
/// otherwise the seam stops at that minimum, never outside the pair's span.
pub proof fn law_the_seam_lands_where_dragged(sizes: Seq<u32>, i: int, pos: u32)
    requires
        0 <= i,
        i + 1 < sizes.len(),
        sum(sizes) == SCALE,
    ensures
        ({
            let lo = sum(sizes.subrange(0, i));
            let span = sizes[i] + sizes[i + 1];
            let pad = (MIN_RATIO as nat) * (span as nat) / (SCALE as nat);
            let seam = sum(seam_sizes(sizes, i, pos).subrange(0, i + 1));
            &&& lo + pad <= pos <= lo + span - pad ==> seam == pos
            &&& lo + pad <= seam <= lo + span - pad
        }),
{
    law_seam_is_local(sizes, i, pos);
    let lo = sum(sizes.subrange(0, i));
    let span = sizes[i] + sizes[i + 1];
    let pad = (MIN_RATIO as nat) * (span as nat) / (SCALE as nat);
    assert(pad * 2 <= span) by (nonlinear_arith)
        requires
            pad == (MIN_RATIO as nat) * (span as nat) / (SCALE as nat),
            MIN_RATIO == 50_000,
            SCALE == 1_000_000,
            span >= 0,
    ;
    crate::area::lemma_sum_pair(sizes, i, 0, 0);
    let out = seam_sizes(sizes, i, pos);
    assert(out.subrange(0, i + 1).drop_last() =~= sizes.subrange(0, i));
    assert(out.subrange(0, i + 1).last() == out[i]);
}

} // verus!
