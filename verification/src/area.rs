//! The area tree: the screen as a binary-then-n-ary tree of areas.
//!
//! A leaf shows one editor; a split divides its rectangle between two or more
//! children. Sizes are fixed-point shares of `SCALE`, so "the sizes of a split
//! are a partition of the whole" is an exact statement rather than a hope
//! about rounding.

use vstd::prelude::*;

use crate::shares::{apportion, apportion_vec, lemma_apportion, lemma_sum_concat, lemma_sum_elem_le, sum};

verus! {

pub type AreaId = u64;

/// The whole of a split's rectangle, in share units.
pub const SCALE: u32 = 1_000_000;

/// The smallest share a split child can be squeezed to: a twentieth, so an
/// area never collapses to nothing and its seam stays grabbable.
pub const MIN_RATIO: u32 = 50_000;

/// Which strip of an area a command is about.
#[derive(Debug, Clone, Copy, PartialEq, Eq)]
pub enum Region {
    Toolbar,
    Sidebar,
    /// The header, hidden to a stub.
    Header,
    /// The header, moved to the opposite edge.
    HeaderFlip,
}

impl Region {
    /// The name this travels under on the wire.
    pub fn as_str(self) -> (s: &'static str)
        ensures
            s@ == region_name(self)@,
    {
        match self {
            Region::Toolbar => "toolbar",
            Region::Sidebar => "sidebar",
            Region::Header => "header",
            Region::HeaderFlip => "header_flip",
        }
    }
}

/// The wire name of a region.
pub open spec fn region_name(r: Region) -> &'static str {
    match r {
        Region::Toolbar => "toolbar",
        Region::Sidebar => "sidebar",
        Region::Header => "header",
        Region::HeaderFlip => "header_flip",
    }
}

/// Which way a split lays out its children.
#[derive(Debug, Clone, Copy, PartialEq, Eq)]
pub enum Dir {
    /// Children side by side.
    Row,
    /// Children stacked.
    Col,
}

/// The collapsible strips around a leaf's body.
#[derive(Debug, Clone, Copy, PartialEq, Eq)]
pub struct Regions {
    pub toolbar: bool,
    pub sidebar: bool,
    /// Region widths in px; 0 means "use the default width".
    pub toolbar_w: u16,
    pub sidebar_w: u16,
    /// The header collapsed to a stub.
    pub header_hidden: bool,
    /// The header along the bottom edge instead of the top.
    pub header_bottom: bool,
}

pub open spec fn default_regions() -> Regions {
    Regions {
        toolbar: false,
        sidebar: false,
        toolbar_w: 0,
        sidebar_w: 0,
        header_hidden: false,
        header_bottom: false,
    }
}

impl Regions {
    /// The regions a new area starts with: the defaults.
    pub fn new() -> (r: Regions)
        ensures
            r == default_regions(),
    {
        Regions {
            toolbar: false,
            sidebar: false,
            toolbar_w: 0,
            sidebar_w: 0,
            header_hidden: false,
            header_bottom: false,
        }
    }

    /// Whether these are the untouched defaults (so a saved leaf can omit them).
    pub fn is_default(&self) -> (b: bool)
        ensures
            b == (*self == default_regions()),
    {
        !self.toolbar && !self.sidebar && self.toolbar_w == 0 && self.sidebar_w == 0
            && !self.header_hidden && !self.header_bottom
    }
}

/// An area: a leaf showing an editor, or a split with children and the
/// shares between them.
pub enum Area {
    Leaf {
        id: AreaId,
        /// The editor kind this area shows: a registry key the host resolves.
        editor: String,
        /// An optional argument the editor interprets: which run, which file.
        arg: Option<String>,
        regions: Regions,
    },
    Split {
        id: AreaId,
        dir: Dir,
        /// Each child's share of `SCALE`, in order.
        sizes: Vec<u32>,
        children: Vec<Area>,
    },
}

/// The mathematical model of an area: what the tree holds, with the text as
/// character sequences and the vectors as sequences.
pub enum Node {
    Leaf { id: AreaId, editor: Seq<char>, arg: Option<Seq<char>>, regions: Regions },
    Split { id: AreaId, dir: Dir, sizes: Seq<u32>, children: Seq<Node> },
}

pub open spec fn opt_view(o: Option<String>) -> Option<Seq<char>> {
    match o {
        Some(s) => Some(s@),
        None => None,
    }
}

pub open spec fn node_of(a: Area) -> Node
    decreases a,
{
    match a {
        Area::Leaf { id, editor, arg, regions } => Node::Leaf {
            id,
            editor: editor@,
            arg: opt_view(arg),
            regions,
        },
        Area::Split { id, dir, sizes, children } => Node::Split {
            id,
            dir,
            sizes: sizes@,
            children: nodes_of(children@),
        },
    }
}

pub open spec fn nodes_of(s: Seq<Area>) -> Seq<Node>
    decreases s,
{
    if s.len() == 0 {
        seq![]
    } else {
        nodes_of(s.drop_last()).push(node_of(s.last()))
    }
}

impl View for Area {
    type V = Node;

    open spec fn view(&self) -> Node {
        node_of(*self)
    }
}

pub open spec fn id_of(a: Node) -> AreaId {
    match a {
        Node::Leaf { id, .. } => id,
        Node::Split { id, .. } => id,
    }
}

/// Every id in the tree, in preorder.
pub open spec fn ids(a: Node) -> Seq<AreaId>
    decreases a,
{
    match a {
        Node::Leaf { id, .. } => seq![id],
        Node::Split { id, children, .. } => seq![id] + ids_list(children),
    }
}

pub open spec fn ids_list(s: Seq<Node>) -> Seq<AreaId>
    decreases s,
{
    if s.len() == 0 {
        seq![]
    } else {
        ids_list(s.drop_last()) + ids(s.last())
    }
}

/// The leaf ids in screen order (depth first, children in order).
pub open spec fn leaves(a: Node) -> Seq<AreaId>
    decreases a,
{
    match a {
        Node::Leaf { id, .. } => seq![id],
        Node::Split { children, .. } => leaves_list(children),
    }
}

pub open spec fn leaves_list(s: Seq<Node>) -> Seq<AreaId>
    decreases s,
{
    if s.len() == 0 {
        seq![]
    } else {
        leaves_list(s.drop_last()) + leaves(s.last())
    }
}

/// The subtree with this id, the first in preorder if several share it.
pub open spec fn find(a: Node, id: AreaId) -> Option<Node>
    decreases a,
{
    if id_of(a) == id {
        Some(a)
    } else {
        match a {
            Node::Leaf { .. } => None,
            Node::Split { children, .. } => find_list(children, id),
        }
    }
}

pub open spec fn find_list(s: Seq<Node>, id: AreaId) -> Option<Node>
    decreases s,
{
    if s.len() == 0 {
        None
    } else {
        match find_list(s.drop_last(), id) {
            Some(x) => Some(x),
            None => find(s.last(), id),
        }
    }
}

/// The tree with the subtree named `id` replaced by `new`.
pub open spec fn replace(a: Node, id: AreaId, new: Node) -> Node
    decreases a,
{
    if id_of(a) == id {
        new
    } else {
        match a {
            Node::Leaf { .. } => a,
            Node::Split { id: sid, dir, sizes, children } => Node::Split {
                id: sid,
                dir,
                sizes,
                children: replace_list(children, id, new),
            },
        }
    }
}

pub open spec fn replace_list(s: Seq<Node>, id: AreaId, new: Node) -> Seq<Node>
    decreases s,
{
    if s.len() == 0 {
        seq![]
    } else {
        replace_list(s.drop_last(), id, new).push(replace(s.last(), id, new))
    }
}


pub proof fn lemma_nodes_of(s: Seq<Area>)
    ensures
        nodes_of(s).len() == s.len(),
        forall|i: int| 0 <= i < s.len() ==> #[trigger] nodes_of(s)[i] == node_of(s[i]),
    decreases s.len(),
{
    if s.len() > 0 {
        lemma_nodes_of(s.drop_last());
    }
}

pub proof fn lemma_concat_contains<A>(a: Seq<A>, b: Seq<A>, x: A)
    ensures
        (a + b).contains(x) == (a.contains(x) || b.contains(x)),
{
    if a.contains(x) {
        let i = choose|i: int| 0 <= i < a.len() && a[i] == x;
        assert((a + b)[i] == x);
    }
    if b.contains(x) {
        let i = choose|i: int| 0 <= i < b.len() && b[i] == x;
        assert((a + b)[a.len() + i] == x);
    }
    if (a + b).contains(x) {
        let i = choose|i: int| 0 <= i < (a + b).len() && (a + b)[i] == x;
        if i < a.len() {
            assert(a[i] == x);
        } else {
            assert(b[i - a.len()] == x);
        }
    }
}

/// The prefix of a children list grows by one child at a time.
pub proof fn lemma_prefix_step(s: Seq<Area>, i: int)
    requires
        0 <= i < s.len(),
    ensures
        nodes_of(s).subrange(0, i + 1).drop_last() == nodes_of(s).subrange(0, i),
        nodes_of(s).subrange(0, i + 1).last() == node_of(s[i]),
        nodes_of(s).subrange(0, i + 1).len() == i + 1,
{
    lemma_nodes_of(s);
    assert(nodes_of(s).subrange(0, i + 1).drop_last() =~= nodes_of(s).subrange(0, i));
}

pub proof fn lemma_ids_list_concat(a: Seq<Node>, b: Seq<Node>)
    ensures
        ids_list(a + b) == ids_list(a) + ids_list(b),
    decreases b.len(),
{
    if b.len() == 0 {
        assert(a + b =~= a);
    } else {
        lemma_ids_list_concat(a, b.drop_last());
        assert((a + b).drop_last() =~= a + b.drop_last());
        assert((a + b).last() == b.last());
    }
}

pub proof fn lemma_leaves_list_concat(a: Seq<Node>, b: Seq<Node>)
    ensures
        leaves_list(a + b) == leaves_list(a) + leaves_list(b),
    decreases b.len(),
{
    if b.len() == 0 {
        assert(a + b =~= a);
    } else {
        lemma_leaves_list_concat(a, b.drop_last());
        assert((a + b).drop_last() =~= a + b.drop_last());
        assert((a + b).last() == b.last());
    }
}

/// A child's ids are among its parent list's ids.
pub proof fn lemma_ids_list_member(s: Seq<Node>, i: int, x: AreaId)
    requires
        0 <= i < s.len(),
        ids(s[i]).contains(x),
    ensures
        ids_list(s).contains(x),
{
    lemma_ids_list_concat(s.subrange(0, i), s.subrange(i, s.len() as int));
    assert(s =~= s.subrange(0, i) + s.subrange(i, s.len() as int));
    let t = s.subrange(i, s.len() as int);
    lemma_ids_list_concat(seq![s[i]], t.subrange(1, t.len() as int));
    assert(t =~= seq![s[i]] + t.subrange(1, t.len() as int));
    assert(seq![s[i]].drop_last() =~= Seq::<Node>::empty());
    assert(seq![s[i]].last() == s[i]);
    assert(ids_list(Seq::<Node>::empty()) == Seq::<AreaId>::empty());
    assert(ids_list(seq![s[i]]) =~= ids(s[i]));
    lemma_concat_contains(ids(s[i]), ids_list(t.subrange(1, t.len() as int)), x);
    lemma_concat_contains(ids_list(s.subrange(0, i)), ids_list(t), x);
}

impl Area {
    /// This area's id.
    pub fn id(&self) -> (r: AreaId)
        ensures
            r == id_of(self@),
    {
        match self {
            Area::Leaf { id, .. } => *id,
            Area::Split { id, .. } => *id,
        }
    }

    /// Whether any node of this subtree carries `id`.
    #[verifier::loop_isolation(false)]
    pub fn contains(&self, id: AreaId) -> (r: bool)
        ensures
            r == ids(self@).contains(id),
        decreases self,
    {
        match self {
            Area::Leaf { id: own, .. } => {
                assert(ids(self@) == seq![*own]);
                assert(seq![*own][0] == *own);
                *own == id
            },
            Area::Split { id: own, children, .. } => {
                let ghost ns = nodes_of(children@);
                proof {
                    lemma_nodes_of(children@);
                    lemma_concat_contains(seq![*own], ids_list(ns), id);
                    assert(seq![*own][0] == *own);
                }
                if *own == id {
                    return true;
                }
                let mut i: usize = 0;
                while i < children.len()
                    invariant
                        i <= children.len(),
                        ns == nodes_of(children@),
                        ns.len() == children@.len(),
                        !ids_list(ns.subrange(0, i as int)).contains(id),
                    decreases children.len() - i,
                {
                    proof {
                        lemma_prefix_step(children@, i as int);
                        lemma_concat_contains(
                            ids_list(ns.subrange(0, i as int)),
                            ids(node_of(children@[i as int])),
                            id,
                        );
                    }
                    assert(decreases_to!(*self => children));
                    assert(decreases_to!(children => children@));
                    assert(decreases_to!(children@ => children@[i as int]));
                    if children[i].contains(id) {
                        proof {
                            lemma_ids_list_member(ns, i as int, id);
                        }
                        return true;
                    }
                    i += 1;
                }
                assert(ns.subrange(0, i as int) == ns);
                false
            },
        }
    }
}


/// The share of child `i`, or nothing for a child the sizes do not cover.
pub open spec fn slot(sizes: Seq<u32>, i: int) -> u32 {
    if 0 <= i < sizes.len() {
        sizes[i]
    } else {
        0
    }
}

/// A grandchild's share once its parent dissolves into the grandparent:
/// its share of the parent, scaled into the parent's slot.
pub open spec fn scaled(c: u32, slot: u32) -> u32 {
    ((c as nat) * (slot as nat) / (SCALE as nat)) as u32
}

/// A split running in this direction.
pub open spec fn is_split_in(n: Node, dir: Dir) -> bool {
    n matches Node::Split { dir: d, .. } && d == dir
}

/// The children of a split once same-direction child splits dissolve into it.
pub open spec fn gather_children(dir: Dir, cs: Seq<Node>) -> Seq<Node>
    decreases cs.len(),
{
    if cs.len() == 0 {
        seq![]
    } else {
        gather_children(dir, cs.drop_last()) + if is_split_in(cs.last(), dir) {
            cs.last()->children
        } else {
            seq![cs.last()]
        }
    }
}

/// Their shares before the whole is renormalized.
pub open spec fn gather_sizes(dir: Dir, sizes: Seq<u32>, cs: Seq<Node>) -> Seq<u32>
    decreases cs.len(),
{
    if cs.len() == 0 {
        seq![]
    } else {
        let k = cs.len() - 1;
        gather_sizes(dir, sizes, cs.drop_last()) + if is_split_in(cs.last(), dir) {
            Seq::new(
                cs.last()->children.len(),
                |j: int| scaled(slot(cs.last()->sizes, j), slot(sizes, k)),
            )
        } else {
            seq![slot(sizes, k)]
        }
    }
}

/// The canonical form of a tree: every split's children normalized, child
/// splits running the same way dissolved into their parent, the shares
/// renormalized to `SCALE`, and a split left with one child replaced by it.
pub open spec fn norm(a: Node) -> Node
    decreases a,
{
    match a {
        Node::Leaf { .. } => a,
        Node::Split { id, dir, sizes, children } => {
            let cs = norm_list(children);
            let nc = gather_children(dir, cs);
            if nc.len() == 1 {
                nc[0]
            } else {
                Node::Split {
                    id,
                    dir,
                    sizes: apportion(gather_sizes(dir, sizes, cs), SCALE as nat),
                    children: nc,
                }
            }
        },
    }
}

pub open spec fn norm_list(s: Seq<Node>) -> Seq<Node>
    decreases s,
{
    if s.len() == 0 {
        seq![]
    } else {
        norm_list(s.drop_last()).push(norm(s.last()))
    }
}

pub proof fn lemma_nodes_of_concat(a: Seq<Area>, b: Seq<Area>)
    ensures
        nodes_of(a + b) == nodes_of(a) + nodes_of(b),
{
    lemma_nodes_of(a);
    lemma_nodes_of(b);
    lemma_nodes_of(a + b);
    assert(nodes_of(a + b) =~= nodes_of(a) + nodes_of(b));
}

pub proof fn lemma_norm_list(s: Seq<Node>)
    ensures
        norm_list(s).len() == s.len(),
        forall|i: int| 0 <= i < s.len() ==> #[trigger] norm_list(s)[i] == norm(s[i]),
    decreases s.len(),
{
    if s.len() > 0 {
        lemma_norm_list(s.drop_last());
    }
}

pub proof fn lemma_gather_lens(dir: Dir, sizes: Seq<u32>, cs: Seq<Node>)
    ensures
        gather_sizes(dir, sizes, cs).len() == gather_children(dir, cs).len(),
    decreases cs.len(),
{
    if cs.len() > 0 {
        lemma_gather_lens(dir, sizes, cs.drop_last());
    }
}


/// A tree whose every split has one share per child, each at most `SCALE`.
pub open spec fn shaped(n: Node) -> bool
    decreases n,
{
    match n {
        Node::Leaf { .. } => true,
        Node::Split { sizes, children, .. } => {
            &&& sizes.len() == children.len()
            &&& children.len() > 0 ==> sum(sizes) == SCALE
            &&& forall|j: int| 0 <= j < sizes.len() ==> #[trigger] sizes[j] <= SCALE
            &&& forall|i: int| 0 <= i < children.len() ==> shaped(#[trigger] children[i])
        },
    }
}

proof fn lemma_gather_shaped(dir: Dir, cs: Seq<Node>)
    requires
        forall|i: int| 0 <= i < cs.len() ==> shaped(#[trigger] cs[i]),
    ensures
        forall|i: int|
            0 <= i < gather_children(dir, cs).len() ==> shaped(
                #[trigger] gather_children(dir, cs)[i],
            ),
    decreases cs.len(),
{
    if cs.len() > 0 {
        lemma_gather_shaped(dir, cs.drop_last());
        let prev = gather_children(dir, cs.drop_last());
        let add = if is_split_in(cs.last(), dir) {
            cs.last()->children
        } else {
            seq![cs.last()]
        };
        assert(shaped(cs.last()));
        assert forall|i: int| 0 <= i < (prev + add).len() implies shaped(#[trigger] (prev + add)[i]) by {
            if i >= prev.len() {
                assert((prev + add)[i] == add[i - prev.len()]);
            }
        }
    }
}

/// Normalizing always yields a shaped tree.
pub proof fn lemma_norm_shaped(a: Node)
    ensures
        shaped(norm(a)),
    decreases a,
{
    match a {
        Node::Leaf { .. } => {},
        Node::Split { id, dir, sizes, children } => {
            let cs = norm_list(children);
            lemma_norm_list(children);
            assert forall|i: int| 0 <= i < cs.len() implies shaped(#[trigger] cs[i]) by {
                lemma_norm_shaped(children[i]);
            }
            lemma_gather_shaped(dir, cs);
            let nc = gather_children(dir, cs);
            let gs = gather_sizes(dir, sizes, cs);
            lemma_gather_lens(dir, sizes, cs);
            if nc.len() != 1 && gs.len() > 0 {
                lemma_apportion(gs, SCALE as nat);
            }
        },
    }
}

fn same_dir(a: Dir, b: Dir) -> (r: bool)
    ensures
        r == (a == b),
{
    match (a, b) {
        (Dir::Row, Dir::Row) => true,
        (Dir::Col, Dir::Col) => true,
        _ => false,
    }
}

/// The canonical form of a tree; see `norm`.
pub fn normalize(a: Area) -> (r: Area)
    ensures
        r@ == norm(a@),
    decreases a,
{
    let ghost ga = a;
    let is_leaf = match &a {
        Area::Leaf { .. } => true,
        Area::Split { .. } => false,
    };
    if is_leaf {
        return a;
    }
    match a {
        Area::Leaf { id, editor, arg, regions } => {
            assert(false);
            Area::Leaf { id, editor, arg, regions }
        },
        Area::Split { id, dir, sizes, children } => {
            assert(decreases_to!(ga => children));
            let ghost kn = nodes_of(children@);
            assert(ga@ == Node::Split { id, dir, sizes: sizes@, children: kn });
            let ghost want = norm(ga@);
            let cs = normalize_all(children);
            proof {
                lemma_nodes_of(cs@);
                assert forall|i: int| 0 <= i < cs@.len() implies shaped(#[trigger] nodes_of(cs@)[i]) by {
                    lemma_norm_list(kn);
                    lemma_norm_shaped(kn[i]);
                }
            }
            let (gs, gc) = gather(dir, &sizes, cs);
            let out_sizes = apportion_vec(&gs, SCALE);
            proof {
                lemma_nodes_of(gc@);
            }
            if gc.len() == 1 {
                let mut gc = gc;
                let ghost gcv = gc@;
                proof {
                    lemma_nodes_of(gcv);
                }
                let only = gc.pop().unwrap();
                assert(only == gcv[0]);
                assert(nodes_of(gcv)[0] == only@);
                assert(only@ == want);
                only
            } else {
                let r = Area::Split { id, dir, sizes: out_sizes, children: gc };
                assert(r@ == want);
                r
            }
        },
    }
}

/// Every child normalized, in order.
#[verifier::loop_isolation(false)]
pub fn normalize_all(children: Vec<Area>) -> (cs: Vec<Area>)
    ensures
        nodes_of(cs@) == norm_list(nodes_of(children@)),
    decreases children,
{
    let ghost kids = children@;
    let ghost gch = children;
    let ghost kn = nodes_of(kids);
    proof {
        lemma_nodes_of(kids);
        lemma_norm_list(kn);
    }
    let n = children.len();
    let mut rest = children;
    let mut cs: Vec<Area> = Vec::new();
    let mut k: usize = 0;
    while k < n
        invariant
            n == kids.len(),
            k <= n,
            kn == nodes_of(kids),
            kn.len() == n,
            gch@ == kids,
            rest@ == kids.subrange(k as int, n as int),
            cs@.len() == k,
            forall|i: int| 0 <= i < n ==> #[trigger] kn[i] == node_of(kids[i]),
            forall|i: int| 0 <= i < k ==> node_of(#[trigger] cs@[i]) == norm(kn[i]),
        decreases n - k,
    {
        let c = rest.remove(0);
        assert(c == kids[k as int]);
        assert(decreases_to!(gch => gch@));
        assert(decreases_to!(gch@ => gch@[k as int]));
        assert(decreases_to!(gch => c));
        let nc = normalize(c);
        cs.push(nc);
        k += 1;
    }
    proof {
        lemma_nodes_of(cs@);
        assert(nodes_of(cs@) =~= norm_list(kn));
    }
    cs
}

/// Dissolve same-direction child splits into this one: the gathered shares
/// (before renormalizing) and children.
#[verifier::loop_isolation(false)]
pub fn gather(dir: Dir, sizes: &Vec<u32>, cs: Vec<Area>) -> (r: (Vec<u32>, Vec<Area>))
    requires
        forall|i: int| 0 <= i < cs@.len() ==> shaped(#[trigger] nodes_of(cs@)[i]),
    ensures
        r.0@ == gather_sizes(dir, sizes@, nodes_of(cs@)),
        nodes_of(r.1@) == gather_children(dir, nodes_of(cs@)),
{
    let ghost csn = nodes_of(cs@);
    let ghost cs0 = cs@;
    proof {
        lemma_nodes_of(cs0);
    }
    let n = cs.len();
    let mut gs: Vec<u32> = Vec::new();
    let mut gc: Vec<Area> = Vec::new();
    let mut rest2 = cs;
    let mut k2: usize = 0;
    while k2 < n
        invariant
            k2 <= n,
            cs0.len() == n,
            rest2@ == cs0.subrange(k2 as int, n as int),
            nodes_of(gc@) == gather_children(dir, csn.subrange(0, k2 as int)),
            gs@ == gather_sizes(dir, sizes@, csn.subrange(0, k2 as int)),
        decreases n - k2,
    {
        let c = rest2.remove(0);
        assert(c == cs0[k2 as int]);
        let ghost cn = node_of(c);
        assert(cn == csn[k2 as int]);
        assert(csn.subrange(0, k2 + 1).drop_last() =~= csn.subrange(0, k2 as int));
        assert(csn.subrange(0, k2 + 1).last() == cn);
        let sl: u32 = if k2 < sizes.len() {
            sizes[k2]
        } else {
            0
        };
        assert(sl == slot(sizes@, k2 as int));
        let same = match &c {
            Area::Split { dir: d, .. } => same_dir(*d, dir),
            _ => false,
        };
        assert(same == is_split_in(cn, dir));
        if same {
            let (add_sizes, add_children) = dissolve(c, sl);
            let ghost gs_before = gs@;
            let ghost gc_before = gc@;
            let mut add_sizes = add_sizes;
            let mut add_children = add_children;
            let ghost ac = add_children@;
            gs.append(&mut add_sizes);
            gc.append(&mut add_children);
            proof {
                lemma_nodes_of_concat(gc_before, ac);
            }
        } else {
            gs.push(sl);
            let ghost gc_before = gc@;
            gc.push(c);
            proof {
                lemma_nodes_of_concat(gc_before, seq![c]);
                assert(gc@ =~= gc_before + seq![c]);
                assert(seq![c].drop_last() =~= Seq::<Area>::empty());
                assert(seq![c].last() == c);
                assert(nodes_of(Seq::<Area>::empty()) =~= Seq::<Node>::empty());
                assert(nodes_of(seq![c]) =~= seq![cn]);
            }
        }
        k2 += 1;
    }
    assert(csn.subrange(0, n as int) =~= csn);
    (gs, gc)
}

/// A child split's children and their shares scaled into the slot it held.
fn dissolve(c: Area, sl: u32) -> (r: (Vec<u32>, Vec<Area>))
    requires
        c matches Area::Split { .. },
        shaped(c@),
    ensures
        r.0@ == Seq::new(c@->children.len(), |t: int| scaled(slot(c@->sizes, t), sl)),
        nodes_of(r.1@) == c@->children,
{
    match c {
        Area::Split { sizes: csz, children: cch, .. } => {
            proof {
                lemma_nodes_of(cch@);
            }
            let mut gs: Vec<u32> = Vec::new();
            let mut j: usize = 0;
            while j < cch.len()
                invariant
                    j <= cch.len(),
                    csz@.len() == cch@.len(),
                    forall|t: int| 0 <= t < csz@.len() ==> #[trigger] csz@[t] <= SCALE,
                    gs@ == Seq::new(j as nat, |t: int| scaled(slot(csz@, t), sl)),
                decreases cch.len() - j,
            {
                let cv = csz[j];
                assert((cv as u64) * (sl as u64) <= (SCALE as u64) * (u32::MAX as u64)) by (nonlinear_arith)
                    requires
                        cv <= SCALE,
                ;
                let big: u64 = (cv as u64) * (sl as u64);
                assert(big / (SCALE as u64) <= sl) by (nonlinear_arith)
                    requires
                        big == (cv as nat) * (sl as nat),
                        cv <= SCALE,
                ;
                let v = (big / (SCALE as u64)) as u32;
                gs.push(v);
                assert(gs@ =~= Seq::new((j + 1) as nat, |t: int| scaled(slot(csz@, t), sl)));
                j += 1;
            }
            (gs, cch)
        },
        Area::Leaf { .. } => (Vec::new(), Vec::new()),
    }
}


/// How many times `x` occurs in `s`.
pub open spec fn count(s: Seq<AreaId>, x: AreaId) -> nat
    decreases s.len(),
{
    if s.len() == 0 {
        0
    } else {
        count(s.drop_last(), x) + if s.last() == x {
            1nat
        } else {
            0nat
        }
    }
}

/// No id occurs twice.
pub open spec fn distinct(s: Seq<AreaId>) -> bool {
    forall|x: AreaId| #[trigger] count(s, x) <= 1
}

pub proof fn lemma_count_concat(a: Seq<AreaId>, b: Seq<AreaId>, x: AreaId)
    ensures
        count(a + b, x) == count(a, x) + count(b, x),
    decreases b.len(),
{
    if b.len() == 0 {
        assert(a + b =~= a);
    } else {
        lemma_count_concat(a, b.drop_last(), x);
        assert((a + b).drop_last() =~= a + b.drop_last());
    }
}

pub proof fn lemma_count_contains(s: Seq<AreaId>, x: AreaId)
    ensures
        s.contains(x) == (count(s, x) > 0),
    decreases s.len(),
{
    if s.len() > 0 {
        lemma_count_contains(s.drop_last(), x);
        if s.drop_last().contains(x) {
            let i = choose|i: int| 0 <= i < s.drop_last().len() && s.drop_last()[i] == x;
            assert(s[i] == x);
        }
        if s.contains(x) && s.last() != x {
            let i = choose|i: int| 0 <= i < s.len() && s[i] == x;
            assert(s.drop_last()[i] == x);
        }
        if s.last() == x {
            assert(s[s.len() - 1] == x);
        }
    }
}

pub proof fn lemma_count_single(y: AreaId, x: AreaId)
    ensures
        count(seq![y], x) == if y == x { 1nat } else { 0nat },
{
    assert(seq![y].drop_last() =~= Seq::<AreaId>::empty());
    assert(seq![y].last() == y);
    assert(count(Seq::<AreaId>::empty(), x) == 0);
}

/// The ids of a list, split around element `i`.
pub proof fn lemma_ids_list_split(s: Seq<Node>, i: int, x: AreaId)
    requires
        0 <= i < s.len(),
    ensures
        count(ids_list(s), x) == count(ids_list(s.subrange(0, i)), x) + count(ids(s[i]), x)
            + count(ids_list(s.subrange(i + 1, s.len() as int)), x),
{
    let a = s.subrange(0, i);
    let b = s.subrange(i + 1, s.len() as int);
    assert(s =~= a + seq![s[i]] + b);
    lemma_ids_list_concat(a + seq![s[i]], b);
    lemma_ids_list_concat(a, seq![s[i]]);
    assert(seq![s[i]].drop_last() =~= Seq::<Node>::empty());
    assert(seq![s[i]].last() == s[i]);
    assert(ids_list(Seq::<Node>::empty()) == Seq::<AreaId>::empty());
    assert(ids_list(seq![s[i]]) =~= ids(s[i]));
    lemma_count_concat(ids_list(a) + ids(s[i]), ids_list(b), x);
    lemma_count_concat(ids_list(a), ids(s[i]), x);
}

/// Two different children of a list never share an id of a distinct list.
pub proof fn lemma_ids_list_two(s: Seq<Node>, i: int, j: int, x: AreaId)
    requires
        0 <= i < j < s.len(),
    ensures
        count(ids(s[i]), x) + count(ids(s[j]), x) <= count(ids_list(s), x),
{
    lemma_ids_list_split(s, j, x);
    let a = s.subrange(0, j);
    lemma_ids_list_split(a, i, x);
    assert(a[i] == s[i]);
}

/// The ids of a split: its own, then its children's.
pub proof fn lemma_ids_split(a: Node, x: AreaId)
    requires
        a is Split,
    ensures
        count(ids(a), x) == (if a->Split_id == x { 1nat } else { 0nat }) + count(
            ids_list(a->children),
            x,
        ),
{
    lemma_count_concat(seq![a->Split_id], ids_list(a->children), x);
    lemma_count_single(a->Split_id, x);
}

pub proof fn lemma_ids_contains_own(a: Node)
    ensures
        ids(a).contains(id_of(a)),
        count(ids(a), id_of(a)) >= 1,
{
    match a {
        Node::Leaf { id, .. } => {
            assert(ids(a)[0] == id);
        },
        Node::Split { id, children, .. } => {
            assert(ids(a)[0] == id);
        },
    }
    lemma_count_contains(ids(a), id_of(a));
}

/// Replacing an id the tree does not hold changes nothing.
pub proof fn lemma_replace_absent(a: Node, id: AreaId, new: Node)
    requires
        !ids(a).contains(id),
    ensures
        replace(a, id, new) == a,
    decreases a,
{
    lemma_ids_contains_own(a);
    match a {
        Node::Leaf { .. } => {},
        Node::Split { id: sid, dir, sizes, children } => {
            lemma_concat_contains(seq![sid], ids_list(children), id);
            lemma_replace_list_absent(children, id, new);
        },
    }
}

pub proof fn lemma_replace_list_absent(s: Seq<Node>, id: AreaId, new: Node)
    requires
        !ids_list(s).contains(id),
    ensures
        replace_list(s, id, new) == s,
    decreases s,
{
    if s.len() > 0 {
        lemma_concat_contains(ids_list(s.drop_last()), ids(s.last()), id);
        lemma_replace_list_absent(s.drop_last(), id, new);
        lemma_replace_absent(s.last(), id, new);
        assert(s.drop_last().push(s.last()) =~= s);
    }
}

pub proof fn lemma_replace_list(s: Seq<Node>, id: AreaId, new: Node)
    ensures
        replace_list(s, id, new).len() == s.len(),
        forall|i: int|
            0 <= i < s.len() ==> #[trigger] replace_list(s, id, new)[i] == replace(s[i], id, new),
    decreases s.len(),
{
    if s.len() > 0 {
        lemma_replace_list(s.drop_last(), id, new);
    }
}


/// A distinct tree's children are distinct, and no id sits under two of them.
pub proof fn lemma_distinct_children(a: Node)
    requires
        a is Split,
        distinct(ids(a)),
    ensures
        forall|i: int| 0 <= i < a->children.len() ==> distinct(ids(#[trigger] a->children[i])),
        forall|i: int, j: int, x: AreaId|
            0 <= i < a->children.len() && 0 <= j < a->children.len() && i != j
                && #[trigger] ids(a->children[i]).contains(x) ==> !#[trigger] ids(
                a->children[j],
            ).contains(x),
        forall|i: int| 0 <= i < a->children.len() ==> !ids(#[trigger] a->children[i]).contains(a->Split_id),
{
    let cs = a->children;
    assert forall|i: int| 0 <= i < cs.len() implies distinct(ids(#[trigger] cs[i])) by {
        assert forall|x: AreaId| #[trigger] count(ids(cs[i]), x) <= 1 by {
            lemma_ids_list_split(cs, i, x);
            lemma_ids_split(a, x);
        }
    }
    assert forall|i: int, j: int, x: AreaId|
        0 <= i < cs.len() && 0 <= j < cs.len() && i != j && #[trigger] ids(cs[i]).contains(
            x,
        ) implies !#[trigger] ids(cs[j]).contains(x) by {
        lemma_ids_split(a, x);
        lemma_count_contains(ids(cs[i]), x);
        lemma_count_contains(ids(cs[j]), x);
        if i < j {
            lemma_ids_list_two(cs, i, j, x);
        } else {
            lemma_ids_list_two(cs, j, i, x);
        }
    }
    assert forall|i: int| 0 <= i < cs.len() implies !ids(#[trigger] cs[i]).contains(a->Split_id) by {
        lemma_ids_split(a, a->Split_id);
        lemma_ids_list_split(cs, i, a->Split_id);
        lemma_count_contains(ids(cs[i]), a->Split_id);
    }
}

impl Area {
    /// The subtree named `id`, if this tree holds one.
    #[verifier::loop_isolation(false)]
    pub fn find(&self, id: AreaId) -> (r: Option<&Area>)
        ensures
            match r {
                Some(x) => find(self@, id) == Some(x@),
                None => find(self@, id) is None,
            },
        decreases self,
    {
        if self.id() == id {
            return Some(self);
        }
        match self {
            Area::Leaf { .. } => None,
            Area::Split { children, .. } => {
                let ghost ns = nodes_of(children@);
                proof {
                    lemma_nodes_of(children@);
                }
                let mut i: usize = 0;
                while i < children.len()
                    invariant
                        i <= children.len(),
                        find_list(ns.subrange(0, i as int), id) is None,
                    decreases children.len() - i,
                {
                    proof {
                        lemma_prefix_step(children@, i as int);
                    }
                    assert(decreases_to!(*self => children));
                    assert(decreases_to!(children => children@));
                    assert(decreases_to!(children@ => children@[i as int]));
                    let hit = children[i].find(id);
                    if hit.is_some() {
                        proof {
                            lemma_find_list_prefix(ns, (i + 1) as int, id);
                        }
                        return hit;
                    }
                    i += 1;
                }
                assert(ns.subrange(0, i as int) =~= ns);
                None
            },
        }
    }
}

/// A hit in a prefix of a list is the list's hit.
pub proof fn lemma_find_list_prefix(s: Seq<Node>, k: int, id: AreaId)
    requires
        0 <= k <= s.len(),
        find_list(s.subrange(0, k), id) is Some,
    ensures
        find_list(s, id) == find_list(s.subrange(0, k), id),
    decreases s.len() - k,
{
    if k < s.len() {
        assert(s.subrange(0, k + 1).drop_last() =~= s.subrange(0, k));
        lemma_find_list_prefix(s, k + 1, id);
    } else {
        assert(s.subrange(0, k) =~= s);
    }
}

/// The tree with the subtree named `id` replaced by `new`.
#[verifier::loop_isolation(false)]
pub fn replaced(a: Area, id: AreaId, new: Area) -> (r: Area)
    requires
        distinct(ids(a@)),
    ensures
        r@ == replace(a@, id, new@),
    decreases a,
{
    if a.id() == id {
        return new;
    }
    let is_leaf = match &a {
        Area::Leaf { .. } => true,
        Area::Split { .. } => false,
    };
    if is_leaf {
        return a;
    }
    let ghost ga = a;
    match a {
        Area::Leaf { id: lid, editor, arg, regions } => {
            assert(false);
            Area::Leaf { id: lid, editor, arg, regions }
        },
        Area::Split { id: sid, dir, sizes, children } => {
            let ghost kids = children@;
            let ghost kn = nodes_of(kids);
            proof {
                lemma_nodes_of(kids);
                lemma_distinct_children(ga@);
                lemma_replace_list(kn, id, new@);
            }
            let mut children = children;
            let mut i: usize = 0;
            let mut found = false;
            while i < children.len()
                invariant
                    children@ == kids,
                    i <= kids.len(),
                    forall|j: int| 0 <= j < i ==> !ids(#[trigger] kn[j]).contains(id),
                    found ==> i < kids.len() && ids(kn[i as int]).contains(id),
                decreases children.len() - i + (if found { 0int } else { 1int }),
            {
                if children[i].contains(id) {
                    found = true;
                    break;
                }
                i += 1;
            }
            if found {
                let c = children.remove(i);
                assert(c == kids[i as int]);
                assert(decreases_to!(ga => kids[i as int]));
                assert(ga@->children == kn);
                assert(distinct(ids(ga@->children[i as int])));
                assert(c@ == kn[i as int]);
                let c2 = replaced(c, id, new);
                children.insert(i, c2);
                proof {
                    lemma_nodes_of(children@);
                    assert forall|j: int| 0 <= j < kn.len() && j != i implies !ids(#[trigger] kn[j]).contains(id) by {
                        if j > i {
                            assert(ids(kn[i as int]).contains(id));
                        }
                    }
                    assert forall|j: int| 0 <= j < kn.len() && j != i implies #[trigger] replace(kn[j], id, new@) == kn[j] by {
                        lemma_replace_absent(kn[j], id, new@);
                    }
                    assert(nodes_of(children@) =~= replace_list(kn, id, new@));
                }
            } else {
                proof {
                    assert forall|j: int| 0 <= j < kn.len() implies #[trigger] replace(kn[j], id, new@) == kn[j] by {
                        lemma_replace_absent(kn[j], id, new@);
                    }
                    assert(kn =~= replace_list(kn, id, new@));
                }
            }
            Area::Split { id: sid, dir, sizes, children }
        },
    }
}


pub proof fn lemma_find_contains(a: Node, x: AreaId)
    ensures
        (find(a, x) is Some) == ids(a).contains(x),
        find(a, x) is Some ==> id_of(find(a, x)->0) == x,
    decreases a,
{
    lemma_ids_contains_own(a);
    match a {
        Node::Leaf { id, .. } => {
            assert(ids(a) =~= seq![id]);
            if ids(a).contains(x) {
                assert(ids(a)[0] == x);
            }
        },
        Node::Split { id, children, .. } => {
            lemma_find_list_contains(children, x);
            lemma_concat_contains(seq![id], ids_list(children), x);
            if seq![id].contains(x) {
                assert(seq![id][0] == x);
            }
        },
    }
}

pub proof fn lemma_find_list_contains(s: Seq<Node>, x: AreaId)
    ensures
        (find_list(s, x) is Some) == ids_list(s).contains(x),
        find_list(s, x) is Some ==> id_of(find_list(s, x)->0) == x,
    decreases s,
{
    if s.len() > 0 {
        lemma_find_list_contains(s.drop_last(), x);
        lemma_find_contains(s.last(), x);
        lemma_concat_contains(ids_list(s.drop_last()), ids(s.last()), x);
    }
}

/// When only child `i` holds `x`, the list's hit is that child's.
pub proof fn lemma_find_list_unique(s: Seq<Node>, i: int, x: AreaId)
    requires
        0 <= i < s.len(),
        forall|j: int| 0 <= j < s.len() && j != i ==> !ids(#[trigger] s[j]).contains(x),
    ensures
        find_list(s, x) == find(s[i], x),
    decreases s.len(),
{
    let last = s.len() - 1;
    if i < last {
        lemma_find_contains(s[last], x);
        assert(s.drop_last()[i] == s[i]);
        lemma_find_list_unique(s.drop_last(), i, x);
    } else {
        lemma_find_list_contains(s.drop_last(), x);
        assert forall|j: int| 0 <= j < s.drop_last().len() implies !ids(#[trigger] s.drop_last()[j]).contains(x) by {
            assert(s.drop_last()[j] == s[j]);
        }
        if ids_list(s.drop_last()).contains(x) {
            lemma_ids_list_in_some_child(s.drop_last(), x);
        }
    }
}

/// An id in a list's ids belongs to some child.
pub proof fn lemma_ids_list_in_some_child(s: Seq<Node>, x: AreaId)
    requires
        ids_list(s).contains(x),
    ensures
        exists|j: int| 0 <= j < s.len() && ids(#[trigger] s[j]).contains(x),
    decreases s.len(),
{
    if s.len() > 0 {
        lemma_concat_contains(ids_list(s.drop_last()), ids(s.last()), x);
        if ids_list(s.drop_last()).contains(x) {
            lemma_ids_list_in_some_child(s.drop_last(), x);
            let j = choose|j: int| 0 <= j < s.drop_last().len() && ids(#[trigger] s.drop_last()[j]).contains(x);
            assert(s[j] == s.drop_last()[j]);
        } else {
            assert(ids(s[s.len() - 1]).contains(x));
        }
    }
}

/// Lists whose children pairwise agree on ids and leaves agree as lists.
pub proof fn lemma_lists_agree(s: Seq<Node>, t: Seq<Node>)
    requires
        s.len() == t.len(),
        forall|i: int| 0 <= i < s.len() ==> ids(#[trigger] s[i]) == ids(t[i]),
        forall|i: int| 0 <= i < s.len() ==> leaves(#[trigger] s[i]) == leaves(t[i]),
    ensures
        ids_list(s) == ids_list(t),
        leaves_list(s) == leaves_list(t),
    decreases s.len(),
{
    if s.len() > 0 {
        lemma_lists_agree(s.drop_last(), t.drop_last());
        assert(s.last() == s[s.len() - 1]);
        assert(t.last() == t[t.len() - 1]);
    }
}

/// Swapping a subtree for one with the same ids and leaves keeps the tree's
/// ids and leaves, and keeps it shaped if the new subtree is.
pub proof fn lemma_replace_same(a: Node, id: AreaId, n: Node)
    requires
        distinct(ids(a)),
        find(a, id) is Some,
        ids(n) == ids(find(a, id)->0),
        leaves(n) == leaves(find(a, id)->0),
        shaped(n),
    ensures
        ids(replace(a, id, n)) == ids(a),
        leaves(replace(a, id, n)) == leaves(a),
        shaped(a) ==> shaped(replace(a, id, n)),
    decreases a,
{
    if id_of(a) != id {
        match a {
            Node::Leaf { .. } => {},
            Node::Split { id: sid, dir, sizes, children } => {
                lemma_find_contains(a, id);
                lemma_concat_contains(seq![sid], ids_list(children), id);
                if seq![sid].contains(id) {
                    assert(seq![sid][0] == id);
                }
                lemma_ids_list_in_some_child(children, id);
                let i = choose|i: int| 0 <= i < children.len() && ids(#[trigger] children[i]).contains(id);
                lemma_distinct_children(a);
                lemma_find_list_unique(children, i, id);
                lemma_find_contains(children[i], id);
                lemma_replace_same(children[i], id, n);
                let rs = replace_list(children, id, n);
                lemma_replace_list(children, id, n);
                assert forall|j: int| 0 <= j < children.len() && j != i implies #[trigger] rs[j] == children[j] by {
                    lemma_replace_absent(children[j], id, n);
                }
                lemma_lists_agree(rs, children);
                if shaped(a) {
                    assert forall|j: int| 0 <= j < rs.len() implies shaped(#[trigger] rs[j]) by {
                        if j != i {
                            assert(shaped(children[j]));
                        } else {
                            assert(shaped(children[i]));
                        }
                    }
                }
            },
        }
    }
}

/// Replacing one leaf leaves every other leaf where and what it was.
pub proof fn lemma_leaf_at_replace(a: Node, id: AreaId, n: Node, x: AreaId)
    requires
        distinct(ids(a)),
        find(a, id) is Some,
        ids(n) == ids(find(a, id)->0),
        x != id,
        leaf_at(a, x) is Some,
        !ids(find(a, id)->0).contains(x),
    ensures
        leaf_at(replace(a, id, n), x) == leaf_at(a, x),
    decreases a,
{
    lemma_find_contains(a, id);
    lemma_find_contains(a, x);
    if id_of(a) == id {
        lemma_ids_contains_own(a);
    } else {
        match a {
            Node::Leaf { .. } => {},
            Node::Split { id: sid, dir, sizes, children } => {
                lemma_concat_contains(seq![sid], ids_list(children), id);
                lemma_concat_contains(seq![sid], ids_list(children), x);
                if seq![sid].contains(id) {
                    assert(seq![sid][0] == id);
                }
                lemma_distinct_children(a);
                lemma_ids_list_in_some_child(children, id);
                let i = choose|i: int| 0 <= i < children.len() && ids(#[trigger] children[i]).contains(id);
                lemma_find_list_unique(children, i, id);
                let rs = replace_list(children, id, n);
                lemma_replace_list(children, id, n);
                assert forall|j: int| 0 <= j < children.len() && j != i implies #[trigger] rs[j] == children[j] by {
                    lemma_replace_absent(children[j], id, n);
                }
                if x == sid {
                    // x names the split itself, which is no leaf
                    assert(find(a, x) == Some(a));
                } else {
                    if seq![sid].contains(x) {
                        assert(seq![sid][0] == x);
                    }
                    lemma_ids_list_in_some_child(children, x);
                    let k = choose|k: int| 0 <= k < children.len() && ids(#[trigger] children[k]).contains(x);
                    lemma_find_list_unique(children, k, x);
                    let ra = replace(a, id, n);
                    assert(ra == Node::Split { id: sid, dir, sizes, children: rs });
                    assert forall|j: int| 0 <= j < rs.len() && j != k implies !ids(#[trigger] rs[j]).contains(x) by {
                        if j != i {
                            assert(rs[j] == children[j]);
                        } else {
                            lemma_find_contains(children[i], id);
                            lemma_replace_same_ids_only(children[i], id, n);
                        }
                    }
                    lemma_find_list_unique(rs, k, x);
                    if k != i {
                        assert(rs[k] == children[k]);
                    } else {
                        lemma_find_contains(children[i], id);
                        lemma_leaf_at_replace(children[i], id, n, x);
                    }
                }
            },
        }
    }
}

/// Swapping in a subtree with the same ids keeps the tree's ids.
pub proof fn lemma_replace_same_ids_only(a: Node, id: AreaId, n: Node)
    requires
        distinct(ids(a)),
        find(a, id) is Some,
        ids(n) == ids(find(a, id)->0),
    ensures
        ids(replace(a, id, n)) == ids(a),
    decreases a,
{
    if id_of(a) != id {
        match a {
            Node::Leaf { .. } => {},
            Node::Split { id: sid, dir, sizes, children } => {
                lemma_find_contains(a, id);
                lemma_concat_contains(seq![sid], ids_list(children), id);
                if seq![sid].contains(id) {
                    assert(seq![sid][0] == id);
                }
                lemma_ids_list_in_some_child(children, id);
                let i = choose|i: int| 0 <= i < children.len() && ids(#[trigger] children[i]).contains(id);
                lemma_distinct_children(a);
                lemma_find_list_unique(children, i, id);
                lemma_find_contains(children[i], id);
                lemma_replace_same_ids_only(children[i], id, n);
                let rs = replace_list(children, id, n);
                lemma_replace_list(children, id, n);
                assert forall|j: int| 0 <= j < children.len() && j != i implies #[trigger] rs[j] == children[j] by {
                    lemma_replace_absent(children[j], id, n);
                }
                lemma_ids_lists_agree(rs, children);
            },
        }
    }
}

pub proof fn lemma_ids_lists_agree(s: Seq<Node>, t: Seq<Node>)
    requires
        s.len() == t.len(),
        forall|i: int| 0 <= i < s.len() ==> ids(#[trigger] s[i]) == ids(t[i]),
    ensures
        ids_list(s) == ids_list(t),
    decreases s.len(),
{
    if s.len() > 0 {
        lemma_ids_lists_agree(s.drop_last(), t.drop_last());
        assert(s.last() == s[s.len() - 1]);
        assert(t.last() == t[t.len() - 1]);
    }
}

pub proof fn lemma_ids_list_single(n: Node)
    ensures
        ids_list(seq![n]) == ids(n),
        leaves_list(seq![n]) == leaves(n),
{
    assert(seq![n].drop_last() =~= Seq::<Node>::empty());
    assert(seq![n].last() == n);
    assert(ids_list(Seq::<Node>::empty()) == Seq::<AreaId>::empty());
    assert(leaves_list(Seq::<Node>::empty()) == Seq::<AreaId>::empty());
    assert(ids_list(seq![n]) =~= ids(n));
    assert(leaves_list(seq![n]) =~= leaves(n));
}

/// Dissolving child splits never adds an id.
pub proof fn lemma_gather_ids(dir: Dir, cs: Seq<Node>, x: AreaId)
    ensures
        count(ids_list(gather_children(dir, cs)), x) <= count(ids_list(cs), x),
    decreases cs.len(),
{
    if cs.len() > 0 {
        lemma_gather_ids(dir, cs.drop_last(), x);
        let last = cs.last();
        let add = if is_split_in(last, dir) {
            last->children
        } else {
            seq![last]
        };
        lemma_ids_list_concat(gather_children(dir, cs.drop_last()), add);
        lemma_count_concat(ids_list(gather_children(dir, cs.drop_last())), ids_list(add), x);
        lemma_count_concat(ids_list(cs.drop_last()), ids(last), x);
        if is_split_in(last, dir) {
            lemma_ids_split(last, x);
        } else {
            lemma_ids_list_single(last);
        }
    }
}

/// Normalizing never adds an id: it only drops the ids of dissolved splits.
pub proof fn lemma_norm_ids(a: Node, x: AreaId)
    ensures
        count(ids(norm(a)), x) <= count(ids(a), x),
    decreases a,
{
    match a {
        Node::Leaf { .. } => {},
        Node::Split { id, dir, sizes, children } => {
            let cs = norm_list(children);
            let nc = gather_children(dir, cs);
            lemma_norm_list_ids(children, x);
            lemma_gather_ids(dir, cs, x);
            lemma_ids_split(a, x);
            if nc.len() == 1 {
                assert(nc =~= seq![nc[0]]);
                lemma_ids_list_single(nc[0]);
            } else {
                let n = norm(a);
                lemma_ids_split(n, x);
            }
        },
    }
}

pub proof fn lemma_norm_list_ids(s: Seq<Node>, x: AreaId)
    ensures
        count(ids_list(norm_list(s)), x) <= count(ids_list(s), x),
    decreases s,
{
    if s.len() > 0 {
        lemma_norm_list_ids(s.drop_last(), x);
        lemma_norm_ids(s.last(), x);
        let ns = norm_list(s);
        assert(ns.drop_last() =~= norm_list(s.drop_last()));
        assert(ns.last() == norm(s.last()));
        lemma_count_concat(ids_list(norm_list(s.drop_last())), ids(norm(s.last())), x);
        lemma_count_concat(ids_list(s.drop_last()), ids(s.last()), x);
    }
}

/// Replacing a subtree trades its ids for the new subtree's.
pub proof fn lemma_replace_count(a: Node, id: AreaId, n: Node, x: AreaId)
    requires
        distinct(ids(a)),
        find(a, id) is Some,
    ensures
        count(ids(replace(a, id, n)), x) + count(ids(find(a, id)->0), x) == count(ids(a), x)
            + count(ids(n), x),
    decreases a,
{
    if id_of(a) != id {
        match a {
            Node::Leaf { .. } => {},
            Node::Split { id: sid, dir, sizes, children } => {
                lemma_find_contains(a, id);
                lemma_concat_contains(seq![sid], ids_list(children), id);
                if seq![sid].contains(id) {
                    assert(seq![sid][0] == id);
                }
                lemma_ids_list_in_some_child(children, id);
                let i = choose|i: int| 0 <= i < children.len() && ids(#[trigger] children[i]).contains(id);
                lemma_distinct_children(a);
                lemma_find_list_unique(children, i, id);
                lemma_find_contains(children[i], id);
                lemma_replace_count(children[i], id, n, x);
                let rs = replace_list(children, id, n);
                lemma_replace_list(children, id, n);
                assert forall|j: int| 0 <= j < children.len() && j != i implies #[trigger] rs[j] == children[j] by {
                    lemma_replace_absent(children[j], id, n);
                }
                lemma_ids_list_split(rs, i, x);
                lemma_ids_list_split(children, i, x);
                assert(rs.subrange(0, i) =~= children.subrange(0, i));
                assert(rs.subrange(i + 1, rs.len() as int) =~= children.subrange(i + 1, children.len() as int));
                lemma_ids_split(a, x);
                lemma_ids_split(replace(a, id, n), x);
            },
        }
    }
}

/// What a leaf becomes when it is split: itself first, then a fresh leaf
/// showing the same editor and argument with default regions.
pub open spec fn split_node(l: Node, split_id: AreaId, new_id: AreaId, dir: Dir, r: u32) -> Node {
    Node::Split {
        id: split_id,
        dir,
        sizes: seq![r, (SCALE - r) as u32],
        children: seq![
            l,
            Node::Leaf { id: new_id, editor: l->editor, arg: l->arg, regions: default_regions() },
        ],
    }
}

/// A requested first-child share clamped so neither side vanishes.
pub open spec fn clamp_ratio(r: u32) -> u32 {
    if r < MIN_RATIO {
        MIN_RATIO
    } else if r > SCALE - MIN_RATIO {
        (SCALE - MIN_RATIO) as u32
    } else {
        r
    }
}

pub proof fn lemma_split_node_count(l: Node, sid: AreaId, nid: AreaId, dir: Dir, r: u32, x: AreaId)
    ensures
        count(ids(split_node(l, sid, nid, dir, r)), x) == (if sid == x { 1nat } else { 0nat })
            + count(ids(l), x) + (if nid == x { 1nat } else { 0nat }),
{
    let n = split_node(l, sid, nid, dir, r);
    let f = n->children[1];
    lemma_ids_split(n, x);
    assert(n->children.drop_last() =~= seq![l]);
    assert(n->children.last() == f);
    lemma_ids_list_single(l);
    lemma_count_concat(ids(l), ids(f), x);
    assert(ids(f) =~= seq![nid]);
    lemma_count_single(nid, x);
}

/// Where the first child named `v` sits in a list, or -1.
pub open spec fn pos_of(s: Seq<Node>, v: AreaId) -> int
    decreases s.len(),
{
    if s.len() == 0 {
        -1
    } else if pos_of(s.drop_last(), v) >= 0 {
        pos_of(s.drop_last(), v)
    } else if id_of(s.last()) == v {
        s.len() - 1
    } else {
        -1
    }
}

pub proof fn lemma_pos_of(s: Seq<Node>, v: AreaId)
    ensures
        -1 <= pos_of(s, v) < s.len(),
        pos_of(s, v) >= 0 ==> id_of(s[pos_of(s, v)]) == v,
        pos_of(s, v) >= 0 ==> forall|j: int| 0 <= j < pos_of(s, v) ==> id_of(#[trigger] s[j]) != v,
        pos_of(s, v) < 0 ==> forall|j: int| 0 <= j < s.len() ==> id_of(#[trigger] s[j]) != v,
    decreases s.len(),
{
    if s.len() > 0 {
        lemma_pos_of(s.drop_last(), v);
        assert forall|j: int| 0 <= j < s.len() - 1 implies #[trigger] s[j] == s.drop_last()[j] by {}
    }
}

/// The shares after child `i` leaves: its share goes to the child before it
/// (or the first, if it was first), and the whole is renormalized.
pub open spec fn drop_share(sizes: Seq<u32>, i: int) -> Seq<u32> {
    let gone = sizes[i];
    let rest = sizes.remove(i);
    if rest.len() == 0 {
        rest
    } else {
        let nb = if i == 0 {
            0
        } else {
            i - 1
        };
        apportion(rest.update(nb, (rest[nb] + gone) as u32), SCALE as nat)
    }
}

/// A split left with one child is that child.
pub open spec fn collapse(n: Node) -> Node {
    if n is Split && n->children.len() == 1 {
        n->children[0]
    } else {
        n
    }
}

/// The tree with the area named `v` closed: the split holding it drops it,
/// hands its share on, and collapses if one child is left.
pub open spec fn cut(a: Node, v: AreaId) -> Node
    decreases a,
{
    match a {
        Node::Leaf { .. } => a,
        Node::Split { id, dir, sizes, children } => {
            let p = pos_of(children, v);
            if p >= 0 {
                collapse(
                    Node::Split {
                        id,
                        dir,
                        sizes: drop_share(sizes, p),
                        children: children.remove(p),
                    },
                )
            } else {
                Node::Split { id, dir, sizes, children: cut_list(children, v) }
            }
        },
    }
}

pub open spec fn cut_list(s: Seq<Node>, v: AreaId) -> Seq<Node>
    decreases s,
{
    if s.len() == 0 {
        seq![]
    } else {
        cut_list(s.drop_last(), v).push(cut(s.last(), v))
    }
}

pub proof fn lemma_cut_list(s: Seq<Node>, v: AreaId)
    ensures
        cut_list(s, v).len() == s.len(),
        forall|i: int| 0 <= i < s.len() ==> #[trigger] cut_list(s, v)[i] == cut(s[i], v),
    decreases s.len(),
{
    if s.len() > 0 {
        lemma_cut_list(s.drop_last(), v);
    }
}

/// Closing an area the tree does not hold below its root changes nothing.
pub proof fn lemma_cut_absent(a: Node, v: AreaId)
    requires
        a is Split ==> !ids_list(a->children).contains(v),
    ensures
        cut(a, v) == a,
    decreases a,
{
    match a {
        Node::Leaf { .. } => {},
        Node::Split { id, dir, sizes, children } => {
            lemma_pos_of(children, v);
            if pos_of(children, v) >= 0 {
                let p = pos_of(children, v);
                lemma_ids_contains_own(children[p]);
                lemma_ids_list_member(children, p, v);
            }
            lemma_cut_list(children, v);
            assert forall|i: int| 0 <= i < children.len() implies #[trigger] cut(children[i], v) == children[i] by {
                if children[i] is Split && ids_list(children[i]->children).contains(v) {
                    lemma_concat_contains(seq![id_of(children[i])], ids_list(children[i]->children), v);
                    lemma_ids_list_member(children, i, v);
                }
                lemma_cut_absent(children[i], v);
            }
            assert(cut_list(children, v) =~= children);
        },
    }
}

pub proof fn lemma_ids_list_remove(s: Seq<Node>, p: int, x: AreaId)
    requires
        0 <= p < s.len(),
    ensures
        count(ids_list(s.remove(p)), x) + count(ids(s[p]), x) == count(ids_list(s), x),
{
    lemma_ids_list_split(s, p, x);
    let r = s.remove(p);
    lemma_ids_list_concat(s.subrange(0, p), s.subrange(p + 1, s.len() as int));
    assert(r =~= s.subrange(0, p) + s.subrange(p + 1, s.len() as int));
    lemma_count_concat(ids_list(s.subrange(0, p)), ids_list(s.subrange(p + 1, s.len() as int)), x);
}

/// Closing an area never adds an id.
pub proof fn lemma_cut_ids(a: Node, v: AreaId, x: AreaId)
    ensures
        count(ids(cut(a, v)), x) <= count(ids(a), x),
    decreases a,
{
    match a {
        Node::Leaf { .. } => {},
        Node::Split { id, dir, sizes, children } => {
            lemma_pos_of(children, v);
            lemma_ids_split(a, x);
            let p = pos_of(children, v);
            if p >= 0 {
                lemma_ids_list_remove(children, p, x);
                let m = Node::Split {
                    id,
                    dir,
                    sizes: drop_share(sizes, p),
                    children: children.remove(p),
                };
                lemma_ids_split(m, x);
                if children.remove(p).len() == 1 {
                    lemma_ids_list_split(children.remove(p), 0, x);
                    assert(children.remove(p).subrange(0, 0) =~= Seq::<Node>::empty());
                    assert(children.remove(p).subrange(1, 1) =~= Seq::<Node>::empty());
                }
            } else {
                lemma_cut_list_ids(children, v, x);
                lemma_ids_split(cut(a, v), x);
            }
        },
    }
}

pub proof fn lemma_cut_list_ids(s: Seq<Node>, v: AreaId, x: AreaId)
    ensures
        count(ids_list(cut_list(s, v)), x) <= count(ids_list(s), x),
    decreases s,
{
    if s.len() > 0 {
        lemma_cut_list_ids(s.drop_last(), v, x);
        lemma_cut_ids(s.last(), v, x);
        let cs = cut_list(s, v);
        assert(cs.drop_last() =~= cut_list(s.drop_last(), v));
        assert(cs.last() == cut(s.last(), v));
        lemma_count_concat(ids_list(cut_list(s.drop_last(), v)), ids(cut(s.last(), v)), x);
        lemma_count_concat(ids_list(s.drop_last()), ids(s.last()), x);
    }
}

/// Closing an area keeps the tree shaped.
pub proof fn lemma_cut_shaped(a: Node, v: AreaId)
    requires
        shaped(a),
    ensures
        shaped(cut(a, v)),
    decreases a,
{
    match a {
        Node::Leaf { .. } => {},
        Node::Split { id, dir, sizes, children } => {
            lemma_pos_of(children, v);
            let p = pos_of(children, v);
            if p >= 0 {
                let rest = sizes.remove(p);
                let kids = children.remove(p);
                assert forall|i: int| 0 <= i < kids.len() implies shaped(#[trigger] kids[i]) by {
                    if i < p {
                        assert(kids[i] == children[i]);
                    } else {
                        assert(kids[i] == children[i + 1]);
                    }
                }
                if rest.len() > 0 {
                    let nb = if p == 0 {
                        0
                    } else {
                        p - 1
                    };
                    lemma_apportion(rest.update(nb, (rest[nb] + sizes[p]) as u32), SCALE as nat);
                }
                if kids.len() == 1 {
                    assert(shaped(kids[0]));
                }
            } else {
                lemma_cut_list(children, v);
                assert forall|i: int| 0 <= i < children.len() implies shaped(#[trigger] cut_list(children, v)[i]) by {
                    lemma_cut_shaped(children[i], v);
                }
            }
        },
    }
}

/// Shares after child `p` of a split leaves (see `drop_share`).
fn drop_share_vec(sizes: Vec<u32>, p: usize) -> (r: Vec<u32>)
    requires
        p < sizes@.len(),
        forall|j: int| 0 <= j < sizes@.len() ==> #[trigger] sizes@[j] <= 2 * SCALE,
    ensures
        r@ == drop_share(sizes@, p as int),
{
    let ghost s0 = sizes@;
    let mut sizes = sizes;
    let gone = sizes.remove(p);
    if sizes.len() == 0 {
        return sizes;
    }
    let nb: usize = if p == 0 {
        0
    } else {
        p - 1
    };
    let v = sizes[nb] + gone;
    sizes.set(nb, v);
    apportion_vec(&sizes, SCALE)
}

/// The cut at the split that holds the closed area.
fn cut_here(id: AreaId, dir: Dir, sizes: Vec<u32>, children: Vec<Area>, p: usize) -> (r: Area)
    requires
        shaped(Node::Split { id, dir, sizes: sizes@, children: nodes_of(children@) }),
        p < children@.len(),
    ensures
        r@ == collapse(
            Node::Split {
                id,
                dir,
                sizes: drop_share(sizes@, p as int),
                children: nodes_of(children@).remove(p as int),
            },
        ),
{
    let ghost kn = nodes_of(children@);
    proof {
        lemma_nodes_of(children@);
    }
    let mut children = children;
    children.remove(p);
    let sizes = drop_share_vec(sizes, p);
    proof {
        lemma_nodes_of(children@);
        assert(nodes_of(children@) =~= kn.remove(p as int));
    }
    if children.len() == 1 {
        let ghost cv = children@;
        let only = children.pop().unwrap();
        assert(only == cv[0]);
        return only;
    }
    Area::Split { id, dir, sizes, children }
}

/// Close the area named `v` somewhere below this node; see `cut`. The flag
/// says whether anything was closed.
#[verifier::loop_isolation(false)]
pub fn cut_area(a: Area, v: AreaId) -> (r: (Area, bool))
    requires
        distinct(ids(a@)),
        shaped(a@),
    ensures
        r.0@ == cut(a@, v),
        r.1 == (ids(a@).contains(v) && id_of(a@) != v),
    decreases a,
{
    let is_leaf = match &a {
        Area::Leaf { .. } => true,
        Area::Split { .. } => false,
    };
    if is_leaf {
        proof {
            assert(ids(a@) =~= seq![id_of(a@)]);
            if ids(a@).contains(v) {
                assert(ids(a@)[0] == v);
            }
        }
        return (a, false);
    }
    let ghost ga = a;
    match a {
        Area::Leaf { id: lid, editor, arg, regions } => {
            assert(false);
            (Area::Leaf { id: lid, editor, arg, regions }, false)
        },
        Area::Split { id, dir, sizes, children } => {
            let ghost kids = children@;
            let ghost kn = nodes_of(kids);
            proof {
                lemma_nodes_of(kids);
                lemma_pos_of(kn, v);
                lemma_distinct_children(ga@);
                lemma_concat_contains(seq![id], ids_list(kn), v);
                if seq![id].contains(v) {
                    assert(seq![id][0] == v);
                }
            }
            let mut p: usize = 0;
            let mut found = false;
            while p < children.len()
                invariant
                    children@ == kids,
                    p <= kids.len(),
                    forall|j: int| 0 <= j < p ==> id_of(#[trigger] kn[j]) != v,
                    found ==> p < kids.len() && id_of(kn[p as int]) == v,
                decreases children.len() - p + (if found { 0int } else { 1int }),
            {
                if children[p].id() == v {
                    found = true;
                    break;
                }
                p += 1;
            }
            if found {
                proof {
                    if pos_of(kn, v) >= 0 && pos_of(kn, v) != p {
                        assert(id_of(kn[pos_of(kn, v)]) == v);
                    }
                    assert(pos_of(kn, v) == p);
                    lemma_ids_contains_own(kn[p as int]);
                    lemma_ids_list_member(kn, p as int, v);
                }
                return (cut_here(id, dir, sizes, children, p), true);
            }
            proof {
                assert(pos_of(kn, v) < 0);
            }
            let mut q: usize = 0;
            let mut hit = false;
            while q < children.len()
                invariant
                    children@ == kids,
                    q <= kids.len(),
                    forall|j: int| 0 <= j < q ==> !ids(#[trigger] kn[j]).contains(v),
                    hit ==> q < kids.len() && ids(kn[q as int]).contains(v),
                decreases children.len() - q + (if hit { 0int } else { 1int }),
            {
                if children[q].contains(v) {
                    hit = true;
                    break;
                }
                q += 1;
            }
            proof {
                lemma_cut_list(kn, v);
            }
            if !hit {
                proof {
                    assert forall|j: int| 0 <= j < kn.len() implies #[trigger] cut(kn[j], v) == kn[j] by {
                        if kn[j] is Split && ids_list(kn[j]->children).contains(v) {
                            lemma_concat_contains(seq![id_of(kn[j])], ids_list(kn[j]->children), v);
                        }
                        lemma_cut_absent(kn[j], v);
                    }
                    assert(cut_list(kn, v) =~= kn);
                    if ids_list(kn).contains(v) {
                        lemma_ids_list_in_some_child(kn, v);
                    }
                }
                return (Area::Split { id, dir, sizes, children }, false);
            }
            let mut children = children;
            let c = children.remove(q);
            assert(c == kids[q as int]);
            assert(decreases_to!(ga => kids[q as int]));
            assert(ga@->children == kn);
            assert(distinct(ids(ga@->children[q as int])));
            assert(shaped(ga@->children[q as int]));
            let (c2, _) = cut_area(c, v);
            children.insert(q, c2);
            proof {
                lemma_nodes_of(children@);
                lemma_ids_list_member(kn, q as int, v);
                assert forall|j: int| 0 <= j < kn.len() && j != q implies #[trigger] cut(kn[j], v) == kn[j] by {
                    assert(!ids(kn[j]).contains(v));
                    if kn[j] is Split && ids_list(kn[j]->children).contains(v) {
                        lemma_concat_contains(seq![id_of(kn[j])], ids_list(kn[j]->children), v);
                    }
                    lemma_cut_absent(kn[j], v);
                }
                assert(nodes_of(children@) =~= cut_list(kn, v));
            }
            (Area::Split { id, dir, sizes, children }, true)
        },
    }
}

/// Whether `s` and `v` are leaves side by side in this split's children.
pub open spec fn adjacent_in(cs: Seq<Node>, s: AreaId, v: AreaId) -> bool {
    let si = pos_of(cs, s);
    let vi = pos_of(cs, v);
    si >= 0 && vi >= 0 && (si - vi == 1 || vi - si == 1) && cs[si] is Leaf && cs[vi] is Leaf
}

pub open spec fn merges(a: Node, s: AreaId, v: AreaId) -> bool
    decreases a,
{
    match a {
        Node::Leaf { .. } => false,
        Node::Split { children, .. } => adjacent_in(children, s, v) || merges_list(children, s, v),
    }
}

pub open spec fn merges_list(cs: Seq<Node>, s: AreaId, v: AreaId) -> bool
    decreases cs,
{
    if cs.len() == 0 {
        false
    } else {
        merges_list(cs.drop_last(), s, v) || merges(cs.last(), s, v)
    }
}

/// The tree with `v` merged into its sibling `s`: the survivor takes the
/// victim's share, the victim leaves as `cut` would drop it, and a split
/// left with one child collapses.
pub open spec fn merge(a: Node, s: AreaId, v: AreaId) -> Node
    decreases a,
{
    match a {
        Node::Leaf { .. } => a,
        Node::Split { id, dir, sizes, children } => {
            if adjacent_in(children, s, v) {
                let si = pos_of(children, s);
                let vi = pos_of(children, v);
                collapse(
                    Node::Split {
                        id,
                        dir,
                        sizes: drop_share(sizes.update(si, (sizes[si] + sizes[vi]) as u32), vi),
                        children: children.remove(vi),
                    },
                )
            } else {
                Node::Split { id, dir, sizes, children: merge_list(children, s, v) }
            }
        },
    }
}

pub open spec fn merge_list(cs: Seq<Node>, s: AreaId, v: AreaId) -> Seq<Node>
    decreases cs,
{
    if cs.len() == 0 {
        seq![]
    } else {
        merge_list(cs.drop_last(), s, v).push(merge(cs.last(), s, v))
    }
}

pub proof fn lemma_merge_list(cs: Seq<Node>, s: AreaId, v: AreaId)
    ensures
        merge_list(cs, s, v).len() == cs.len(),
        forall|i: int| 0 <= i < cs.len() ==> #[trigger] merge_list(cs, s, v)[i] == merge(cs[i], s, v),
        merges_list(cs, s, v) == exists|i: int| 0 <= i < cs.len() && #[trigger] merges(cs[i], s, v),
    decreases cs.len(),
{
    if cs.len() > 0 {
        lemma_merge_list(cs.drop_last(), s, v);
        if merges_list(cs.drop_last(), s, v) {
            let i = choose|i: int| 0 <= i < cs.drop_last().len() && #[trigger] merges(cs.drop_last()[i], s, v);
            assert(cs[i] == cs.drop_last()[i]);
        }
        if merges(cs.last(), s, v) {
            assert(merges(cs[cs.len() - 1], s, v));
        }
        if exists|i: int| 0 <= i < cs.len() && #[trigger] merges(cs[i], s, v) {
            let i = choose|i: int| 0 <= i < cs.len() && #[trigger] merges(cs[i], s, v);
            if i < cs.len() - 1 {
                assert(cs.drop_last()[i] == cs[i]);
            }
        }
    }
}

/// A subtree without the survivor is untouched by a merge.
pub proof fn lemma_merge_absent(a: Node, s: AreaId, v: AreaId)
    requires
        !ids(a).contains(s),
    ensures
        merge(a, s, v) == a,
        !merges(a, s, v),
    decreases a,
{
    match a {
        Node::Leaf { .. } => {},
        Node::Split { id, dir, sizes, children } => {
            lemma_concat_contains(seq![id], ids_list(children), s);
            lemma_pos_of(children, s);
            if pos_of(children, s) >= 0 {
                let p = pos_of(children, s);
                lemma_ids_contains_own(children[p]);
                lemma_ids_list_member(children, p, s);
            }
            lemma_merge_list(children, s, v);
            assert forall|i: int| 0 <= i < children.len() implies #[trigger] merge(children[i], s, v) == children[i] && !merges(children[i], s, v) by {
                if ids(children[i]).contains(s) {
                    lemma_ids_list_member(children, i, s);
                }
                lemma_merge_absent(children[i], s, v);
            }
            assert(merge_list(children, s, v) =~= children);
        },
    }
}

pub proof fn lemma_merge_ids(a: Node, s: AreaId, v: AreaId, x: AreaId)
    ensures
        count(ids(merge(a, s, v)), x) <= count(ids(a), x),
    decreases a,
{
    match a {
        Node::Leaf { .. } => {},
        Node::Split { id, dir, sizes, children } => {
            lemma_ids_split(a, x);
            lemma_pos_of(children, v);
            if adjacent_in(children, s, v) {
                let vi = pos_of(children, v);
                lemma_ids_list_remove(children, vi, x);
                let si = pos_of(children, s);
                let m = Node::Split {
                    id,
                    dir,
                    sizes: drop_share(sizes.update(si, (sizes[si] + sizes[vi]) as u32), vi),
                    children: children.remove(vi),
                };
                lemma_ids_split(m, x);
                if children.remove(vi).len() == 1 {
                    lemma_ids_list_split(children.remove(vi), 0, x);
                    assert(children.remove(vi).subrange(0, 0) =~= Seq::<Node>::empty());
                    assert(children.remove(vi).subrange(1, 1) =~= Seq::<Node>::empty());
                }
            } else {
                lemma_merge_list_ids(children, s, v, x);
                lemma_ids_split(merge(a, s, v), x);
            }
        },
    }
}

pub proof fn lemma_merge_list_ids(cs: Seq<Node>, s: AreaId, v: AreaId, x: AreaId)
    ensures
        count(ids_list(merge_list(cs, s, v)), x) <= count(ids_list(cs), x),
    decreases cs,
{
    if cs.len() > 0 {
        lemma_merge_list_ids(cs.drop_last(), s, v, x);
        lemma_merge_ids(cs.last(), s, v, x);
        let ms = merge_list(cs, s, v);
        assert(ms.drop_last() =~= merge_list(cs.drop_last(), s, v));
        assert(ms.last() == merge(cs.last(), s, v));
        lemma_count_concat(ids_list(merge_list(cs.drop_last(), s, v)), ids(merge(cs.last(), s, v)), x);
        lemma_count_concat(ids_list(cs.drop_last()), ids(cs.last()), x);
    }
}

pub proof fn lemma_merge_shaped(a: Node, s: AreaId, v: AreaId)
    requires
        shaped(a),
    ensures
        shaped(merge(a, s, v)),
    decreases a,
{
    match a {
        Node::Leaf { .. } => {},
        Node::Split { id, dir, sizes, children } => {
            lemma_pos_of(children, v);
            lemma_pos_of(children, s);
            if adjacent_in(children, s, v) {
                let si = pos_of(children, s);
                let vi = pos_of(children, v);
                let up = sizes.update(si, (sizes[si] + sizes[vi]) as u32);
                let rest = up.remove(vi);
                let kids = children.remove(vi);
                assert forall|i: int| 0 <= i < kids.len() implies shaped(#[trigger] kids[i]) by {
                    if i < vi {
                        assert(kids[i] == children[i]);
                    } else {
                        assert(kids[i] == children[i + 1]);
                    }
                }
                if rest.len() > 0 {
                    let nb = if vi == 0 {
                        0
                    } else {
                        vi - 1
                    };
                    lemma_apportion(rest.update(nb, (rest[nb] + up[vi]) as u32), SCALE as nat);
                }
                if kids.len() == 1 {
                    assert(shaped(kids[0]));
                }
            } else {
                lemma_merge_list(children, s, v);
                assert forall|i: int| 0 <= i < children.len() implies shaped(#[trigger] merge_list(children, s, v)[i]) by {
                    lemma_merge_shaped(children[i], s, v);
                }
            }
        },
    }
}

/// The merge at the split that holds both siblings.
fn merge_here(
    id: AreaId,
    dir: Dir,
    sizes: Vec<u32>,
    children: Vec<Area>,
    si: usize,
    vi: usize,
) -> (r: Area)
    requires
        shaped(Node::Split { id, dir, sizes: sizes@, children: nodes_of(children@) }),
        si < children@.len(),
        vi < children@.len(),
    ensures
        r@ == collapse(
            Node::Split {
                id,
                dir,
                sizes: drop_share(sizes@.update(si as int, (sizes@[si as int] + sizes@[vi as int]) as u32), vi as int),
                children: nodes_of(children@).remove(vi as int),
            },
        ),
{
    let ghost kn = nodes_of(children@);
    proof {
        lemma_nodes_of(children@);
    }
    assert(sizes@[si as int] <= SCALE);
    assert(sizes@[vi as int] <= SCALE);
    let mut sizes = sizes;
    let grown = sizes[si] + sizes[vi];
    sizes.set(si, grown);
    let sizes = drop_share_vec(sizes, vi);
    let mut children = children;
    children.remove(vi);
    proof {
        lemma_nodes_of(children@);
        assert(nodes_of(children@) =~= kn.remove(vi as int));
    }
    if children.len() == 1 {
        let ghost cv = children@;
        let only = children.pop().unwrap();
        assert(only == cv[0]);
        return only;
    }
    Area::Split { id, dir, sizes, children }
}

/// Merge `v` into its sibling `s` somewhere below this node; see `merge`.
#[verifier::loop_isolation(false)]
pub fn merge_area(a: Area, s: AreaId, v: AreaId) -> (r: (Area, bool))
    requires
        distinct(ids(a@)),
        shaped(a@),
    ensures
        r.0@ == merge(a@, s, v),
        r.1 == merges(a@, s, v),
    decreases a,
{
    let is_leaf = match &a {
        Area::Leaf { .. } => true,
        Area::Split { .. } => false,
    };
    if is_leaf {
        return (a, false);
    }
    let ghost ga = a;
    match a {
        Area::Leaf { id: lid, editor, arg, regions } => {
            assert(false);
            (Area::Leaf { id: lid, editor, arg, regions }, false)
        },
        Area::Split { id, dir, sizes, children } => {
            let ghost kids = children@;
            let ghost kn = nodes_of(kids);
            proof {
                lemma_nodes_of(kids);
                lemma_pos_of(kn, s);
                lemma_pos_of(kn, v);
                lemma_distinct_children(ga@);
                lemma_merge_list(kn, s, v);
            }
            let si = position(&children, s);
            let vi = position(&children, v);
            let adjacent = match (si, vi) {
                (Some(a_), Some(b_)) => ((a_ < b_ && b_ - a_ == 1) || (b_ < a_ && a_ - b_ == 1)) && matches!(
                    children[a_],
                    Area::Leaf { .. }
                ) && matches!(children[b_], Area::Leaf { .. }),
                _ => false,
            };
            if adjacent {
                let r = merge_here(id, dir, sizes, children, si.unwrap(), vi.unwrap());
                return (r, true);
            }
            let mut q: usize = 0;
            let mut hit = false;
            while q < children.len()
                invariant
                    children@ == kids,
                    q <= kids.len(),
                    forall|j: int| 0 <= j < q ==> !ids(#[trigger] kn[j]).contains(s),
                    hit ==> q < kids.len() && ids(kn[q as int]).contains(s),
                decreases children.len() - q + (if hit { 0int } else { 1int }),
            {
                if children[q].contains(s) {
                    hit = true;
                    break;
                }
                q += 1;
            }
            if !hit {
                proof {
                    assert forall|j: int| 0 <= j < kn.len() implies #[trigger] merge(kn[j], s, v) == kn[j] && !merges(kn[j], s, v) by {
                        lemma_merge_absent(kn[j], s, v);
                    }
                    assert(merge_list(kn, s, v) =~= kn);
                }
                return (Area::Split { id, dir, sizes, children }, false);
            }
            let mut children = children;
            let c = children.remove(q);
            assert(c == kids[q as int]);
            assert(decreases_to!(ga => kids[q as int]));
            assert(ga@->children == kn);
            assert(distinct(ids(ga@->children[q as int])));
            assert(shaped(ga@->children[q as int]));
            let (c2, hit2) = merge_area(c, s, v);
            children.insert(q, c2);
            proof {
                lemma_nodes_of(children@);
                assert forall|j: int| 0 <= j < kn.len() && j != q implies #[trigger] merge(kn[j], s, v) == kn[j] && !merges(kn[j], s, v) by {
                    assert(!ids(kn[j]).contains(s));
                    lemma_merge_absent(kn[j], s, v);
                }
                assert(nodes_of(children@) =~= merge_list(kn, s, v));
            }
            proof {
                assert(!adjacent_in(kn, s, v));
                assert(merges(kn[q as int], s, v) == hit2);
                if merges_list(kn, s, v) {
                    let j = choose|j: int| 0 <= j < kn.len() && #[trigger] merges(kn[j], s, v);
                    if j != q {
                        assert(!ids(kn[j]).contains(s));
                        lemma_merge_absent(kn[j], s, v);
                    }
                }
            }
            (Area::Split { id, dir, sizes, children }, hit2)
        },
    }
}

/// Where the first child named `id` sits.
#[verifier::loop_isolation(false)]
fn position(children: &Vec<Area>, id: AreaId) -> (r: Option<usize>)
    ensures
        match r {
            Some(p) => pos_of(nodes_of(children@), id) == p,
            None => pos_of(nodes_of(children@), id) < 0,
        },
{
    let ghost kn = nodes_of(children@);
    proof {
        lemma_nodes_of(children@);
        lemma_pos_of(kn, id);
    }
    let mut p: usize = 0;
    while p < children.len()
        invariant
            kn == nodes_of(children@),
            kn.len() == children@.len(),
            p <= kn.len(),
            forall|j: int| 0 <= j < p ==> id_of(#[trigger] kn[j]) != id,
        decreases children.len() - p,
    {
        if children[p].id() == id {
            proof {
                let q = pos_of(kn, id);
                assert(id_of(kn[p as int]) == id);
                if q < 0 {
                    assert(id_of(kn[p as int]) != id);
                } else if q < p {
                    assert(id_of(kn[q]) == id);
                } else if q > p {
                    assert(id_of(kn[p as int]) != id);
                }
            }
            return Some(p);
        }
        p += 1;
    }
    proof {
        if pos_of(kn, id) >= 0 {
            assert(id_of(kn[pos_of(kn, id)]) == id);
        }
    }
    None
}

/// Where no split holds the pair side by side, merging changes nothing.
pub proof fn lemma_merge_unchanged(a: Node, s: AreaId, v: AreaId)
    requires
        !merges(a, s, v),
    ensures
        merge(a, s, v) == a,
    decreases a,
{
    match a {
        Node::Leaf { .. } => {},
        Node::Split { id, dir, sizes, children } => {
            lemma_merge_list(children, s, v);
            assert forall|i: int| 0 <= i < children.len() implies #[trigger] merge(children[i], s, v) == children[i] by {
                lemma_merge_unchanged(children[i], s, v);
            }
            assert(merge_list(children, s, v) =~= children);
        },
    }
}

impl Area {
    /// An exact copy of this tree.
    #[verifier::loop_isolation(false)]
    pub fn copy(&self) -> (r: Area)
        ensures
            r@ == self@,
        decreases self,
    {
        match self {
            Area::Leaf { id, editor, arg, regions } => Area::Leaf {
                id: *id,
                editor: editor.clone(),
                arg: arg.clone(),
                regions: *regions,
            },
            Area::Split { id, dir, sizes, children } => {
                let mut out: Vec<Area> = Vec::new();
                let mut i: usize = 0;
                proof {
                    lemma_nodes_of(children@);
                }
                while i < children.len()
                    invariant
                        i <= children.len(),
                        out@.len() == i,
                        forall|j: int| 0 <= j < i ==> (#[trigger] out@[j])@ == children@[j]@,
                    decreases children.len() - i,
                {
                    assert(decreases_to!(*self => children));
                    assert(decreases_to!(children => children@));
                    assert(decreases_to!(children@ => children@[i as int]));
                    out.push(children[i].copy());
                    i += 1;
                }
                proof {
                    lemma_nodes_of(out@);
                    assert(nodes_of(out@) =~= nodes_of(children@));
                }
                Area::Split { id: *id, dir: *dir, sizes: sizes.clone(), children: out }
            },
        }
    }

    /// The leaf ids in screen order.
    #[verifier::loop_isolation(false)]
    pub fn leaves(&self) -> (r: Vec<AreaId>)
        ensures
            r@ == leaves(self@),
        decreases self,
    {
        match self {
            Area::Leaf { id, .. } => {
                let mut v = Vec::new();
                v.push(*id);
                assert(v@ =~= seq![*id]);
                v
            },
            Area::Split { children, .. } => {
                let ghost ns = nodes_of(children@);
                proof {
                    lemma_nodes_of(children@);
                }
                let mut out: Vec<AreaId> = Vec::new();
                let mut i: usize = 0;
                while i < children.len()
                    invariant
                        i <= children.len(),
                        out@ == leaves_list(ns.subrange(0, i as int)),
                    decreases children.len() - i,
                {
                    proof {
                        lemma_prefix_step(children@, i as int);
                    }
                    assert(decreases_to!(*self => children));
                    assert(decreases_to!(children => children@));
                    assert(decreases_to!(children@ => children@[i as int]));
                    let mut sub = children[i].leaves();
                    out.append(&mut sub);
                    i += 1;
                }
                assert(ns.subrange(0, i as int) =~= ns);
                out
            },
        }
    }

    /// Every id in the tree, in preorder.
    #[verifier::loop_isolation(false)]
    pub fn ids(&self) -> (r: Vec<AreaId>)
        ensures
            r@ == ids(self@),
        decreases self,
    {
        match self {
            Area::Leaf { id, .. } => {
                let mut v = Vec::new();
                v.push(*id);
                assert(v@ =~= seq![*id]);
                v
            },
            Area::Split { id, children, .. } => {
                let ghost ns = nodes_of(children@);
                proof {
                    lemma_nodes_of(children@);
                }
                let mut out: Vec<AreaId> = Vec::new();
                out.push(*id);
                let mut i: usize = 0;
                while i < children.len()
                    invariant
                        i <= children.len(),
                        out@ == seq![*id] + ids_list(ns.subrange(0, i as int)),
                    decreases children.len() - i,
                {
                    proof {
                        lemma_prefix_step(children@, i as int);
                    }
                    assert(decreases_to!(*self => children));
                    assert(decreases_to!(children => children@));
                    assert(decreases_to!(children@ => children@[i as int]));
                    let mut sub = children[i].ids();
                    out.append(&mut sub);
                    i += 1;
                }
                assert(ns.subrange(0, i as int) =~= ns);
                out
            },
        }
    }

    /// Whether every split has one share per child, each at most `SCALE`,
    /// summing to `SCALE`.
    #[verifier::loop_isolation(false)]
    pub fn is_shaped(&self) -> (r: bool)
        ensures
            r == shaped(self@),
        decreases self,
    {
        match self {
            Area::Leaf { .. } => true,
            Area::Split { sizes, children, .. } => {
                proof {
                    lemma_nodes_of(children@);
                }
                if sizes.len() != children.len() {
                    return false;
                }
                let mut total: u64 = 0;
                let mut j: usize = 0;
                while j < sizes.len()
                    invariant
                        j <= sizes.len(),
                        total == sum(sizes@.subrange(0, j as int)),
                        total <= SCALE,
                        forall|t: int| 0 <= t < j ==> #[trigger] sizes@[t] <= SCALE,
                    decreases sizes.len() - j,
                {
                    if sizes[j] > SCALE {
                        return false;
                    }
                    assert(sizes@.subrange(0, j + 1).drop_last() =~= sizes@.subrange(0, j as int));
                    total = total + sizes[j] as u64;
                    if total > SCALE as u64 {
                        proof {
                            crate::shares::lemma_sum_prefix_le(sizes@, j + 1);
                        }
                        return false;
                    }
                    j += 1;
                }
                assert(sizes@.subrange(0, j as int) =~= sizes@);
                if children.len() > 0 && total != SCALE as u64 {
                    return false;
                }
                let mut i: usize = 0;
                while i < children.len()
                    invariant
                        i <= children.len(),
                        forall|t: int| 0 <= t < i ==> shaped(#[trigger] nodes_of(children@)[t]),
                    decreases children.len() - i,
                {
                    assert(decreases_to!(*self => children));
                    assert(decreases_to!(children => children@));
                    assert(decreases_to!(children@ => children@[i as int]));
                    if !children[i].is_shaped() {
                        assert(self@->children[i as int] == children@[i as int]@);
                        return false;
                    }
                    i += 1;
                }
                true
            },
        }
    }
}

pub proof fn lemma_count_two(s: Seq<AreaId>, x: AreaId)
    requires
        count(s, x) >= 2,
    ensures
        exists|i: int, j: int| 0 <= i < j < s.len() && s[i] == x && s[j] == x,
    decreases s.len(),
{
    let d = s.drop_last();
    if s.last() == x {
        lemma_count_contains(d, x);
        let i = choose|i: int| 0 <= i < d.len() && d[i] == x;
        assert(s[i] == x && s[s.len() - 1] == x);
    } else {
        lemma_count_two(d, x);
        let (i, j) = choose|i: int, j: int| 0 <= i < j < d.len() && d[i] == x && d[j] == x;
        assert(s[i] == x && s[j] == x);
    }
}

/// Whether no id occurs twice.
fn ids_distinct(v: &Vec<AreaId>) -> (r: bool)
    ensures
        r == distinct(v@),
{
    let n = v.len();
    let mut i: usize = 0;
    while i < n
        invariant
            n == v@.len(),
            i <= n,
            forall|a: int, b: int| 0 <= a < i && a < b < n ==> v@[a] != v@[b],
        decreases n - i,
    {
        let mut j: usize = i + 1;
        while j < n
            invariant
                n == v@.len(),
                i < n,
                i + 1 <= j <= n,
                forall|a: int, b: int| 0 <= a < i && a < b < n ==> v@[a] != v@[b],
                forall|b: int| i < b < j ==> v@[i as int] != v@[b],
            decreases n - j,
        {
            if v[i] == v[j] {
                proof {
                    assert(!distinct(v@)) by {
                        lemma_count_split_two(v@, i as int, j as int);
                    }
                }
                return false;
            }
            j += 1;
        }
        i += 1;
    }
    proof {
        assert forall|x: AreaId| #[trigger] count(v@, x) <= 1 by {
            if count(v@, x) >= 2 {
                lemma_count_two(v@, x);
            }
        }
    }
    true
}

proof fn lemma_count_split_two(s: Seq<AreaId>, i: int, j: int)
    requires
        0 <= i < j < s.len(),
        s[i] == s[j],
    ensures
        count(s, s[i]) >= 2,
{
    let x = s[i];
    let a = s.subrange(0, j);
    let b = s.subrange(j, s.len() as int);
    assert(s =~= a + b);
    lemma_count_concat(a, b, x);
    lemma_count_contains(a, x);
    assert(a[i] == x);
    lemma_count_contains(b, x);
    assert(b[0] == x);
}

/// The shares after the seam between children `i` and `i + 1` moves to
/// `pos` (a share of the whole split): only that pair changes, and neither
/// is squeezed below `MIN_RATIO` of their joint span.
pub open spec fn seam_sizes(sizes: Seq<u32>, i: int, pos: u32) -> Seq<u32> {
    let lo = sum(sizes.subrange(0, i));
    let span = sizes[i] + sizes[i + 1];
    let hi = lo + span;
    let pad = (MIN_RATIO as nat) * (span as nat) / (SCALE as nat);
    let p: int = if (pos as int) < lo + pad {
        (lo + pad) as int
    } else if (pos as int) > hi - pad {
        hi - pad
    } else {
        pos as int
    };
    sizes.update(i, (p - lo) as u32).update(i + 1, (hi - p) as u32)
}

pub proof fn lemma_sum_pair(s: Seq<u32>, i: int, a: u32, b: u32)
    requires
        0 <= i,
        i + 1 < s.len(),
    ensures
        sum(s.update(i, a).update(i + 1, b)) + s[i] + s[i + 1] == sum(s) + a + b,
        sum(s.subrange(0, i)) + s[i] + s[i + 1] <= sum(s),
{
    let t = s.update(i, a).update(i + 1, b);
    let pre = s.subrange(0, i);
    let post = s.subrange(i + 2, s.len() as int);
    assert(s =~= pre + seq![s[i], s[i + 1]] + post);
    assert(t =~= pre + seq![a, b] + post);
    lemma_sum_concat(pre + seq![s[i], s[i + 1]], post);
    lemma_sum_concat(pre, seq![s[i], s[i + 1]]);
    lemma_sum_concat(pre + seq![a, b], post);
    lemma_sum_concat(pre, seq![a, b]);
    assert(seq![s[i], s[i + 1]].drop_last() =~= seq![s[i]]);
    assert(seq![s[i]].drop_last() =~= Seq::<u32>::empty());
    assert(seq![a, b].drop_last() =~= seq![a]);
    assert(seq![a].drop_last() =~= Seq::<u32>::empty());
    assert(sum(Seq::<u32>::empty()) == 0);
    assert(seq![s[i], s[i + 1]].last() == s[i + 1]);
    assert(seq![s[i]].last() == s[i]);
    assert(seq![a, b].last() == b);
    assert(seq![a].last() == a);
    assert(sum(seq![s[i]]) == s[i]);
    assert(sum(seq![a]) == a);
    assert(sum(seq![s[i], s[i + 1]]) == sum(seq![s[i]]) + s[i + 1]);
    assert(sum(seq![a, b]) == sum(seq![a]) + b);
}

/// Every subtree of a shaped tree is shaped.
pub proof fn lemma_shaped_find(a: Node, x: AreaId)
    requires
        shaped(a),
        find(a, x) is Some,
    ensures
        shaped(find(a, x)->0),
    decreases a,
{
    if id_of(a) != x {
        match a {
            Node::Leaf { .. } => {},
            Node::Split { children, .. } => {
                lemma_shaped_find_list(children, x);
            },
        }
    }
}

pub proof fn lemma_shaped_find_list(s: Seq<Node>, x: AreaId)
    requires
        forall|i: int| 0 <= i < s.len() ==> shaped(#[trigger] s[i]),
        find_list(s, x) is Some,
    ensures
        shaped(find_list(s, x)->0),
    decreases s,
{
    if s.len() > 0 {
        if find_list(s.drop_last(), x) is Some {
            assert forall|i: int| 0 <= i < s.drop_last().len() implies shaped(#[trigger] s.drop_last()[i]) by {
                assert(s.drop_last()[i] == s[i]);
            }
            lemma_shaped_find_list(s.drop_last(), x);
        } else {
            assert(shaped(s[s.len() - 1]));
            lemma_shaped_find(s.last(), x);
        }
    }
}

/// A laid-out screen: the area tree and the counter that names new areas.
///
/// The counter is part of the value, not process state: two loads of the
/// same layout go on to mint the same ids.
pub struct Layout {
    root: Area,
    next_id: AreaId,
}

/// What a layout is, mathematically.
pub struct LayoutView {
    pub root: Node,
    pub next_id: AreaId,
}

impl View for Layout {
    type V = LayoutView;

    closed spec fn view(&self) -> LayoutView {
        LayoutView { root: self.root@, next_id: self.next_id }
    }
}

/// A layout the operations accept: no id used twice, every id below the
/// counter, and one share per split child.
pub open spec fn layout_ok(v: LayoutView) -> bool {
    &&& distinct(ids(v.root))
    &&& forall|x: AreaId| ids(v.root).contains(x) ==> x < v.next_id
    &&& shaped(v.root)
}

/// The leaf named `id`, if the tree has one.
pub open spec fn leaf_at(a: Node, id: AreaId) -> Option<Node> {
    match find(a, id) {
        Some(n) => if n is Leaf {
            Some(n)
        } else {
            None
        },
        None => None,
    }
}

impl Layout {
    /// A one-area layout showing `editor`.
    pub fn single(editor: &str) -> (l: Layout)
        ensures
            l@.root == (Node::Leaf {
                id: 1,
                editor: editor@,
                arg: None,
                regions: default_regions(),
            }),
            l@.next_id == 2,
            layout_ok(l@),
    {
        let l = Layout {
            root: Area::Leaf { id: 1, editor: editor.to_owned(), arg: None, regions: Regions::new() },
            next_id: 2,
        };
        proof {
            assert(ids(l.root@) =~= seq![1u64]);
            assert forall|x: AreaId| #[trigger] count(ids(l.root@), x) <= 1 by {
                lemma_count_single(1, x);
            }
            assert forall|x: AreaId| ids(l.root@).contains(x) implies x < 2 by {
                assert(ids(l.root@)[0] == 1);
            }
        }
        l
    }

    /// The area tree.
    pub fn root(&self) -> (r: &Area)
        ensures
            r@ == self@.root,
    {
        &self.root
    }

    /// The id the next new area will get.
    pub fn next_id(&self) -> (r: AreaId)
        ensures
            r == self@.next_id,
    {
        self.next_id
    }

    /// Swap in a new leaf for the leaf of the same id.
    fn put_leaf(&mut self, new: Area)
        requires
            layout_ok(old(self)@),
            new is Leaf,
            leaf_at(old(self)@.root, id_of(new@)) is Some,
        ensures
            final(self)@.root == replace(old(self)@.root, id_of(new@), new@),
            final(self)@.next_id == old(self)@.next_id,
            layout_ok(final(self)@),
    {
        let ghost old_root = self.root@;
        let id = new.id();
        proof {
            lemma_find_contains(old_root, id);
            assert(ids(new@) =~= seq![id]);
            assert(ids(find(old_root, id)->0) =~= seq![id]);
            lemma_replace_same(old_root, id, new@);
        }
        let mut tmp = Area::Leaf { id: 0, editor: String::new(), arg: None, regions: Regions::new() };
        std::mem::swap(&mut tmp, &mut self.root);
        self.root = replaced(tmp, id, new);
    }

    /// Change what an area shows, in place. The area keeps its id, its place
    /// and its regions; switching kind clears any argument. False if `leaf` is
    /// not a leaf of this layout.
    pub fn set_editor(&mut self, leaf: AreaId, editor: &str) -> (r: bool)
        requires
            layout_ok(old(self)@),
        ensures
            r == (leaf_at(old(self)@.root, leaf) is Some),
            final(self)@.next_id == old(self)@.next_id,
            layout_ok(final(self)@),
            r ==> final(self)@.root == replace(
                old(self)@.root,
                leaf,
                Node::Leaf {
                    id: leaf,
                    editor: editor@,
                    arg: None,
                    regions: leaf_at(old(self)@.root, leaf)->0->regions,
                },
            ),
            !r ==> final(self)@ == old(self)@,
    {
        let regions = match self.root.find(leaf) {
            Some(Area::Leaf { regions, .. }) => *regions,
            _ => {
                return false;
            },
        };
        self.put_leaf(Area::Leaf { id: leaf, editor: editor.to_owned(), arg: None, regions });
        true
    }

    /// Point an area at a specific thing: editor kind plus its argument.
    pub fn set_editor_arg(&mut self, leaf: AreaId, editor: &str, arg: &str) -> (r: bool)
        requires
            layout_ok(old(self)@),
        ensures
            r == (leaf_at(old(self)@.root, leaf) is Some),
            final(self)@.next_id == old(self)@.next_id,
            layout_ok(final(self)@),
            r ==> final(self)@.root == replace(
                old(self)@.root,
                leaf,
                Node::Leaf {
                    id: leaf,
                    editor: editor@,
                    arg: Some(arg@),
                    regions: leaf_at(old(self)@.root, leaf)->0->regions,
                },
            ),
            !r ==> final(self)@ == old(self)@,
    {
        let regions = match self.root.find(leaf) {
            Some(Area::Leaf { regions, .. }) => *regions,
            _ => {
                return false;
            },
        };
        self.put_leaf(
            Area::Leaf { id: leaf, editor: editor.to_owned(), arg: Some(arg.to_owned()), regions },
        );
        true
    }

    /// Point an area at something without changing its editor. The empty
    /// string clears the target, so "show everything again" needs nothing else.
    pub fn set_target(&mut self, leaf: AreaId, target: &str) -> (r: bool)
        requires
            layout_ok(old(self)@),
        ensures
            r == (leaf_at(old(self)@.root, leaf) is Some),
            final(self)@.next_id == old(self)@.next_id,
            layout_ok(final(self)@),
            r ==> final(self)@.root == replace(
                old(self)@.root,
                leaf,
                Node::Leaf {
                    id: leaf,
                    editor: leaf_at(old(self)@.root, leaf)->0->editor,
                    arg: if target@.len() == 0 {
                        None
                    } else {
                        Some(target@)
                    },
                    regions: leaf_at(old(self)@.root, leaf)->0->regions,
                },
            ),
            !r ==> final(self)@ == old(self)@,
    {
        let (editor, regions) = match self.root.find(leaf) {
            Some(Area::Leaf { editor, regions, .. }) => (editor.clone(), *regions),
            _ => {
                return false;
            },
        };
        let arg = if target.is_empty() {
            None
        } else {
            Some(target.to_owned())
        };
        self.put_leaf(Area::Leaf { id: leaf, editor, arg, regions });
        true
    }

    /// Set a leaf's toolbar or sidebar width (px), clamped to a grabbable
    /// 32..=500. Only the side strips have a width: the header regions are
    /// refused, as is a missing leaf.
    pub fn set_region_width(&mut self, leaf: AreaId, region: Region, w: u16) -> (r: bool)
        requires
            layout_ok(old(self)@),
        ensures
            r == (leaf_at(old(self)@.root, leaf) is Some && (region == Region::Toolbar || region
                == Region::Sidebar)),
            final(self)@.next_id == old(self)@.next_id,
            layout_ok(final(self)@),
            r ==> final(self)@.root == replace(
                old(self)@.root,
                leaf,
                restyled(leaf_at(old(self)@.root, leaf)->0, with_width(leaf_at(old(self)@.root, leaf)->0->regions, region, clamp_width(w))),
            ),
            !r ==> final(self)@ == old(self)@,
    {
        let (editor, arg, regions) = match self.root.find(leaf) {
            Some(Area::Leaf { editor, arg, regions, .. }) => (editor.clone(), arg.clone(), *regions),
            _ => {
                return false;
            },
        };
        proof {
            lemma_find_contains(self.root@, leaf);
        }
        let w = if w < 32 {
            32
        } else if w > 500 {
            500
        } else {
            w
        };
        let mut regions = regions;
        match region {
            Region::Toolbar => regions.toolbar_w = w,
            Region::Sidebar => regions.sidebar_w = w,
            _ => {
                return false;
            },
        }
        self.put_leaf(Area::Leaf { id: leaf, editor, arg, regions });
        true
    }

    /// Toggle one of a leaf's regions: the toolbar, the sidebar, the hidden
    /// header or the flipped header.
    pub fn toggle_region(&mut self, leaf: AreaId, region: Region) -> (r: bool)
        requires
            layout_ok(old(self)@),
        ensures
            r == (leaf_at(old(self)@.root, leaf) is Some),
            final(self)@.next_id == old(self)@.next_id,
            layout_ok(final(self)@),
            r ==> final(self)@.root == replace(
                old(self)@.root,
                leaf,
                restyled(leaf_at(old(self)@.root, leaf)->0, toggled(leaf_at(old(self)@.root, leaf)->0->regions, region)),
            ),
            !r ==> final(self)@ == old(self)@,
    {
        let (editor, arg, regions) = match self.root.find(leaf) {
            Some(Area::Leaf { editor, arg, regions, .. }) => (editor.clone(), arg.clone(), *regions),
            _ => {
                return false;
            },
        };
        proof {
            lemma_find_contains(self.root@, leaf);
        }
        let mut regions = regions;
        match region {
            Region::Toolbar => regions.toolbar = !regions.toolbar,
            Region::Sidebar => regions.sidebar = !regions.sidebar,
            Region::Header => regions.header_hidden = !regions.header_hidden,
            Region::HeaderFlip => regions.header_bottom = !regions.header_bottom,
        }
        self.put_leaf(Area::Leaf { id: leaf, editor, arg, regions });
        true
    }

    /// Exchange what two leaves show, editor and argument both; each keeps
    /// its own regions. Refused when they are the same area or either is not
    /// a leaf of this layout.
    pub fn swap_editors(&mut self, a: AreaId, b: AreaId) -> (r: bool)
        requires
            layout_ok(old(self)@),
        ensures
            r == (a != b && leaf_at(old(self)@.root, a) is Some && leaf_at(old(self)@.root, b) is Some),
            final(self)@.next_id == old(self)@.next_id,
            layout_ok(final(self)@),
            r ==> final(self)@.root == ({
                let la = leaf_at(old(self)@.root, a)->0;
                let lb = leaf_at(old(self)@.root, b)->0;
                replace(
                    replace(
                        old(self)@.root,
                        a,
                        Node::Leaf { id: a, editor: lb->editor, arg: lb->arg, regions: la->regions },
                    ),
                    b,
                    Node::Leaf { id: b, editor: la->editor, arg: la->arg, regions: lb->regions },
                )
            }),
            !r ==> final(self)@ == old(self)@,
    {
        if a == b {
            return false;
        }
        let (ea, xa, ra) = match self.root.find(a) {
            Some(Area::Leaf { editor, arg, regions, .. }) => (editor.clone(), arg.clone(), *regions),
            _ => {
                return false;
            },
        };
        let (eb, xb, rb) = match self.root.find(b) {
            Some(Area::Leaf { editor, arg, regions, .. }) => (editor.clone(), arg.clone(), *regions),
            _ => {
                return false;
            },
        };
        let ghost old_root = self.root@;
        let ghost na = Node::Leaf { id: a, editor: eb@, arg: opt_view(xb), regions: ra };
        proof {
            lemma_find_contains(old_root, a);
            lemma_find_contains(old_root, b);
            assert(ids(find(old_root, a)->0) =~= seq![a]);
            if ids(find(old_root, a)->0).contains(b) {
                assert(ids(find(old_root, a)->0)[0] == b);
            }
            assert(ids(na) =~= seq![a]);
            lemma_leaf_at_replace(old_root, a, na, b);
        }
        self.put_leaf(Area::Leaf { id: a, editor: eb, arg: xb, regions: ra });
        self.put_leaf(Area::Leaf { id: b, editor: ea, arg: xa, regions: rb });
        true
    }
}

impl Layout {
    /// Divide a leaf in two. The original keeps its id, editor and regions
    /// and becomes the first child, with `ratio` of the space (clamped so
    /// neither side vanishes); the new area shows the same editor and
    /// argument. The layout is then normalized, so a split inside a split of
    /// the same direction becomes one split of three.
    ///
    /// Two ids are minted whether or not `target` is a leaf, so the counter
    /// moves the same way on every replica that replays this call.
    pub fn split(&mut self, target: AreaId, dir: Dir, ratio: u32) -> (r: Option<AreaId>)
        requires
            layout_ok(old(self)@),
            old(self)@.next_id < u64::MAX - 1,
        ensures
            final(self)@.next_id == old(self)@.next_id + 2,
            layout_ok(final(self)@),
            match leaf_at(old(self)@.root, target) {
                Some(l) => {
                    &&& r == Some((old(self)@.next_id + 1) as AreaId)
                    &&& final(self)@.root == norm(
                        replace(
                            old(self)@.root,
                            target,
                            split_node(
                                l,
                                old(self)@.next_id,
                                (old(self)@.next_id + 1) as AreaId,
                                dir,
                                clamp_ratio(ratio),
                            ),
                        ),
                    )
                },
                None => r is None && final(self)@.root == old(self)@.root,
            },
    {
        let split_id = self.next_id;
        let new_id = self.next_id + 1;
        self.next_id = self.next_id + 2;
        let (editor, arg, regions) = match self.root.find(target) {
            Some(Area::Leaf { editor, arg, regions, .. }) => (editor.clone(), arg.clone(), *regions),
            _ => {
                return None;
            },
        };
        let ghost old_root = self.root@;
        let r = if ratio < MIN_RATIO {
            MIN_RATIO
        } else if ratio > SCALE - MIN_RATIO {
            SCALE - MIN_RATIO
        } else {
            ratio
        };
        let original = Area::Leaf { id: target, editor: editor.clone(), arg: arg.clone(), regions };
        let fresh = Area::Leaf { id: new_id, editor, arg, regions: Regions::new() };
        let mut sizes: Vec<u32> = Vec::new();
        sizes.push(r);
        sizes.push(SCALE - r);
        let mut children: Vec<Area> = Vec::new();
        children.push(original);
        children.push(fresh);
        let node = Area::Split { id: split_id, dir, sizes, children };
        let ghost l = leaf_at(old_root, target)->0;
        proof {
            lemma_find_contains(old_root, target);
            lemma_nodes_of(children@);
            assert(children@.drop_last() =~= seq![children@[0]]);
            assert(seq![children@[0]].drop_last() =~= Seq::<Area>::empty());
            assert(sizes@ =~= seq![r, (SCALE - r) as u32]);
            assert(original@ == l);
            assert(fresh@ == split_node(l, split_id, new_id, dir, r)->children[1]);
            assert(nodes_of(children@) =~= seq![original@, fresh@]);
            assert(node@ == split_node(l, split_id, new_id, dir, r));
            let rep = replace(old_root, target, node@);
            assert forall|x: AreaId| #[trigger] count(ids(norm(rep)), x) <= 1 by {
                lemma_norm_ids(rep, x);
                lemma_replace_count(old_root, target, node@, x);
                lemma_split_node_count(l, split_id, new_id, dir, r, x);
                lemma_count_contains(ids(old_root), x);
                assert(count(ids(old_root), x) <= 1);
            }
            assert forall|x: AreaId| ids(norm(rep)).contains(x) implies x < split_id + 2 by {
                lemma_count_contains(ids(norm(rep)), x);
                lemma_norm_ids(rep, x);
                lemma_replace_count(old_root, target, node@, x);
                lemma_split_node_count(l, split_id, new_id, dir, r, x);
                lemma_count_contains(ids(old_root), x);
                lemma_count_contains(ids(l), x);
            }
            lemma_norm_shaped(rep);
        }
        let mut tmp = Area::Leaf { id: 0, editor: String::new(), arg: None, regions: Regions::new() };
        std::mem::swap(&mut tmp, &mut self.root);
        self.root = normalize(replaced(tmp, target, node));
        Some(new_id)
    }
}

impl Layout {
    /// Close an area: its space goes to a neighbour and no hole is left.
    /// Closing the root, the last area standing, is refused, as is an id the
    /// layout does not hold. The layout is normalized afterwards.
    pub fn join(&mut self, victim: AreaId) -> (r: bool)
        requires
            layout_ok(old(self)@),
        ensures
            r == (ids(old(self)@.root).contains(victim) && id_of(old(self)@.root) != victim),
            final(self)@.next_id == old(self)@.next_id,
            layout_ok(final(self)@),
            r ==> final(self)@.root == norm(cut(old(self)@.root, victim)),
            !r ==> final(self)@ == old(self)@,
    {
        if self.root.id() == victim {
            return false;
        }
        if !self.root.contains(victim) {
            return false;
        }
        let ghost old_root = self.root@;
        let mut tmp = Area::Leaf { id: 0, editor: String::new(), arg: None, regions: Regions::new() };
        std::mem::swap(&mut tmp, &mut self.root);
        let (cut_root, _) = cut_area(tmp, victim);
        proof {
            let c = cut(old_root, victim);
            assert forall|x: AreaId| #[trigger] count(ids(norm(c)), x) <= 1 by {
                lemma_norm_ids(c, x);
                lemma_cut_ids(old_root, victim, x);
            }
            assert forall|x: AreaId| ids(norm(c)).contains(x) implies x < self.next_id by {
                lemma_count_contains(ids(norm(c)), x);
                lemma_norm_ids(c, x);
                lemma_cut_ids(old_root, victim, x);
                lemma_count_contains(ids(old_root), x);
            }
            lemma_norm_shaped(c);
        }
        self.root = normalize(cut_root);
        true
    }
}

impl Layout {
    /// The join gesture: drag from `survivor` over `victim`, and the survivor
    /// takes the space. Only for sibling leaves that sit side by side in one
    /// split, the one case where "A absorbs B" means one thing in the tree;
    /// anything else, a split among them too, is refused rather than guessed.
    /// Normalized afterwards.
    pub fn join_into(&mut self, survivor: AreaId, victim: AreaId) -> (r: bool)
        requires
            layout_ok(old(self)@),
        ensures
            r == merges(old(self)@.root, survivor, victim),
            final(self)@.next_id == old(self)@.next_id,
            layout_ok(final(self)@),
            r ==> final(self)@.root == norm(merge(old(self)@.root, survivor, victim)),
            !r ==> final(self)@ == old(self)@,
    {
        let ghost old_root = self.root@;
        let mut tmp = Area::Leaf { id: 0, editor: String::new(), arg: None, regions: Regions::new() };
        std::mem::swap(&mut tmp, &mut self.root);
        let (merged, hit) = merge_area(tmp, survivor, victim);
        if !hit {
            self.root = merged;
            proof {
                lemma_merge_unchanged(old_root, survivor, victim);
            }
            return false;
        }
        proof {
            let c = merge(old_root, survivor, victim);
            assert forall|x: AreaId| #[trigger] count(ids(norm(c)), x) <= 1 by {
                lemma_norm_ids(c, x);
                lemma_merge_ids(old_root, survivor, victim, x);
            }
            assert forall|x: AreaId| ids(norm(c)).contains(x) implies x < self.next_id by {
                lemma_count_contains(ids(norm(c)), x);
                lemma_norm_ids(c, x);
                lemma_merge_ids(old_root, survivor, victim, x);
                lemma_count_contains(ids(old_root), x);
            }
            lemma_norm_shaped(c);
        }
        self.root = normalize(merged);
        true
    }
}

impl Layout {
    /// Move a seam. `index` names the boundary between children `index` and
    /// `index + 1` of the split `split`, and `pos` is where it lands as a
    /// share of the whole split. Only those two children change; false if
    /// `split` is no split of this layout or has no such seam.
    pub fn set_seam(&mut self, split: AreaId, index: usize, pos: u32) -> (r: bool)
        requires
            layout_ok(old(self)@),
        ensures
            r == (find(old(self)@.root, split) matches Some(Node::Split { sizes, .. }) && index
                + 1 < sizes.len()),
            final(self)@.next_id == old(self)@.next_id,
            layout_ok(final(self)@),
            r ==> final(self)@.root == ({
                let n = find(old(self)@.root, split)->0;
                replace(
                    old(self)@.root,
                    split,
                    Node::Split {
                        id: split,
                        dir: n->dir,
                        sizes: seam_sizes(n->sizes, index as int, pos),
                        children: n->children,
                    },
                )
            }),
            !r ==> final(self)@ == old(self)@,
    {
        let node = match self.root.find(split) {
            Some(n) => n.copy(),
            None => {
                return false;
            },
        };
        proof {
            lemma_find_contains(self.root@, split);
            lemma_shaped_find(self.root@, split);
        }
        match node {
            Area::Leaf { .. } => false,
            Area::Split { id, dir, sizes, children } => {
                if index >= sizes.len() || index + 1 >= sizes.len() {
                    return false;
                }
                let ghost old_sizes = sizes@;
                let mut lo: u32 = 0;
                let mut k: usize = 0;
                while k < index
                    invariant
                        k <= index,
                        index + 1 < old_sizes.len(),
                        sizes@ == old_sizes,
                        lo == sum(old_sizes.subrange(0, k as int)),
                        sum(old_sizes) == SCALE,
                    decreases index - k,
                {
                    assert(old_sizes.subrange(0, k + 1).drop_last() =~= old_sizes.subrange(0, k as int));
                    proof {
                        crate::shares::lemma_sum_prefix_le(old_sizes, k + 1);
                    }
                    lo = lo + sizes[k];
                    k += 1;
                }
                proof {
                    lemma_sum_pair(old_sizes, index as int, 0, 0);
                }
                let span: u32 = sizes[index] + sizes[index + 1];
                let hi: u32 = lo + span;
                let pad: u32 = ((MIN_RATIO as u64) * (span as u64) / (SCALE as u64)) as u32;
                assert(pad * 2 <= span) by (nonlinear_arith)
                    requires
                        pad == (MIN_RATIO as nat) * (span as nat) / (SCALE as nat),
                ;
                let p: u32 = if pos < lo + pad {
                    lo + pad
                } else if pos > hi - pad {
                    hi - pad
                } else {
                    pos
                };
                let mut sizes = sizes;
                sizes.set(index, p - lo);
                sizes.set(index + 1, hi - p);
                proof {
                    lemma_sum_pair(old_sizes, index as int, (p - lo) as u32, (hi - p) as u32);
                    assert forall|j: int| 0 <= j < sizes@.len() implies #[trigger] sizes@[j] <= SCALE by {
                        lemma_sum_elem_le(sizes@, j);
                    }
                }
                let new = Area::Split { id, dir, sizes, children };
                let ghost old_root = self.root@;
                proof {
                    assert(ids(new@) == ids(find(old_root, split)->0));
                    assert(leaves(new@) == leaves(find(old_root, split)->0));
                    lemma_replace_same(old_root, split, new@);
                }
                let mut tmp = Area::Leaf { id: 0, editor: String::new(), arg: None, regions: Regions::new() };
                std::mem::swap(&mut tmp, &mut self.root);
                self.root = replaced(tmp, split, new);
                true
            },
        }
    }
}

impl Layout {
    /// A layout around a tree that arrived without a counter (an imported
    /// tree, a hand-written default): the counter restarts just above the
    /// largest id in it.
    pub fn from_root(root: Area) -> (l: Layout)
        requires
            distinct(ids(root@)),
            shaped(root@),
            forall|x: AreaId| ids(root@).contains(x) ==> x < u64::MAX,
        ensures
            l@.root == root@,
            ids(root@).contains((l@.next_id - 1) as AreaId),
            forall|x: AreaId| ids(root@).contains(x) ==> x < l@.next_id,
            layout_ok(l@),
    {
        let all = root.ids();
        let mut top: AreaId = 0;
        let mut i: usize = 0;
        proof {
            lemma_ids_contains_own(root@);
        }
        while i < all.len()
            invariant
                all@ == ids(root@),
                i <= all@.len(),
                all@.len() > 0,
                i == 0 ==> top == 0,
                i > 0 ==> all@.contains(top),
                forall|j: int| 0 <= j < i ==> all@[j] <= top,
            decreases all.len() - i,
        {
            if i == 0 || all[i] > top {
                top = all[i];
            }
            i += 1;
        }
        proof {
            assert(all@.contains(top));
            assert forall|x: AreaId| ids(root@).contains(x) implies x < top + 1 by {
                let j = choose|j: int| 0 <= j < all@.len() && all@[j] == x;
            }
        }
        Layout { root, next_id: top + 1 }
    }

    /// A layout from a stored tree and counter, if they form one the
    /// operations accept; `None` for a malformed one.
    pub fn restore(root: Area, next_id: AreaId) -> (r: Option<Layout>)
        ensures
            match r {
                Some(l) => l@.root == root@ && l@.next_id == next_id && layout_ok(l@),
                None => !layout_ok(LayoutView { root: root@, next_id }),
            },
    {
        let all = root.ids();
        if !ids_distinct(&all) || !root.is_shaped() {
            return None;
        }
        let mut i: usize = 0;
        while i < all.len()
            invariant
                all@ == ids(root@),
                i <= all@.len(),
                forall|j: int| 0 <= j < i ==> all@[j] < next_id,
            decreases all.len() - i,
        {
            if all[i] >= next_id {
                assert(all@.contains(all@[i as int]));
                return None;
            }
            i += 1;
        }
        proof {
            assert forall|x: AreaId| ids(root@).contains(x) implies x < next_id by {
                let j = choose|j: int| 0 <= j < all@.len() && all@[j] == x;
            }
        }
        Some(Layout { root, next_id })
    }

    /// An exact copy of this layout.
    pub fn copy(&self) -> (r: Layout)
        ensures
            r@ == self@,
    {
        Layout { root: self.root.copy(), next_id: self.next_id }
    }

    /// Whether this is a layout the operations accept.
    pub fn is_ok(&self) -> (r: bool)
        ensures
            r == layout_ok(self@),
    {
        Layout::restore(self.root.copy(), self.next_id).is_some()
    }
}

/// A leaf with its regions swapped for `regions`.
pub open spec fn restyled(n: Node, regions: Regions) -> Node {
    Node::Leaf { id: id_of(n), editor: n->editor, arg: n->arg, regions }
}

/// A region width clamped to the grabbable range.
pub open spec fn clamp_width(w: u16) -> u16 {
    if w < 32 {
        32
    } else if w > 500 {
        500
    } else {
        w
    }
}

/// Regions with one side strip's width set.
pub open spec fn with_width(r: Regions, region: Region, w: u16) -> Regions {
    match region {
        Region::Toolbar => Regions { toolbar_w: w, ..r },
        Region::Sidebar => Regions { sidebar_w: w, ..r },
        _ => r,
    }
}

/// Regions with one strip shown or hidden the other way.
pub open spec fn toggled(r: Regions, region: Region) -> Regions {
    match region {
        Region::Toolbar => Regions { toolbar: !r.toolbar, ..r },
        Region::Sidebar => Regions { sidebar: !r.sidebar, ..r },
        Region::Header => Regions { header_hidden: !r.header_hidden, ..r },
        Region::HeaderFlip => Regions { header_bottom: !r.header_bottom, ..r },
    }
}

} // verus!
