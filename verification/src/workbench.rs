//! The workbench the daemon owns: the workspaces, the command registry, the
//! undo and redo stacks and the log of every command that ran.
//!
//! Every mutation arrives as a named command through `dispatch_checked`. It
//! runs against a copy, so a failure leaves the workbench untouched; it is
//! logged either way; and a success that is not pure navigation is recorded
//! for undo, which clears redo. Undo is a stack of whole workbench values.

use vstd::prelude::*;

use crate::area::{default_regions, layout_ok, Dir, Layout, LayoutView, Node, SCALE};
use crate::command::{
    bus, lookup_cmd, res_of, shown_v, split_v, ws_view, BusError, Commands, Fail, WsV,
};
use crate::json::{Json, JsonV};
use crate::workspace::{workspaces_ok, Workspaces};

verus! {

/// The Info log keeps this many entries, newest last.
pub const LOG_CAP: usize = 200;

/// Undo keeps this many steps when a command records one.
pub const UNDO_CAP: usize = 100;

/// One command that went through the bus.
pub struct LogEntry {
    pub name: String,
    pub params: Json,
    /// When it ran, in milliseconds since the epoch.
    pub at: i64,
    /// Whether it took.
    pub ok: bool,
}

/// A log entry as a value.
pub struct EntryV {
    pub name: Seq<char>,
    pub params: JsonV,
    pub at: i64,
    pub ok: bool,
}

impl View for LogEntry {
    type V = EntryV;

    open spec fn view(&self) -> EntryV {
        EntryV { name: self.name@, params: self.params@, at: self.at, ok: self.ok }
    }
}

impl LogEntry {
    /// An exact copy.
    pub fn copy(&self) -> (r: LogEntry)
        ensures
            r@ == self@,
    {
        LogEntry { name: self.name.clone(), params: self.params.copy(), at: self.at, ok: self.ok }
    }
}

/// The workbench: its workspaces, the commands that change them, and the
/// history undo walks.
pub struct Workbench {
    pub workspaces: Workspaces,
    pub commands: Commands,
    undo: Vec<Workspaces>,
    redo: Vec<Workspaces>,
    log: Vec<LogEntry>,
}

/// The workbench as a value.
pub struct WbV {
    pub ws: WsV,
    /// The registry the bus runs commands from.
    pub commands: Seq<CmdV>,
    pub undo: Seq<WsV>,
    pub redo: Seq<WsV>,
    pub log: Seq<EntryV>,
}

pub open spec fn views(s: Seq<Workspaces>) -> Seq<WsV> {
    Seq::new(s.len(), |i: int| ws_view(&s[i]))
}

pub open spec fn entries(s: Seq<LogEntry>) -> Seq<EntryV> {
    Seq::new(s.len(), |i: int| s[i]@)
}

impl View for Workbench {
    type V = WbV;

    closed spec fn view(&self) -> WbV {
        WbV {
            ws: ws_view(&self.workspaces),
            commands: self.commands@,
            undo: views(self.undo@),
            redo: views(self.redo@),
            log: entries(self.log@),
        }
    }
}

/// A log with one more entry, the oldest dropped beyond the cap.
pub open spec fn logged(log: Seq<EntryV>, e: EntryV) -> Seq<EntryV> {
    let l = log.push(e);
    if l.len() > LOG_CAP {
        l.subrange(l.len() - LOG_CAP, l.len() as int)
    } else {
        l
    }
}

/// An undo stack with one more step, the oldest dropped beyond the cap.
pub open spec fn recorded(undo: Seq<WsV>, w: WsV) -> Seq<WsV> {
    let u = undo.push(w);
    if u.len() > UNDO_CAP {
        u.drop_first()
    } else {
        u
    }
}

/// The workbench after `dispatch_checked(name, params, at)`, given the
/// registry `c`.
pub open spec fn dispatched(c: Seq<CmdV>, b: WbV, name: Seq<char>, p: JsonV, at: i64) -> WbV {
    let (w2, res) = bus(c, b.ws, name, p);
    let log = logged(b.log, EntryV { name, params: p, at, ok: res is Ok });
    if res is Err {
        WbV { log, ..b }
    } else if recordable(c, name) {
        WbV { ws: w2, undo: recorded(b.undo, b.ws), redo: seq![], log, ..b }
    } else {
        WbV { ws: w2, log, ..b }
    }
}

/// The workbench after an undo: the last recorded value comes back and the
/// current one goes onto redo. Nothing happens with nothing to undo.
pub open spec fn undone(b: WbV) -> WbV {
    if b.undo.len() == 0 {
        b
    } else {
        WbV { ws: b.undo.last(), undo: b.undo.drop_last(), redo: b.redo.push(b.ws), ..b }
    }
}

/// The workbench after a redo: the mirror of `undone`.
pub open spec fn redone(b: WbV) -> WbV {
    if b.redo.len() == 0 {
        b
    } else {
        WbV { ws: b.redo.last(), undo: b.undo.push(b.ws), redo: b.redo.drop_last(), ..b }
    }
}

use crate::command::CmdV;

/// The starter layout: machine on top (45%), and below it runs on the left
/// (60%) beside fleet on the right.
pub open spec fn starter_layout() -> LayoutView {
    LayoutView {
        root: Node::Split {
            id: 2,
            dir: Dir::Col,
            sizes: seq![450_000u32, 550_000u32],
            children: seq![
                Node::Leaf { id: 1, editor: "machine"@, arg: None, regions: default_regions() },
                Node::Split {
                    id: 4,
                    dir: Dir::Row,
                    sizes: seq![600_000u32, 400_000u32],
                    children: seq![
                        Node::Leaf { id: 3, editor: "runs"@, arg: None, regions: default_regions() },
                        Node::Leaf { id: 5, editor: "fleet"@, arg: None, regions: default_regions() },
                    ],
                },
            ],
        },
        next_id: 6,
    }
}

/// What building the starter layout does: one machine area, split into a
/// lower half that shows runs, split again into runs beside fleet.
pub open spec fn starter_steps() -> LayoutView {
    let single = LayoutView {
        root: Node::Leaf { id: 1, editor: "machine"@, arg: None, regions: default_regions() },
        next_id: 2,
    };
    let l1 = split_v(single, 1, Dir::Col, 450_000);
    if crate::area::leaf_at(single.root, 1) is Some {
        let l2 = shown_if(l1, 3, "runs"@);
        let l3 = split_v(l2, 3, Dir::Row, 600_000);
        if crate::area::leaf_at(l2.root, 3) is Some {
            shown_if(l3, 5, "fleet"@)
        } else {
            l3
        }
    } else {
        l1
    }
}

/// A split of two children that are already in canonical form, neither a
/// split the same way, with shares that fill the whole, is its own
/// canonical form.
proof fn lemma_norm_pair(id: crate::area::AreaId, dir: Dir, a: Node, b: Node, x: u32)
    requires
        crate::area::norm(a) == a,
        crate::area::norm(b) == b,
        !crate::area::is_split_in(a, dir),
        !crate::area::is_split_in(b, dir),
        0 < x < SCALE,
    ensures
        crate::area::norm(Node::Split { id, dir, sizes: seq![x, (SCALE - x) as u32], children: seq![a, b] })
            == (Node::Split { id, dir, sizes: seq![x, (SCALE - x) as u32], children: seq![a, b] }),
{
    let cs = seq![a, b];
    let w = seq![x, (SCALE - x) as u32];
    assert(cs.drop_last() == seq![a]);
    assert(seq![a].drop_last() =~= Seq::<Node>::empty());
    assert(seq![a].last() == a);
    assert(crate::area::norm_list(Seq::<Node>::empty()) == Seq::<Node>::empty());
    assert(crate::area::gather_children(dir, Seq::<Node>::empty()) == Seq::<Node>::empty());
    assert(crate::area::gather_sizes(dir, w, Seq::<Node>::empty()) == Seq::<u32>::empty());
    assert(crate::area::norm_list(seq![a]) =~= seq![a]);
    assert(crate::area::norm_list(cs) =~= cs);
    assert(crate::area::gather_children(dir, seq![a]) =~= seq![a]);
    assert(crate::area::gather_children(dir, cs) =~= cs);
    assert(crate::area::gather_sizes(dir, w, seq![a]) =~= seq![x]);
    assert(crate::area::gather_sizes(dir, w, cs) =~= w);
    assert(w.drop_last() =~= seq![x]);
    assert(seq![x].drop_last() =~= Seq::<u32>::empty());
    assert(crate::shares::sum(Seq::<u32>::empty()) == 0);
    assert(crate::shares::sum(seq![x]) == x as nat);
    assert(w.last() == (SCALE - x) as u32);
    assert(crate::shares::sum(w) == SCALE as nat);
    let total = SCALE as nat;
    assert((x as nat) * total / total == x as nat) by (nonlinear_arith)
        requires
            total == 1_000_000,
    ;
    assert(crate::shares::part(w, total, 0) == x as nat);
    assert(crate::shares::parts_sum(w, total, 0) == 0);
    assert(crate::shares::parts_sum(w, total, 1) == x as nat);
    assert(crate::shares::apportion(w, total) =~= w);
}

/// The steps build exactly the starter layout.
pub proof fn lemma_starter_steps()
    ensures
        starter_steps() == starter_layout(),
{
    let dr = default_regions();
    let m1 = Node::Leaf { id: 1, editor: "machine"@, arg: None, regions: dr };
    let m3 = Node::Leaf { id: 3, editor: "machine"@, arg: None, regions: dr };
    let r3 = Node::Leaf { id: 3, editor: "runs"@, arg: None, regions: dr };
    let r5 = Node::Leaf { id: 5, editor: "runs"@, arg: None, regions: dr };
    let f5 = Node::Leaf { id: 5, editor: "fleet"@, arg: None, regions: dr };
    let s4 = Node::Split { id: 4, dir: Dir::Row, sizes: seq![600_000u32, 400_000u32], children: seq![r3, r5] };
    let single = LayoutView { root: m1, next_id: 2 };
    assert(crate::area::find_list(Seq::<Node>::empty(), 3) is None);
    assert(crate::area::find_list(Seq::<Node>::empty(), 5) is None);
    assert(crate::area::replace_list(Seq::<Node>::empty(), 3, r3) == Seq::<Node>::empty());
    assert(crate::area::replace_list(Seq::<Node>::empty(), 3, s4) == Seq::<Node>::empty());
    assert(crate::area::replace_list(Seq::<Node>::empty(), 5, f5) == Seq::<Node>::empty());
    // The first split.
    assert(crate::area::find(m1, 1) == Some(m1));
    assert(crate::area::leaf_at(m1, 1) == Some(m1));
    assert(crate::area::clamp_ratio(450_000) == 450_000);
    let s2 = Node::Split { id: 2, dir: Dir::Col, sizes: seq![450_000u32, 550_000u32], children: seq![m1, m3] };
    assert(crate::area::split_node(m1, 2, 3, Dir::Col, 450_000) == s2);
    assert(crate::area::replace(m1, 1, s2) == s2);
    lemma_norm_pair(2, Dir::Col, m1, m3, 450_000);
    let l1 = split_v(single, 1, Dir::Col, 450_000);
    assert(l1 == LayoutView { root: s2, next_id: 4 });
    // Runs in the lower area.
    assert(seq![m1, m3].drop_last() == seq![m1]);
    assert(seq![m1].drop_last() =~= Seq::<Node>::empty());
    assert(seq![m1].last() == m1);
    assert(crate::area::find(m1, 3) is None);
    assert(crate::area::find(m3, 3) == Some(m3));
    assert(crate::area::find_list(seq![m1], 3) is None);
    assert(crate::area::find_list(seq![m1, m3], 3) == Some(m3));
    assert(crate::area::leaf_at(s2, 3) == Some(m3));
    let t2 = Node::Split { id: 2, dir: Dir::Col, sizes: seq![450_000u32, 550_000u32], children: seq![m1, r3] };
    assert(crate::area::replace(m1, 3, r3) == m1);
    assert(crate::area::replace(m3, 3, r3) == r3);
    assert(crate::area::replace_list(seq![m1], 3, r3) =~= seq![m1]);
    assert(crate::area::replace_list(seq![m1, m3], 3, r3) =~= seq![m1, r3]);
    assert(crate::area::replace(s2, 3, r3) == t2);
    let l2 = shown_if(l1, 3, "runs"@);
    assert(l2 == LayoutView { root: t2, next_id: 4 });
    // The second split.
    assert(seq![m1, r3].drop_last() == seq![m1]);
    assert(crate::area::find(r3, 3) == Some(r3));
    assert(crate::area::find_list(seq![m1, r3], 3) == Some(r3));
    assert(crate::area::leaf_at(t2, 3) == Some(r3));
    assert(crate::area::clamp_ratio(600_000) == 600_000);
    assert(crate::area::split_node(r3, 4, 5, Dir::Row, 600_000) == s4);
    let u2 = Node::Split { id: 2, dir: Dir::Col, sizes: seq![450_000u32, 550_000u32], children: seq![m1, s4] };
    assert(crate::area::replace(m1, 3, s4) == m1);
    assert(crate::area::replace(r3, 3, s4) == s4);
    assert(crate::area::replace_list(seq![m1], 3, s4) =~= seq![m1]);
    assert(crate::area::replace_list(seq![m1, r3], 3, s4) =~= seq![m1, s4]);
    assert(crate::area::replace(t2, 3, s4) == u2);
    lemma_norm_pair(4, Dir::Row, r3, r5, 600_000);
    lemma_norm_pair(2, Dir::Col, m1, s4, 450_000);
    let l3 = split_v(l2, 3, Dir::Row, 600_000);
    assert(l3 == LayoutView { root: u2, next_id: 6 });
    // Fleet on the right.
    assert(seq![r3, r5].drop_last() == seq![r3]);
    assert(seq![r3].drop_last() =~= Seq::<Node>::empty());
    assert(seq![r3].last() == r3);
    assert(seq![m1, s4].drop_last() == seq![m1]);
    assert(crate::area::find(m1, 5) is None);
    assert(crate::area::find(r3, 5) is None);
    assert(crate::area::find(r5, 5) == Some(r5));
    assert(crate::area::find_list(seq![r3], 5) is None);
    assert(crate::area::find_list(seq![r3, r5], 5) == Some(r5));
    assert(crate::area::find(s4, 5) == Some(r5));
    assert(crate::area::find_list(seq![m1], 5) is None);
    assert(crate::area::find_list(seq![m1, s4], 5) == Some(r5));
    assert(crate::area::leaf_at(u2, 5) == Some(r5));
    let f4 = Node::Split { id: 4, dir: Dir::Row, sizes: seq![600_000u32, 400_000u32], children: seq![r3, f5] };
    assert(crate::area::replace(r3, 5, f5) == r3);
    assert(crate::area::replace(r5, 5, f5) == f5);
    assert(crate::area::replace_list(seq![r3], 5, f5) =~= seq![r3]);
    assert(crate::area::replace_list(seq![r3, r5], 5, f5) =~= seq![r3, f5]);
    assert(crate::area::replace(s4, 5, f5) == f4);
    assert(crate::area::replace(m1, 5, f5) == m1);
    assert(crate::area::replace_list(seq![m1], 5, f5) =~= seq![m1]);
    assert(crate::area::replace_list(seq![m1, s4], 5, f5) =~= seq![m1, f4]);
    reveal_strlit("machine");
    assert(starter_steps() =~~= starter_layout());
}

/// `set_editor(id, editor)` on a layout: the leaf shows `editor`, if `id` is
/// a leaf.
pub open spec fn shown_if(l: LayoutView, id: crate::area::AreaId, editor: Seq<char>) -> LayoutView {
    if crate::area::leaf_at(l.root, id) is Some {
        shown_v(l, id, editor, None)
    } else {
        l
    }
}

/// The starter workbench: one "Overview" workspace. Used when nothing is
/// stored yet.
pub fn default_workspaces() -> (w: Workspaces)
    ensures
        workspaces_ok(&w),
        ws_view(&w) == (WsV { tabs: seq![("Overview"@, starter_layout())], active: 0 }),
{
    let mut l = Layout::single("machine");
    if let Some(bottom) = l.split(1, Dir::Col, 450_000) {
        l.set_editor(bottom, "runs");
        if let Some(right) = l.split(bottom, Dir::Row, 600_000) {
            l.set_editor(right, "fleet");
        }
    }
    let w = Workspaces::new("Overview", l);
    proof {
        lemma_starter_steps();
    }
    assert(ws_view(&w).tabs =~= seq![("Overview"@, starter_steps())]);
    w
}


/// The copy of a workbench is the same value.
proof fn lemma_same_view(a: &Workspaces, b: &Workspaces)
    requires
        a.active == b.active,
        a.tabs@.len() == b.tabs@.len(),
        forall|i: int|
            0 <= i < a.tabs@.len() ==> (#[trigger] a.tabs@[i]).name@ == b.tabs@[i].name@
                && a.tabs@[i].layout@ == b.tabs@[i].layout@,
    ensures
        ws_view(a) == ws_view(b),
{
    assert(ws_view(a).tabs =~= ws_view(b).tabs);
}

/// Copying keeps validity.
proof fn lemma_copy_ok(a: &Workspaces, b: &Workspaces)
    requires
        workspaces_ok(b),
        a.active == b.active,
        a.tabs@.len() == b.tabs@.len(),
        forall|i: int|
            0 <= i < a.tabs@.len() ==> (#[trigger] a.tabs@[i]).name@ == b.tabs@[i].name@
                && a.tabs@[i].layout@ == b.tabs@[i].layout@,
    ensures
        workspaces_ok(a),
{
    assert forall|i: int| 0 <= i < a.tabs@.len() implies layout_ok(#[trigger] a.tabs@[i].layout@) by {
        assert(layout_ok(b.tabs@[i].layout@));
    }
}

impl Workbench {
    /// The invariant every operation keeps: every workbench value it holds is
    /// well formed, and the log is within its cap.
    pub closed spec fn ok(&self) -> bool {
        &&& workspaces_ok(&self.workspaces)
        &&& forall|i: int| 0 <= i < self.undo@.len() ==> workspaces_ok(#[trigger] &self.undo@[i])
        &&& forall|i: int| 0 <= i < self.redo@.len() ==> workspaces_ok(#[trigger] &self.redo@[i])
        &&& self.log@.len() <= LOG_CAP
    }

    /// The registry the workbench runs commands from.
    pub closed spec fn registry(&self) -> Seq<CmdV> {
        self.commands@
    }

    /// A workbench around a starting value, with empty history.
    pub fn new(workspaces: Workspaces, commands: Commands) -> (b: Workbench)
        requires
            workspaces_ok(&workspaces),
        ensures
            b.ok(),
            b.registry() == commands@,
            b@ == (WbV { ws: ws_view(&workspaces), commands: commands@, undo: seq![], redo: seq![], log: seq![] }),
    {
        let b = Workbench { workspaces, commands, undo: Vec::new(), redo: Vec::new(), log: Vec::new() };
        assert(b@.undo =~= Seq::<WsV>::empty());
        assert(b@.redo =~= Seq::<WsV>::empty());
        assert(b@.log =~= Seq::<EntryV>::empty());
        b
    }

    /// The workbench as it is now.
    pub fn workspaces(&self) -> (r: &Workspaces)
        requires
            self.ok(),
        ensures
            ws_view(r) == self@.ws,
            workspaces_ok(r),
    {
        &self.workspaces
    }

    /// The registry.
    pub fn commands(&self) -> (r: &Commands)
        ensures
            r@ == self.registry(),
    {
        &self.commands
    }

    /// Run a command and hand back the new workbench, or the command's
    /// error. Atomic: the command runs against a copy, so a failure changes
    /// nothing but the log. Logged either way, newest last, capped. A success
    /// that is not navigation is recorded for undo (capped) and clears redo.
    pub fn dispatch_checked(&mut self, name: &str, params: Json, at: i64) -> (r: Result<
        Workspaces,
        BusError,
    >)
        requires
            old(self).ok(),
        ensures
            final(self).ok(),
            final(self).registry() == old(self).registry(),
            final(self)@ == dispatched(old(self).registry(), old(self)@, name@, params@, at),
            match r {
                Ok(w) => ws_view(&w) == final(self)@.ws && bus(
                    old(self).registry(),
                    old(self)@.ws,
                    name@,
                    params@,
                ).1 is Ok,
                Err(e) => bus(old(self).registry(), old(self)@.ws, name@, params@).1 == Err::<
                    (),
                    Fail,
                >(crate::command::fail_of(e)),
            },
    {
        let ghost b = self@;
        let mut candidate = self.workspaces.copy();
        proof {
            lemma_same_view(&candidate, &self.workspaces);
            lemma_copy_ok(&candidate, &self.workspaces);
        }
        let outcome = self.commands.run(&mut candidate, name, &params);
        let ok = outcome.is_ok();
        let ghost e = EntryV { name: name@, params: params@, at, ok };
        let ghost before_log = self.log@;
        self.log.push(LogEntry { name: name.to_owned(), params, at, ok });
        assert(entries(self.log@) =~= entries(before_log).push(e));
        if self.log.len() > LOG_CAP {
            let ghost l = self.log@;
            self.log.remove(0);
            assert(entries(self.log@) =~= entries(l).subrange(1, l.len() as int));
        }
        assert(entries(self.log@) =~= logged(b.log, e));
        match outcome {
            Err(err) => {
                assert(self@ =~~= (WbV { log: logged(b.log, e), ..b }));
                return Err(err);
            },
            Ok(()) => {},
        }
        let rec = self.commands.records_undo(name);
        let mut prev = candidate;
        std::mem::swap(&mut prev, &mut self.workspaces);
        if rec {
            let ghost u = self.undo@;
            self.undo.push(prev);
            assert(views(self.undo@) =~= views(u).push(b.ws));
            if self.undo.len() > UNDO_CAP {
                let ghost u2 = self.undo@;
                self.undo.remove(0);
                assert(views(self.undo@) =~= views(u2).drop_first());
            }
            self.redo.clear();
            assert(views(self.redo@) =~= Seq::<WsV>::empty());
            assert(views(self.undo@) =~= recorded(b.undo, b.ws));
        }
        let out = self.workspaces.copy();
        proof {
            lemma_same_view(&out, &self.workspaces);
        }
        Ok(out)
    }
}


/// Whether running `name` is recorded for undo: known and not navigation.
pub open spec fn recordable(c: Seq<CmdV>, name: Seq<char>) -> bool {
    lookup_cmd(c, name) matches Some(cmd) && !cmd.navigational
}

/// The newest log entry that took and changed the layout: what Repeat Last
/// and Adjust Last act on. Navigation and failures are skipped.
pub open spec fn last_recordable(log: Seq<EntryV>, c: Seq<CmdV>) -> Option<EntryV>
    decreases log.len(),
{
    if log.len() == 0 {
        None
    } else if log.last().ok && recordable(c, log.last().name) {
        Some(log.last())
    } else {
        last_recordable(log.drop_last(), c)
    }
}

impl Workbench {
    /// `dispatch_checked` for the interface's own controls: an error leaves
    /// the workbench as it was (the attempt is still logged) and the current
    /// workbench comes back either way.
    pub fn dispatch(&mut self, name: &str, params: Json, at: i64) -> (r: Workspaces)
        requires
            old(self).ok(),
        ensures
            final(self).ok(),
            final(self).registry() == old(self).registry(),
            final(self)@ == dispatched(old(self).registry(), old(self)@, name@, params@, at),
            ws_view(&r) == final(self)@.ws,
    {
        match self.dispatch_checked(name, params, at) {
            Ok(w) => w,
            Err(_) => {
                let w = self.workspaces.copy();
                proof {
                    lemma_same_view(&w, &self.workspaces);
                }
                w
            },
        }
    }

    /// The Info log: every command that ran, newest last.
    pub fn command_log(&self) -> (r: Vec<LogEntry>)
        ensures
            entries(r@) == self@.log,
    {
        let mut out: Vec<LogEntry> = Vec::new();
        let mut i: usize = 0;
        while i < self.log.len()
            invariant
                i <= self.log@.len(),
                out@.len() == i,
                forall|j: int| 0 <= j < i ==> (#[trigger] out@[j])@ == self.log@[j]@,
            decreases self.log.len() - i,
        {
            out.push(self.log[i].copy());
            i += 1;
        }
        assert(entries(out@) =~= entries(self.log@));
        out
    }

    /// Where the newest recordable entry is in the log.
    fn last_index(&self) -> (r: Option<usize>)
        ensures
            match r {
                Some(i) => i < self.log@.len() && last_recordable(self@.log, self.registry()) == Some(
                    self@.log[i as int],
                ),
                None => last_recordable(self@.log, self.registry()) is None,
            },
    {
        let ghost all = self@.log;
        let mut i: usize = self.log.len();
        assert(all.subrange(0, i as int) =~= all);
        while i > 0
            invariant
                i <= self.log@.len(),
                all == self@.log,
                all.len() == self.log@.len(),
                last_recordable(all, self.registry()) == last_recordable(
                    all.subrange(0, i as int),
                    self.registry(),
                ),
            decreases i,
        {
            let e = &self.log[i - 1];
            let ghost pre = all.subrange(0, i as int);
            assert(pre.last() == all[i - 1]);
            assert(pre.drop_last() =~= all.subrange(0, i - 1));
            if e.ok && self.commands.records_undo(e.name.as_str()) {
                return Some(i - 1);
            }
            i -= 1;
        }
        None
    }

    /// The most recent command that changed the layout, name and params,
    /// for Adjust Last to re-run with edits.
    pub fn last_command(&self) -> (r: Option<(String, Json)>)
        ensures
            match r {
                Some((n, p)) => last_recordable(self@.log, self.registry()) matches Some(e) && e.name
                    == n@ && e.params == p@,
                None => last_recordable(self@.log, self.registry()) is None,
            },
    {
        match self.last_index() {
            Some(i) => Some((self.log[i].name.clone(), self.log[i].params.copy())),
            None => None,
        }
    }

    /// Re-run the most recent command that changed the layout (Repeat Last).
    /// Navigation and failed commands are skipped; with none, nothing runs.
    pub fn repeat_last(&mut self, at: i64) -> (r: Workspaces)
        requires
            old(self).ok(),
        ensures
            final(self).ok(),
            final(self).registry() == old(self).registry(),
            final(self)@ == match last_recordable(old(self)@.log, old(self).registry()) {
                Some(e) => dispatched(old(self).registry(), old(self)@, e.name, e.params, at),
                None => old(self)@,
            },
            ws_view(&r) == final(self)@.ws,
    {
        match self.last_command() {
            Some((name, params)) => self.dispatch(name.as_str(), params, at),
            None => {
                let w = self.workspaces.copy();
                proof {
                    lemma_same_view(&w, &self.workspaces);
                }
                w
            },
        }
    }

    /// Replace the whole workbench (an imported layout set). The swap is
    /// recorded for undo.
    pub fn set_workspaces(&mut self, new: Workspaces) -> (r: Workspaces)
        requires
            old(self).ok(),
            workspaces_ok(&new),
        ensures
            final(self).ok(),
            final(self).registry() == old(self).registry(),
            final(self)@ == (WbV {
                ws: ws_view(&new),
                undo: old(self)@.undo.push(old(self)@.ws),
                ..old(self)@
            }),
            ws_view(&r) == ws_view(&new),
    {
        let ghost b = self@;
        let mut prev = new;
        std::mem::swap(&mut prev, &mut self.workspaces);
        let ghost u = self.undo@;
        self.undo.push(prev);
        assert(views(self.undo@) =~= views(u).push(b.ws));
        let out = self.workspaces.copy();
        proof {
            lemma_same_view(&out, &self.workspaces);
        }
        out
    }

    /// Step back one edit: the current value goes onto redo and the last
    /// undo value becomes current. Nothing happens with an empty stack.
    pub fn undo(&mut self) -> (r: Workspaces)
        requires
            old(self).ok(),
        ensures
            final(self).ok(),
            final(self).registry() == old(self).registry(),
            final(self)@ == undone(old(self)@),
            ws_view(&r) == final(self)@.ws,
    {
        let ghost b = self@;
        if let Some(prev) = self.undo.pop() {
            let ghost u = self.undo@;
            assert(views(u) =~= b.undo.drop_last());
            let mut cur = prev;
            std::mem::swap(&mut cur, &mut self.workspaces);
            let ghost rd = self.redo@;
            self.redo.push(cur);
            assert(views(self.redo@) =~= views(rd).push(b.ws));
        }
        let out = self.workspaces.copy();
        proof {
            lemma_same_view(&out, &self.workspaces);
        }
        out
    }

    /// Step forward again: the mirror of `undo`.
    pub fn redo(&mut self) -> (r: Workspaces)
        requires
            old(self).ok(),
        ensures
            final(self).ok(),
            final(self).registry() == old(self).registry(),
            final(self)@ == redone(old(self)@),
            ws_view(&r) == final(self)@.ws,
    {
        let ghost b = self@;
        if let Some(next) = self.redo.pop() {
            let ghost rd = self.redo@;
            assert(views(rd) =~= b.redo.drop_last());
            let mut cur = next;
            std::mem::swap(&mut cur, &mut self.workspaces);
            let ghost u = self.undo@;
            self.undo.push(cur);
            assert(views(self.undo@) =~= views(u).push(b.ws));
        }
        let out = self.workspaces.copy();
        proof {
            lemma_same_view(&out, &self.workspaces);
        }
        out
    }
}

// --- laws --------------------------------------------------------------------

/// Undo right after a command that took and was recorded brings back the
/// workbench as it was before the command.
pub proof fn law_undo_reverts_a_command(c: Seq<CmdV>, b: WbV, name: Seq<char>, p: JsonV, at: i64)
    requires
        bus(c, b.ws, name, p).1 is Ok,
        recordable(c, name),
    ensures
        undone(dispatched(c, b, name, p, at)).ws == b.ws,
        b.undo.len() < UNDO_CAP ==> undone(dispatched(c, b, name, p, at)).undo == b.undo,
{
    let d = dispatched(c, b, name, p, at);
    let u = b.undo.push(b.ws);
    if u.len() > UNDO_CAP {
        assert(u.drop_first().last() == b.ws);
    } else {
        assert(u.drop_last() =~= b.undo);
    }
}

/// Redo right after an undo gives back exactly the workbench before it.
pub proof fn law_redo_reverts_undo(b: WbV)
    requires
        b.undo.len() > 0,
    ensures
        redone(undone(b)) == b,
{
    let u = undone(b);
    assert(u.redo.drop_last() =~= b.redo);
    assert(u.undo.push(u.ws) =~= b.undo);
}

/// Undo right after a redo gives back exactly the workbench before it.
pub proof fn law_undo_reverts_redo(b: WbV)
    requires
        b.redo.len() > 0,
    ensures
        undone(redone(b)) == b,
{
    let r = redone(b);
    assert(r.undo.drop_last() =~= b.undo);
    assert(r.redo.push(r.ws) =~= b.redo);
}

/// A command that fails changes nothing but the log: the workbench, undo and
/// redo are as they were; the attempt is logged as failed.
pub proof fn law_a_failed_command_changes_only_the_log(
    c: Seq<CmdV>,
    b: WbV,
    name: Seq<char>,
    p: JsonV,
    at: i64,
)
    requires
        bus(c, b.ws, name, p).1 is Err,
    ensures
        dispatched(c, b, name, p, at).ws == b.ws,
        dispatched(c, b, name, p, at).undo == b.undo,
        dispatched(c, b, name, p, at).redo == b.redo,
        dispatched(c, b, name, p, at).log.last() == (EntryV { name, params: p, at, ok: false }),
{
}

/// An edit that is recorded clears redo; navigation leaves both stacks alone.
pub proof fn law_edits_clear_redo_and_navigation_keeps_history(
    c: Seq<CmdV>,
    b: WbV,
    name: Seq<char>,
    p: JsonV,
    at: i64,
)
    requires
        bus(c, b.ws, name, p).1 is Ok,
    ensures
        recordable(c, name) ==> dispatched(
            c,
            b,
            name,
            p,
            at,
        ).redo.len() == 0,
        !recordable(c, name) ==> dispatched(
            c,
            b,
            name,
            p,
            at,
        ).undo == b.undo && dispatched(c, b, name, p, at).redo == b.redo,
{
}

/// History stays bounded: the log never holds more than its cap, and the
/// newest entry is always the command just run; a command never grows undo
/// past its cap.
pub proof fn law_history_is_bounded(c: Seq<CmdV>, b: WbV, name: Seq<char>, p: JsonV, at: i64)
    requires
        b.log.len() <= LOG_CAP,
        b.undo.len() <= UNDO_CAP,
    ensures
        dispatched(c, b, name, p, at).log.len() <= LOG_CAP,
        dispatched(c, b, name, p, at).log.last().name == name,
        dispatched(c, b, name, p, at).log.last().params == p,
        dispatched(c, b, name, p, at).undo.len() <= UNDO_CAP,
{
}

} // verus!
