//! Workspaces: named layouts, switched by tabs.
//!
//! An ordered list of `(name, layout)` plus which one is showing. Every
//! mutation keeps at least one workspace and `active` pointing at a real one,
//! because the screen always renders the active layout.

use vstd::prelude::*;

use crate::area::{layout_ok, Layout};
use crate::text::{trim, trimmed};

verus! {

/// A named layout: one tab.
pub struct Workspace {
    pub name: String,
    pub layout: Layout,
}

/// The tabs, and which one is showing.
pub struct Workspaces {
    pub tabs: Vec<Workspace>,
    pub active: usize,
}

/// A workbench the operations accept: some tab, the active one real, every
/// layout well formed.
pub open spec fn workspaces_ok(w: &Workspaces) -> bool {
    &&& w.tabs@.len() > 0
    &&& w.active < w.tabs@.len()
    &&& forall|i: int| 0 <= i < w.tabs@.len() ==> layout_ok(#[trigger] w.tabs@[i].layout@)
}

/// The tab index `delta` steps from `from`, wrapping around both ends.
pub open spec fn wrapped(from: int, delta: int, n: int) -> int {
    (from + delta) % n
}

/// Moving by `shift` (`delta` reduced into `0..=n`) lands where a wrapped
/// step by `delta` does.
proof fn lemma_wrapped(act: int, delta: int, n: int, shift: int, m: int)
    requires
        n > 0,
        0 <= act,
        delta >= 0 ==> shift == delta % n,
        delta < 0 ==> shift == n - (-delta) % n,
        m == (act + shift) % n,
    ensures
        m == wrapped(act, delta, n),
{
    let x = act + delta;
    let y = act + shift;
    let k: int = if delta >= 0 { -(delta / n) } else { (-delta) / n + 1 };
    vstd::arithmetic::div_mod::lemma_fundamental_div_mod(delta, n);
    vstd::arithmetic::div_mod::lemma_fundamental_div_mod(-delta, n);
    assert(y == x + k * n) by (nonlinear_arith)
        requires
            n > 0,
            x == act + delta,
            y == act + shift,
            delta >= 0 ==> shift == delta % n && delta == n * (delta / n) + delta % n,
            delta < 0 ==> shift == n - (-delta) % n && -delta == n * ((-delta) / n) + (-delta) % n,
            k == if delta >= 0 { -(delta / n) } else { (-delta) / n + 1 },
    {
    }
    vstd::arithmetic::div_mod::lemma_fundamental_div_mod(y, n);
    let q = y / n;
    assert(x == (q - k) * n + m) by (nonlinear_arith)
        requires
            y == x + k * n,
            y == n * q + y % n,
            m == y % n,
    {
    }
    vstd::arithmetic::div_mod::lemma_fundamental_div_mod_converse_mod(x, n, q - k, m);
}

/// Where the selection lands when the tab at `from` moves to `to`: with the
/// moved tab if it was the active one, otherwise on the same tab at its
/// shifted index.
pub open spec fn moved_active(a: int, from: int, to: int, n: int) -> int {
    if a == from {
        to
    } else {
        let a1 = if from < a {
            a - 1
        } else {
            a
        };
        let a2 = if to <= a1 {
            a1 + 1
        } else {
            a1
        };
        if a2 < n - 1 {
            a2
        } else {
            n - 1
        }
    }
}

/// Cycling forward by `delta` and then back by `delta` returns to the tab
/// you started on, whatever the distance and however often it wraps.
pub proof fn law_cycle_back_and_forth(from: int, delta: int, n: int)
    requires
        n > 0,
        0 <= from < n,
    ensures
        wrapped(wrapped(from, delta, n), -delta, n) == from,
{
    let y = wrapped(from, delta, n);
    vstd::arithmetic::div_mod::lemma_fundamental_div_mod(from + delta, n);
    let q = (from + delta) / n;
    assert(y - delta == (-q) * n + from) by (nonlinear_arith)
        requires
            from + delta == n * q + y,
    {
    }
    vstd::arithmetic::div_mod::lemma_fundamental_div_mod_converse_mod(y - delta, n, -q, from);
}

impl Workspace {
    /// An exact copy.
    pub fn copy(&self) -> (r: Workspace)
        ensures
            r.name@ == self.name@,
            r.layout@ == self.layout@,
    {
        Workspace { name: self.name.clone(), layout: self.layout.copy() }
    }
}

impl Workspaces {
    /// A single workspace around a starting layout.
    pub fn new(name: &str, layout: Layout) -> (w: Workspaces)
        requires
            layout_ok(layout@),
        ensures
            w.tabs@.len() == 1,
            w.tabs@[0].name@ == name@,
            w.tabs@[0].layout == layout,
            w.active == 0,
            workspaces_ok(&w),
    {
        let mut tabs = Vec::new();
        tabs.push(Workspace { name: name.to_owned(), layout });
        Workspaces { tabs, active: 0 }
    }

    /// An exact copy.
    pub fn copy(&self) -> (r: Workspaces)
        ensures
            r.active == self.active,
            r.tabs@.len() == self.tabs@.len(),
            forall|i: int|
                0 <= i < self.tabs@.len() ==> (#[trigger] r.tabs@[i]).name@ == self.tabs@[i].name@
                    && r.tabs@[i].layout@ == self.tabs@[i].layout@,
    {
        let mut tabs: Vec<Workspace> = Vec::new();
        let mut i: usize = 0;
        while i < self.tabs.len()
            invariant
                i <= self.tabs@.len(),
                tabs@.len() == i,
                forall|j: int|
                    0 <= j < i ==> (#[trigger] tabs@[j]).name@ == self.tabs@[j].name@
                        && tabs@[j].layout@ == self.tabs@[j].layout@,
            decreases self.tabs.len() - i,
        {
            tabs.push(self.tabs[i].copy());
            i += 1;
        }
        Workspaces { tabs, active: self.active }
    }

    /// Whether the operations accept this workbench: some tab, the active
    /// one real, every layout well formed.
    pub fn is_ok(&self) -> (r: bool)
        ensures
            r == workspaces_ok(self),
    {
        if self.tabs.len() == 0 || self.active >= self.tabs.len() {
            return false;
        }
        let mut i: usize = 0;
        while i < self.tabs.len()
            invariant
                i <= self.tabs@.len(),
                forall|j: int| 0 <= j < i ==> layout_ok(#[trigger] self.tabs@[j].layout@),
            decreases self.tabs.len() - i,
        {
            if !self.tabs[i].layout.is_ok() {
                return false;
            }
            i += 1;
        }
        true
    }

    /// The active workspace.
    pub fn current(&self) -> (r: &Workspace)
        requires
            workspaces_ok(self),
        ensures
            *r == self.tabs@[self.active as int],
    {
        &self.tabs[self.active]
    }

    /// The active layout, to change in place: splits, joins and resizes land
    /// on whichever workspace is showing.
    pub fn current_layout_mut(&mut self) -> (r: &mut Layout)
        requires
            workspaces_ok(old(self)),
        ensures
            *r == old(self).tabs@[old(self).active as int].layout,
            final(self).active == old(self).active,
            final(self).tabs@.len() == old(self).tabs@.len(),
            final(self).tabs@[old(self).active as int].name == old(self).tabs@[old(self).active as int].name,
            final(self).tabs@[old(self).active as int].layout == *final(r),
            forall|j: int|
                0 <= j < old(self).tabs@.len() && j != old(self).active
                    ==> #[trigger] final(self).tabs@[j] == old(self).tabs@[j],
    {
        let i = self.active;
        &mut self.tabs[i].layout
    }

    /// Show the workspace at `index`; false (and nothing changes) if there
    /// is none.
    pub fn switch(&mut self, index: usize) -> (r: bool)
        requires
            workspaces_ok(old(self)),
        ensures
            r == (index < old(self).tabs@.len()),
            final(self).tabs == old(self).tabs,
            final(self).active == if r { index } else { old(self).active },
            workspaces_ok(final(self)),
    {
        if index < self.tabs.len() {
            self.active = index;
            true
        } else {
            false
        }
    }

    /// Step through the tabs, wrapping around the ends: a rotation, not a
    /// bounded scan.
    pub fn cycle(&mut self, delta: i32)
        requires
            workspaces_ok(old(self)),
        ensures
            final(self).tabs == old(self).tabs,
            final(self).active == wrapped(
                old(self).active as int,
                delta as int,
                old(self).tabs@.len() as int,
            ),
            workspaces_ok(final(self)),
    {
        let n = self.tabs.len() as u128;
        let shift: u128 = if delta >= 0 {
            (delta as u128) % n
        } else {
            n - ((-(delta as i128)) as u128) % n
        };
        let m = (self.active as u128 + shift) % n;
        proof {
            lemma_wrapped(self.active as int, delta as int, n as int, shift as int, m as int);
        }
        self.active = m as usize;
    }

    /// Add a workspace and switch to it: you add one to use it.
    pub fn add(&mut self, name: &str, layout: Layout)
        requires
            workspaces_ok(old(self)),
            layout_ok(layout@),
        ensures
            final(self).tabs@.len() == old(self).tabs@.len() + 1,
            final(self).tabs@.drop_last() == old(self).tabs@,
            final(self).tabs@.last().name@ == name@,
            final(self).tabs@.last().layout == layout,
            final(self).active == old(self).tabs@.len(),
            workspaces_ok(final(self)),
    {
        self.tabs.push(Workspace { name: name.to_owned(), layout });
        self.active = self.tabs.len() - 1;
        assert(self.tabs@.drop_last() =~= old(self).tabs@);
    }

    /// Rename a workspace. The name is trimmed; a blank one is refused, as
    /// is an index with no workspace.
    pub fn rename(&mut self, index: usize, name: &str) -> (r: bool)
        requires
            workspaces_ok(old(self)),
        ensures
            r == (index < old(self).tabs@.len() && trimmed(name@).len() > 0),
            final(self).active == old(self).active,
            final(self).tabs@.len() == old(self).tabs@.len(),
            r ==> final(self).tabs@[index as int].name@ == trimmed(name@),
            r ==> final(self).tabs@[index as int].layout == old(self).tabs@[index as int].layout,
            forall|j: int|
                0 <= j < old(self).tabs@.len() && (!r || j != index)
                    ==> #[trigger] final(self).tabs@[j] == old(self).tabs@[j],
            workspaces_ok(final(self)),
    {
        if index >= self.tabs.len() {
            return false;
        }
        let t = trim(name);
        if t.as_str().is_empty() {
            return false;
        }
        let mut tab = self.tabs.remove(index);
        tab.name = t;
        self.tabs.insert(index, tab);
        true
    }

    /// Move a tab to a new position, carrying the selection with it:
    /// reordering never changes which workspace you are looking at. Refused
    /// when either index is out of range or they are the same.
    pub fn move_tab(&mut self, from: usize, to: usize) -> (r: bool)
        requires
            workspaces_ok(old(self)),
        ensures
            r == (from < old(self).tabs@.len() && to < old(self).tabs@.len() && from != to),
            r ==> final(self).tabs@ == old(self).tabs@.remove(from as int).insert(
                to as int,
                old(self).tabs@[from as int],
            ),
            r ==> final(self).active == moved_active(
                old(self).active as int,
                from as int,
                to as int,
                old(self).tabs@.len() as int,
            ),
            r ==> final(self).tabs@[final(self).active as int] == old(self).tabs@[old(self).active as int],
            !r ==> final(self).tabs == old(self).tabs && final(self).active == old(self).active,
            workspaces_ok(final(self)),
    {
        let n = self.tabs.len();
        if from >= n || to >= n || from == to {
            return false;
        }
        let ghost before = self.tabs@;
        let was_active = self.active == from;
        let tab = self.tabs.remove(from);
        self.tabs.insert(to, tab);
        let last = n - 1;
        if was_active {
            self.active = to;
        } else {
            let mut a = self.active;
            if from < a {
                a = a - 1;
            }
            if to <= a {
                a = a + 1;
            }
            self.active = if a < last {
                a
            } else {
                last
            };
        }
        proof {
            let mid = before.remove(from as int);
            assert(self.tabs@ == mid.insert(to as int, before[from as int]));
            let a0 = old(self).active as int;
            if !was_active {
                let m = if from < a0 {
                    a0 - 1
                } else {
                    a0
                };
                assert(mid[m] == before[a0]);
            }
        }
        true
    }

    /// Close a workspace. Refused for the last one (there is always a tab)
    /// and for an index with no workspace. The selection stays on the same
    /// workspace when another tab closes, and falls to a neighbour when its
    /// own does.
    pub fn close(&mut self, index: usize) -> (r: bool)
        requires
            workspaces_ok(old(self)),
        ensures
            r == (old(self).tabs@.len() > 1 && index < old(self).tabs@.len()),
            r ==> final(self).tabs@ == old(self).tabs@.remove(index as int),
            r ==> final(self).active == if old(self).active >= index && old(self).active > 0 {
                (old(self).active - 1) as usize
            } else {
                old(self).active
            },
            r && index != old(self).active ==> final(self).tabs@[final(self).active as int]
                == old(self).tabs@[old(self).active as int],
            !r ==> final(self).tabs == old(self).tabs && final(self).active == old(self).active,
            workspaces_ok(final(self)),
    {
        if self.tabs.len() <= 1 || index >= self.tabs.len() {
            return false;
        }
        self.tabs.remove(index);
        if self.active >= index && self.active > 0 {
            self.active = self.active - 1;
        }
        if self.active > self.tabs.len() - 1 {
            self.active = self.tabs.len() - 1;
        }
        true
    }
}

} // verus!
