use powderman::area::Layout;
use powderman::workspace::Workspaces;

fn ws() -> Workspaces {
    let mut w = Workspaces::new("one", Layout::single("a"));
    w.add("two", Layout::single("b"));
    w.add("three", Layout::single("c"));
    w
}

#[test]
fn add_switches_to_the_new_tab() {
    let w = ws();
    assert_eq!(w.active, 2);
    assert_eq!(w.current().name, "three");
}

#[test]
fn cycle_wraps_both_ways() {
    let mut w = ws();
    w.cycle(1);
    assert_eq!(w.active, 0);
    w.cycle(-1);
    assert_eq!(w.active, 2);
}

#[test]
fn cycle_by_more_than_a_lap_lands_where_the_remainder_says() {
    let mut w = ws();
    w.cycle(7);
    assert_eq!(w.active, 0);
    w.cycle(-8);
    assert_eq!(w.active, 1);
    w.cycle(i32::MIN);
    assert_eq!(w.active, 2);
    w.cycle(i32::MAX);
    assert_eq!(w.active, 0);
}

#[test]
fn close_keeps_at_least_one_and_never_leaves_active_dangling() {
    let mut w = ws();
    assert!(w.close(2));
    assert_eq!(w.tabs.len(), 2);
    assert!(w.active < w.tabs.len());
    assert_eq!(w.current().name, "two");
    assert!(w.close(1));
    assert!(!w.close(0));
    assert_eq!(w.tabs.len(), 1);
}

#[test]
fn closing_before_active_shifts_active_to_track_the_same_tab() {
    let mut w = ws();
    w.switch(2);
    w.close(0);
    assert_eq!(w.current().name, "three");
}

#[test]
fn rename_rejects_blank() {
    let mut w = ws();
    assert!(!w.rename(0, "   "));
    assert!(w.rename(0, "renamed"));
    assert_eq!(w.tabs[0].name, "renamed");
}

#[test]
fn rename_trims_the_name() {
    let mut w = ws();
    assert!(w.rename(1, "  spaced \t"));
    assert_eq!(w.tabs[1].name, "spaced");
    assert!(!w.rename(7, "nowhere"));
}

#[test]
fn a_workspace_set_round_trips_through_a_copy() {
    let w = ws();
    let c = w.copy();
    assert_eq!(c.active, w.active);
    assert_eq!(c.tabs.len(), w.tabs.len());
    for (a, b) in c.tabs.iter().zip(w.tabs.iter()) {
        assert_eq!(a.name, b.name);
        assert_eq!(a.layout.root().leaves(), b.layout.root().leaves());
    }
}

fn ws_n(n: usize) -> Workspaces {
    let mut w = Workspaces::new("0", Layout::single("runs"));
    for i in 1..n {
        w.add(&i.to_string(), Layout::single("runs"));
    }
    w
}

fn names(w: &Workspaces) -> Vec<String> {
    w.tabs.iter().map(|t| t.name.clone()).collect()
}

#[test]
fn a_tab_moves_and_takes_the_selection_with_it() {
    let mut w = ws_n(4);
    w.active = 2;
    assert!(w.move_tab(2, 0));
    assert_eq!(names(&w), ["2", "0", "1", "3"]);
    assert_eq!(w.active, 0, "the moved tab is still the active one");
}

#[test]
fn moving_another_tab_leaves_the_selection_where_it_looks() {
    let mut w = ws_n(4);
    w.active = 1;
    assert!(w.move_tab(3, 0));
    assert_eq!(names(&w), ["3", "0", "1", "2"]);
    assert_eq!(w.tabs[w.active].name, "1", "still looking at the same tab");

    let mut w = ws_n(4);
    w.active = 2;
    assert!(w.move_tab(0, 3));
    assert_eq!(names(&w), ["1", "2", "3", "0"]);
    assert_eq!(w.tabs[w.active].name, "2", "still looking at the same tab");
}

#[test]
fn a_move_that_cannot_happen_is_refused() {
    let mut w = ws_n(3);
    assert!(!w.move_tab(0, 0), "a tab does not move onto itself");
    assert!(!w.move_tab(5, 0), "no such tab");
    assert!(!w.move_tab(0, 5), "no such position");
    assert_eq!(names(&w), ["0", "1", "2"], "and nothing changed");
}

#[test]
fn switching_to_a_missing_tab_changes_nothing() {
    let mut w = ws();
    assert!(!w.switch(3));
    assert_eq!(w.active, 2);
    assert!(w.switch(0));
    assert_eq!(w.current().name, "one");
}
