use powderman::area::{Area, AreaId, Dir, Layout, MIN_RATIO, SCALE};

fn editor_of(l: &Layout, id: AreaId) -> String {
    match l.root().find(id) {
        Some(Area::Leaf { editor, .. }) => editor.clone(),
        Some(_) => panic!("area {id} is not a leaf"),
        None => panic!("area {id} is missing"),
    }
}

fn half() -> u32 {
    SCALE / 2
}

#[test]
fn three_in_a_row_is_one_split_however_it_was_built() {
    let mut a = Layout::single("x");
    let second = a.split(1, Dir::Row, half()).unwrap();
    a.split(1, Dir::Row, half()).unwrap();
    let mut b = Layout::single("x");
    let b2 = b.split(1, Dir::Row, half()).unwrap();
    b.split(b2, Dir::Row, half()).unwrap();
    for l in [&a, &b] {
        match l.root() {
            Area::Split { children, sizes, .. } => {
                assert_eq!(children.len(), 3, "three columns, one split");
                assert_eq!(sizes.len(), 3);
                assert!(children.iter().all(|c| matches!(c, Area::Leaf { .. })));
            }
            Area::Leaf { .. } => panic!("expected one split"),
        }
    }
    let _ = second;
}

#[test]
fn a_seam_moves_only_its_own_pair() {
    let mut l = Layout::single("x");
    l.split(1, Dir::Row, half()).unwrap();
    l.split(1, Dir::Row, half()).unwrap();
    let (id, before) = match l.root() {
        Area::Split { id, sizes, .. } => (*id, sizes.clone()),
        _ => panic!("split"),
    };
    assert!(l.set_seam(id, 0, SCALE / 10));
    match l.root() {
        Area::Split { sizes, .. } => {
            assert_eq!(sizes[2], before[2], "outer column untouched");
            assert_eq!(sizes.iter().sum::<u32>(), SCALE, "still a partition");
        }
        _ => panic!("split"),
    }
}

#[test]
fn joining_a_middle_area_leaves_two() {
    let mut l = Layout::single("x");
    l.split(1, Dir::Row, half()).unwrap();
    let mid = l.split(1, Dir::Row, half()).unwrap();
    assert!(l.join(mid));
    match l.root() {
        Area::Split { children, sizes, .. } => {
            assert_eq!(children.len(), 2);
            assert_eq!(sizes.iter().sum::<u32>(), SCALE);
        }
        Area::Leaf { .. } => panic!("expected a split of two"),
    }
    let last = l.root().leaves()[1];
    assert!(l.join(last));
    assert!(matches!(l.root(), Area::Leaf { .. }));
}

#[test]
fn a_cross_direction_split_still_nests() {
    let mut l = Layout::single("x");
    let right = l.split(1, Dir::Row, half()).unwrap();
    l.split(right, Dir::Col, half()).unwrap();
    match l.root() {
        Area::Split { dir, children, .. } => {
            assert_eq!(*dir, Dir::Row);
            assert_eq!(children.len(), 2, "a column inside a row is still nesting");
            assert!(matches!(children[1], Area::Split { dir: Dir::Col, .. }));
        }
        Area::Leaf { .. } => panic!("expected a row"),
    }
}

#[test]
fn swap_editors_exchanges_two_leaves() {
    let mut l = Layout::single("runs");
    let new = l.split(1, Dir::Row, half()).expect("split makes a second leaf");
    l.set_editor(new, "fleet");
    assert!(l.swap_editors(1, new));
    assert_eq!(editor_of(&l, 1), "fleet");
    assert_eq!(editor_of(&l, new), "runs");
    assert!(!l.swap_editors(1, 1));
    assert!(!l.swap_editors(1, 9999));
}

#[test]
fn split_keeps_the_original_and_duplicates_its_editor() {
    let mut l = Layout::single("machine");
    let new = l.split(1, Dir::Row, 600_000).unwrap();
    assert_eq!(l.root().leaves(), vec![1, new]);
    assert_eq!(editor_of(&l, 1), "machine");
    assert_eq!(editor_of(&l, new), "machine");
}

#[test]
fn ids_survive_reshaping_around_them() {
    let mut l = Layout::single("a");
    let b = l.split(1, Dir::Row, half()).unwrap();
    l.set_editor(b, "b");
    let c = l.split(b, Dir::Col, half()).unwrap();
    l.set_editor(c, "c");
    assert_eq!(editor_of(&l, 1), "a");
    assert_eq!(l.root().leaves(), vec![1, b, c]);
}

#[test]
fn join_gives_the_space_to_the_sibling_subtree() {
    let mut l = Layout::single("a");
    let b = l.split(1, Dir::Row, half()).unwrap();
    l.set_editor(b, "b");
    let c = l.split(b, Dir::Col, half()).unwrap();
    l.set_editor(c, "c");
    assert!(l.join(1));
    assert_eq!(l.root().leaves(), vec![b, c]);
    assert!(matches!(l.root(), Area::Split { .. }));
}

#[test]
fn the_last_area_cannot_be_joined_away() {
    let mut l = Layout::single("a");
    assert!(!l.join(1));
    assert_eq!(l.root().leaves(), vec![1]);
}

#[test]
fn seams_never_let_an_area_vanish() {
    let mut l = Layout::single("a");
    l.split(1, Dir::Row, half()).unwrap();
    let split_id = l.root().id();
    assert!(l.set_seam(split_id, 0, 100));
    let Area::Split { sizes, .. } = l.root() else {
        unreachable!()
    };
    assert!(sizes[0] >= MIN_RATIO, "the squeezed area keeps a grabbable slice");
}

#[test]
fn minted_ids_are_deterministic_across_a_save_load_cycle() {
    let mut l = Layout::single("a");
    l.split(1, Dir::Row, half()).unwrap();
    let mut reloaded = Layout::restore(l.root().copy(), l.next_id()).unwrap();
    let mut original = l.copy();
    assert_eq!(
        original.split(1, Dir::Col, half()),
        reloaded.split(1, Dir::Col, half())
    );
    assert_eq!(original.root().leaves(), reloaded.root().leaves());
    assert_eq!(original.next_id(), reloaded.next_id());
}

#[test]
fn join_into_keeps_the_survivor_and_only_works_on_sibling_leaves() {
    let mut l = Layout::single("a");
    let b = l.split(1, Dir::Row, half()).unwrap();
    l.set_editor(b, "b");
    let c = l.split(b, Dir::Col, half()).unwrap();
    l.set_editor(c, "c");
    assert!(!l.join_into(1, b));
    // Area 4 is the split holding b and c, beside leaf 1: not a leaf, so
    // nothing is merged.
    let before = l.root().leaves();
    assert!(!l.join_into(1, 4));
    assert!(!l.join_into(4, 1));
    assert_eq!(l.root().leaves(), before);
    assert!(l.join_into(c, b));
    assert_eq!(l.root().leaves(), vec![1, c]);
    assert_eq!(editor_of(&l, c), "c");
}

fn arg_of(l: &Layout, id: AreaId) -> Option<String> {
    match l.root().find(id) {
        Some(Area::Leaf { arg, .. }) => arg.clone(),
        _ => panic!("area {id} is not a leaf"),
    }
}

#[test]
fn arg_rides_the_area_and_clears_on_a_kind_switch() {
    let mut l = Layout::single("runs");
    assert!(l.set_editor_arg(1, "run", "0f6a43ae"));
    assert_eq!(arg_of(&l, 1).as_deref(), Some("0f6a43ae"));
    let twin = l.split(1, Dir::Row, half()).unwrap();
    assert_eq!(arg_of(&l, twin).as_deref(), Some("0f6a43ae"));
    assert!(l.set_editor(1, "fleet"));
    assert_eq!(arg_of(&l, 1), None);
}

#[test]
fn splitting_a_split_is_refused() {
    let mut l = Layout::single("a");
    l.split(1, Dir::Row, half()).unwrap();
    let split_id = l.root().id();
    assert_eq!(l.split(split_id, Dir::Row, half()), None);
}

#[test]
fn a_split_ratio_is_clamped_to_a_grabbable_share() {
    let mut l = Layout::single("a");
    l.split(1, Dir::Row, 0).unwrap();
    let Area::Split { sizes, .. } = l.root() else {
        unreachable!()
    };
    assert!(sizes[0] >= MIN_RATIO && sizes[1] >= MIN_RATIO);
    assert_eq!(sizes[0] + sizes[1], SCALE);
}
