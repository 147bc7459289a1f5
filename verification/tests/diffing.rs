use paint_reconcile::{build_dag, diff, find, ids, pick, Box2d, Error, Shape};

fn sh(id: char, x1: u32, y1: u32, x2: u32, y2: u32) -> Shape {
    Shape { id, bounds: Box2d { x1, y1, x2, y2 } }
}

fn a() -> Shape {
    sh('A', 250, 50, 350, 150)
}

fn b() -> Shape {
    sh('B', 200, 0, 300, 100)
}

fn c() -> Shape {
    sh('C', 0, 0, 100, 100)
}

fn d() -> Shape {
    sh('D', 80, 20, 220, 120)
}

fn e() -> Shape {
    sh('E', 81, 20, 220, 120)
}

#[test]
fn diff_of_identical_lists_is_no_change() {
    let x = vec![a(), b(), c()];
    assert_eq!(diff(&x, &x), Err(Error::NoChange));
}

#[test]
fn diff_of_empty_lists_is_no_change() {
    let x: Vec<Shape> = Vec::new();
    assert_eq!(diff(&x, &x), Err(Error::NoChange));
}

#[test]
fn diff_of_reordered_identical_elements_is_no_change() {
    // same element set in another order: nothing was added or removed
    let old = vec![c(), d()];
    let new = vec![d(), c()];
    assert_eq!(diff(&old, &new), Err(Error::NoChange));
}

#[test]
fn diff_scenario_one_to_four() {
    // old = [A], new = [A, D, C, E]: the dirty rectangle is the union of
    // the bounds of D, C and E, and changed keeps new's order
    let old = vec![a()];
    let new = vec![a(), d(), c(), e()];
    let (dirty, changed) = diff(&old, &new).unwrap();
    assert_eq!(dirty, Box2d { x1: 0, y1: 0, x2: 220, y2: 120 });
    assert_eq!(changed, vec![d(), c(), e()]);
}

#[test]
fn diff_dirty_rectangle_covers_every_differing_element() {
    let old = vec![c(), d()];
    let new = vec![a(), b(), c()];
    let (dirty, _) = diff(&old, &new).unwrap();
    // the differing elements are D (removed), A and B (added)
    for s in [d(), a(), b()] {
        assert!(s.bounds.contained_by(&dirty));
    }
}

#[test]
fn diff_removed_element_only() {
    let old = vec![c(), d()];
    let new = vec![c()];
    let (dirty, changed) = diff(&old, &new).unwrap();
    assert_eq!(dirty, d().bounds);
    // C overlaps D's bounds, so it stays relevant to the merge
    assert_eq!(changed, vec![c()]);
}

#[test]
fn find_first_position_by_value() {
    let list = vec![c(), d(), e()];
    assert_eq!(find(&list, d()), Some(1));
    assert_eq!(find(&list, a()), None);
    // value equality includes the bounds, not only the identity
    let moved_c = sh('C', 1, 1, 2, 2);
    assert_eq!(find(&list, moved_c), None);
}

#[test]
fn ids_in_list_order() {
    assert_eq!(ids(&[a(), d(), c()]), vec!['A', 'D', 'C']);
    assert_eq!(ids(&[]), Vec::<char>::new());
}

#[test]
fn pick_by_bitmask() {
    let list = vec![a(), b(), c(), d(), e()];
    assert_eq!(pick(0, &list), Vec::<Shape>::new());
    assert_eq!(pick(0b00101, &list), vec![a(), c()]);
    assert_eq!(pick(0b11111, &list), list);
}

#[test]
fn build_dag_edges_point_to_later_overlaps() {
    let list = vec![c(), d(), a()];
    let g = build_dag(&list);
    // C overlaps D; neither overlaps A
    assert_eq!(g.parents[0], vec![1]);
    assert!(g.parents[1].is_empty());
    assert!(g.parents[2].is_empty());
}
