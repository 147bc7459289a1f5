use paint_reconcile::{build_dag, Box2d, Box2dOrEmpty, Error, Shape};

fn sh(id: char, x1: u32, y1: u32, x2: u32, y2: u32) -> Shape {
    Shape { id, bounds: Box2d { x1, y1, x2, y2 } }
}

#[test]
fn intersects_basic() {
    let a = Box2d { x1: 0, y1: 0, x2: 100, y2: 100 };
    let b = Box2d { x1: 80, y1: 20, x2: 220, y2: 120 };
    assert!(a.intersects(&b));
    assert!(b.intersects(&a));
    let far = Box2d { x1: 500, y1: 500, x2: 600, y2: 600 };
    assert!(!a.intersects(&far));
}

#[test]
fn touching_edges_do_not_overlap() {
    // one rectangle ends at x = 100, the other starts there
    let left = Box2d { x1: 0, y1: 0, x2: 100, y2: 100 };
    let right = Box2d { x1: 100, y1: 0, x2: 200, y2: 100 };
    assert!(!left.intersects(&right));
    assert!(!right.intersects(&left));
    // touching on the y axis as well
    let below = Box2d { x1: 0, y1: 100, x2: 100, y2: 200 };
    assert!(!left.intersects(&below));
    assert!(!below.intersects(&left));
}

#[test]
fn touching_edges_make_no_graph_edge() {
    let l = sh('L', 0, 0, 100, 100);
    let r = sh('R', 100, 0, 200, 100);
    let d = build_dag(&[l, r]);
    assert_eq!(d.parents.len(), 2);
    assert!(d.parents[0].is_empty());
    assert!(d.parents[1].is_empty());
}

#[test]
fn containment_and_partial_overlap() {
    let outer = Box2d { x1: 0, y1: 0, x2: 300, y2: 300 };
    let inner = Box2d { x1: 10, y1: 10, x2: 20, y2: 20 };
    let crossing = Box2d { x1: 250, y1: 250, x2: 350, y2: 350 };
    assert!(inner.contained_by(&outer));
    assert!(!outer.contained_by(&inner));
    assert!(!inner.partially_overlaps(&outer));
    assert!(crossing.partially_overlaps(&outer));
    assert!(!crossing.contained_by(&outer));
    // a rectangle is contained by itself and does not partially overlap it
    assert!(outer.contained_by(&outer));
    assert!(!outer.partially_overlaps(&outer));
}

#[test]
fn accumulator_starts_empty() {
    let acc = Box2dOrEmpty::new();
    assert!(acc.empty());
    let any = Box2d { x1: 0, y1: 0, x2: 10, y2: 10 };
    assert!(!acc.intersects(&any));
}

#[test]
fn accumulator_union_replaces_when_empty() {
    let acc = Box2dOrEmpty::new();
    let b = Box2d { x1: 5, y1: 6, x2: 7, y2: 8 };
    let acc = acc.union(&b);
    assert!(!acc.empty());
    assert_eq!(acc.unwrap(), Ok(b));
}

#[test]
fn accumulator_union_widens_componentwise() {
    let acc = Box2dOrEmpty::new();
    let acc = acc.union(&Box2d { x1: 10, y1: 10, x2: 20, y2: 20 });
    let acc = acc.union(&Box2d { x1: 0, y1: 15, x2: 15, y2: 40 });
    assert_eq!(acc.unwrap(), Ok(Box2d { x1: 0, y1: 10, x2: 20, y2: 40 }));
}

#[test]
fn accumulator_unwrap_empty_region() {
    let acc = Box2dOrEmpty::new();
    assert_eq!(acc.unwrap(), Err(Error::EmptyRegion));
}

#[test]
fn accumulator_intersects_after_union() {
    let acc = Box2dOrEmpty::new().union(&Box2d { x1: 0, y1: 0, x2: 100, y2: 100 });
    assert!(acc.intersects(&Box2d { x1: 50, y1: 50, x2: 150, y2: 150 }));
    // touching edge still does not count
    assert!(!acc.intersects(&Box2d { x1: 100, y1: 0, x2: 200, y2: 100 }));
}
