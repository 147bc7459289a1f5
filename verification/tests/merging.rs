use paint_reconcile::{
    bogo_merge, bogo_merge_v1, check_merge, check_ordering, diff, equiv, ids, merge_bad,
    merge_good, merge_good_index, merge_good_v1, merge_good_v2, Box2d, Shape,
};

fn sh(id: char, x1: u32, y1: u32, x2: u32, y2: u32) -> Shape {
    Shape { id, bounds: Box2d { x1, y1, x2, y2 } }
}

fn a() -> Shape {
    sh('A', 250, 50, 350, 150)
}

fn b() -> Shape {
    sh('B', 200, 0, 300, 100)
}

fn c() -> Shape {
    sh('C', 0, 0, 100, 100)
}

fn d() -> Shape {
    sh('D', 80, 20, 220, 120)
}

fn e() -> Shape {
    sh('E', 81, 20, 220, 120)
}

#[test]
fn ordering_respected_in_same_order() {
    // C and D overlap, so [C, D] constrains C to stay at or before D
    let src = vec![c(), d()];
    assert!(check_ordering(&src, &vec![c(), d()]));
    assert!(!check_ordering(&src, &vec![d(), c()]));
}

#[test]
fn ordering_vacuous_when_element_absent() {
    let src = vec![c(), d()];
    assert!(check_ordering(&src, &vec![d()]));
    assert!(check_ordering(&src, &vec![c()]));
    assert!(check_ordering(&src, &Vec::new()));
}

#[test]
fn ordering_ignores_non_overlapping_pairs() {
    // C and A do not overlap: either order is fine
    let src = vec![c(), a()];
    assert!(check_ordering(&src, &vec![a(), c()]));
}

#[test]
fn merge_validity_subset_scenario() {
    // old = [C, D], new = [A, B, C, D]: the merged [A, B, C] respects both
    let old = vec![c(), d()];
    let new = vec![a(), b(), c(), d()];
    let result = vec![a(), b(), c()];
    assert!(check_merge(&old, &new, &result));
    // but reversing the overlapping pair A, B breaks it
    let bad = vec![b(), a(), c()];
    assert!(!check_merge(&old, &new, &bad));
}

#[test]
fn reconcile_scenario_one_to_four() {
    // old = [A], changed = [D, C, E] inside their dirty rectangle
    let old = vec![a()];
    let new = vec![a(), d(), c(), e()];
    let (dirty, changed) = diff(&old, &new).unwrap();
    let merged = merge_good(&old, &changed, dirty).unwrap();
    // D, C and E keep their relative order from new; A does not overlap
    // any of them and survives the merge
    assert_eq!(ids(&merged), vec!['D', 'C', 'E', 'A']);
    assert!(check_merge(&old, &changed, &merged));
}

#[test]
fn reconcile_variants_agree_without_partial_overlaps() {
    let old = vec![a()];
    let new = vec![a(), d(), c(), e()];
    let (dirty, changed) = diff(&old, &new).unwrap();
    let expected = merge_good(&old, &changed, dirty).unwrap();
    assert_eq!(merge_good_v1(&old, &changed, dirty), Some(expected.clone()));
    assert_eq!(merge_good_v2(&old, &changed, dirty), Some(expected.clone()));
    assert_eq!(merge_good_index(&old, &changed, dirty), Some(expected.clone()));
    assert_eq!(merge_bad(&old, &changed, dirty), expected);
    assert_eq!(bogo_merge(&old, &changed, dirty), expected);
}

#[test]
fn reconciler_drops_superseded_old_elements() {
    // every old element sits inside the dirty region once C gives way to
    // A, so the drain discards them and the new order stands alone
    let old = vec![b(), c()];
    let new = vec![b(), a()];
    let (dirty, changed) = diff(&old, &new).unwrap();
    let merged = bogo_merge(&old, &changed, dirty);
    assert!(check_merge(&old, &changed, &merged));
}

#[test]
fn fallback_finds_valid_permutation_when_heuristic_fails() {
    // x sits before m in new; o precedes x in old and overlaps it, but the
    // heuristic scan re-emits o after x, so only the permutation search
    // can produce a valid order
    let o = sh('O', 50, 50, 150, 150);
    let x = sh('X', 0, 0, 100, 100);
    let m = sh('M', 150, 50, 250, 150);
    let dirty = Box2d { x1: 200, y1: 0, x2: 400, y2: 200 };
    let old = vec![o, x];
    let new = vec![x, m];
    let candidate = merge_bad(&old, &new, dirty);
    assert!(!check_merge(&old, &new, &candidate));
    let (merged, validated) = bogo_merge_v1(&old, &new, dirty);
    assert!(validated);
    assert!(check_merge(&old, &new, &merged));
    assert_ne!(merged, candidate);
}

#[test]
fn fallback_reports_exhaustion_on_contradictory_orders() {
    // the two sources reverse an overlapping pair, so no permutation can
    // respect both; the fallback says so instead of pretending success
    let dirty = Box2d { x1: 50, y1: 50, x2: 150, y2: 150 };
    let old = vec![c(), d()];
    let new = vec![d(), c()];
    let (merged, validated) = bogo_merge_v1(&old, &new, dirty);
    assert!(!validated);
    assert!(!check_merge(&old, &new, &merged));
    assert_eq!(merged.len(), 2);
}

#[test]
fn equivalent_orderings() {
    let x = vec![a(), b(), c(), d()];
    assert!(equiv(&x, &x));
    // A and C do not overlap, so swapping them changes no partner set
    assert!(equiv(&vec![c(), a()], &vec![a(), c()]));
    // C and D overlap: reversing them swaps the must-follow relation
    assert!(!equiv(&vec![c(), d()], &vec![d(), c()]));
    // different element sets are never equivalent
    assert!(!equiv(&vec![c()], &vec![d()]));
    assert!(!equiv(&vec![c()], &vec![c(), d()]));
}

#[test]
fn chained_merges_preserve_equivalence() {
    // s1 -> s2 -> s3, merging each diff in turn, ends equivalent to s3
    let s1 = vec![c(), d()];
    let s2 = vec![a(), b(), c(), d()];
    let s3 = vec![a(), b(), c()];
    let (dirty1, changed1) = diff(&s1, &s2).unwrap();
    let r2 = bogo_merge(&s1, &changed1, dirty1);
    let (dirty2, changed2) = diff(&s2, &s3).unwrap();
    let r3 = bogo_merge(&r2, &changed2, dirty2);
    assert!(check_merge(&r2, &changed2, &r3));
    assert!(equiv(&r3, &s3));
}

#[test]
fn chained_merges_preserve_equivalence_with_deferral() {
    let s1 = vec![a()];
    let s2 = vec![a(), c(), d()];
    let s3 = vec![a(), b(), d()];
    let (dirty1, changed1) = diff(&s1, &s2).unwrap();
    let r2 = bogo_merge(&s1, &changed1, dirty1);
    let (dirty2, changed2) = diff(&s2, &s3).unwrap();
    let r3 = bogo_merge(&r2, &changed2, dirty2);
    assert!(check_merge(&r2, &changed2, &r3));
    assert!(equiv(&r3, &s3));
}
