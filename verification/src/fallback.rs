use vstd::prelude::*;
use crate::geometry::{spec_intersects, spec_partially_overlaps, Box2d};
use crate::order::{check_merge, spec_check_merge};
use crate::reconcile::{
    bad_run, bad_scan, merge_bad, merge_good, spec_drain, spec_merge_bad, spec_merge_good,
};
use crate::shape::Shape;

verus! {

proof fn lemma_bad_scan_len(n: Shape, old: Seq<Shape>, result: Seq<Shape>, dirty: Box2d)
    ensures
        ({
            let r = bad_scan(n, old, result, dirty);
            r.0.len() + r.1.len() <= old.len() + result.len()
        }),
    decreases old.len(),
{
    if old.len() > 0 {
        let o = old[0];
        if o.bounds == n.bounds {
        } else if spec_intersects(o.bounds, dirty) {
            lemma_bad_scan_len(n, old.drop_first(), result, dirty);
        } else {
            lemma_bad_scan_len(n, old.drop_first(), result.push(o), dirty);
        }
    }
}

proof fn lemma_bad_run_len(new: Seq<Shape>, old: Seq<Shape>, result: Seq<Shape>, dirty: Box2d)
    ensures
        ({
            let r = bad_run(new, old, result, dirty);
            r.0.len() + r.1.len() <= new.len() + old.len() + result.len()
        }),
    decreases new.len(),
{
    if new.len() > 0 {
        let n = new[0];
        if spec_partially_overlaps(n.bounds, dirty) {
            lemma_bad_scan_len(n, old, result, dirty);
            let st = bad_scan(n, old, result, dirty);
            lemma_bad_run_len(new.drop_first(), st.0, st.1.push(n), dirty);
        } else {
            lemma_bad_run_len(new.drop_first(), old, result.push(n), dirty);
        }
    }
}

proof fn lemma_drain_len(old: Seq<Shape>, result: Seq<Shape>, dirty: Box2d)
    ensures
        spec_drain(old, result, dirty).len() <= old.len() + result.len(),
    decreases old.len(),
{
    if old.len() > 0 {
        if spec_intersects(old[0].bounds, dirty) {
            lemma_drain_len(old.drop_first(), result, dirty);
        } else {
            lemma_drain_len(old.drop_first(), result.push(old[0]), dirty);
        }
    }
}

/// The heuristic merge never holds more elements than its two inputs
/// together.
pub proof fn lemma_merge_bad_len(old: Seq<Shape>, new: Seq<Shape>, dirty: Box2d)
    ensures
        spec_merge_bad(old, new, dirty).len() <= old.len() + new.len(),
{
    lemma_bad_run_len(new, old, Seq::empty(), dirty);
    let st = bad_run(new, old, Seq::empty(), dirty);
    lemma_drain_len(st.0, st.1, dirty);
}

/// Relies on permutohedron::Heap (Heap's algorithm): iterating it yields
/// every permutation of the data exactly once, the unpermuted data first,
/// each as its own copy. `Heap::new` panics above 16 elements, hence the
/// length bound.
#[verifier::external_body]
fn all_permutations(v: &Vec<Shape>) -> (r: Vec<Vec<Shape>>)
    requires
        v@.len() <= 16,
    ensures
        r@.len() >= 1,
        forall|i: int| 0 <= i < r@.len() ==> (#[trigger] r@[i])@.to_multiset() == v@.to_multiset(),
        forall|s: Seq<Shape>|
            #[trigger] s.to_multiset() == v@.to_multiset() ==> exists|i: int|
                0 <= i < r@.len() && r@[i]@ == s,
{
    let mut data = v.clone();
    let heap = permutohedron::Heap::new(&mut data);
    let perms: Vec<Vec<Shape>> = heap.collect();
    perms
}

fn copy_shapes(v: &Vec<Shape>) -> (r: Vec<Shape>)
    ensures
        r@ == v@,
{
    let mut r: Vec<Shape> = Vec::new();
    let n = v.len();
    for i in 0..n
        invariant
            n == v@.len(),
            r@ == v@.take(i as int),
    {
        r.push(v[i]);
        proof {
            assert(v@.take(i + 1).drop_last() =~= v@.take(i as int));
            assert(v@.take(i + 1).last() == v@[i as int]);
            assert(r@ =~= v@.take(i + 1));
        }
    }
    proof {
        assert(v@.take(n as int) =~= v@);
    }
    r
}

/// Exhaustive fallback merge: build the heuristic candidate, then search
/// every permutation of it for one that respects the constraints of both
/// source lists. The flag reports the outcome: `true` with the first valid
/// permutation found, `false` with the last permutation tried when no
/// permutation of the candidate is valid, so a caller can tell a proven
/// merge from a best-effort one.
#[verifier::loop_isolation(false)]
pub fn bogo_merge_v1(old: &[Shape], new: &[Shape], dirty: Box2d) -> (r: (Vec<Shape>, bool))
    requires
        old@.len() + new@.len() <= 16,
    ensures
        r.0@.to_multiset() == spec_merge_bad(old@, new@, dirty).to_multiset(),
        r.1 ==> spec_check_merge(old@, new@, r.0@),
        !r.1 ==> forall|s: Seq<Shape>|
            #[trigger] s.to_multiset() == spec_merge_bad(old@, new@, dirty).to_multiset()
                ==> !spec_check_merge(old@, new@, s),
{
    let candidate = merge_bad(old, new, dirty);
    proof {
        lemma_merge_bad_len(old@, new@, dirty);
    }
    let perms = all_permutations(&candidate);
    let n_perms = perms.len();
    for i in 0..n_perms
        invariant
            n_perms == perms@.len(),
            forall|q: int| 0 <= q < i ==> !spec_check_merge(old@, new@, (#[trigger] perms@[q])@),
    {
        if check_merge(old, new, perms[i].as_slice()) {
            let out = copy_shapes(&perms[i]);
            return (out, true);
        }
    }
    proof {
        assert forall|s: Seq<Shape>|
            #[trigger] s.to_multiset() == spec_merge_bad(old@, new@, dirty).to_multiset()
                implies !spec_check_merge(old@, new@, s) by {
            assert(s.to_multiset() == candidate@.to_multiset());
            let i = choose|i: int| 0 <= i < perms@.len() && perms@[i]@ == s;
            assert(!spec_check_merge(old@, new@, perms@[i]@));
        }
    }
    let out = copy_shapes(&perms[n_perms - 1]);
    (out, false)
}

/// Reconcile `old` with the changed elements inside `dirty`: run the fast
/// reconciler, falling back to the exhaustive permutation search if the
/// scan were ever inconclusive — which the shipped scan never is, so the
/// result is always the fast reconciler's.
pub fn bogo_merge(old: &[Shape], new: &[Shape], dirty: Box2d) -> (r: Vec<Shape>)
    ensures
        r@ == spec_merge_good(old@, new@, dirty),
{
    match merge_good(old, new, dirty) {
        Some(result) => result,
        None => {
            let (result, _validated) = bogo_merge_v1(old, new, dirty);
            result
        },
    }
}

} // verus!
