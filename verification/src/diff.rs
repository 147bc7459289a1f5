use vstd::prelude::*;
use crate::geometry::{
    spec_acc_as_box, spec_acc_empty, spec_acc_intersects, spec_acc_union, spec_contained_by, Box2d,
    Box2dOrEmpty, Error,
};
use crate::shape::{find, lemma_first_pos, Shape};

verus! {

/// Fold the bounds of every element of `from` that is absent (by value)
/// from `other` into the accumulator `init`, in list order.
pub open spec fn acc_union_absent(
    from: Seq<Shape>,
    other: Seq<Shape>,
    init: Box2dOrEmpty,
) -> Box2dOrEmpty
    decreases from.len(),
{
    if from.len() == 0 {
        init
    } else {
        let prev = acc_union_absent(from.drop_last(), other, init);
        if !other.contains(from.last()) {
            spec_acc_union(prev, from.last().bounds)
        } else {
            prev
        }
    }
}

/// The dirty-region accumulator of a diff: the union of the bounds of
/// every element present in exactly one of the two lists.
pub open spec fn spec_diff_acc(old: Seq<Shape>, new: Seq<Shape>) -> Box2dOrEmpty {
    acc_union_absent(new, old, acc_union_absent(old, new, Box2dOrEmpty { x1: 0, y1: 0, x2: 0, y2: 0 }))
}

/// The elements of `new` whose bounds intersect the dirty accumulator,
/// in the order of `new`.
pub open spec fn spec_changed(dirty: Box2dOrEmpty, new: Seq<Shape>) -> Seq<Shape>
    decreases new.len(),
{
    if new.len() == 0 {
        Seq::empty()
    } else {
        let prev = spec_changed(dirty, new.drop_last());
        if spec_acc_intersects(dirty, new.last().bounds) {
            prev.push(new.last())
        } else {
            prev
        }
    }
}

/// Whether `list` holds `s` by value.
fn contains_shape(list: &[Shape], s: Shape) -> (r: bool)
    ensures
        r == list@.contains(s),
{
    match find(list, s) {
        Some(_) => {
            proof {
                lemma_first_pos(list@, s);
            }
            true
        },
        None => false,
    }
}

/// Diff two paint orders: the dirty rectangle bounds every element that
/// differs by value between the lists, and the returned subsequence of
/// `new` holds the elements whose bounds intersect that region. Reports
/// `NoChange` exactly when the accumulated dirty region stays empty,
/// which in particular happens whenever the two lists are value-identical.
pub fn diff(old: &[Shape], new: &[Shape]) -> (r: Result<(Box2d, Vec<Shape>), Error>)
    ensures
        ({
            let acc = spec_diff_acc(old@, new@);
            match r {
                Result::Err(e) => spec_acc_empty(acc) && e == Error::NoChange,
                Result::Ok((d, changed)) => !spec_acc_empty(acc) && d == spec_acc_as_box(acc)
                    && changed@ == spec_changed(acc, new@),
            }
        }),
{
    let empty_acc = Box2dOrEmpty::new();
    let mut dirty = empty_acc;
    let n_old = old.len();
    let n_new = new.len();
    for i in 0..n_old
        invariant
            n_old == old@.len(),
            dirty == acc_union_absent(old@.take(i as int), new@, empty_acc),
            empty_acc == (Box2dOrEmpty { x1: 0u32, y1: 0u32, x2: 0u32, y2: 0u32 }),
    {
        proof {
            assert(old@.take(i + 1).drop_last() =~= old@.take(i as int));
            assert(old@.take(i + 1).last() == old@[i as int]);
        }
        if !contains_shape(new, old[i]) {
            dirty = dirty.union(&old[i].bounds);
        }
    }
    proof {
        assert(old@.take(n_old as int) =~= old@);
    }
    let ghost first_acc = acc_union_absent(old@, new@, Box2dOrEmpty { x1: 0, y1: 0, x2: 0, y2: 0 });
    for i in 0..n_new
        invariant
            n_new == new@.len(),
            dirty == acc_union_absent(new@.take(i as int), old@, first_acc),
    {
        proof {
            assert(new@.take(i + 1).drop_last() =~= new@.take(i as int));
            assert(new@.take(i + 1).last() == new@[i as int]);
        }
        if !contains_shape(old, new[i]) {
            dirty = dirty.union(&new[i].bounds);
        }
    }
    proof {
        assert(new@.take(n_new as int) =~= new@);
        assert(dirty == spec_diff_acc(old@, new@));
    }
    let mut result: Vec<Shape> = Vec::new();
    for i in 0..n_new
        invariant
            n_new == new@.len(),
            dirty == spec_diff_acc(old@, new@),
            result@ == spec_changed(dirty, new@.take(i as int)),
    {
        proof {
            assert(new@.take(i + 1).drop_last() =~= new@.take(i as int));
            assert(new@.take(i + 1).last() == new@[i as int]);
        }
        if dirty.intersects(&new[i].bounds) {
            result.push(new[i]);
        }
    }
    proof {
        assert(new@.take(n_new as int) =~= new@);
    }
    match dirty.unwrap() {
        Err(_) => Err(Error::NoChange),
        Ok(d) => Ok((d, result)),
    }
}

/// Folding a list whose elements all occur in `other` adds nothing.
proof fn lemma_union_absent_subset(from: Seq<Shape>, other: Seq<Shape>, init: Box2dOrEmpty)
    requires
        forall|s: Shape| from.contains(s) ==> other.contains(s),
    ensures
        acc_union_absent(from, other, init) == init,
    decreases from.len(),
{
    if from.len() > 0 {
        assert(forall|s: Shape| from.drop_last().contains(s) ==> from.contains(s));
        lemma_union_absent_subset(from.drop_last(), other, init);
        assert(from.contains(from.last()));
    }
}

/// Diffing a list against itself leaves the dirty region empty, so
/// `diff(x, x)` reports `NoChange`.
pub proof fn lemma_diff_no_change(x: Seq<Shape>)
    ensures
        spec_acc_empty(spec_diff_acc(x, x)),
{
    let e = Box2dOrEmpty { x1: 0u32, y1: 0u32, x2: 0u32, y2: 0u32 };
    lemma_union_absent_subset(x, x, e);
    lemma_union_absent_subset(x, x, acc_union_absent(x, x, e));
}

/// What one folding step preserves and adds, for well-formed inputs:
/// well-formedness, non-emptiness, everything already covered, and
/// coverage of every differing element of `from`.
proof fn lemma_union_absent_covers(from: Seq<Shape>, other: Seq<Shape>, init: Box2dOrEmpty)
    requires
        init.x1 <= init.x2,
        init.y1 <= init.y2,
        forall|s: Shape| #[trigger] from.contains(s) ==> s.bounds.wf() && s.bounds.x1
            < s.bounds.x2,
    ensures
        ({
            let r = acc_union_absent(from, other, init);
            &&& r.x1 <= r.x2 && r.y1 <= r.y2
            &&& !spec_acc_empty(init) ==> !spec_acc_empty(r)
            &&& forall|b: Box2d|
                !spec_acc_empty(init) && spec_contained_by(b, spec_acc_as_box(init))
                    ==> spec_contained_by(b, #[trigger] spec_acc_as_box(r))
            &&& forall|s: Shape|
                #[trigger] from.contains(s) && !other.contains(s) ==> !spec_acc_empty(r)
                    && spec_contained_by(s.bounds, spec_acc_as_box(r))
        }),
    decreases from.len(),
{
    if from.len() > 0 {
        let t = from.drop_last();
        assert(forall|s: Shape| #[trigger] t.contains(s) ==> from.contains(s));
        lemma_union_absent_covers(t, other, init);
        let prev = acc_union_absent(t, other, init);
        let last = from.last();
        assert(from.contains(last));
        let r = acc_union_absent(from, other, init);
        if !other.contains(last) {
            assert(r == spec_acc_union(prev, last.bounds));
            assert(!spec_acc_empty(r));
            assert(spec_contained_by(last.bounds, spec_acc_as_box(r)));
            assert forall|s: Shape|
                #[trigger] from.contains(s) && !other.contains(s) implies !spec_acc_empty(r)
                && spec_contained_by(s.bounds, spec_acc_as_box(r)) by {
                if s != last {
                    let k = choose|k: int| 0 <= k < from.len() && from[k] == s;
                    assert(t[k] == s);
                    assert(t.contains(s));
                    assert(spec_contained_by(s.bounds, spec_acc_as_box(prev)));
                }
            }
        } else {
            assert(r == prev);
            assert forall|s: Shape|
                #[trigger] from.contains(s) && !other.contains(s) implies !spec_acc_empty(r)
                && spec_contained_by(s.bounds, spec_acc_as_box(r)) by {
                let k = choose|k: int| 0 <= k < from.len() && from[k] == s;
                assert(t[k] == s);
                assert(t.contains(s));
            }
        }
    }
}

/// Coverage: every element that differs by value between `old` and `new`
/// has its bounds contained in the dirty region computed by `diff`, as
/// long as no element has degenerate (zero-width) or ill-formed bounds.
pub proof fn lemma_diff_coverage(old: Seq<Shape>, new: Seq<Shape>)
    requires
        forall|s: Shape| #[trigger] old.contains(s) ==> s.bounds.wf() && s.bounds.x1 < s.bounds.x2,
        forall|s: Shape| #[trigger] new.contains(s) ==> s.bounds.wf() && s.bounds.x1 < s.bounds.x2,
    ensures
        forall|s: Shape|
            (#[trigger] old.contains(s) && !new.contains(s)) || (new.contains(s) && !old.contains(
                s,
            )) ==> !spec_acc_empty(spec_diff_acc(old, new)) && spec_contained_by(
                s.bounds,
                spec_acc_as_box(spec_diff_acc(old, new)),
            ),
{
    let e = Box2dOrEmpty { x1: 0u32, y1: 0u32, x2: 0u32, y2: 0u32 };
    lemma_union_absent_covers(old, new, e);
    let a1 = acc_union_absent(old, new, e);
    lemma_union_absent_covers(new, old, a1);
}

} // verus!
