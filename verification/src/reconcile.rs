use vstd::prelude::*;
use crate::geometry::{
    spec_contained_by, spec_intersects, spec_partially_overlaps, Box2d,
};
use crate::shape::Shape;

verus! {

/// Drain the remaining old elements: one that still intersects the dirty
/// rectangle is superseded and dropped, any other is appended.
pub open spec fn spec_drain(old: Seq<Shape>, result: Seq<Shape>, dirty: Box2d) -> Seq<Shape>
    decreases old.len(),
{
    if old.len() == 0 {
        result
    } else if spec_intersects(old[0].bounds, dirty) {
        spec_drain(old.drop_first(), result, dirty)
    } else {
        spec_drain(old.drop_first(), result.push(old[0]), dirty)
    }
}

/// One scan of the simplified merge: consume old elements until one with
/// exactly the bounds of `n` is found (and consumed); drop any consumed
/// element that intersects the dirty rectangle, append the others.
pub open spec fn bad_scan(n: Shape, old: Seq<Shape>, result: Seq<Shape>, dirty: Box2d) -> (
    Seq<Shape>,
    Seq<Shape>,
)
    decreases old.len(),
{
    if old.len() == 0 {
        (old, result)
    } else {
        let o = old[0];
        if o.bounds == n.bounds {
            (old.drop_first(), result)
        } else if spec_intersects(o.bounds, dirty) {
            bad_scan(n, old.drop_first(), result, dirty)
        } else {
            bad_scan(n, old.drop_first(), result.push(o), dirty)
        }
    }
}

/// The simplified merge's pass over the new elements: before a new element
/// that partially overlaps the dirty rectangle, run one old-list scan.
pub open spec fn bad_run(new: Seq<Shape>, old: Seq<Shape>, result: Seq<Shape>, dirty: Box2d) -> (
    Seq<Shape>,
    Seq<Shape>,
)
    decreases new.len(),
{
    if new.len() == 0 {
        (old, result)
    } else {
        let n = new[0];
        let st = if spec_partially_overlaps(n.bounds, dirty) {
            bad_scan(n, old, result, dirty)
        } else {
            (old, result)
        };
        bad_run(new.drop_first(), st.0, st.1.push(n), dirty)
    }
}

/// The heuristic merge: the same scan as the fast reconciler but with no
/// protection of partially-overlapping old elements.
pub open spec fn spec_merge_bad(old: Seq<Shape>, new: Seq<Shape>, dirty: Box2d) -> Seq<Shape> {
    let st = bad_run(new, old, Seq::empty(), dirty);
    spec_drain(st.0, st.1, dirty)
}

/// Heuristic merge of `old` and `new` inside `dirty`: interleaves the two
/// lists by matching bounds, dropping old elements that intersect the
/// dirty rectangle. The result may violate ordering constraints; it is
/// the candidate that the exhaustive fallback permutes.
#[verifier::loop_isolation(false)]
pub fn merge_bad(old: &[Shape], new: &[Shape], dirty: Box2d) -> (r: Vec<Shape>)
    ensures
        r@ == spec_merge_bad(old@, new@, dirty),
{
    let mut result: Vec<Shape> = Vec::new();
    let mut oi: usize = 0;
    let n_new = new.len();
    let n_old = old.len();
    let ghost goal = bad_run(new@, old@, Seq::empty(), dirty);
    proof {
        assert(new@.skip(0) =~= new@);
        assert(old@.skip(0) =~= old@);
    }
    for ni in 0..n_new
        invariant
            n_new == new@.len(),
            n_old == old@.len(),
            oi <= n_old,
            bad_run(new@.skip(ni as int), old@.skip(oi as int), result@, dirty) == goal,
    {
        let n = new[ni];
        proof {
            assert(new@.skip(ni as int).drop_first() =~= new@.skip(ni + 1));
            assert(new@.skip(ni as int)[0] == new@[ni as int]);
        }
        if n.bounds.partially_overlaps(&dirty) {
            let ghost target = bad_scan(n, old@.skip(oi as int), result@, dirty);
            let mut stop = false;
            while oi < n_old && !stop
                invariant
                    n_old == old@.len(),
                    oi <= n_old,
                    stop ==> (old@.skip(oi as int), result@) == target,
                    !stop ==> bad_scan(n, old@.skip(oi as int), result@, dirty) == target,
                decreases n_old - oi,
            {
                let o = old[oi];
                proof {
                    assert(old@.skip(oi as int)[0] == old@[oi as int]);
                    assert(old@.skip(oi as int).drop_first() =~= old@.skip(oi + 1));
                }
                oi += 1;
                if n.bounds == o.bounds {
                    stop = true;
                } else if o.bounds.intersects(&dirty) {
                } else {
                    result.push(o);
                }
            }
            proof {
                assert((old@.skip(oi as int), result@) == target);
            }
        }
        result.push(n);
    }
    proof {
        assert((old@.skip(oi as int), result@) == goal);
    }
    while oi < n_old
        invariant
            n_old == old@.len(),
            oi <= n_old,
            spec_drain(old@.skip(oi as int), result@, dirty) == spec_merge_bad(old@, new@, dirty),
        decreases n_old - oi,
    {
        let o = old[oi];
        proof {
            assert(old@.skip(oi as int)[0] == old@[oi as int]);
            assert(old@.skip(oi as int).drop_first() =~= old@.skip(oi + 1));
        }
        if o.bounds.intersects(&dirty) {
        } else {
            result.push(o);
        }
        oi += 1;
    }
    result
}

/// One scan of the earliest exploratory merge: like `bad_scan`, but a
/// consumed old element fully inside the dirty rectangle is dropped and a
/// partially overlapping one makes the whole merge inconclusive.
pub open spec fn v1_scan(n: Shape, old: Seq<Shape>, result: Seq<Shape>, dirty: Box2d) -> Option<
    (Seq<Shape>, Seq<Shape>),
>
    decreases old.len(),
{
    if old.len() == 0 {
        Some((old, result))
    } else {
        let o = old[0];
        if o.bounds == n.bounds {
            Some((old.drop_first(), result))
        } else if spec_contained_by(o.bounds, dirty) {
            v1_scan(n, old.drop_first(), result, dirty)
        } else if spec_partially_overlaps(o.bounds, dirty) {
            None
        } else {
            v1_scan(n, old.drop_first(), result.push(o), dirty)
        }
    }
}

pub open spec fn v1_run(new: Seq<Shape>, old: Seq<Shape>, result: Seq<Shape>, dirty: Box2d) -> Option<
    (Seq<Shape>, Seq<Shape>),
>
    decreases new.len(),
{
    if new.len() == 0 {
        Some((old, result))
    } else {
        let n = new[0];
        let st = if spec_partially_overlaps(n.bounds, dirty) {
            v1_scan(n, old, result, dirty)
        } else {
            Some((old, result))
        };
        match st {
            None => None,
            Some(p) => v1_run(new.drop_first(), p.0, p.1.push(n), dirty),
        }
    }
}

pub open spec fn spec_merge_good_v1(old: Seq<Shape>, new: Seq<Shape>, dirty: Box2d) -> Option<
    Seq<Shape>,
> {
    match v1_run(new, old, Seq::empty(), dirty) {
        None => None,
        Some(p) => Some(spec_drain(p.0, p.1, dirty)),
    }
}

/// Earliest exploratory variant of the fast reconciler: it gives up (with
/// `None`) as soon as a consumed old element partially overlaps the dirty
/// rectangle, instead of deferring it.
#[verifier::loop_isolation(false)]
pub fn merge_good_v1(old: &[Shape], new: &[Shape], dirty: Box2d) -> (r: Option<Vec<Shape>>)
    ensures
        match r {
            Some(v) => spec_merge_good_v1(old@, new@, dirty) == Some(v@),
            None => spec_merge_good_v1(old@, new@, dirty) is None,
        },
{
    let mut result: Vec<Shape> = Vec::new();
    let mut oi: usize = 0;
    let n_new = new.len();
    let n_old = old.len();
    let ghost goal = v1_run(new@, old@, Seq::empty(), dirty);
    proof {
        assert(new@.skip(0) =~= new@);
        assert(old@.skip(0) =~= old@);
    }
    for ni in 0..n_new
        invariant
            n_new == new@.len(),
            n_old == old@.len(),
            oi <= n_old,
            v1_run(new@.skip(ni as int), old@.skip(oi as int), result@, dirty) == goal,
    {
        let n = new[ni];
        proof {
            assert(new@.skip(ni as int).drop_first() =~= new@.skip(ni + 1));
            assert(new@.skip(ni as int)[0] == new@[ni as int]);
        }
        if n.bounds.partially_overlaps(&dirty) {
            let ghost target = v1_scan(n, old@.skip(oi as int), result@, dirty);
            let mut stop = false;
            while oi < n_old && !stop
                invariant
                    n_old == old@.len(),
                    oi <= n_old,
                    stop ==> Some((old@.skip(oi as int), result@)) == target,
                    !stop ==> v1_scan(n, old@.skip(oi as int), result@, dirty) == target,
                    target is None ==> goal is None,
                decreases n_old - oi,
            {
                let o = old[oi];
                proof {
                    assert(old@.skip(oi as int)[0] == old@[oi as int]);
                    assert(old@.skip(oi as int).drop_first() =~= old@.skip(oi + 1));
                }
                oi += 1;
                if n.bounds == o.bounds {
                    stop = true;
                } else if o.bounds.contained_by(&dirty) {
                } else if o.bounds.partially_overlaps(&dirty) {
                    proof {
                        assert(target is None);
                        assert(goal is None);
                    }
                    return None;
                } else {
                    result.push(o);
                }
            }
            proof {
                assert(Some((old@.skip(oi as int), result@)) == target);
            }
        }
        result.push(n);
    }
    proof {
        assert(goal == Some((old@.skip(oi as int), result@)));
    }
    while oi < n_old
        invariant
            n_old == old@.len(),
            oi <= n_old,
            Some(spec_drain(old@.skip(oi as int), result@, dirty)) == spec_merge_good_v1(
                old@,
                new@,
                dirty,
            ),
        decreases n_old - oi,
    {
        let o = old[oi];
        proof {
            assert(old@.skip(oi as int)[0] == old@[oi as int]);
            assert(old@.skip(oi as int).drop_first() =~= old@.skip(oi + 1));
        }
        if o.bounds.intersects(&dirty) {
        } else {
            result.push(o);
        }
        oi += 1;
    }
    Some(result)
}

/// One scan of the second exploratory merge: a consumed old element that
/// partially overlaps the dirty rectangle makes the merge inconclusive
/// only if a later old element intersects it; otherwise it is dropped.
pub open spec fn v2_scan(n: Shape, old: Seq<Shape>, result: Seq<Shape>, dirty: Box2d) -> Option<
    (Seq<Shape>, Seq<Shape>),
>
    decreases old.len(),
{
    if old.len() == 0 {
        Some((old, result))
    } else {
        let o = old[0];
        if o.bounds == n.bounds {
            Some((old.drop_first(), result))
        } else if spec_contained_by(o.bounds, dirty) {
            v2_scan(n, old.drop_first(), result, dirty)
        } else if spec_partially_overlaps(o.bounds, dirty) {
            if exists|k: int| 1 <= k < old.len() && spec_intersects(o.bounds, old[k].bounds) {
                None
            } else {
                v2_scan(n, old.drop_first(), result, dirty)
            }
        } else {
            v2_scan(n, old.drop_first(), result.push(o), dirty)
        }
    }
}

pub open spec fn v2_run(new: Seq<Shape>, old: Seq<Shape>, result: Seq<Shape>, dirty: Box2d) -> Option<
    (Seq<Shape>, Seq<Shape>),
>
    decreases new.len(),
{
    if new.len() == 0 {
        Some((old, result))
    } else {
        let n = new[0];
        let st = if spec_partially_overlaps(n.bounds, dirty) {
            v2_scan(n, old, result, dirty)
        } else {
            Some((old, result))
        };
        match st {
            None => None,
            Some(p) => v2_run(new.drop_first(), p.0, p.1.push(n), dirty),
        }
    }
}

pub open spec fn spec_merge_good_v2(old: Seq<Shape>, new: Seq<Shape>, dirty: Box2d) -> Option<
    Seq<Shape>,
> {
    match v2_run(new, old, Seq::empty(), dirty) {
        None => None,
        Some(p) => Some(spec_drain(p.0, p.1, dirty)),
    }
}

/// Second exploratory variant of the fast reconciler: a partially
/// overlapping old element is dropped when nothing after it depends on it,
/// and makes the merge inconclusive otherwise.
#[verifier::loop_isolation(false)]
pub fn merge_good_v2(old: &[Shape], new: &[Shape], dirty: Box2d) -> (r: Option<Vec<Shape>>)
    ensures
        match r {
            Some(v) => spec_merge_good_v2(old@, new@, dirty) == Some(v@),
            None => spec_merge_good_v2(old@, new@, dirty) is None,
        },
{
    let mut result: Vec<Shape> = Vec::new();
    let mut oi: usize = 0;
    let n_new = new.len();
    let n_old = old.len();
    let ghost goal = v2_run(new@, old@, Seq::empty(), dirty);
    proof {
        assert(new@.skip(0) =~= new@);
        assert(old@.skip(0) =~= old@);
    }
    for ni in 0..n_new
        invariant
            n_new == new@.len(),
            n_old == old@.len(),
            oi <= n_old,
            v2_run(new@.skip(ni as int), old@.skip(oi as int), result@, dirty) == goal,
    {
        let n = new[ni];
        proof {
            assert(new@.skip(ni as int).drop_first() =~= new@.skip(ni + 1));
            assert(new@.skip(ni as int)[0] == new@[ni as int]);
        }
        if n.bounds.partially_overlaps(&dirty) {
            let ghost target = v2_scan(n, old@.skip(oi as int), result@, dirty);
            let mut stop = false;
            while oi < n_old && !stop
                invariant
                    n_old == old@.len(),
                    oi <= n_old,
                    stop ==> Some((old@.skip(oi as int), result@)) == target,
                    !stop ==> v2_scan(n, old@.skip(oi as int), result@, dirty) == target,
                    target is None ==> goal is None,
                decreases n_old - oi,
            {
                let o = old[oi];
                proof {
                    assert(old@.skip(oi as int)[0] == old@[oi as int]);
                    assert(old@.skip(oi as int).drop_first() =~= old@.skip(oi + 1));
                }
                oi += 1;
                if n.bounds == o.bounds {
                    stop = true;
                } else if o.bounds.contained_by(&dirty) {
                } else if o.bounds.partially_overlaps(&dirty) {
                    // any later old element that intersects this one would
                    // have to move with it, which this variant cannot do
                    let ghost pre = old@.skip(oi - 1);
                    let mut k = oi;
                    while k < n_old
                        invariant
                            n_old == old@.len(),
                            oi <= k <= n_old,
                            pre == old@.skip(oi - 1),
                            o == old@[oi - 1],
                            forall|q: int|
                                oi <= q < k ==> !spec_intersects(o.bounds, old@[q].bounds),
                        decreases n_old - k,
                    {
                        if o.bounds.intersects(&old[k].bounds) {
                            proof {
                                assert(old@.skip(oi - 1)[k - oi + 1] == old@[k as int]);
                                assert(pre[k - oi + 1] == old@[k as int]);
                                assert(1 <= k - oi + 1 < pre.len());
                                assert(exists|q: int|
                                    1 <= q < pre.len() && spec_intersects(
                                        o.bounds,
                                        pre[q].bounds,
                                    ));
                                assert(v2_scan(n, pre, result@, dirty) is None);
                                assert(target is None);
                                assert(goal is None);
                            }
                            return None;
                        }
                        k += 1;
                    }
                    proof {
                        assert forall|q: int| 1 <= q < pre.len() implies !spec_intersects(
                            o.bounds,
                            pre[q].bounds,
                        ) by {
                            assert(pre[q] == old@[oi - 1 + q]);
                        }
                        assert(!(exists|q: int|
                            1 <= q < pre.len() && spec_intersects(o.bounds, pre[q].bounds)));
                    }
                } else {
                    result.push(o);
                }
            }
            proof {
                assert(Some((old@.skip(oi as int), result@)) == target);
            }
        }
        result.push(n);
    }
    proof {
        assert(goal == Some((old@.skip(oi as int), result@)));
    }
    while oi < n_old
        invariant
            n_old == old@.len(),
            oi <= n_old,
            Some(spec_drain(old@.skip(oi as int), result@, dirty)) == spec_merge_good_v2(
                old@,
                new@,
                dirty,
            ),
        decreases n_old - oi,
    {
        let o = old[oi];
        proof {
            assert(old@.skip(oi as int)[0] == old@[oi as int]);
            assert(old@.skip(oi as int).drop_first() =~= old@.skip(oi + 1));
        }
        if o.bounds.intersects(&dirty) {
        } else {
            result.push(o);
        }
        oi += 1;
    }
    Some(result)
}

/// One scan of the index-based exploratory merge: a consumed old element
/// anywhere inside or partially over the dirty rectangle is dropped.
pub open spec fn index_scan(n: Shape, old: Seq<Shape>, result: Seq<Shape>, dirty: Box2d) -> (
    Seq<Shape>,
    Seq<Shape>,
)
    decreases old.len(),
{
    if old.len() == 0 {
        (old, result)
    } else {
        let o = old[0];
        if o.bounds == n.bounds {
            (old.drop_first(), result)
        } else if spec_contained_by(o.bounds, dirty) {
            index_scan(n, old.drop_first(), result, dirty)
        } else if spec_partially_overlaps(o.bounds, dirty) {
            index_scan(n, old.drop_first(), result, dirty)
        } else {
            index_scan(n, old.drop_first(), result.push(o), dirty)
        }
    }
}

pub open spec fn index_run(new: Seq<Shape>, old: Seq<Shape>, result: Seq<Shape>, dirty: Box2d) -> (
    Seq<Shape>,
    Seq<Shape>,
)
    decreases new.len(),
{
    if new.len() == 0 {
        (old, result)
    } else {
        let n = new[0];
        let st = if spec_partially_overlaps(n.bounds, dirty) {
            index_scan(n, old, result, dirty)
        } else {
            (old, result)
        };
        index_run(new.drop_first(), st.0, st.1.push(n), dirty)
    }
}

pub open spec fn spec_merge_good_index(old: Seq<Shape>, new: Seq<Shape>, dirty: Box2d) -> Seq<
    Shape,
> {
    let st = index_run(new, old, Seq::empty(), dirty);
    spec_drain(st.0, st.1, dirty)
}

/// Index-based exploratory variant of the fast reconciler: it never gives
/// up, silently dropping any consumed old element that partially overlaps
/// the dirty rectangle.
#[verifier::loop_isolation(false)]
pub fn merge_good_index(old: &[Shape], new: &[Shape], dirty: Box2d) -> (r: Option<Vec<Shape>>)
    ensures
        match r {
            Some(v) => v@ == spec_merge_good_index(old@, new@, dirty),
            None => false,
        },
{
    let mut result: Vec<Shape> = Vec::new();
    let mut oi: usize = 0;
    let n_new = new.len();
    let n_old = old.len();
    let ghost goal = index_run(new@, old@, Seq::empty(), dirty);
    proof {
        assert(new@.skip(0) =~= new@);
        assert(old@.skip(0) =~= old@);
    }
    for ni in 0..n_new
        invariant
            n_new == new@.len(),
            n_old == old@.len(),
            oi <= n_old,
            index_run(new@.skip(ni as int), old@.skip(oi as int), result@, dirty) == goal,
    {
        let n = new[ni];
        proof {
            assert(new@.skip(ni as int).drop_first() =~= new@.skip(ni + 1));
            assert(new@.skip(ni as int)[0] == new@[ni as int]);
        }
        if n.bounds.partially_overlaps(&dirty) {
            let ghost target = index_scan(n, old@.skip(oi as int), result@, dirty);
            let mut stop = false;
            while oi < n_old && !stop
                invariant
                    n_old == old@.len(),
                    oi <= n_old,
                    stop ==> (old@.skip(oi as int), result@) == target,
                    !stop ==> index_scan(n, old@.skip(oi as int), result@, dirty) == target,
                decreases n_old - oi,
            {
                let o = old[oi];
                proof {
                    assert(old@.skip(oi as int)[0] == old@[oi as int]);
                    assert(old@.skip(oi as int).drop_first() =~= old@.skip(oi + 1));
                }
                oi += 1;
                if n.bounds == o.bounds {
                    stop = true;
                } else if o.bounds.contained_by(&dirty) {
                } else if o.bounds.partially_overlaps(&dirty) {
                } else {
                    result.push(o);
                }
            }
            proof {
                assert((old@.skip(oi as int), result@) == target);
            }
        }
        result.push(n);
    }
    proof {
        assert((old@.skip(oi as int), result@) == goal);
    }
    while oi < n_old
        invariant
            n_old == old@.len(),
            oi <= n_old,
            spec_drain(old@.skip(oi as int), result@, dirty) == spec_merge_good_index(
                old@,
                new@,
                dirty,
            ),
        decreases n_old - oi,
    {
        let o = old[oi];
        proof {
            assert(old@.skip(oi as int)[0] == old@[oi as int]);
            assert(old@.skip(oi as int).drop_first() =~= old@.skip(oi + 1));
        }
        if o.bounds.intersects(&dirty) {
        } else {
            result.push(o);
        }
        oi += 1;
    }
    Some(result)
}

/// One scan of the fast reconciler: consume old elements until one with
/// exactly the bounds of `n` is found (and consumed). A consumed element
/// fully inside the dirty rectangle is superseded and dropped; one that
/// partially overlaps the dirty rectangle, or that intersects the head of
/// the deferred queue, is deferred; any other is appended to the result.
pub open spec fn good_scan(
    n: Shape,
    old: Seq<Shape>,
    defer: Seq<Shape>,
    result: Seq<Shape>,
    dirty: Box2d,
) -> (Seq<Shape>, Seq<Shape>, Seq<Shape>)
    decreases old.len(),
{
    if old.len() == 0 {
        (old, defer, result)
    } else {
        let o = old[0];
        if o.bounds == n.bounds {
            (old.drop_first(), defer, result)
        } else if spec_contained_by(o.bounds, dirty) {
            good_scan(n, old.drop_first(), defer, result, dirty)
        } else if spec_partially_overlaps(o.bounds, dirty) {
            good_scan(n, old.drop_first(), defer.push(o), result, dirty)
        } else if defer.len() > 0 && spec_intersects(o.bounds, defer[0].bounds) {
            good_scan(n, old.drop_first(), defer.push(o), result, dirty)
        } else {
            good_scan(n, old.drop_first(), defer, result.push(o), dirty)
        }
    }
}

/// One step of the fast reconciler for the new element `n`: when `n`
/// partially overlaps the dirty rectangle, either pop a deferred element
/// that `n` has caught up to, or scan the old list; then pop the deferred
/// head again if `n` has caught up to it, and append `n`.
pub open spec fn good_step(
    n: Shape,
    old: Seq<Shape>,
    defer: Seq<Shape>,
    result: Seq<Shape>,
    dirty: Box2d,
) -> (Seq<Shape>, Seq<Shape>, Seq<Shape>) {
    let st = if spec_partially_overlaps(n.bounds, dirty) {
        if defer.len() > 0 && defer[0].bounds == n.bounds {
            (old, defer.drop_first(), result)
        } else {
            good_scan(n, old, defer, result, dirty)
        }
    } else {
        (old, defer, result)
    };
    let defer2 = if st.1.len() > 0 && st.1[0].bounds == n.bounds {
        st.1.drop_first()
    } else {
        st.1
    };
    (st.0, defer2, st.2.push(n))
}

pub open spec fn good_run(
    new: Seq<Shape>,
    old: Seq<Shape>,
    defer: Seq<Shape>,
    result: Seq<Shape>,
    dirty: Box2d,
) -> (Seq<Shape>, Seq<Shape>, Seq<Shape>)
    decreases new.len(),
{
    if new.len() == 0 {
        (old, defer, result)
    } else {
        let st = good_step(new[0], old, defer, result, dirty);
        good_run(new.drop_first(), st.0, st.1, st.2, dirty)
    }
}

/// The fast reconciler's whole result: run the scan over all new elements,
/// append what is still deferred in queue order, then drain the remaining
/// old elements.
pub open spec fn spec_merge_good(old: Seq<Shape>, new: Seq<Shape>, dirty: Box2d) -> Seq<Shape> {
    let st = good_run(new, old, Seq::empty(), Seq::empty(), dirty);
    spec_drain(st.0, st.2 + st.1, dirty)
}

/// The fast reconciler: a single forward scan over the changed elements
/// with a cursor into the old list and a FIFO queue of old elements whose
/// insertion is deferred until the new list catches up to them. Always
/// returns a result; whether that result is valid for every input shape is
/// exactly what the exhaustive fallback exists to double-check.
#[verifier::loop_isolation(false)]
pub fn merge_good(old: &[Shape], new: &[Shape], dirty: Box2d) -> (r: Option<Vec<Shape>>)
    ensures
        match r {
            Some(v) => v@ == spec_merge_good(old@, new@, dirty),
            None => false,
        },
{
    let mut result: Vec<Shape> = Vec::new();
    let mut defer: Vec<Shape> = Vec::new();
    let mut oi: usize = 0;
    let n_new = new.len();
    let n_old = old.len();
    let ghost goal = good_run(new@, old@, Seq::empty(), Seq::empty(), dirty);
    proof {
        assert(new@.skip(0) =~= new@);
        assert(old@.skip(0) =~= old@);
    }
    for ni in 0..n_new
        invariant
            n_new == new@.len(),
            n_old == old@.len(),
            oi <= n_old,
            good_run(new@.skip(ni as int), old@.skip(oi as int), defer@, result@, dirty) == goal,
    {
        let n = new[ni];
        let ghost step = good_step(n, old@.skip(oi as int), defer@, result@, dirty);
        proof {
            assert(new@.skip(ni as int).drop_first() =~= new@.skip(ni + 1));
            assert(new@.skip(ni as int)[0] == new@[ni as int]);
        }
        if n.bounds.partially_overlaps(&dirty) {
            if defer.len() > 0 && defer[0].bounds == n.bounds {
                let ghost d0 = defer@;
                defer.remove(0);
                proof {
                    assert(defer@ =~= d0.drop_first());
                }
            } else {
                let ghost target = good_scan(n, old@.skip(oi as int), defer@, result@, dirty);
                let mut stop = false;
                while oi < n_old && !stop
                    invariant
                        n_old == old@.len(),
                        oi <= n_old,
                        stop ==> (old@.skip(oi as int), defer@, result@) == target,
                        !stop ==> good_scan(n, old@.skip(oi as int), defer@, result@, dirty)
                            == target,
                    decreases n_old - oi,
                {
                    let o = old[oi];
                    proof {
                        assert(old@.skip(oi as int)[0] == old@[oi as int]);
                        assert(old@.skip(oi as int).drop_first() =~= old@.skip(oi + 1));
                    }
                    oi += 1;
                    if n.bounds == o.bounds {
                        stop = true;
                    } else if o.bounds.contained_by(&dirty) {
                    } else if o.bounds.partially_overlaps(&dirty) {
                        defer.push(o);
                    } else if defer.len() > 0 && o.bounds.intersects(&defer[0].bounds) {
                        defer.push(o);
                    } else {
                        result.push(o);
                    }
                }
                proof {
                    assert((old@.skip(oi as int), defer@, result@) == target);
                }
            }
        }
        if defer.len() > 0 && defer[0].bounds == n.bounds {
            let ghost d1 = defer@;
            defer.remove(0);
            proof {
                assert(defer@ =~= d1.drop_first());
            }
        }
        result.push(n);
        proof {
            assert((old@.skip(oi as int), defer@, result@) == step);
        }
    }
    proof {
        assert((old@.skip(oi as int), defer@, result@) == goal);
    }
    result.append(&mut defer);
    proof {
        assert(result@ == goal.2 + goal.1);
    }
    while oi < n_old
        invariant
            n_old == old@.len(),
            oi <= n_old,
            spec_drain(old@.skip(oi as int), result@, dirty) == spec_merge_good(old@, new@, dirty),
        decreases n_old - oi,
    {
        let o = old[oi];
        proof {
            assert(old@.skip(oi as int)[0] == old@[oi as int]);
            assert(old@.skip(oi as int).drop_first() =~= old@.skip(oi + 1));
        }
        if o.bounds.intersects(&dirty) {
        } else {
            result.push(o);
        }
        oi += 1;
    }
    Some(result)
}

} // verus!
