use vstd::prelude::*;
use crate::geometry::spec_intersects;
use crate::graph::{build_dag, lemma_spec_parents_membership, spec_parents};
use crate::shape::{find, first_pos, lemma_first_pos, Shape};

verus! {

/// `target` obeys every ordering constraint of `src`: whenever an earlier
/// element of `src` overlaps a later one and both occur (by value) in
/// `target`, the earlier one stays at or before the later one there.
pub open spec fn spec_respects(src: Seq<Shape>, target: Seq<Shape>) -> bool {
    forall|i: int, j: int|
        0 <= i < j < src.len() && spec_intersects(src[j].bounds, src[i].bounds)
            && target.contains(src[i]) && target.contains(src[j]) ==> first_pos(target, src[i])
            <= first_pos(target, src[j])
}

/// A merged list is valid when it respects the constraints of both of its
/// source lists.
pub open spec fn spec_check_merge(old: Seq<Shape>, new: Seq<Shape>, result: Seq<Shape>) -> bool {
    spec_respects(old, result) && spec_respects(new, result)
}

/// Check that `target` obeys all of the ordering constraints imposed by
/// `src`.
pub fn check_ordering(src: &[Shape], target: &[Shape]) -> (r: bool)
    ensures
        r == spec_respects(src@, target@),
{
    let od = build_dag(src);
    let n = src.len();
    for i in 0..n
        invariant
            n == src@.len(),
            od.parents@.len() == n,
            forall|q: int| 0 <= q < n ==> od.parents@[q]@ == spec_parents(src@, q, q + 1),
            forall|a: int, b: int|
                0 <= a < i && a < b < n && spec_intersects(src@[b].bounds, src@[a].bounds)
                    && target@.contains(src@[a]) && target@.contains(src@[b]) ==> first_pos(
                    target@,
                    src@[a],
                ) <= first_pos(target@, src@[b]),
    {
        proof {
            lemma_spec_parents_membership(src@, i as int, i + 1);
        }
        if let Some(ipos) = find(target, src[i]) {
            proof {
                lemma_first_pos(target@, src@[i as int]);
            }
            let row_len = od.parents[i].len();
            for k in 0..row_len
                invariant
                    n == src@.len(),
                    i < n,
                    od.parents@.len() == n,
                    od.parents@[i as int]@ == spec_parents(src@, i as int, i + 1),
                    row_len == od.parents@[i as int]@.len(),
                    first_pos(target@, src@[i as int]) == ipos as int,
                    target@.contains(src@[i as int]),
                    forall|u: usize|
                        spec_parents(src@, i as int, i + 1).contains(u) <==> i < u < n
                            && spec_intersects(src@[u as int].bounds, src@[i as int].bounds),
                    forall|l: int| #![trigger od.parents@[i as int]@[l]]
                        0 <= l < k ==> {
                            let b = od.parents@[i as int]@[l] as int;
                            target@.contains(src@[b]) ==> first_pos(target@, src@[i as int])
                                <= first_pos(target@, src@[b])
                        },
            {
                let p = od.parents[i][k];
                proof {
                    assert(od.parents@[i as int]@.contains(p));
                }
                if let Some(ppos) = find(target, src[p]) {
                    proof {
                        lemma_first_pos(target@, src@[i as int]);
                        lemma_first_pos(target@, src@[p as int]);
                    }
                    if ipos > ppos {
                        proof {
                            let ii = i as int;
                            let pp = p as int;
                            assert(0 <= ii < pp < src@.len() && spec_intersects(
                                src@[pp].bounds,
                                src@[ii].bounds,
                            ) && target@.contains(src@[ii]) && target@.contains(src@[pp])
                                && first_pos(target@, src@[ii]) > first_pos(target@, src@[pp]));
                            assert(!spec_respects(src@, target@));
                        }
                        return false;
                    }
                }
                proof {
                    if target@.contains(src@[p as int]) {
                        lemma_first_pos(target@, src@[p as int]);
                    }
                }
            }
            proof {
                assert forall|b: int|
                    i < b < n && spec_intersects(src@[b].bounds, src@[i as int].bounds)
                        && target@.contains(src@[i as int]) && target@.contains(
                        src@[b],
                    ) implies first_pos(target@, src@[i as int]) <= first_pos(
                    target@,
                    src@[b],
                ) by {
                    assert(spec_parents(src@, i as int, i + 1).contains(b as usize));
                    let row = od.parents@[i as int]@;
                    let l = choose|l: int| 0 <= l < row.len() && row[l] == b as usize;
                    assert(row[l] as int == b);
                }
            }
        } else {
            proof {
                lemma_first_pos(target@, src@[i as int]);
                assert(!target@.contains(src@[i as int]));
            }
        }
    }
    true
}

/// A merge result is valid when it respects the ordering constraints of
/// both the old and the new source list.
pub fn check_merge(old: &[Shape], new: &[Shape], result: &[Shape]) -> (r: bool)
    ensures
        r == spec_check_merge(old@, new@, result@),
{
    check_ordering(old, result) && check_ordering(new, result)
}

/// Validator soundness: for a candidate `t` that holds every element of
/// `source`, respecting the order means exactly that no pair of overlapping
/// elements has its relative order reversed versus `source`.
pub proof fn lemma_validator_soundness(source: Seq<Shape>, t: Seq<Shape>)
    requires
        forall|x: Shape| source.contains(x) ==> t.contains(x),
    ensures
        spec_respects(source, t) <==> (forall|i: int, j: int|
            0 <= i < j < source.len() && spec_intersects(source[j].bounds, source[i].bounds)
                ==> first_pos(t, source[i]) <= first_pos(t, source[j])),
{
    if spec_respects(source, t) {
        assert forall|i: int, j: int|
            0 <= i < j < source.len() && spec_intersects(
                source[j].bounds,
                source[i].bounds,
            ) implies first_pos(t, source[i]) <= first_pos(t, source[j]) by {
            assert(source.contains(source[i]));
            assert(source.contains(source[j]));
        }
    }
}

} // verus!
