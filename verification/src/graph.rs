use vstd::prelude::*;
use crate::geometry::{spec_intersects, Box2d};
use crate::shape::{find, first_pos, lemma_first_pos, Shape};

verus! {

/// The overlap-constraint graph of an ordered element list: `parents[i]`
/// lists the indices `j > i` whose bounds overlap element `i` (element `i`
/// must stay at or before each of them in any valid reordering). Edges go
/// from earlier to later index only, so the graph is acyclic.
pub struct Dag {
    pub parents: Vec<Vec<usize>>,
}

/// The indices `q` with `j <= q < list.len()` whose bounds overlap
/// `list[i].bounds`, in increasing order.
pub open spec fn spec_parents(list: Seq<Shape>, i: int, j: int) -> Seq<usize>
    decreases list.len() - j,
{
    if j < 0 || j >= list.len() {
        Seq::empty()
    } else {
        let rest = spec_parents(list, i, j + 1);
        if spec_intersects(list[j].bounds, list[i].bounds) {
            seq![j as usize] + rest
        } else {
            rest
        }
    }
}

/// Membership in `spec_parents` is exactly "later index with overlapping
/// bounds".
pub proof fn lemma_spec_parents_membership(list: Seq<Shape>, i: int, j: int)
    requires
        0 <= j,
        list.len() <= usize::MAX,
    ensures
        forall|u: usize|
            spec_parents(list, i, j).contains(u) <==> j <= u < list.len()
                && spec_intersects(list[u as int].bounds, list[i].bounds),
    decreases list.len() - j,
{
    if j < 0 || j >= list.len() {
        assert(forall|u: usize| !spec_parents(list, i, j).contains(u));
    } else {
        lemma_spec_parents_membership(list, i, j + 1);
        let rest = spec_parents(list, i, j + 1);
        let cur = spec_parents(list, i, j);
        if spec_intersects(list[j].bounds, list[i].bounds) {
            assert forall|u: usize|
                (j <= u < list.len() && spec_intersects(
                    list[u as int].bounds,
                    list[i].bounds,
                )) implies cur.contains(u) by {
                if u as int == j {
                    assert(cur[0] == u);
                } else {
                    assert(rest.contains(u));
                    let k = choose|k: int| 0 <= k < rest.len() && rest[k] == u;
                    assert(cur[k + 1] == u);
                }
            }
            assert forall|u: usize| cur.contains(u) implies (j <= u < list.len()
                && spec_intersects(list[u as int].bounds, list[i].bounds)) by {
                let k = choose|k: int| 0 <= k < cur.len() && cur[k] == u;
                if k == 0 {
                    assert(cur[0] == j as usize);
                    assert(u == j as usize);
                    assert(j <= u < list.len());
                } else {
                    assert(rest[k - 1] == u);
                    assert(rest.contains(u));
                }
            }
        } else {
            assert forall|u: usize|
                (j <= u < list.len() && spec_intersects(
                    list[u as int].bounds,
                    list[i].bounds,
                )) implies cur.contains(u) by {
                assert(rest.contains(u));
            }
        }
    }
}

/// Build the overlap-constraint graph of `list`: row `i` holds, in
/// increasing order, every index `j > i` whose bounds overlap `list[i]`.
pub fn build_dag(list: &[Shape]) -> (d: Dag)
    ensures
        d.parents@.len() == list@.len(),
        forall|i: int|
            0 <= i < list@.len() ==> d.parents@[i]@ == spec_parents(list@, i, i + 1),
{
    let mut d = Dag { parents: Vec::new() };
    let n = list.len();
    for i in 0..n
        invariant
            n == list@.len(),
            d.parents@.len() == i,
            forall|q: int| 0 <= q < i ==> d.parents@[q]@ == spec_parents(list@, q, q + 1),
    {
        let mut parents: Vec<usize> = Vec::new();
        let mut j = i + 1;
        while j < n
            invariant
                n == list@.len(),
                i < n,
                i + 1 <= j <= n,
                spec_parents(list@, i as int, i + 1) == parents@ + spec_parents(
                    list@,
                    i as int,
                    j as int,
                ),
            decreases n - j,
        {
            proof {
                let tail = spec_parents(list@, i as int, j as int);
                let tail2 = spec_parents(list@, i as int, j + 1);
                if spec_intersects(list@[j as int].bounds, list@[i as int].bounds) {
                    assert(parents@ + tail =~= parents@.push(j as usize) + tail2);
                } else {
                    assert(parents@ + tail =~= parents@ + tail2);
                }
            }
            if list[j].bounds.intersects(&list[i].bounds) {
                parents.push(j);
            }
            j += 1;
        }
        proof {
            assert(parents@ + spec_parents(list@, i as int, n as int) =~= parents@);
        }
        d.parents.push(parents);
    }
    d
}

/// The overlap partners that element `list[i]` must stay at or before:
/// every later element, by value, whose bounds overlap it.
pub open spec fn partner_set(list: Seq<Shape>, i: int) -> Set<Shape> {
    Set::new(
        |s: Shape|
            exists|j: int|
                i < j < list.len() && list[j] == s && spec_intersects(
                    list[j].bounds,
                    list[i].bounds,
                ),
    )
}

/// Two orderings are equivalent when they hold the same elements and every
/// element has the same set of must-follow overlap partners in both.
pub open spec fn spec_equiv(a: Seq<Shape>, b: Seq<Shape>) -> bool {
    &&& a.len() == b.len()
    &&& forall|i: int| 0 <= i < a.len() ==> b.contains(#[trigger] a[i])
    &&& forall|i: int| 0 <= i < b.len() ==> a.contains(#[trigger] b[i])
    &&& forall|i: int|
        0 <= i < a.len() ==> #[trigger] partner_set(a, i) == partner_set(b, first_pos(b, a[i]))
}

/// Decide whether two orderings induce identical overlap-constraint
/// graphs: same elements, and for each element the same overlap partners.
#[verifier::loop_isolation(false)]
pub fn equiv(a: &[Shape], b: &[Shape]) -> (r: bool)
    ensures
        r == spec_equiv(a@, b@),
{
    if a.len() != b.len() {
        return false;
    }
    let n = a.len();
    for i in 0..n
        invariant
            forall|q: int| 0 <= q < i ==> b@.contains(#[trigger] a@[q]),
    {
        match find(b, a[i]) {
            None => {
                return false;
            },
            Some(_) => {
                proof {
                    lemma_first_pos(b@, a@[i as int]);
                }
            },
        }
    }
    for i in 0..n
        invariant
            forall|q: int| 0 <= q < i ==> a@.contains(#[trigger] b@[q]),
    {
        match find(a, b[i]) {
            None => {
                return false;
            },
            Some(_) => {
                proof {
                    lemma_first_pos(a@, b@[i as int]);
                }
            },
        }
    }
    let ad = build_dag(a);
    let bd = build_dag(b);
    for i in 0..n
        invariant
            ad.parents@.len() == n,
            bd.parents@.len() == n,
            forall|q: int| 0 <= q < n ==> ad.parents@[q]@ == spec_parents(a@, q, q + 1),
            forall|q: int| 0 <= q < n ==> bd.parents@[q]@ == spec_parents(b@, q, q + 1),
            forall|q: int|
                0 <= q < i ==> #[trigger] partner_set(a@, q) == partner_set(
                    b@,
                    first_pos(b@, a@[q]),
                ),
    {
        proof {
            lemma_spec_parents_membership(a@, i as int, i + 1);
        }
        let j = match find(b, a[i]) {
            Some(j) => j,
            None => {
                proof {
                    assert(b@.contains(a@[i as int]));
                    assert(false);
                }
                return false;
            },
        };
        proof {
            lemma_first_pos(b@, a@[i as int]);
            assert(j < b@.len());
            lemma_spec_parents_membership(b@, j as int, j + 1);
        }
        let arow_len = ad.parents[i].len();
        let brow_len = bd.parents[j].len();
        for k in 0..arow_len
            invariant
                forall|l: int|
                    0 <= l < k ==> partner_set(b@, j as int).contains(
                        a@[#[trigger] ad.parents@[i as int]@[l] as int],
                    ),
        {
            let pa = ad.parents[i][k];
            proof {
                assert(ad.parents@[i as int]@.contains(pa));
            }
            let mut t: usize = 0;
            let mut found = false;
            while t < brow_len
                invariant
                    t <= brow_len,
                    found ==> partner_set(b@, j as int).contains(a@[pa as int]),
                    !found ==> forall|u: int|
                        0 <= u < t ==> a@[pa as int] != b@[#[trigger] bd.parents@[j as int]@[u] as int],
                decreases brow_len - t,
            {
                let pb = bd.parents[j][t];
                proof {
                    assert(bd.parents@[j as int]@.contains(pb));
                }
                if b[pb] == a[pa] {
                    found = true;
                    proof {
                        assert(j < pb < b@.len() && spec_intersects(
                            b@[pb as int].bounds,
                            b@[j as int].bounds,
                        ));
                        assert(partner_set(b@, j as int).contains(a@[pa as int]));
                    }
                }
                t += 1;
            }
            if !found {
                proof {
                    let s = a@[pa as int];
                    assert(partner_set(a@, i as int).contains(s));
                    if partner_set(b@, j as int).contains(s) {
                        let w = choose|w: int|
                            j < w < b@.len() && b@[w] == s && spec_intersects(
                                b@[w].bounds,
                                b@[j as int].bounds,
                            );
                        assert(spec_parents(b@, j as int, j + 1).contains(w as usize));
                        let row = bd.parents@[j as int]@;
                        let u = choose|u: int| 0 <= u < row.len() && row[u] == w as usize;
                        assert(a@[pa as int] != b@[row[u] as int]);
                        assert(false);
                    }
                    assert(partner_set(a@, i as int) != partner_set(b@, j as int));
                    assert(!spec_equiv(a@, b@));
                }
                return false;
            }
        }
        for k in 0..brow_len
            invariant
                forall|l: int|
                    0 <= l < k ==> partner_set(a@, i as int).contains(
                        b@[#[trigger] bd.parents@[j as int]@[l] as int],
                    ),
        {
            let pb = bd.parents[j][k];
            proof {
                assert(bd.parents@[j as int]@.contains(pb));
            }
            let mut t: usize = 0;
            let mut found = false;
            while t < arow_len
                invariant
                    t <= arow_len,
                    found ==> partner_set(a@, i as int).contains(b@[pb as int]),
                    !found ==> forall|u: int|
                        0 <= u < t ==> b@[pb as int] != a@[#[trigger] ad.parents@[i as int]@[u] as int],
                decreases arow_len - t,
            {
                let pa = ad.parents[i][t];
                proof {
                    assert(ad.parents@[i as int]@.contains(pa));
                }
                if a[pa] == b[pb] {
                    found = true;
                    proof {
                        assert(i < pa < a@.len() && spec_intersects(
                            a@[pa as int].bounds,
                            a@[i as int].bounds,
                        ));
                        assert(partner_set(a@, i as int).contains(b@[pb as int]));
                    }
                }
                t += 1;
            }
            if !found {
                proof {
                    let s = b@[pb as int];
                    assert(partner_set(b@, j as int).contains(s));
                    if partner_set(a@, i as int).contains(s) {
                        let w = choose|w: int|
                            i < w < a@.len() && a@[w] == s && spec_intersects(
                                a@[w].bounds,
                                a@[i as int].bounds,
                            );
                        assert(spec_parents(a@, i as int, i + 1).contains(w as usize));
                        let row = ad.parents@[i as int]@;
                        let u = choose|u: int| 0 <= u < row.len() && row[u] == w as usize;
                        assert(b@[pb as int] != a@[row[u] as int]);
                        assert(false);
                    }
                    assert(partner_set(a@, i as int) != partner_set(b@, j as int));
                    assert(!spec_equiv(a@, b@));
                }
                return false;
            }
        }
        proof {
            let pa_set = partner_set(a@, i as int);
            let pb_set = partner_set(b@, j as int);
            assert forall|s: Shape| pa_set.contains(s) implies pb_set.contains(s) by {
                let w = choose|w: int|
                    i < w < a@.len() && a@[w] == s && spec_intersects(
                        a@[w].bounds,
                        a@[i as int].bounds,
                    );
                assert(spec_parents(a@, i as int, i + 1).contains(w as usize));
                let row = ad.parents@[i as int]@;
                let u = choose|u: int| 0 <= u < row.len() && row[u] == w as usize;
                assert(pb_set.contains(a@[row[u] as int]));
            }
            assert forall|s: Shape| pb_set.contains(s) implies pa_set.contains(s) by {
                let w = choose|w: int|
                    j < w < b@.len() && b@[w] == s && spec_intersects(
                        b@[w].bounds,
                        b@[j as int].bounds,
                    );
                assert(spec_parents(b@, j as int, j + 1).contains(w as usize));
                let row = bd.parents@[j as int]@;
                let u = choose|u: int| 0 <= u < row.len() && row[u] == w as usize;
                assert(pa_set.contains(b@[row[u] as int]));
            }
            assert(pa_set =~= pb_set);
            assert(j as int == first_pos(b@, a@[i as int]));
        }
    }
    true
}

} // verus!
