use vstd::prelude::*;
use crate::geometry::Box2d;

verus! {

/// An element of a paint order: an identity plus its bounds. Elements are
/// compared by full value; within one list identities are unique.
#[derive(Debug, Eq, PartialEq, Structural, Clone, Copy)]
pub struct Shape {
    pub bounds: Box2d,
    pub id: char,
}

/// Index of the first occurrence of `x` in `s`, or -1 if `x` is absent.
pub open spec fn first_pos(s: Seq<Shape>, x: Shape) -> int
    decreases s.len(),
{
    if s.len() == 0 {
        -1
    } else if s[0] == x {
        0
    } else {
        let r = first_pos(s.drop_first(), x);
        if r < 0 {
            -1
        } else {
            r + 1
        }
    }
}

/// `first_pos` finds exactly the first occurrence: it is non-negative iff
/// the element is present, and then points at the earliest match.
pub proof fn lemma_first_pos(s: Seq<Shape>, x: Shape)
    ensures
        s.contains(x) <==> first_pos(s, x) >= 0,
        s.contains(x) ==> {
            let p = first_pos(s, x);
            &&& 0 <= p < s.len()
            &&& s[p] == x
            &&& forall|k: int| 0 <= k < p ==> s[k] != x
        },
    decreases s.len(),
{
    if s.len() == 0 {
    } else if s[0] == x {
        assert(s.contains(x));
    } else {
        lemma_first_pos(s.drop_first(), x);
        let t = s.drop_first();
        if s.contains(x) {
            let w = choose|w: int| 0 <= w < s.len() && s[w] == x;
            assert(t[w - 1] == x);
            assert(t.contains(x));
            let p = first_pos(s, x);
            assert(forall|k: int| 1 <= k < p ==> s[k] == t[k - 1] && t[k - 1] != x);
        } else {
            if t.contains(x) {
                let w = choose|w: int| 0 <= w < t.len() && t[w] == x;
                assert(s[w + 1] == x);
                assert(false);
            }
        }
    }
}

/// First position of `needle` in `hay` by value equality, if any.
pub fn find(hay: &[Shape], needle: Shape) -> (r: Option<usize>)
    ensures
        match r {
            Some(k) => first_pos(hay@, needle) == k as int,
            None => !hay@.contains(needle),
        },
{
    let n = hay.len();
    for i in 0..n
        invariant
            n == hay@.len(),
            forall|k: int| 0 <= k < i ==> hay@[k] != needle,
    {
        if hay[i] == needle {
            proof {
                lemma_first_pos(hay@, needle);
                assert(hay@.contains(needle));
            }
            return Some(i);
        }
    }
    proof {
        if hay@.contains(needle) {
            let w = choose|w: int| 0 <= w < hay@.len() && hay@[w] == needle;
            assert(false);
        }
    }
    None
}

/// The identities of a list, in list order.
pub fn ids(x: &[Shape]) -> (r: Vec<char>)
    ensures
        r@ == x@.map_values(|s: Shape| s.id),
{
    let mut r: Vec<char> = Vec::new();
    let n = x.len();
    for i in 0..n
        invariant
            n == x@.len(),
            r@ == x@.take(i as int).map_values(|s: Shape| s.id),
    {
        r.push(x[i].id);
        proof {
            assert(x@.take(i + 1).drop_last() =~= x@.take(i as int));
            assert(x@.take(i + 1).map_values(|s: Shape| s.id) =~= x@.take(i as int).map_values(
                |s: Shape| s.id,
            ).push(x@[i as int].id));
        }
    }
    proof {
        assert(x@.take(n as int) =~= x@);
    }
    r
}

/// The subsequence of `list` selected by the set bits of `s`:
/// bit `i` of the mask keeps `list[i]`.
pub open spec fn spec_pick(s: i32, list: Seq<Shape>) -> Seq<Shape>
    decreases list.len(),
{
    if list.len() == 0 {
        Seq::empty()
    } else {
        let prefix = spec_pick(s, list.drop_last());
        if s & (1i32 << (list.len() - 1) as i32) != 0 {
            prefix.push(list.last())
        } else {
            prefix
        }
    }
}

/// Select a subset of a list by bitmask, keeping list order.
pub fn pick(s: i32, list: &[Shape]) -> (r: Vec<Shape>)
    requires
        list@.len() <= 32,
    ensures
        r@ == spec_pick(s, list@),
{
    let mut result: Vec<Shape> = Vec::new();
    let n = list.len();
    for i in 0..n
        invariant
            n == list@.len() <= 32,
            result@ == spec_pick(s, list@.take(i as int)),
    {
        if s & (1i32 << (i as i32)) != 0 {
            result.push(list[i]);
        }
        proof {
            let t = list@.take(i + 1);
            assert(t.drop_last() =~= list@.take(i as int));
            assert(t.last() == list@[i as int]);
        }
    }
    proof {
        assert(list@.take(n as int) =~= list@);
    }
    result
}

} // verus!
