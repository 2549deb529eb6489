use vstd::prelude::*;

use crate::body::Body;

verus! {

/// Where `b` goes in `s`: after the leading run of bodies whose x is at most
/// that of `b`.
pub open spec fn insert_at(s: Seq<Body>, b: Body) -> int
    decreases s.len(),
{
    if s.len() == 0 {
        0
    } else if s[0].position.x > b.position.x {
        0
    } else {
        1 + insert_at(s.drop_first(), b)
    }
}

/// `s` in ascending order of x, bodies of equal x keeping their order: each
/// body in turn is inserted after those already placed whose x is at most its
/// own.
pub open spec fn sorted_by_x(s: Seq<Body>) -> Seq<Body>
    decreases s.len(),
{
    if s.len() == 0 {
        s
    } else {
        let r = sorted_by_x(s.drop_last());
        r.insert(insert_at(r, s.last()), s.last())
    }
}

proof fn lemma_insert_at_bounds(s: Seq<Body>, b: Body)
    ensures
        0 <= insert_at(s, b) <= s.len(),
    decreases s.len(),
{
    if s.len() > 0 && s[0].position.x <= b.position.x {
        lemma_insert_at_bounds(s.drop_first(), b);
    }
}

/// Sorting keeps the number of bodies, and whatever holds of every body of
/// `s` holds of every body of the result.
pub proof fn lemma_sorted_keeps(s: Seq<Body>, p: spec_fn(Body) -> bool)
    requires
        forall|k: int| 0 <= k < s.len() ==> p(#[trigger] s[k]),
    ensures
        sorted_by_x(s).len() == s.len(),
        forall|k: int| 0 <= k < s.len() ==> p(#[trigger] sorted_by_x(s)[k]),
    decreases s.len(),
{
    if s.len() > 0 {
        let t = s.drop_last();
        assert forall|k: int| 0 <= k < t.len() implies p(#[trigger] t[k]) by {
            assert(t[k] == s[k]);
        }
        lemma_sorted_keeps(t, p);
        let r = sorted_by_x(t);
        let b = s.last();
        assert(p(s[s.len() - 1]));
        lemma_insert_at_bounds(r, b);
        let i = insert_at(r, b);
        assert forall|k: int| 0 <= k < s.len() implies p(#[trigger] sorted_by_x(s)[k]) by {
            if k < i {
                assert(sorted_by_x(s)[k] == r[k]);
            } else if k > i {
                assert(sorted_by_x(s)[k] == r[k - 1]);
            }
        }
    }
}

/// A single body is already in order.
pub proof fn lemma_sorted_single(b: Body)
    ensures
        sorted_by_x(seq![b]) == seq![b],
{
    let s = seq![b];
    assert(s.drop_last() =~= Seq::<Body>::empty());
    assert(sorted_by_x(s.drop_last()) =~= Seq::<Body>::empty());
    assert(sorted_by_x(s) =~= seq![b]);
}

/// The bodies of `v` in ascending order of x (see `sorted_by_x`).
pub fn sort_by_x(v: &Vec<Body>) -> (r: Vec<Body>)
    ensures
        r@ == sorted_by_x(v@),
{
    let n = v.len();
    let mut r: Vec<Body> = Vec::new();
    for i in 0..n
        invariant
            n == v.len(),
            r@ == sorted_by_x(v@.take(i as int)),
            r.len() == i,
    {
        let b = v[i];
        let mut k: usize = 0;
        proof {
            assert(r@.skip(0) =~= r@);
            lemma_insert_at_bounds(r@, b);
        }
        while k < r.len() && r[k].position.x <= b.position.x
            invariant
                k <= r.len(),
                insert_at(r@, b) == k + insert_at(r@.skip(k as int), b),
            decreases r.len() - k,
        {
            proof {
                assert(r@.skip(k as int).drop_first() =~= r@.skip(k as int + 1));
            }
            k = k + 1;
        }
        proof {
            if k == r.len() {
                assert(r@.skip(k as int).len() == 0);
            }
            let t = v@.take(i as int + 1);
            assert(t.drop_last() =~= v@.take(i as int));
            assert(t.last() == b);
        }
        r.insert(k, b);
    }
    proof {
        assert(v@.take(n as int) =~= v@);
    }
    r
}

} // verus!
