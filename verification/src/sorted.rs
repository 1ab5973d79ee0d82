//! Sorted, duplicate-free collections of the keys that the navigation mesh
//! updater works with: entity ids and pairs of layer ids.
use vstd::prelude::*;

verus! {

/// `s` is in strictly increasing order, so that no value occurs twice.
pub open spec fn strictly_sorted_u64(s: Seq<u64>) -> bool {
    forall|i: int, j: int| 0 <= i < j < s.len() ==> s[i] < s[j]
}

/// Lexicographic order on pairs of layer ids, the order of `(u8, u8)` tuples.
pub open spec fn pair_lt(a: (u8, u8), b: (u8, u8)) -> bool {
    a.0 < b.0 || (a.0 == b.0 && a.1 < b.1)
}

/// `s` is in strictly increasing lexicographic order.
pub open spec fn strictly_sorted_pairs(s: Seq<(u8, u8)>) -> bool {
    forall|i: int, j: int| 0 <= i < j < s.len() ==> pair_lt(s[i], s[j])
}

proof fn lemma_insert_contains<A>(s: Seq<A>, i: int, x: A)
    requires
        0 <= i <= s.len(),
    ensures
        forall|y: A| #[trigger] s.insert(i, x).contains(y) <==> (s.contains(y) || y == x),
{
    let t = s.insert(i, x);
    assert forall|y: A| #[trigger] t.contains(y) <==> (s.contains(y) || y == x) by {
        if t.contains(y) {
            let k = choose|k: int| 0 <= k < t.len() && t[k] == y;
            if k < i {
                assert(s[k] == y);
            } else if k > i {
                assert(s[k - 1] == y);
            }
        }
        if s.contains(y) {
            let k = choose|k: int| 0 <= k < s.len() && s[k] == y;
            if k < i {
                assert(t[k] == y);
            } else {
                assert(t[k + 1] == y);
            }
        }
        if y == x {
            assert(t[i] == x);
        }
    }
}

proof fn lemma_push_contains<A>(s: Seq<A>, x: A)
    ensures
        forall|y: A| #[trigger] s.push(x).contains(y) <==> (s.contains(y) || y == x),
{
    assert forall|y: A| #[trigger] s.push(x).contains(y) <==> (s.contains(y) || y == x) by {
        vstd::seq_lib::lemma_seq_contains_after_push(s, x, y);
    }
}

/// Sorts `values` and removes duplicates: the result holds each value of
/// `values` exactly once, in increasing order.
pub fn sorted_unique_u64(values: &Vec<u64>) -> (r: Vec<u64>)
    ensures
        strictly_sorted_u64(r@),
        forall|x: u64| r@.contains(x) <==> values@.contains(x),
{
    let mut r: Vec<u64> = Vec::new();
    let mut i: usize = 0;
    while i < values.len()
        invariant
            0 <= i <= values.len(),
            strictly_sorted_u64(r@),
            forall|x: u64| r@.contains(x) <==> values@.subrange(0, i as int).contains(x),
        decreases values.len() - i,
    {
        let x = values[i];
        let mut p: usize = 0;
        while p < r.len() && r[p] < x
            invariant
                0 <= p <= r.len(),
                strictly_sorted_u64(r@),
                forall|k: int| 0 <= k < p ==> r@[k] < x,
            decreases r.len() - p,
        {
            p = p + 1;
        }
        proof {
            assert(values@.subrange(0, i + 1) =~= values@.subrange(0, i as int).push(x));
            lemma_push_contains(values@.subrange(0, i as int), x);
        }
        let ghost before = r@;
        if p < r.len() && r[p] == x {
            assert(r@[p as int] == x);
            assert(r@.contains(x));
            assert(r@ == before);
        } else {
            let ghost old_r = r@;
            r.insert(p, x);
            proof {
                assert forall|a: int, b: int| 0 <= a < b < r@.len() implies r@[a] < r@[b] by {
                    if b < p {
                    } else if b == p {
                    } else if a < p {
                    } else if a == p {
                        assert(p < old_r.len() ==> old_r[p as int] >= x);
                        assert(old_r[p as int] <= old_r[b - 1]);
                    } else {
                    }
                }
                lemma_insert_contains(old_r, p as int, x);
            }
        }
        assert(forall|y: u64| r@.contains(y) <==> (before.contains(y) || y == x));
        assert forall|y: u64| r@.contains(y) <==> values@.subrange(0, i + 1).contains(y) by {
            assert(values@.subrange(0, i + 1) =~= values@.subrange(0, i as int).push(x));
            assert(before.contains(y) <==> values@.subrange(0, i as int).contains(y));
        }
        i = i + 1;
    }
    proof {
        assert(values@.subrange(0, values@.len() as int) =~= values@);
    }
    r
}

/// `a` comes before `b` in lexicographic order.
pub fn pair_less(a: (u8, u8), b: (u8, u8)) -> (r: bool)
    ensures
        r == pair_lt(a, b),
{
    a.0 < b.0 || (a.0 == b.0 && a.1 < b.1)
}

/// Sorts pairs of layer ids and removes duplicates: the result holds each pair
/// of `values` exactly once, in increasing lexicographic order.
pub fn sorted_unique_pairs(values: &Vec<(u8, u8)>) -> (r: Vec<(u8, u8)>)
    ensures
        strictly_sorted_pairs(r@),
        forall|x: (u8, u8)| r@.contains(x) <==> values@.contains(x),
{
    let mut r: Vec<(u8, u8)> = Vec::new();
    let mut i: usize = 0;
    while i < values.len()
        invariant
            0 <= i <= values.len(),
            strictly_sorted_pairs(r@),
            forall|x: (u8, u8)| r@.contains(x) <==> values@.subrange(0, i as int).contains(x),
        decreases values.len() - i,
    {
        let x = values[i];
        let mut p: usize = 0;
        while p < r.len() && pair_less(r[p], x)
            invariant
                0 <= p <= r.len(),
                strictly_sorted_pairs(r@),
                forall|k: int| 0 <= k < p ==> pair_lt(r@[k], x),
            decreases r.len() - p,
        {
            p = p + 1;
        }
        proof {
            assert(values@.subrange(0, i + 1) =~= values@.subrange(0, i as int).push(x));
            lemma_push_contains(values@.subrange(0, i as int), x);
        }
        let ghost before = r@;
        if p < r.len() && r[p].0 == x.0 && r[p].1 == x.1 {
            assert(r@[p as int] == x);
            assert(r@.contains(x));
            assert(r@ == before);
        } else {
            let ghost old_r = r@;
            r.insert(p, x);
            proof {
                assert forall|a: int, b: int| 0 <= a < b < r@.len() implies pair_lt(r@[a], r@[b]) by {
                    if b < p {
                    } else if b == p {
                    } else if a < p {
                    } else if a == p {
                        assert(!pair_lt(old_r[p as int], x));
                        assert(old_r[p as int] == old_r[b - 1] || pair_lt(old_r[p as int], old_r[b - 1]));
                    } else {
                    }
                }
                lemma_insert_contains(old_r, p as int, x);
            }
        }
        assert(forall|y: (u8, u8)| r@.contains(y) <==> (before.contains(y) || y == x));
        assert forall|y: (u8, u8)| r@.contains(y) <==> values@.subrange(0, i + 1).contains(y) by {
            assert(values@.subrange(0, i + 1) =~= values@.subrange(0, i as int).push(x));
            assert(before.contains(y) <==> values@.subrange(0, i as int).contains(y));
        }
        i = i + 1;
    }
    proof {
        assert(values@.subrange(0, values@.len() as int) =~= values@);
    }
    r
}

} // verus!
