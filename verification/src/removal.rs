use vstd::prelude::*;

verus! {

/// Position `i` occurs in the position list.
pub open spec fn drops(idxs: Seq<usize>, i: int) -> bool {
    exists|m: int| 0 <= m < idxs.len() && #[trigger] idxs[m] == i
}

/// The elements of `s` whose positions are not listed in `idxs`, in order.
pub open spec fn keep_except<T>(s: Seq<T>, idxs: Seq<usize>) -> Seq<T>
    decreases s.len(),
{
    if s.len() == 0 {
        Seq::empty()
    } else {
        let rest = keep_except(s.drop_last(), idxs);
        if drops(idxs, s.len() - 1) {
            rest
        } else {
            rest.push(s.last())
        }
    }
}

/// Removes the elements at the given positions in one pass, preserving the
/// order of everything else: a stable filter driven by the position list.
///
/// The positions must be strictly ascending and in range; callers establish
/// that where the positions are computed.
pub fn remove_sorted_indices<T: Copy>(v: &Vec<T>, idxs: &Vec<usize>) -> (r: Vec<T>)
    requires
        forall|m1: int, m2: int| 0 <= m1 < m2 < idxs@.len() ==> idxs@[m1] < idxs@[m2],
        forall|m: int| 0 <= m < idxs@.len() ==> #[trigger] idxs@[m] < v@.len(),
    ensures
        r@ == keep_except(v@, idxs@),
{
    let mut out: Vec<T> = Vec::new();
    let mut p: usize = 0;
    let mut k: usize = 0;
    while k < v.len()
        invariant
            k <= v@.len(),
            p <= idxs@.len(),
            forall|m1: int, m2: int| 0 <= m1 < m2 < idxs@.len() ==> idxs@[m1] < idxs@[m2],
            forall|m: int| 0 <= m < idxs@.len() ==> #[trigger] idxs@[m] < v@.len(),
            forall|m: int| 0 <= m < p ==> #[trigger] idxs@[m] < k,
            forall|m: int| p <= m < idxs@.len() ==> #[trigger] idxs@[m] >= k,
            out@ == keep_except(v@.take(k as int), idxs@),
        decreases v@.len() - k,
    {
        if p < idxs.len() && idxs[p] == k {
            p = p + 1;
            proof {
                assert(idxs@[p - 1] == k as int);
                assert(drops(idxs@, k as int));
            }
        } else {
            out.push(v[k]);
            proof {
                assert(!drops(idxs@, k as int)) by {
                    if drops(idxs@, k as int) {
                        let m = choose|m: int|
                            0 <= m < idxs@.len() && #[trigger] idxs@[m] == k as int;
                        if m < p {
                            assert(idxs@[m] < k);
                        } else {
                            if m > p {
                                assert(idxs@[p as int] < idxs@[m]);
                            }
                        }
                        assert(false);
                    }
                }
            }
        }
        k = k + 1;
        proof {
            let pre = v@.take(k - 1);
            let cur = v@.take(k as int);
            assert(cur.drop_last() =~= pre);
            assert(cur.last() == v@[k - 1]);
            assert(out@ == keep_except(cur, idxs@));
        }
    }
    proof {
        assert(v@.take(v@.len() as int) =~= v@);
    }
    out
}

} // verus!
