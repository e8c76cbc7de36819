use vstd::prelude::*;

use crate::dao;
use crate::dao::{ids_of, sorted_by_id};

verus! {

/// Sorts roster rows ascending by member identifier.
///
/// The result is a permutation of the input, stated both for whole rows and
/// for the identifier sequence, so that callers can carry uniqueness of
/// identifiers across the sort.
pub fn sort_rows_by_id(rows: Vec<dao::ServerMember>) -> (r: Vec<dao::ServerMember>)
    ensures
        sorted_by_id(r@),
        r@.to_multiset() == rows@.to_multiset(),
        ids_of(r@).to_multiset() == ids_of(rows@).to_multiset(),
        r@.len() == rows@.len(),
{
    broadcast use vstd::seq_lib::group_to_multiset_ensures;
    broadcast use vstd::multiset::group_multiset_axioms;

    let mut rest = rows;
    let ghost all = rest@;
    let mut out: Vec<dao::ServerMember> = Vec::new();
    proof {
        assert(out@.to_multiset().add(rest@.to_multiset()) =~= all.to_multiset());
        assert(ids_of(out@).to_multiset().add(ids_of(rest@).to_multiset()) =~= ids_of(
            all,
        ).to_multiset()) by {
            assert(ids_of(out@) =~= Seq::<i64>::empty());
            assert(ids_of(rest@) =~= ids_of(all));
        }
    }
    while rest.len() > 0
        invariant
            sorted_by_id(out@),
            forall|k: int, l: int|
                0 <= k < out@.len() && 0 <= l < rest@.len() ==> out@[k].discord_id
                    <= rest@[l].discord_id,
            out@.to_multiset().add(rest@.to_multiset()) == all.to_multiset(),
            ids_of(out@).to_multiset().add(ids_of(rest@).to_multiset()) == ids_of(all).to_multiset(),
            out@.len() + rest@.len() == all.len(),
        decreases rest@.len(),
    {
        let mut m: usize = 0;
        let mut i: usize = 1;
        while i < rest.len()
            invariant
                0 < rest@.len(),
                m < i,
                i <= rest@.len(),
                forall|l: int| 0 <= l < i ==> rest@[m as int].discord_id <= rest@[l].discord_id,
            decreases rest@.len() - i,
        {
            if rest[i].discord_id < rest[m].discord_id {
                m = i;
            }
            i += 1;
        }
        let ghost rest_before = rest@;
        let x = rest.remove(m);
        proof {
            broadcast use vstd::seq_lib::group_to_multiset_ensures;

            assert(ids_of(rest_before.remove(m as int)) =~= ids_of(rest_before).remove(m as int));
            assert(ids_of(out@.push(x)) =~= ids_of(out@).push(x.discord_id));
            assert(ids_of(rest_before)[m as int] == x.discord_id);
        }
        out.push(x);
    }
    out
}

} // verus!
