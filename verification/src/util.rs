use vstd::prelude::*;

use std::collections::HashSet;

verus! {

/// The administrators whose commands the surrounding command layer obeys:
/// a fixed set of member identifiers.
pub fn owners() -> (r: HashSet<i64>)
    ensures
        r@ =~= Set::<i64>::empty().insert(286962466037170176i64),
{
    broadcast use vstd::std_specs::hash::group_hash_axioms;

    let mut owner_ids: HashSet<i64> = HashSet::new();
    owner_ids.insert(286962466037170176i64);
    owner_ids
}

/// Runs a fallible step until it succeeds, handing each failure to the
/// handler, and returns the first success, which satisfies the step's
/// contract for a success. Gives up with `None` once the attempts are
/// spent, so that the retrying provably ends.
pub fn repeat_until_succeeds<F, O, E, H>(f: F, h: H, attempts: u64) -> (out: Option<O>) where
    F: FnMut() -> Result<O, E>,
    H: Fn(E),

    requires
        forall|g: F| call_requires(g, ()),
        forall|g: H, e: E| call_requires(g, (e,)),
    ensures
        match out {
            Some(v) => exists|g: F, res: Result<O, E>|
                #[trigger] call_ensures(g, (), res) && res == Ok::<O, E>(v),
            None => true,
        },
    decreases attempts,
{
    broadcast use vstd::function::group_function_axioms;

    let mut f = f;
    if attempts == 0 {
        return None;
    }
    let res = f();
    proof {
        assert(exists|g: F| call_ensures(g, (), res));
    }
    match res {
        Ok(o) => {
            proof {
                assert(res == Ok::<O, E>(o));
            }
            Some(o)
        },
        Err(e) => {
            h(e);
            repeat_until_succeeds(f, h, attempts - 1)
        },
    }
}

} // verus!
