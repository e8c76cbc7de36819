use vstd::prelude::*;

verus! {

/// Experience points of one member.
///
/// Durable storage keeps scores as non-negative `i64` values; in memory a
/// score is a `u64` that always fits in the non-negative signed range.
#[derive(Clone, Copy, Debug, PartialEq, Eq, Structural)]
pub struct Exp(pub u64);

impl Exp {
    /// The in-memory score as durable storage would hold it.
    pub fn to_i64(self) -> (r: i64)
        requires
            self.0 <= i64::MAX,
        ensures
            r == self.0,
    {
        self.0 as i64
    }

    /// A durable score read back into memory; negative scores never occur.
    pub fn from_i64(exp: i64) -> (r: Self)
        requires
            exp >= 0,
        ensures
            r.0 == exp,
    {
        Exp(exp as u64)
    }
}

} // verus!
