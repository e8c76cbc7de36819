use vstd::prelude::*;

verus! {

/// A durable roster row as the scoring and reconciliation logic reads it:
/// the member's identifier and score, both stored as non-negative `i64`.
#[derive(Clone, Copy, Debug, PartialEq, Eq, Structural)]
pub struct ServerMember {
    pub discord_id: i64,
    pub exp: i64,
}

/// A full durable roster row. `on_server` is the soft-delete flag: a member
/// that disappears from the live snapshot is marked inactive, never deleted.
#[derive(Clone, Copy, Debug, PartialEq, Eq, Structural)]
pub struct User {
    pub discord_id: i64,
    pub exp: i64,
    pub on_server: bool,
}

/// A durable rank-tier row: the external role granted at `exp_needed` points.
#[derive(Clone, Copy, Debug, PartialEq, Eq, Structural)]
pub struct EarnedRole {
    pub role_id: i64,
    pub exp_needed: i64,
}

/// The identifiers of a sequence of roster rows, in row order.
pub open spec fn ids_of(rows: Seq<ServerMember>) -> Seq<i64> {
    rows.map_values(|r: ServerMember| r.discord_id)
}

/// No two rows share an identifier.
pub open spec fn ids_unique(rows: Seq<ServerMember>) -> bool {
    forall|k1: int, k2: int|
        0 <= k1 < rows.len() && 0 <= k2 < rows.len() && k1 != k2 ==> rows[k1].discord_id
            != rows[k2].discord_id
}

/// Rows are ordered by ascending identifier.
pub open spec fn sorted_by_id(rows: Seq<ServerMember>) -> bool {
    forall|k1: int, k2: int|
        0 <= k1 < k2 < rows.len() ==> rows[k1].discord_id <= rows[k2].discord_id
}

} // verus!
