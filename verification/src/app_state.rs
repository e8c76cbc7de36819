use vstd::prelude::*;

use crate::dao;
use crate::dao::{ids_of, ids_unique};
use crate::errors::SyncError;
use crate::exp::Exp;
use crate::membership::{strictly_ascending, surviving, Diff};
use crate::prompts::ReqdPrompts;
use crate::store::{
    active_members, from_active_row, has_user, user_exp, user_index, users_unique, Store,
};

verus! {

/// One rung of the progression ladder: the external role granted once a
/// member's score reaches `exp_needed`.
#[derive(Clone, Copy, Debug, PartialEq, Eq, Structural)]
pub struct EarnedRole {
    pub role_id: i64,
    pub exp_needed: Exp,
}

/// One member of the in-memory roster, with the cached rank bookkeeping.
///
/// `earned_role_idx` points at the highest tier whose threshold the score
/// has reached, or is `None` below every tier. `nxt_exp_milestone` caches
/// the threshold of the tier after that (the first tier when below all),
/// or `None` past the top.
#[derive(Clone, Copy, Debug, PartialEq, Eq, Structural)]
pub struct ServerMember {
    pub discord_id: i64,
    pub exp: Exp,
    pub earned_role_idx: Option<usize>,
    pub nxt_exp_milestone: Option<Exp>,
}

/// The whole shared aggregate: the roster, the ordered tier list, and the
/// pending administrator prompts. One exclusive guard around a value of
/// this type serializes every scoring and ranking operation.
pub struct AppState {
    pub users: Vec<ServerMember>,
    pub reqd_prompts: ReqdPrompts,
    pub sorted_earned_roles: Vec<EarnedRole>,
}

/// Tiers are strictly ascending by threshold: no duplicates.
pub open spec fn tiers_sorted(roles: Seq<EarnedRole>) -> bool {
    forall|k1: int, k2: int|
        0 <= k1 < k2 < roles.len() ==> roles[k1].exp_needed.0 < roles[k2].exp_needed.0
}

/// `rank` is the highest tier whose threshold is at or below `score`, or
/// `None` when the score is below every tier.
pub open spec fn rank_ok(roles: Seq<EarnedRole>, score: u64, rank: Option<usize>) -> bool {
    match rank {
        None => roles.len() == 0 || score < roles[0].exp_needed.0,
        Some(i) => i < roles.len() && roles[i as int].exp_needed.0 <= score && (i + 1
            == roles.len() || score < roles[i + 1].exp_needed.0),
    }
}

/// The index of the tier after the current rank: the next rung to reach.
/// Below every tier, the next rung is the first one.
pub open spec fn next_tier_idx(rank: Option<usize>) -> int {
    match rank {
        Some(i) => i + 1,
        None => 0,
    }
}

/// The cached next threshold that belongs to a rank: the threshold of the
/// tier at `next_tier_idx`, or `None` when there is no tier above.
pub open spec fn milestone_for(roles: Seq<EarnedRole>, rank: Option<usize>) -> Option<Exp> {
    if next_tier_idx(rank) < roles.len() {
        Some(roles[next_tier_idx(rank)].exp_needed)
    } else {
        None
    }
}

/// The member's cached rank and milestone agree with the tier list, and the
/// score fits the durable representation.
pub open spec fn member_wf(m: ServerMember, roles: Seq<EarnedRole>) -> bool {
    &&& rank_ok(roles, m.exp.0, m.earned_role_idx)
    &&& m.nxt_exp_milestone == milestone_for(roles, m.earned_role_idx)
    &&& m.exp.0 <= i64::MAX
}

/// The tier list as loaded from its durable rows.
pub open spec fn roles_from_rows(rows: Seq<dao::EarnedRole>) -> Seq<EarnedRole> {
    rows.map_values(|r: dao::EarnedRole| EarnedRole { role_id: r.role_id, exp_needed: Exp(r.exp_needed as u64) })
}

/// A rank is determined: two ranks that both satisfy `rank_ok` for the same
/// score are equal.
pub proof fn lemma_rank_unique(
    roles: Seq<EarnedRole>,
    score: u64,
    r1: Option<usize>,
    r2: Option<usize>,
)
    requires
        tiers_sorted(roles),
        rank_ok(roles, score, r1),
        rank_ok(roles, score, r2),
    ensures
        r1 == r2,
{
    match (r1, r2) {
        (None, None) => {},
        (None, Some(j)) => {
            assert(roles[0].exp_needed.0 <= roles[j as int].exp_needed.0);
        },
        (Some(i), None) => {
            assert(roles[0].exp_needed.0 <= roles[i as int].exp_needed.0);
        },
        (Some(i), Some(j)) => {
            if i < j {
                assert(roles[i + 1].exp_needed.0 <= roles[j as int].exp_needed.0);
            }
            if j < i {
                assert(roles[j + 1].exp_needed.0 <= roles[i as int].exp_needed.0);
            }
        },
    }
}

impl EarnedRole {
    /// Loads one tier from its durable row; thresholds are non-negative.
    pub fn from_row(row: dao::EarnedRole) -> (r: EarnedRole)
        requires
            row.exp_needed >= 0,
        ensures
            r.role_id == row.role_id,
            r.exp_needed.0 == row.exp_needed,
    {
        EarnedRole { role_id: row.role_id, exp_needed: Exp::from_i64(row.exp_needed) }
    }
}

/// The rank a score earns in the tier list: a binary search for the highest
/// tier with threshold at or below the score.
pub fn rank_of(sorted_earned_roles: &Vec<EarnedRole>, exp: Exp) -> (r: Option<usize>)
    requires
        tiers_sorted(sorted_earned_roles@),
    ensures
        rank_ok(sorted_earned_roles@, exp.0, r),
{
    let mut lo: usize = 0;
    let mut hi: usize = sorted_earned_roles.len();
    while lo < hi
        invariant
            lo <= hi <= sorted_earned_roles@.len(),
            tiers_sorted(sorted_earned_roles@),
            forall|k: int|
                0 <= k < lo ==> #[trigger] sorted_earned_roles@[k].exp_needed.0 <= exp.0,
            forall|k: int|
                hi <= k < sorted_earned_roles@.len()
                    ==> #[trigger] sorted_earned_roles@[k].exp_needed.0 > exp.0,
        decreases hi - lo,
    {
        let mid = lo + (hi - lo) / 2;
        if sorted_earned_roles[mid].exp_needed.0 <= exp.0 {
            lo = mid + 1;
            proof {
                assert forall|k: int| 0 <= k < lo implies
                    #[trigger] sorted_earned_roles@[k].exp_needed.0 <= exp.0 by {
                    if k < mid {
                        assert(sorted_earned_roles@[k].exp_needed.0
                            <= sorted_earned_roles@[mid as int].exp_needed.0);
                    }
                }
            }
        } else {
            hi = mid;
            proof {
                assert forall|k: int| hi <= k < sorted_earned_roles@.len() implies
                    #[trigger] sorted_earned_roles@[k].exp_needed.0 > exp.0 by {
                    if k > mid {
                        assert(sorted_earned_roles@[mid as int].exp_needed.0
                            <= sorted_earned_roles@[k].exp_needed.0);
                    }
                }
            }
        }
    }
    if lo == 0 {
        None
    } else {
        Some(lo - 1)
    }
}

impl ServerMember {
    /// Derives one cached member from its durable row against the current
    /// tier list: the rank by binary search, the milestone as the next
    /// tier's threshold (the first tier's when below all).
    pub fn new(dao: dao::ServerMember, sorted_earned_roles: &Vec<EarnedRole>) -> (r: ServerMember)
        requires
            dao.exp >= 0,
            tiers_sorted(sorted_earned_roles@),
        ensures
            r.discord_id == dao.discord_id,
            r.exp.0 == dao.exp,
            member_wf(r, sorted_earned_roles@),
    {
        let exp = Exp::from_i64(dao.exp);
        let earned_role_idx = rank_of(sorted_earned_roles, exp);
        let n = sorted_earned_roles.len();
        proof {
            assert(match earned_role_idx {
                Some(i) => i < n,
                None => true,
            });
        }
        let next: usize = match earned_role_idx {
            Some(i) => i + 1,
            None => 0,
        };
        let nxt_exp_milestone: Option<Exp> = if next < n {
            Some(sorted_earned_roles[next].exp_needed)
        } else {
            None
        };
        ServerMember { discord_id: dao.discord_id, exp, earned_role_idx, nxt_exp_milestone }
    }
}

/// No two roster members share an identifier: the roster is a map keyed by
/// member identifier.
pub open spec fn members_unique(users: Seq<ServerMember>) -> bool {
    forall|k1: int, k2: int|
        0 <= k1 < users.len() && 0 <= k2 < users.len() && k1 != k2 ==> users[k1].discord_id
            != users[k2].discord_id
}

/// Some roster member carries this identifier.
pub open spec fn has_member(users: Seq<ServerMember>, id: i64) -> bool {
    exists|k: int| 0 <= k < users.len() && #[trigger] users[k].discord_id == id
}

/// The position of the roster member with this identifier (unique under
/// `members_unique`).
pub open spec fn member_index(users: Seq<ServerMember>, id: i64) -> int {
    choose|k: int| 0 <= k < users.len() && #[trigger] users[k].discord_id == id
}

impl AppState {
    /// Loads the whole aggregate at startup: the tier ladder from storage,
    /// then the roster reconciled against the live membership snapshot,
    /// with every member's rank derived against the ladder.
    ///
    /// Fails, fatally for startup, exactly when some live member's durable
    /// row is inactive: a quitter rejoining, which reconciliation cannot
    /// insert again. On success the roster holds exactly the live members
    /// that had an active row, ascending by identifier with their durable
    /// scores, and the durable rows are active exactly for the live
    /// members.
    pub fn new(store: &mut Store, fetched_members: Vec<i64>) -> (r: Result<AppState, SyncError>)
        requires
            old(store).wf(),
            strictly_ascending(fetched_members@),
            forall|k: int|
                0 <= k < old(store).users@.len() ==> #[trigger] old(store).users@[k].exp >= 0,
            forall|k: int|
                0 <= k < old(store).earned_roles@.len() ==> #[trigger] old(
                    store,
                ).earned_roles@[k].exp_needed >= 0,
        ensures
            final(store).wf(),
            final(store).earned_roles@ == old(store).earned_roles@,
            r is Ok <==> (forall|j: int|
                0 <= j < fetched_members@.len() && has_user(
                    old(store).users@,
                    #[trigger] fetched_members@[j],
                ) ==> old(store).users@[user_index(old(store).users@, fetched_members@[j])].on_server),
            match r {
                Ok(state) => {
                    &&& state.sorted_earned_roles@ == roles_from_rows(old(store).earned_roles@)
                    &&& tiers_sorted(state.sorted_earned_roles@)
                    &&& state.reqd_prompts.earned_role@.len() == 0
                    &&& forall|k: int|
                        0 <= k < state.users@.len() ==> member_wf(
                            #[trigger] state.users@[k],
                            state.sorted_earned_roles@,
                        )
                    &&& forall|k1: int, k2: int|
                        0 <= k1 < k2 < state.users@.len() ==> state.users@[k1].discord_id
                            < state.users@[k2].discord_id
                    &&& forall|k: int|
                        0 <= k < state.users@.len() ==> fetched_members@.contains(
                            #[trigger] state.users@[k].discord_id,
                        ) && has_user(old(store).users@, state.users@[k].discord_id) && old(
                            store,
                        ).users@[user_index(old(store).users@, state.users@[k].discord_id)].on_server
                            && state.users@[k].exp.0 == user_exp(
                            old(store).users@,
                            state.users@[k].discord_id,
                        )
                    &&& forall|j: int|
                        0 <= j < fetched_members@.len() && has_user(
                            old(store).users@,
                            #[trigger] fetched_members@[j],
                        ) ==> has_member(state.users@, fetched_members@[j])
                    &&& forall|k: int|
                        0 <= k < final(store).users@.len()
                            ==> (#[trigger] final(store).users@[k].on_server
                            <==> fetched_members@.contains(final(store).users@[k].discord_id))
                },
                Err(e) => e == SyncError::Storage,
            },
    {
        broadcast use vstd::seq_lib::group_to_multiset_ensures;

        let ghost users0 = store.users@;
        let ghost live = fetched_members@;
        let db_members = store.server_members();
        let ghost active = db_members@;
        let role_rows = store.sorted_earned_roles();
        let ghost rows0 = role_rows@;
        let mut sorted_earned_roles: Vec<EarnedRole> = Vec::new();
        let nr = role_rows.len();
        let mut kr: usize = 0;
        while kr < nr
            invariant
                nr == role_rows@.len(),
                kr <= nr,
                role_rows@ == rows0,
                store.users@ == users0,
                store.earned_roles@ == rows0,
                users0 == old(store).users@,
                rows0 == old(store).earned_roles@,
                old(store).wf(),
                forall|j: int| 0 <= j < nr ==> #[trigger] rows0[j].exp_needed >= 0,
                sorted_earned_roles@.len() == kr,
                forall|j: int|
                    0 <= j < kr ==> #[trigger] sorted_earned_roles@[j] == (EarnedRole {
                        role_id: rows0[j].role_id,
                        exp_needed: Exp(rows0[j].exp_needed as u64),
                    }),
            decreases nr - kr,
        {
            sorted_earned_roles.push(EarnedRole::from_row(role_rows[kr]));
            kr = kr + 1;
            proof {
                assert(sorted_earned_roles@[kr - 1].exp_needed.0 == rows0[kr - 1].exp_needed);
                assert(sorted_earned_roles@[kr - 1] == (EarnedRole {
                    role_id: rows0[kr - 1].role_id,
                    exp_needed: Exp(rows0[kr - 1].exp_needed as u64),
                }));
            }
        }
        proof {
            assert(sorted_earned_roles@ =~= roles_from_rows(rows0));
            assert(tiers_sorted(sorted_earned_roles@)) by {
                assert forall|k1: int, k2: int|
                    0 <= k1 < k2 < sorted_earned_roles@.len() implies
                    sorted_earned_roles@[k1].exp_needed.0 < sorted_earned_roles@[k2].exp_needed.0
                by {
                    assert(rows0[k1].exp_needed < rows0[k2].exp_needed);
                }
            }
            crate::store::lemma_active_members_props(users0);
            assert(ids_unique(active));
            assert forall|m: int| 0 <= m < active.len() implies #[trigger] active[m].exp >= 0 by {
                assert(from_active_row(users0, active[m]));
                let k = choose|k: int|
                    0 <= k < users0.len() && #[trigger] users0[k].on_server && active[m]
                        == (dao::ServerMember {
                        discord_id: users0[k].discord_id,
                        exp: users0[k].exp,
                    });
            }
        }
        let diff = Diff::new(db_members, fetched_members);
        let ghost db_sorted = diff.db_info@;
        proof {
            assert forall|x: i64| #[trigger] ids_of(db_sorted).contains(x) == ids_of(
                active,
            ).contains(x) by {
                assert(ids_of(db_sorted).to_multiset() == ids_of(active).to_multiset());
                if ids_of(db_sorted).contains(x) {
                    assert(ids_of(db_sorted).to_multiset().count(x) > 0);
                    assert(ids_of(active).contains(x));
                }
                if ids_of(active).contains(x) {
                    assert(ids_of(active).to_multiset().count(x) > 0);
                    assert(ids_of(db_sorted).contains(x));
                }
            }
            assert forall|x: dao::ServerMember| #[trigger] db_sorted.contains(x) == active.contains(
                x,
            ) by {
                assert(db_sorted.to_multiset() == active.to_multiset());
                if db_sorted.contains(x) {
                    assert(db_sorted.to_multiset().count(x) > 0);
                    assert(active.contains(x));
                }
                if active.contains(x) {
                    assert(active.to_multiset().count(x) > 0);
                    assert(db_sorted.contains(x));
                }
            }
            assert forall|k: int|
                0 <= k < users0.len() && #[trigger] users0[k].on_server implies ids_of(
                active,
            ).contains(users0[k].discord_id) by {
                let row = dao::ServerMember {
                    discord_id: users0[k].discord_id,
                    exp: users0[k].exp,
                };
                assert(active.contains(row));
                let m = choose|m: int| 0 <= m < active.len() && active[m] == row;
                assert(ids_of(active)[m] == users0[k].discord_id);
            }
            assert forall|x: i64|
                has_user(users0, x) && ids_of(active).contains(x) implies users0[user_index(
                users0,
                x,
            )].on_server by {
                let m = choose|m: int| 0 <= m < ids_of(active).len() && ids_of(active)[m] == x;
                assert(active[m].discord_id == x);
                assert(from_active_row(users0, active[m]));
                let k1 = choose|k1: int|
                    0 <= k1 < users0.len() && #[trigger] users0[k1].on_server && active[m]
                        == (dao::ServerMember {
                        discord_id: users0[k1].discord_id,
                        exp: users0[k1].exp,
                    });
                let k0 = user_index(users0, x);
                assert(0 <= k0 < users0.len() && users0[k0].discord_id == x);
                if k0 != k1 {
                    assert(users0[k0].discord_id != users0[k1].discord_id);
                    assert(false);
                }
            }
        }
        let res = diff.sync_and_distill(store);
        proof {
            if res is Ok {
                assert forall|j: int|
                    0 <= j < live.len() && has_user(users0, #[trigger] live[j]) implies
                    users0[user_index(users0, live[j])].on_server by {
                    let x = live[j];
                    if !ids_of(db_sorted).contains(x) {
                        assert(!has_user(users0, x));
                        assert(false);
                    }
                    assert(ids_of(active).contains(x));
                }
            } else {
                assert(!(forall|j: int|
                    0 <= j < live.len() && has_user(users0, #[trigger] live[j])
                        ==> users0[user_index(users0, live[j])].on_server)) by {
                    assert(!crate::membership::no_rejoins(users0, db_sorted, live));
                    let j = choose|j: int|
                        0 <= j < live.len() && !ids_of(db_sorted).contains(#[trigger] live[j])
                            && has_user(users0, live[j]);
                    let x = live[j];
                    let k0 = user_index(users0, x);
                    assert(0 <= k0 < users0.len() && users0[k0].discord_id == x);
                    if users0[k0].on_server {
                        assert(ids_of(active).contains(x));
                        assert(ids_of(db_sorted).contains(x));
                        assert(false);
                    }
                }
            }
        }
        let rows = match res {
            Ok(rows) => rows,
            Err(e) => {
                return Err(e);
            },
        };
        let ghost surv = surviving(db_sorted, live);
        proof {
            crate::membership::lemma_surviving_props(db_sorted, live);
            assert forall|m: int| 0 <= m < rows@.len() implies #[trigger] rows@[m].exp >= 0 by {
                assert(db_sorted.contains(rows@[m]));
                assert(active.contains(rows@[m]));
                let m2 = choose|m2: int| 0 <= m2 < active.len() && active[m2] == rows@[m];
            }
        }
        let ghost store_after = store.users@;
        let mut users: Vec<ServerMember> = Vec::new();
        let n = rows.len();
        let mut i: usize = 0;
        while i < n
            invariant
                n == rows@.len(),
                i <= n,
                users@.len() == i,
                store.users@ == store_after,
                tiers_sorted(sorted_earned_roles@),
                forall|m: int| 0 <= m < n ==> #[trigger] rows@[m].exp >= 0,
                forall|j: int|
                    0 <= j < i ==> member_wf(#[trigger] users@[j], sorted_earned_roles@)
                        && users@[j].discord_id == rows@[j].discord_id && users@[j].exp.0
                        == rows@[j].exp,
            decreases n - i,
        {
            users.push(ServerMember::new(rows[i], &sorted_earned_roles));
            i = i + 1;
        }
        proof {
            assert(rows@ == surv);
            assert forall|k: int| 0 <= k < users@.len() implies fetched_members@.contains(
                #[trigger] users@[k].discord_id,
            ) && has_user(users0, users@[k].discord_id) && users0[user_index(
                users0,
                users@[k].discord_id,
            )].on_server && users@[k].exp.0 == user_exp(users0, users@[k].discord_id) by {
                let row = surv[k];
                assert(users@[k].discord_id == row.discord_id && users@[k].exp.0 == row.exp);
                assert(db_sorted.contains(row) && live.contains(row.discord_id));
                assert(active.contains(row));
                let m = choose|m: int| 0 <= m < active.len() && active[m] == row;
                assert(from_active_row(users0, active[m]));
                let k1 = choose|k1: int|
                    0 <= k1 < users0.len() && #[trigger] users0[k1].on_server && active[m]
                        == (dao::ServerMember {
                        discord_id: users0[k1].discord_id,
                        exp: users0[k1].exp,
                    });
                assert(users0[k1].discord_id == row.discord_id);
                assert(has_user(users0, row.discord_id));
                let k0 = user_index(users0, row.discord_id);
                assert(0 <= k0 < users0.len() && users0[k0].discord_id == row.discord_id);
                if k0 != k1 {
                    assert(users0[k0].discord_id != users0[k1].discord_id);
                    assert(false);
                }
                assert(user_exp(users0, row.discord_id) == users0[k1].exp);
            }
            assert forall|j: int|
                0 <= j < live.len() && has_user(users0, #[trigger] live[j]) implies has_member(
                users@,
                live[j],
            ) by {
                let x = live[j];
                let k0 = user_index(users0, x);
                assert(0 <= k0 < users0.len() && users0[k0].discord_id == x);
                assert(users0[k0].on_server);
                let row = dao::ServerMember { discord_id: x, exp: users0[k0].exp };
                assert(active.contains(row));
                assert(db_sorted.contains(row));
                let d = choose|d: int| 0 <= d < db_sorted.len() && db_sorted[d] == row;
                assert(live.contains(db_sorted[d].discord_id));
                assert(surv.contains(db_sorted[d]));
                let m = choose|m: int| 0 <= m < surv.len() && surv[m] == row;
                assert(users@[m].discord_id == x);
            }
            assert forall|k: int| 0 <= k < store.users@.len() implies
                (#[trigger] store.users@[k].on_server <==> live.contains(
                store.users@[k].discord_id,
            )) by {
                if k < users0.len() {
                    let x = users0[k].discord_id;
                    assert(store.users@[k] == (dao::User {
                        on_server: users0[k].on_server && !(ids_of(db_sorted).contains(x)
                            && !live.contains(x)),
                        ..users0[k]
                    }));
                    if users0[k].on_server {
                        assert(ids_of(active).contains(x));
                        assert(ids_of(db_sorted).contains(x));
                    } else {
                        if live.contains(x) {
                            let j = choose|j: int| 0 <= j < live.len() && live[j] == x;
                            assert(has_user(users0, x));
                            let k0 = user_index(users0, x);
                            assert(users0[k0].on_server);
                            assert(0 <= k0 < users0.len() && users0[k0].discord_id == x);
                            if k0 != k {
                                assert(users0[k0].discord_id != users0[k].discord_id);
                            }
                            assert(false);
                        }
                    }
                }
            }
        }
        Ok(AppState { users, reqd_prompts: ReqdPrompts::default(), sorted_earned_roles })
    }
}

} // verus!
