use vstd::prelude::*;

use crate::app_state::{
    has_member, member_index, members_unique, milestone_for, next_tier_idx, tiers_sorted, AppState,
    EarnedRole, ServerMember,
};
use crate::errors::SyncError;
use crate::exp::Exp;
use crate::store::{has_user, user_exp, user_index, Store};

verus! {

/// One call the caller owes the external role service. The library decides
/// the calls; the surrounding layer performs them, in order.
#[derive(Clone, Copy, Debug, PartialEq, Eq, Structural)]
pub enum RoleAction {
    /// Give the member the role.
    Grant { discord_id: i64, role_id: i64 },
    /// Take the role away from the member.
    Revoke { discord_id: i64, role_id: i64 },
}

/// A scoring event crosses the cached milestone: the member advances one
/// tier.
pub open spec fn transition_fires(m: ServerMember) -> bool {
    match m.nxt_exp_milestone {
        Some(t) => m.exp.0 >= t.0,
        None => false,
    }
}

/// The member after one tier advance: the rank moves to the next tier and
/// the milestone to the threshold above it.
pub open spec fn advanced_member(m: ServerMember, roles: Seq<EarnedRole>) -> ServerMember {
    let next = next_tier_idx(m.earned_role_idx);
    ServerMember {
        earned_role_idx: Some(next as usize),
        nxt_exp_milestone: milestone_for(roles, Some(next as usize)),
        ..m
    }
}

/// The role calls one tier advance owes: revoke the role of the tier left,
/// then grant the role of the tier entered.
pub open spec fn transition_actions(m: ServerMember, roles: Seq<EarnedRole>) -> Seq<RoleAction> {
    let next = next_tier_idx(m.earned_role_idx);
    let grant = seq![
        RoleAction::Grant { discord_id: m.discord_id, role_id: roles[next].role_id },
    ];
    match m.earned_role_idx {
        Some(i) => seq![
            RoleAction::Revoke { discord_id: m.discord_id, role_id: roles[i as int].role_id },
        ] + grant,
        None => grant,
    }
}

/// The durable score after one upsert of `delta`: the old score plus the
/// delta, or the delta itself when the row is created by the event.
pub open spec fn new_durable_exp(users: Seq<crate::dao::User>, id: i64, delta: i64) -> int {
    if has_user(users, id) {
        user_exp(users, id) + delta
    } else {
        delta as int
    }
}

/// The member with `delta` added to the cached score, bookkeeping untouched.
pub open spec fn exp_updated(m: ServerMember, delta: i64) -> ServerMember {
    ServerMember { exp: Exp((m.exp.0 + delta) as u64), ..m }
}

/// Checks the cached milestone after a score change and performs at most
/// one tier advance: past the milestone the member moves up one tier, the
/// old tier's role is revoked and the new one granted.
///
/// A member whose rank points past the tier list is reported as an
/// invariant violation and left unchanged, never followed.
pub fn tier_transition(member: &mut ServerMember, sorted_earned_roles: &Vec<EarnedRole>) -> (r:
    Result<Vec<RoleAction>, SyncError>)
    ensures
        match r {
            Ok(actions) => {
                if transition_fires(*old(member)) {
                    &&& next_tier_idx(old(member).earned_role_idx) < sorted_earned_roles@.len()
                    &&& *final(member) == advanced_member(*old(member), sorted_earned_roles@)
                    &&& actions@ == transition_actions(*old(member), sorted_earned_roles@)
                } else {
                    &&& *final(member) == *old(member)
                    &&& actions@ == Seq::<RoleAction>::empty()
                }
            },
            Err(e) => {
                &&& e == SyncError::InvariantViolation
                &&& transition_fires(*old(member))
                &&& next_tier_idx(old(member).earned_role_idx) >= sorted_earned_roles@.len()
                &&& *final(member) == *old(member)
            },
        },
{
    let actions: Vec<RoleAction> = Vec::new();
    let milestone = match member.nxt_exp_milestone {
        Some(t) => t,
        None => {
            proof {
                assert(actions@ =~= Seq::<RoleAction>::empty());
            }
            return Ok(actions);
        },
    };
    if member.exp.0 < milestone.0 {
        proof {
            assert(actions@ =~= Seq::<RoleAction>::empty());
        }
        return Ok(actions);
    }
    let n = sorted_earned_roles.len();
    let next: usize = match member.earned_role_idx {
        Some(idx) => {
            if idx >= n {
                return Err(SyncError::InvariantViolation);
            }
            idx + 1
        },
        None => 0,
    };
    if next >= n {
        return Err(SyncError::InvariantViolation);
    }
    let mut actions: Vec<RoleAction> = Vec::new();
    match member.earned_role_idx {
        Some(idx) => {
            actions.push(
                RoleAction::Revoke {
                    discord_id: member.discord_id,
                    role_id: sorted_earned_roles[idx].role_id,
                },
            );
        },
        None => {},
    }
    actions.push(
        RoleAction::Grant {
            discord_id: member.discord_id,
            role_id: sorted_earned_roles[next].role_id,
        },
    );
    let nxt_exp_milestone: Option<Exp> = if next + 1 < n {
        Some(sorted_earned_roles[next + 1].exp_needed)
    } else {
        None
    };
    member.earned_role_idx = Some(next);
    member.nxt_exp_milestone = nxt_exp_milestone;
    proof {
        assert(actions@ =~= transition_actions(*old(member), sorted_earned_roles@));
    }
    Ok(actions)
}

/// What one scoring event left behind: the authoritative durable score, the
/// cached score, whether the member was found in the roster, and the role
/// calls the caller owes. A difference between the two scores is the
/// cache/durable divergence signal; the caller reports it and no repair is
/// attempted.
pub struct ExpOutcome {
    pub db_exp: Exp,
    pub in_cache_exp: Exp,
    pub found_in_cache: bool,
    pub actions: Vec<RoleAction>,
}

impl ExpOutcome {
    /// The cached score disagrees with the durable one.
    pub fn diverged(&self) -> (b: bool)
        ensures
            b == (self.db_exp.0 != self.in_cache_exp.0),
    {
        self.db_exp.0 != self.in_cache_exp.0
    }
}

/// The synchronized way of adding experience points to a member: the delta
/// goes to durable storage first (creating the row when absent), then to
/// the cached roster, and the member's tier transition is evaluated at
/// once.
///
/// A member missing from the roster does not block the event: the durable
/// write stands, the delta itself is reported as the cached score, and no
/// transition happens. A rank pointing past the tier list surfaces as
/// `InvariantViolation` with the scores already written, per the no-rollback
/// rule.
pub fn add_signed_exp(
    store: &mut Store,
    app_state: &mut AppState,
    discord_id: i64,
    delta: i64,
) -> (r: Result<ExpOutcome, SyncError>)
    requires
        old(store).wf(),
        members_unique(old(app_state).users@),
        has_user(old(store).users@, discord_id) ==> 0 <= user_exp(old(store).users@, discord_id)
            + delta <= i64::MAX,
        !has_user(old(store).users@, discord_id) ==> 0 <= delta,
        !has_member(old(app_state).users@, discord_id) ==> 0 <= delta,
        forall|k: int|
            0 <= k < old(app_state).users@.len() && old(app_state).users@[k].discord_id
                == discord_id ==> #[trigger] old(app_state).users@[k].exp.0 <= i64::MAX && 0 <= old(
                app_state,
            ).users@[k].exp.0 + delta <= i64::MAX,
    ensures
        final(store).wf(),
        final(store).earned_roles@ == old(store).earned_roles@,
        final(app_state).sorted_earned_roles@ == old(app_state).sorted_earned_roles@,
        final(app_state).reqd_prompts.earned_role@ == old(app_state).reqd_prompts.earned_role@,
        has_user(old(store).users@, discord_id) ==> {
            let idx = user_index(old(store).users@, discord_id);
            final(store).users@ == old(store).users@.update(
                idx,
                crate::dao::User {
                    exp: (old(store).users@[idx].exp + delta) as i64,
                    ..old(store).users@[idx]
                },
            )
        },
        !has_user(old(store).users@, discord_id) ==> final(store).users@ == old(
            store,
        ).users@.push(crate::dao::User { discord_id, exp: delta, on_server: true }),
        !has_member(old(app_state).users@, discord_id) ==> {
            &&& final(app_state).users@ == old(app_state).users@
            &&& match r {
                Ok(o) => o.db_exp.0 == new_durable_exp(old(store).users@, discord_id, delta)
                    && o.in_cache_exp.0 == delta && !o.found_in_cache && o.actions@
                    == Seq::<RoleAction>::empty(),
                Err(_) => false,
            }
        },
        has_member(old(app_state).users@, discord_id) ==> {
            let ki = member_index(old(app_state).users@, discord_id);
            let m1 = exp_updated(old(app_state).users@[ki], delta);
            let roles = old(app_state).sorted_earned_roles@;
            match r {
                Ok(o) => {
                    &&& o.db_exp.0 == new_durable_exp(old(store).users@, discord_id, delta)
                    &&& o.in_cache_exp == m1.exp
                    &&& o.found_in_cache
                    &&& if transition_fires(m1) {
                        &&& next_tier_idx(m1.earned_role_idx) < roles.len()
                        &&& final(app_state).users@ == old(app_state).users@.update(
                            ki,
                            advanced_member(m1, roles),
                        )
                        &&& o.actions@ == transition_actions(m1, roles)
                    } else {
                        &&& final(app_state).users@ == old(app_state).users@.update(ki, m1)
                        &&& o.actions@ == Seq::<RoleAction>::empty()
                    }
                },
                Err(e) => {
                    &&& e == SyncError::InvariantViolation
                    &&& transition_fires(m1)
                    &&& next_tier_idx(m1.earned_role_idx) >= roles.len()
                    &&& final(app_state).users@ == old(app_state).users@.update(ki, m1)
                },
            }
        },
{
    let db_exp = store.add_signed_exp(discord_id, delta);
    let n = app_state.users.len();
    let mut ki: usize = 0;
    let mut found = false;
    while ki < n && !found
        invariant
            n == app_state.users@.len(),
            ki <= n,
            app_state.users@ == old(app_state).users@,
            !found ==> forall|j: int|
                0 <= j < ki ==> #[trigger] app_state.users@[j].discord_id != discord_id,
            found ==> ki < n && app_state.users@[ki as int].discord_id == discord_id,
        decreases n - ki + (if found {
            0int
        } else {
            1int
        }),
    {
        if app_state.users[ki].discord_id == discord_id {
            found = true;
        } else {
            ki = ki + 1;
        }
    }
    if !found {
        proof {
            if has_member(old(app_state).users@, discord_id) {
                let k2 = choose|k2: int|
                    0 <= k2 < old(app_state).users@.len()
                        && #[trigger] old(app_state).users@[k2].discord_id == discord_id;
                assert(false);
            }
        }
        return Ok(
            ExpOutcome {
                db_exp,
                in_cache_exp: Exp::from_i64(delta),
                found_in_cache: false,
                actions: Vec::new(),
            },
        );
    }
    proof {
        assert(has_member(old(app_state).users@, discord_id));
        let k = member_index(old(app_state).users@, discord_id);
        assert(0 <= k < old(app_state).users@.len() && old(app_state).users@[k].discord_id
            == discord_id);
        if k != ki {
            assert(old(app_state).users@[k].discord_id
                != old(app_state).users@[ki as int].discord_id);
            assert(false);
        }
    }
    let mut m = app_state.users[ki];
    let old_exp_i64 = m.exp.to_i64();
    let new_exp = Exp::from_i64(old_exp_i64 + delta);
    m.exp = new_exp;
    proof {
        assert(m == exp_updated(old(app_state).users@[ki as int], delta));
    }
    let tr = tier_transition(&mut m, &app_state.sorted_earned_roles);
    let row = &mut app_state.users[ki];
    *row = m;
    match tr {
        Ok(actions) => Ok(
            ExpOutcome { db_exp, in_cache_exp: new_exp, found_in_cache: true, actions },
        ),
        Err(e) => Err(e),
    }
}

/// Whether a member below every tier is promoted by a tier inserted at the
/// bottom: into a previously empty ladder only a strictly greater score
/// promotes; into a non-empty ladder reaching the threshold is enough, as
/// in a tier transition.
pub open spec fn promotes_from_none(old_len: int, score: u64, thr: u64) -> bool {
    if old_len == 0 {
        score > thr
    } else {
        score >= thr
    }
}

/// One member after a tier is inserted at position `pos` of `old_roles`:
/// ranks above the split shift by one, the member at the split tier is
/// re-evaluated against the new threshold, everyone else keeps their rank,
/// and milestones follow the renumbered ladder.
pub open spec fn member_after_insert(
    m: ServerMember,
    pos: int,
    new_tier: EarnedRole,
    old_roles: Seq<EarnedRole>,
) -> ServerMember {
    let new_roles = old_roles.insert(pos, new_tier);
    match m.earned_role_idx {
        Some(i) => if i >= pos {
            ServerMember { earned_role_idx: Some((i + 1) as usize), ..m }
        } else if i == pos - 1 {
            if m.exp.0 >= new_tier.exp_needed.0 {
                ServerMember {
                    earned_role_idx: Some(pos as usize),
                    nxt_exp_milestone: milestone_for(new_roles, Some(pos as usize)),
                    ..m
                }
            } else {
                ServerMember { nxt_exp_milestone: Some(new_tier.exp_needed), ..m }
            }
        } else {
            m
        },
        None => if pos == 0 {
            if promotes_from_none(old_roles.len() as int, m.exp.0, new_tier.exp_needed.0) {
                ServerMember {
                    earned_role_idx: Some(0),
                    nxt_exp_milestone: milestone_for(new_roles, Some(0)),
                    ..m
                }
            } else {
                ServerMember { nxt_exp_milestone: Some(new_tier.exp_needed), ..m }
            }
        } else {
            m
        },
    }
}

/// The role calls one member's re-evaluation owes: a member promoted into
/// the new tier loses their old tier's role (if any) and gains the new
/// tier's role; nobody else is touched.
pub open spec fn insert_actions_for(
    m: ServerMember,
    pos: int,
    new_tier: EarnedRole,
    old_roles: Seq<EarnedRole>,
) -> Seq<RoleAction> {
    match m.earned_role_idx {
        Some(i) => if i == pos - 1 && m.exp.0 >= new_tier.exp_needed.0 {
            seq![
                RoleAction::Revoke { discord_id: m.discord_id, role_id: old_roles[pos - 1].role_id },
                RoleAction::Grant { discord_id: m.discord_id, role_id: new_tier.role_id },
            ]
        } else {
            Seq::empty()
        },
        None => if pos == 0 && promotes_from_none(old_roles.len() as int, m.exp.0, new_tier.exp_needed.0) {
            seq![RoleAction::Grant { discord_id: m.discord_id, role_id: new_tier.role_id }]
        } else {
            Seq::empty()
        },
    }
}

/// The role calls the whole re-evaluation owes, in roster order.
pub open spec fn insert_actions(
    users: Seq<ServerMember>,
    pos: int,
    new_tier: EarnedRole,
    old_roles: Seq<EarnedRole>,
) -> Seq<RoleAction>
    decreases users.len(),
{
    if users.len() == 0 {
        Seq::empty()
    } else {
        insert_actions(users.drop_last(), pos, new_tier, old_roles) + insert_actions_for(
            users.last(),
            pos,
            new_tier,
            old_roles,
        )
    }
}

/// Some tier already carries this threshold.
pub open spec fn has_tier_threshold(roles: Seq<EarnedRole>, thr: u64) -> bool {
    exists|k: int| 0 <= k < roles.len() && #[trigger] roles[k].exp_needed.0 == thr
}

/// Some member's rank points past the tier list.
pub open spec fn some_rank_invalid(users: Seq<ServerMember>, len: int) -> bool {
    exists|k: int|
        0 <= k < users.len() && match #[trigger] users[k].earned_role_idx {
            Some(i) => i >= len,
            None => false,
        }
}

/// The tier rows a tier list persists as.
pub open spec fn rows_from_roles(roles: Seq<EarnedRole>) -> Seq<crate::dao::EarnedRole> {
    roles.map_values(
        |r: EarnedRole| crate::dao::EarnedRole { role_id: r.role_id, exp_needed: r.exp_needed.0 as i64 },
    )
}

/// Inserts a new tier into the ladder and re-derives every cached member's
/// rank pointer and milestone so the new tier is observed consistently.
///
/// A duplicate threshold is refused with `DuplicateThreshold` and a member
/// whose rank points past the ladder with `InvariantViolation`; either way
/// nothing changes. Otherwise the tier row is persisted, the in-memory
/// ladder gains the tier at its ordered position, members above the split
/// shift their rank index by one, the members at the split tier are
/// re-evaluated against the new threshold, and the role calls owed by the
/// promotions come back for the caller to perform.
pub fn add_earned_role(
    store: &mut Store,
    sorted_earned_roles: &mut Vec<EarnedRole>,
    users: &mut Vec<ServerMember>,
    role_id: i64,
    exp_needed: Exp,
) -> (r: Result<Vec<RoleAction>, SyncError>)
    requires
        old(store).wf(),
        tiers_sorted(old(sorted_earned_roles)@),
        old(store).earned_roles@ == rows_from_roles(old(sorted_earned_roles)@),
        exp_needed.0 <= i64::MAX,
        forall|k: int|
            0 <= k < old(sorted_earned_roles)@.len()
                ==> #[trigger] old(sorted_earned_roles)@[k].exp_needed.0 <= i64::MAX,
    ensures
        final(store).users@ == old(store).users@,
        final(store).wf(),
        has_tier_threshold(old(sorted_earned_roles)@, exp_needed.0) ==> r == Err::<
            Vec<RoleAction>,
            SyncError,
        >(SyncError::DuplicateThreshold),
        !has_tier_threshold(old(sorted_earned_roles)@, exp_needed.0) && some_rank_invalid(
            old(users)@,
            old(sorted_earned_roles)@.len() as int,
        ) ==> r == Err::<Vec<RoleAction>, SyncError>(SyncError::InvariantViolation),
        r is Err ==> final(store).earned_roles@ == old(store).earned_roles@
            && final(sorted_earned_roles)@ == old(sorted_earned_roles)@
            && final(users)@ == old(users)@,
        !has_tier_threshold(old(sorted_earned_roles)@, exp_needed.0) && !some_rank_invalid(
            old(users)@,
            old(sorted_earned_roles)@.len() as int,
        ) ==> (match r {
            Ok(actions) => {
                &&& tiers_sorted(final(sorted_earned_roles)@)
                &&& final(store).earned_roles@ == rows_from_roles(final(sorted_earned_roles)@)
                &&& final(users)@.len() == old(users)@.len()
                &&& exists|p: int|
                    {
                        &&& 0 <= p <= old(sorted_earned_roles)@.len()
                        &&& (forall|k: int|
                            0 <= k < p
                                ==> #[trigger] old(sorted_earned_roles)@[k].exp_needed.0
                                < exp_needed.0)
                        &&& (forall|k: int|
                            p <= k < old(sorted_earned_roles)@.len()
                                ==> #[trigger] old(sorted_earned_roles)@[k].exp_needed.0
                                > exp_needed.0)
                        &&& final(sorted_earned_roles)@
                            == #[trigger] old(sorted_earned_roles)@.insert(
                            p,
                            EarnedRole { role_id, exp_needed },
                        )
                        &&& (forall|k: int|
                            0 <= k < old(users)@.len() ==> #[trigger] final(users)@[k]
                                == member_after_insert(
                                old(users)@[k],
                                p,
                                EarnedRole { role_id, exp_needed },
                                old(sorted_earned_roles)@,
                            ))
                        &&& actions@ == insert_actions(
                            old(users)@,
                            p,
                            EarnedRole { role_id, exp_needed },
                            old(sorted_earned_roles)@,
                        )
                    }
            },
            Err(_) => false,
        }),
{
    let ghost roles0 = sorted_earned_roles@;
    let ghost users0 = users@;
    let ghost rows0 = store.earned_roles@;
    let n0 = sorted_earned_roles.len();
    let mut lo: usize = 0;
    let mut hi: usize = n0;
    while lo < hi
        invariant
            lo <= hi <= n0,
            n0 == sorted_earned_roles@.len(),
            sorted_earned_roles@ == roles0,
            tiers_sorted(roles0),
            forall|k: int| 0 <= k < lo ==> #[trigger] roles0[k].exp_needed.0 < exp_needed.0,
            forall|k: int| hi <= k < n0 ==> #[trigger] roles0[k].exp_needed.0 >= exp_needed.0,
        decreases hi - lo,
    {
        let mid = lo + (hi - lo) / 2;
        if sorted_earned_roles[mid].exp_needed.0 < exp_needed.0 {
            lo = mid + 1;
            proof {
                assert forall|k: int| 0 <= k < lo implies #[trigger] roles0[k].exp_needed.0
                    < exp_needed.0 by {
                    if k < mid {
                        assert(roles0[k].exp_needed.0 <= roles0[mid as int].exp_needed.0);
                    }
                }
            }
        } else {
            hi = mid;
            proof {
                assert forall|k: int| hi <= k < n0 implies #[trigger] roles0[k].exp_needed.0
                    >= exp_needed.0 by {
                    if k > mid {
                        assert(roles0[mid as int].exp_needed.0 <= roles0[k].exp_needed.0);
                    }
                }
            }
        }
    }
    let pos = lo;
    if pos < n0 && sorted_earned_roles[pos].exp_needed.0 == exp_needed.0 {
        proof {
            assert(roles0[pos as int].exp_needed.0 == exp_needed.0);
            assert(has_tier_threshold(roles0, exp_needed.0));
        }
        return Err(SyncError::DuplicateThreshold);
    }
    proof {
        assert forall|k: int| pos <= k < n0 implies #[trigger] roles0[k].exp_needed.0
            > exp_needed.0 by {
            if k == pos {
                assert(roles0[k].exp_needed.0 != exp_needed.0);
            } else {
                assert(roles0[pos as int].exp_needed.0 < roles0[k].exp_needed.0);
                assert(roles0[pos as int].exp_needed.0 >= exp_needed.0);
            }
        }
        assert(!has_tier_threshold(roles0, exp_needed.0)) by {
            if has_tier_threshold(roles0, exp_needed.0) {
                let k = choose|k: int|
                    0 <= k < roles0.len() && #[trigger] roles0[k].exp_needed.0 == exp_needed.0;
                assert(false);
            }
        }
    }
    let n_users = users.len();
    let mut k: usize = 0;
    while k < n_users
        invariant
            n_users == users@.len(),
            k <= n_users,
            users@ == users0,
            users0 == old(users)@,
            roles0 == old(sorted_earned_roles)@,
            sorted_earned_roles@ == roles0,
            n0 == sorted_earned_roles@.len(),
            store.users@ == old(store).users@,
            store.earned_roles@ == old(store).earned_roles@,
            old(store).wf(),
            !has_tier_threshold(roles0, exp_needed.0),
            forall|j: int|
                0 <= j < k ==> match #[trigger] users0[j].earned_role_idx {
                    Some(i) => i < n0,
                    None => true,
                },
        decreases n_users - k,
    {
        match users[k].earned_role_idx {
            Some(i) => {
                if i >= n0 {
                    proof {
                        assert(match users0[k as int].earned_role_idx {
                            Some(i2) => i2 >= n0,
                            None => false,
                        });
                        assert(some_rank_invalid(users0, n0 as int));
                    }
                    return Err(SyncError::InvariantViolation);
                }
            },
            None => {},
        }
        k = k + 1;
    }
    proof {
        assert(!some_rank_invalid(users0, n0 as int)) by {
            if some_rank_invalid(users0, n0 as int) {
                let j = choose|j: int|
                    0 <= j < users0.len() && match #[trigger] users0[j].earned_role_idx {
                        Some(i) => i >= n0,
                        None => false,
                    };
                assert(false);
            }
        }
        assert forall|j: int| 0 <= j < rows0.len() implies #[trigger] rows0[j]
            == (crate::dao::EarnedRole {
            role_id: roles0[j].role_id,
            exp_needed: roles0[j].exp_needed.0 as i64,
        }) by {}
        assert(!crate::store::has_threshold(rows0, exp_needed.0 as i64)) by {
            if crate::store::has_threshold(rows0, exp_needed.0 as i64) {
                let j = choose|j: int|
                    0 <= j < rows0.len() && #[trigger] rows0[j].exp_needed == exp_needed.0 as i64;
                assert(roles0[j].exp_needed.0 == exp_needed.0);
                assert(has_tier_threshold(roles0, exp_needed.0));
                assert(false);
            }
        }
    }
    store.add_earned_role(role_id, exp_needed.to_i64());
    sorted_earned_roles.insert(pos, EarnedRole { role_id, exp_needed });
    let ghost t = EarnedRole { role_id, exp_needed };
    let ghost row = crate::dao::EarnedRole { role_id, exp_needed: exp_needed.0 as i64 };
    proof {
        roles0.insert_ensures(pos as int, t);
        assert(sorted_earned_roles@ == roles0.insert(pos as int, t));
        assert(tiers_sorted(sorted_earned_roles@)) by {
            assert forall|k1: int, k2: int|
                0 <= k1 < k2 < sorted_earned_roles@.len() implies
                sorted_earned_roles@[k1].exp_needed.0 < sorted_earned_roles@[k2].exp_needed.0 by {
                if k1 > pos {
                    assert(sorted_earned_roles@[k1] == roles0[k1 - 1]);
                }
                if k2 > pos {
                    assert(sorted_earned_roles@[k2] == roles0[k2 - 1]);
                }
            }
        }
        let p2 = choose|p2: int|
            0 <= p2 <= rows0.len() && store.earned_roles@ == #[trigger] rows0.insert(p2, row) && (
            forall|j: int| 0 <= j < p2 ==> #[trigger] rows0[j].exp_needed < row.exp_needed) && (
            forall|j: int|
                p2 <= j < rows0.len() ==> #[trigger] rows0[j].exp_needed > row.exp_needed);
        if p2 < pos {
            assert(rows0[p2].exp_needed > row.exp_needed);
            assert(roles0[p2].exp_needed.0 < exp_needed.0);
            assert(false);
        }
        if p2 > pos {
            assert(rows0[pos as int].exp_needed < row.exp_needed);
            assert(roles0[pos as int].exp_needed.0 > exp_needed.0);
            assert(false);
        }
        rows0.insert_ensures(pos as int, row);
        assert(store.earned_roles@ =~= rows_from_roles(sorted_earned_roles@)) by {
            assert forall|x: int| 0 <= x < sorted_earned_roles@.len() implies store.earned_roles@[x]
                == rows_from_roles(sorted_earned_roles@)[x] by {
                if x < pos {
                    assert(sorted_earned_roles@[x] == roles0[x]);
                    assert(store.earned_roles@[x] == rows0[x]);
                } else if x == pos {
                    assert(sorted_earned_roles@[x] == t);
                    assert(store.earned_roles@[x] == row);
                } else {
                    assert(sorted_earned_roles@[x] == roles0[x - 1]);
                    assert(store.earned_roles@[x] == rows0[x - 1]);
                }
            }
        }
    }
    let ghost new_roles = sorted_earned_roles@;
    let mut acts: Vec<RoleAction> = Vec::new();
    let mut k2: usize = 0;
    while k2 < n_users
        invariant
            n_users == users@.len(),
            n_users == users0.len(),
            k2 <= n_users,
            pos <= n0,
            n0 == roles0.len(),
            sorted_earned_roles@ == new_roles,
            new_roles == roles0.insert(pos as int, t),
            new_roles.len() == n0 + 1,
            t == (EarnedRole { role_id, exp_needed }),
            forall|j: int| k2 <= j < n_users ==> #[trigger] users@[j] == users0[j],
            forall|j: int|
                0 <= j < n_users ==> match #[trigger] users0[j].earned_role_idx {
                    Some(i) => i < n0,
                    None => true,
                },
            forall|j: int|
                0 <= j < k2 ==> #[trigger] users@[j] == member_after_insert(
                    users0[j],
                    pos as int,
                    t,
                    roles0,
                ),
            acts@ == insert_actions(users0.take(k2 as int), pos as int, t, roles0),
        decreases n_users - k2,
    {
        let m = users[k2];
        let nn = sorted_earned_roles.len();
        proof {
            assert(m == users0[k2 as int]);
            assert(nn == n0 + 1);
            roles0.insert_ensures(pos as int, t);
        }
        let mut new_m = m;
        match m.earned_role_idx {
            Some(i) => {
                if i >= pos {
                    new_m.earned_role_idx = Some(i + 1);
                } else if i + 1 == pos {
                    if m.exp.0 >= exp_needed.0 {
                        acts.push(
                            RoleAction::Revoke {
                                discord_id: m.discord_id,
                                role_id: sorted_earned_roles[pos - 1].role_id,
                            },
                        );
                        acts.push(RoleAction::Grant { discord_id: m.discord_id, role_id });
                        new_m.earned_role_idx = Some(pos);
                        new_m.nxt_exp_milestone = if pos + 1 < nn {
                            Some(sorted_earned_roles[pos + 1].exp_needed)
                        } else {
                            None
                        };
                    } else {
                        new_m.nxt_exp_milestone = Some(exp_needed);
                    }
                }
            },
            None => {
                if pos == 0 {
                    let promoted = if n0 == 0 {
                        m.exp.0 > exp_needed.0
                    } else {
                        m.exp.0 >= exp_needed.0
                    };
                    if promoted {
                        acts.push(RoleAction::Grant { discord_id: m.discord_id, role_id });
                        new_m.earned_role_idx = Some(0);
                        new_m.nxt_exp_milestone = if 1 < nn {
                            Some(sorted_earned_roles[1].exp_needed)
                        } else {
                            None
                        };
                    } else {
                        new_m.nxt_exp_milestone = Some(exp_needed);
                    }
                }
            },
        }
        let row_ref = &mut users[k2];
        *row_ref = new_m;
        k2 = k2 + 1;
        proof {
            assert(users@[k2 - 1] == member_after_insert(users0[k2 - 1], pos as int, t, roles0));
            assert(users0.take(k2 as int).drop_last() =~= users0.take(k2 - 1));
            assert(users0.take(k2 as int).last() == users0[k2 - 1]);
            assert(acts@ =~= insert_actions(users0.take(k2 as int), pos as int, t, roles0));
        }
    }
    proof {
        assert(users0.take(n_users as int) =~= users0);
    }
    Ok(acts)
}

/// The sum of a sequence of score deltas.
pub open spec fn sum_of(deltas: Seq<i64>) -> int
    decreases deltas.len(),
{
    if deltas.len() == 0 {
        0
    } else {
        sum_of(deltas.drop_last()) + deltas.last()
    }
}

/// Law: the durable score is the sum of the deltas. `exps` is the chain of
/// durable scores one member's row goes through under successive upserts:
/// it starts at zero (the row is created by the first event, with the
/// delta itself as its score) and each upsert adds its delta, which is
/// exactly what `Store::add_signed_exp` ensures. The final score is then
/// the sum of all deltas applied.
pub proof fn lemma_durable_score_is_sum_of_deltas(deltas: Seq<i64>, exps: Seq<int>)
    requires
        exps.len() == deltas.len() + 1,
        exps[0] == 0,
        forall|n: int| 0 <= n < deltas.len() ==> exps[n + 1] == exps[n] + #[trigger] deltas[n],
    ensures
        exps.last() == sum_of(deltas),
    decreases deltas.len(),
{
    if deltas.len() > 0 {
        lemma_durable_score_is_sum_of_deltas(deltas.drop_last(), exps.drop_last());
    }
}

/// Law: one scoring event keeps the cached rank at the binary-search
/// answer. When a member's rank and milestone agree with the ladder and
/// the delta neither lifts the score past the tier after the next one nor
/// drops it below the current tier's threshold, the score update followed
/// by the at-most-one tier advance leaves the member agreeing with the
/// ladder again: the rank is the highest tier whose threshold the new
/// score reaches, which is what the binary search returns.
///
/// A delta large enough to skip a tier, or negative enough to fall below
/// the current tier, leaves the rank behind by design: the engine advances
/// at most one tier per event and never demotes.
pub proof fn lemma_scoring_event_keeps_rank_exact(
    m: ServerMember,
    delta: i64,
    roles: Seq<EarnedRole>,
)
    requires
        roles.len() <= usize::MAX,
        crate::app_state::tiers_sorted(roles),
        crate::app_state::member_wf(m, roles),
        0 <= m.exp.0 + delta <= i64::MAX,
        next_tier_idx(m.earned_role_idx) + 1 < roles.len() ==> m.exp.0 + delta < roles[
            next_tier_idx(m.earned_role_idx) + 1].exp_needed.0,
        m.earned_role_idx matches Some(i) ==> m.exp.0 + delta >= roles[i as int].exp_needed.0,
    ensures
        ({
            let m1 = exp_updated(m, delta);
            let m2 = if transition_fires(m1) {
                advanced_member(m1, roles)
            } else {
                m1
            };
            crate::app_state::member_wf(m2, roles)
        }),
{
    let m1 = exp_updated(m, delta);
    assert(m1.exp.0 == m.exp.0 + delta);
    assert(m1.nxt_exp_milestone == milestone_for(roles, m.earned_role_idx));
    if transition_fires(m1) {
        let next = next_tier_idx(m.earned_role_idx);
        assert(m1.nxt_exp_milestone is Some);
        assert(next < roles.len());
        assert(m1.nxt_exp_milestone == Some(roles[next].exp_needed));
        let m2 = advanced_member(m1, roles);
        assert((next as usize) as int == next);
        assert(m2.earned_role_idx == Some(next as usize));
        assert(roles[next].exp_needed.0 <= m1.exp.0);
        assert(next + 1 < roles.len() ==> m1.exp.0 < roles[next + 1].exp_needed.0);
        assert(crate::app_state::rank_ok(roles, m2.exp.0, m2.earned_role_idx));
        assert(m2.nxt_exp_milestone == milestone_for(roles, m2.earned_role_idx));
    }
}

/// Law: a tier inserted above every existing threshold re-evaluates only
/// the members previously at the old top tier. Everyone else keeps rank,
/// milestone and roles untouched.
pub proof fn lemma_insert_at_top_touches_only_top(
    m: ServerMember,
    new_tier: EarnedRole,
    old_roles: Seq<EarnedRole>,
)
    requires
        old_roles.len() >= 1,
        match m.earned_role_idx {
            Some(i) => i < old_roles.len(),
            None => true,
        },
        m.earned_role_idx != Some((old_roles.len() - 1) as usize),
    ensures
        member_after_insert(m, old_roles.len() as int, new_tier, old_roles) == m,
        insert_actions_for(m, old_roles.len() as int, new_tier, old_roles)
            == Seq::<RoleAction>::empty(),
{
}

/// Law: a tier inserted below every existing threshold shifts every ranked
/// member's rank index by one, with milestone and roles untouched; only
/// members below every old tier can be newly promoted.
pub proof fn lemma_insert_at_bottom_only_shifts_ranked(
    m: ServerMember,
    new_tier: EarnedRole,
    old_roles: Seq<EarnedRole>,
)
    requires
        m.earned_role_idx matches Some(i) && i < old_roles.len(),
    ensures
        ({
            let i = m.earned_role_idx.unwrap();
            member_after_insert(m, 0, new_tier, old_roles) == (ServerMember {
                earned_role_idx: Some((i + 1) as usize),
                ..m
            })
        }),
        insert_actions_for(m, 0, new_tier, old_roles) == Seq::<RoleAction>::empty(),
{
}

/// Law: a tier insertion is observed consistently. A member whose rank and
/// milestone agree with the ladder agrees with the grown ladder again after
/// the re-derivation, whatever the insertion position.
///
/// The one exception is a first tier whose threshold equals a member's
/// score exactly: into an empty ladder only strictly greater scores are
/// promoted, so that member is left below the tier their score has already
/// reached; the premises leave that score out.
pub proof fn lemma_insertion_keeps_members_consistent(
    m: ServerMember,
    pos: int,
    new_tier: EarnedRole,
    old_roles: Seq<EarnedRole>,
)
    requires
        old_roles.len() < usize::MAX,
        tiers_sorted(old_roles),
        crate::app_state::member_wf(m, old_roles),
        0 <= pos <= old_roles.len(),
        forall|k: int| 0 <= k < pos ==> #[trigger] old_roles[k].exp_needed.0 < new_tier.exp_needed.0,
        forall|k: int|
            pos <= k < old_roles.len() ==> #[trigger] old_roles[k].exp_needed.0
                > new_tier.exp_needed.0,
        old_roles.len() == 0 ==> m.exp.0 != new_tier.exp_needed.0,
    ensures
        crate::app_state::member_wf(
            member_after_insert(m, pos, new_tier, old_roles),
            old_roles.insert(pos, new_tier),
        ),
{
    let new_roles = old_roles.insert(pos, new_tier);
    old_roles.insert_ensures(pos, new_tier);
    let m2 = member_after_insert(m, pos, new_tier, old_roles);
    match m.earned_role_idx {
        Some(i) => {
            if i >= pos {
                assert(m2.earned_role_idx == Some(((i + 1) as int) as usize));
                assert(new_roles[i + 1] == old_roles[i as int]);
                assert(i + 2 < new_roles.len() ==> new_roles[i + 2] == old_roles[i + 1]);
                assert(crate::app_state::rank_ok(new_roles, m2.exp.0, m2.earned_role_idx));
                assert(m2.nxt_exp_milestone == crate::app_state::milestone_for(
                    new_roles,
                    m2.earned_role_idx,
                ));
            } else if i == pos - 1 {
                assert(new_roles[pos - 1] == old_roles[pos - 1]);
                assert(new_roles[pos] == new_tier);
                if m.exp.0 >= new_tier.exp_needed.0 {
                    assert(pos + 1 < new_roles.len() ==> new_roles[pos + 1] == old_roles[pos]);
                    assert(pos < old_roles.len() ==> m.exp.0 < old_roles[pos].exp_needed.0);
                    assert(crate::app_state::rank_ok(new_roles, m2.exp.0, m2.earned_role_idx));
                } else {
                    assert(crate::app_state::rank_ok(new_roles, m2.exp.0, m2.earned_role_idx));
                    assert(m2.nxt_exp_milestone == Some(new_roles[pos].exp_needed));
                }
            } else {
                assert(new_roles[i as int] == old_roles[i as int]);
                assert(new_roles[i + 1] == old_roles[i + 1]);
                assert(crate::app_state::rank_ok(new_roles, m2.exp.0, m2.earned_role_idx));
            }
        },
        None => {
            if pos == 0 {
                assert(new_roles[0] == new_tier);
                if promotes_from_none(old_roles.len() as int, m.exp.0, new_tier.exp_needed.0) {
                    assert(1 < new_roles.len() ==> new_roles[1] == old_roles[0]);
                    assert(old_roles.len() > 0 ==> m.exp.0 < old_roles[0].exp_needed.0);
                    assert(crate::app_state::rank_ok(new_roles, m2.exp.0, m2.earned_role_idx));
                } else {
                    assert(old_roles.len() == 0 ==> m.exp.0 < new_tier.exp_needed.0);
                    assert(crate::app_state::rank_ok(new_roles, m2.exp.0, m2.earned_role_idx));
                    assert(m2.nxt_exp_milestone == Some(new_roles[0].exp_needed));
                }
            } else {
                assert(new_roles[0] == old_roles[0]);
                assert(crate::app_state::rank_ok(new_roles, m2.exp.0, m2.earned_role_idx));
            }
        },
    }
}

} // verus!
