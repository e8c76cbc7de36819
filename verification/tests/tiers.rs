use roster_ranks::app_state::{rank_of, AppState, EarnedRole, ServerMember};
use roster_ranks::dao;
use roster_ranks::errors::SyncError;
use roster_ranks::exp::Exp;
use roster_ranks::prompts::ReqdPrompts;
use roster_ranks::store::Store;
use roster_ranks::sync::{add_earned_role, RoleAction};

fn tier(role_id: i64, threshold: u64) -> EarnedRole {
    EarnedRole { role_id, exp_needed: Exp(threshold) }
}

fn member(
    discord_id: i64,
    exp: u64,
    earned_role_idx: Option<usize>,
    nxt_exp_milestone: Option<u64>,
) -> ServerMember {
    ServerMember {
        discord_id,
        exp: Exp(exp),
        earned_role_idx,
        nxt_exp_milestone: nxt_exp_milestone.map(Exp),
    }
}

fn state_with(users: Vec<ServerMember>, roles: Vec<EarnedRole>) -> (Store, AppState) {
    let store = Store {
        users: users
            .iter()
            .map(|m| dao::User { discord_id: m.discord_id, exp: m.exp.0 as i64, on_server: true })
            .collect(),
        earned_roles: roles
            .iter()
            .map(|r| dao::EarnedRole { role_id: r.role_id, exp_needed: r.exp_needed.0 as i64 })
            .collect(),
    };
    let state = AppState {
        users,
        reqd_prompts: ReqdPrompts::default(),
        sorted_earned_roles: roles,
    };
    (store, state)
}

#[test]
fn rank_lookup_is_highest_tier_at_or_below_score() {
    let ladder = vec![tier(111, 100), tier(222, 200)];
    assert_eq!(rank_of(&ladder, Exp(99)), None);
    assert_eq!(rank_of(&ladder, Exp(100)), Some(0));
    assert_eq!(rank_of(&ladder, Exp(199)), Some(0));
    assert_eq!(rank_of(&ladder, Exp(200)), Some(1));
    assert_eq!(rank_of(&ladder, Exp(100_000)), Some(1));
    assert_eq!(rank_of(&Vec::new(), Exp(7)), None);
}

#[test]
fn member_load_derives_rank_and_milestone() {
    let ladder = vec![tier(111, 100), tier(222, 200)];
    let below = ServerMember::new(dao::ServerMember { discord_id: 1, exp: 0 }, &ladder);
    assert_eq!(below.earned_role_idx, None);
    assert_eq!(below.nxt_exp_milestone, Some(Exp(100)));
    let middle = ServerMember::new(dao::ServerMember { discord_id: 2, exp: 150 }, &ladder);
    assert_eq!(middle.earned_role_idx, Some(0));
    assert_eq!(middle.nxt_exp_milestone, Some(Exp(200)));
    let top = ServerMember::new(dao::ServerMember { discord_id: 3, exp: 200 }, &ladder);
    assert_eq!(top.earned_role_idx, Some(1));
    assert_eq!(top.nxt_exp_milestone, None);
}

#[test]
fn duplicate_threshold_is_refused_and_changes_nothing() {
    let (mut store, mut state) = state_with(Vec::new(), vec![tier(111, 100), tier(222, 200)]);
    let roles_before = state.sorted_earned_roles.clone();
    let store_roles_before = store.earned_roles.clone();
    let res = add_earned_role(
        &mut store,
        &mut state.sorted_earned_roles,
        &mut state.users,
        999,
        Exp(200),
    );
    assert!(matches!(res, Err(SyncError::DuplicateThreshold)));
    assert_eq!(state.sorted_earned_roles, roles_before);
    assert_eq!(store.earned_roles, store_roles_before);
}

#[test]
fn insertion_keeps_the_ladder_ascending() {
    let (mut store, mut state) = state_with(Vec::new(), vec![tier(111, 100), tier(333, 300)]);
    add_earned_role(
        &mut store,
        &mut state.sorted_earned_roles,
        &mut state.users,
        222,
        Exp(200),
    )
    .unwrap();
    assert_eq!(
        state.sorted_earned_roles,
        vec![tier(111, 100), tier(222, 200), tier(333, 300)]
    );
    assert_eq!(
        store.earned_roles,
        vec![
            dao::EarnedRole { role_id: 111, exp_needed: 100 },
            dao::EarnedRole { role_id: 222, exp_needed: 200 },
            dao::EarnedRole { role_id: 333, exp_needed: 300 },
        ]
    );
}

#[test]
fn first_tier_of_an_empty_ladder_promotes_strictly_above() {
    // Into an empty ladder: strictly greater scores are promoted, a score
    // equal to the threshold is not.
    let users = vec![
        member(1, 150, None, None),
        member(2, 100, None, None),
        member(3, 50, None, None),
    ];
    let (mut store, mut state) = state_with(users, Vec::new());
    let actions = add_earned_role(
        &mut store,
        &mut state.sorted_earned_roles,
        &mut state.users,
        111,
        Exp(100),
    )
    .unwrap();
    assert_eq!(actions, vec![RoleAction::Grant { discord_id: 1, role_id: 111 }]);
    assert_eq!(state.users[0], member(1, 150, Some(0), None));
    assert_eq!(state.users[1], member(2, 100, None, Some(100)));
    assert_eq!(state.users[2], member(3, 50, None, Some(100)));
}

#[test]
fn top_insertion_reevaluates_only_the_old_top_tier() {
    let users = vec![
        member(1, 50, None, Some(100)),
        member(2, 150, Some(0), Some(200)),
        member(3, 250, Some(1), None),
        member(4, 350, Some(1), None),
    ];
    let (mut store, mut state) =
        state_with(users, vec![tier(111, 100), tier(222, 200)]);
    let actions = add_earned_role(
        &mut store,
        &mut state.sorted_earned_roles,
        &mut state.users,
        333,
        Exp(300),
    )
    .unwrap();
    // members 1 and 2 are untouched; member 3 (old top, below the new
    // threshold) just watches the new milestone; member 4 is promoted.
    assert_eq!(state.users[0], member(1, 50, None, Some(100)));
    assert_eq!(state.users[1], member(2, 150, Some(0), Some(200)));
    assert_eq!(state.users[2], member(3, 250, Some(1), Some(300)));
    assert_eq!(state.users[3], member(4, 350, Some(2), None));
    assert_eq!(
        actions,
        vec![
            RoleAction::Revoke { discord_id: 4, role_id: 222 },
            RoleAction::Grant { discord_id: 4, role_id: 333 },
        ]
    );
}

#[test]
fn bottom_insertion_shifts_every_ranked_member() {
    let users = vec![
        member(1, 50, None, Some(100)),
        member(2, 150, Some(0), Some(200)),
        member(3, 250, Some(1), None),
        member(4, 5, None, Some(100)),
    ];
    let (mut store, mut state) =
        state_with(users, vec![tier(111, 100), tier(222, 200)]);
    let actions = add_earned_role(
        &mut store,
        &mut state.sorted_earned_roles,
        &mut state.users,
        444,
        Exp(10),
    )
    .unwrap();
    // ranked members shift by one and keep their roles; the below-all
    // member at or above the new threshold is promoted into it.
    assert_eq!(state.users[0], member(1, 50, Some(0), Some(100)));
    assert_eq!(state.users[1], member(2, 150, Some(1), Some(200)));
    assert_eq!(state.users[2], member(3, 250, Some(2), None));
    assert_eq!(state.users[3], member(4, 5, None, Some(10)));
    assert_eq!(actions, vec![RoleAction::Grant { discord_id: 1, role_id: 444 }]);
}

#[test]
fn middle_insertion_splits_the_tier_below() {
    let users = vec![
        member(1, 150, Some(0), Some(200)),
        member(2, 120, Some(0), Some(200)),
        member(3, 250, Some(1), None),
    ];
    let (mut store, mut state) =
        state_with(users, vec![tier(111, 100), tier(222, 200)]);
    let actions = add_earned_role(
        &mut store,
        &mut state.sorted_earned_roles,
        &mut state.users,
        555,
        Exp(150),
    )
    .unwrap();
    // member 1 reaches the new threshold and is promoted into the new
    // tier; member 2 stays below it; member 3's rank index only shifts.
    assert_eq!(state.users[0], member(1, 150, Some(1), Some(200)));
    assert_eq!(state.users[1], member(2, 120, Some(0), Some(150)));
    assert_eq!(state.users[2], member(3, 250, Some(2), None));
    assert_eq!(
        actions,
        vec![
            RoleAction::Revoke { discord_id: 1, role_id: 111 },
            RoleAction::Grant { discord_id: 1, role_id: 555 },
        ]
    );
}

#[test]
fn insertion_reports_a_rank_past_the_ladder() {
    let users = vec![member(1, 50, Some(9), None)];
    let (mut store, mut state) = state_with(users.clone(), vec![tier(111, 100)]);
    let res = add_earned_role(
        &mut store,
        &mut state.sorted_earned_roles,
        &mut state.users,
        777,
        Exp(50),
    );
    assert!(matches!(res, Err(SyncError::InvariantViolation)));
    assert_eq!(state.sorted_earned_roles, vec![tier(111, 100)]);
    assert_eq!(state.users, users);
}
