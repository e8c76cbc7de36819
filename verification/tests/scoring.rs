use roster_ranks::app_state::{AppState, ServerMember};
use roster_ranks::dao;
use roster_ranks::errors::SyncError;
use roster_ranks::exp::Exp;
use roster_ranks::prompts::ReqdPrompts;
use roster_ranks::store::Store;
use roster_ranks::sync::{add_signed_exp, RoleAction};

fn store_with(users: Vec<dao::User>, roles: Vec<(i64, i64)>) -> Store {
    Store {
        users,
        earned_roles: roles
            .into_iter()
            .map(|(role_id, exp_needed)| dao::EarnedRole { role_id, exp_needed })
            .collect(),
    }
}

#[test]
fn exp_converts_between_representations() {
    assert_eq!(Exp::from_i64(0).0, 0);
    assert_eq!(Exp::from_i64(i64::MAX).0, i64::MAX as u64);
    assert_eq!(Exp(42).to_i64(), 42);
}

#[test]
fn durable_score_is_sum_of_deltas() {
    // The first event creates the row; every later one adds its delta.
    let mut store = store_with(Vec::new(), Vec::new());
    assert_eq!(store.add_signed_exp(9, 5), Exp(5));
    assert_eq!(store.add_signed_exp(9, 7), Exp(12));
    assert_eq!(store.add_signed_exp(9, -2), Exp(10));
    assert_eq!(store.users, vec![dao::User { discord_id: 9, exp: 10, on_server: true }]);
}

#[test]
fn scoring_walks_the_ladder_one_tier_per_event() {
    // tiers = [(roleA,100), (roleB,200)]; member score 0:
    // rank None, next_threshold Some(100);
    // +150 -> rank Some(0), roleA granted, next Some(200);
    // +100 -> rank Some(1), roleA revoked, roleB granted, next None.
    let mut store = store_with(
        vec![dao::User { discord_id: 7, exp: 0, on_server: true }],
        vec![(111, 100), (222, 200)],
    );
    let mut state = AppState::new(&mut store, vec![7]).ok().unwrap();
    assert_eq!(state.users.len(), 1);
    assert_eq!(state.users[0].earned_role_idx, None);
    assert_eq!(state.users[0].nxt_exp_milestone, Some(Exp(100)));

    let first = add_signed_exp(&mut store, &mut state, 7, 150).unwrap();
    assert_eq!(first.db_exp, Exp(150));
    assert_eq!(first.in_cache_exp, Exp(150));
    assert!(first.found_in_cache);
    assert!(!first.diverged());
    assert_eq!(
        first.actions,
        vec![RoleAction::Grant { discord_id: 7, role_id: 111 }]
    );
    assert_eq!(state.users[0].earned_role_idx, Some(0));
    assert_eq!(state.users[0].nxt_exp_milestone, Some(Exp(200)));

    let second = add_signed_exp(&mut store, &mut state, 7, 100).unwrap();
    assert_eq!(second.db_exp, Exp(250));
    assert_eq!(
        second.actions,
        vec![
            RoleAction::Revoke { discord_id: 7, role_id: 111 },
            RoleAction::Grant { discord_id: 7, role_id: 222 },
        ]
    );
    assert_eq!(state.users[0].earned_role_idx, Some(1));
    assert_eq!(state.users[0].nxt_exp_milestone, None);
}

#[test]
fn scoring_a_member_missing_from_the_cache_still_writes_durably() {
    let mut store = store_with(Vec::new(), Vec::new());
    let mut state = AppState {
        users: Vec::new(),
        reqd_prompts: ReqdPrompts::default(),
        sorted_earned_roles: Vec::new(),
    };
    let outcome = add_signed_exp(&mut store, &mut state, 4, 6).unwrap();
    assert!(!outcome.found_in_cache);
    assert_eq!(outcome.db_exp, Exp(6));
    assert_eq!(outcome.in_cache_exp, Exp(6));
    assert!(outcome.actions.is_empty());
    assert_eq!(store.users.len(), 1);
    assert!(state.users.is_empty());
}

#[test]
fn divergence_between_cache_and_storage_is_reported() {
    // Durable score 10, cached score 5: after one event the two disagree,
    // and the outcome says so; nothing repairs it.
    let mut store = store_with(
        vec![dao::User { discord_id: 2, exp: 10, on_server: true }],
        Vec::new(),
    );
    let mut state = AppState {
        users: vec![ServerMember {
            discord_id: 2,
            exp: Exp(5),
            earned_role_idx: None,
            nxt_exp_milestone: None,
        }],
        reqd_prompts: ReqdPrompts::default(),
        sorted_earned_roles: Vec::new(),
    };
    let outcome = add_signed_exp(&mut store, &mut state, 2, 1).unwrap();
    assert_eq!(outcome.db_exp, Exp(11));
    assert_eq!(outcome.in_cache_exp, Exp(6));
    assert!(outcome.diverged());
    assert_eq!(store.users[0].exp, 11);
    assert_eq!(state.users[0].exp, Exp(6));
}

#[test]
fn scoring_reports_a_rank_past_the_ladder() {
    // A cached rank pointing past the tier list is a checked error, with
    // the score writes already applied and kept.
    let mut store = store_with(Vec::new(), Vec::new());
    let mut state = AppState {
        users: vec![ServerMember {
            discord_id: 3,
            exp: Exp(500),
            earned_role_idx: Some(5),
            nxt_exp_milestone: Some(Exp(10)),
        }],
        reqd_prompts: ReqdPrompts::default(),
        sorted_earned_roles: Vec::new(),
    };
    let res = add_signed_exp(&mut store, &mut state, 3, 1);
    assert!(matches!(res, Err(SyncError::InvariantViolation)));
    assert_eq!(state.users[0].exp, Exp(501));
    assert_eq!(state.users[0].earned_role_idx, Some(5));
    assert_eq!(store.users[0].exp, 1);
}

#[test]
fn startup_load_fails_on_a_rejoining_quitter() {
    let mut store = store_with(
        vec![dao::User { discord_id: 5, exp: 50, on_server: false }],
        Vec::new(),
    );
    let res = AppState::new(&mut store, vec![5]);
    assert!(matches!(res, Err(SyncError::Storage)));
}

#[test]
fn startup_load_of_an_empty_world_is_empty() {
    let mut store = store_with(Vec::new(), Vec::new());
    let state = AppState::new(&mut store, Vec::new()).ok().unwrap();
    assert!(state.users.is_empty());
    assert!(state.sorted_earned_roles.is_empty());
    assert!(state.reqd_prompts.earned_role.is_empty());
}

#[test]
fn newcomer_insert_refuses_duplicates() {
    let mut store = store_with(Vec::new(), Vec::new());
    assert_eq!(store.add_newcomers(&vec![1, 1]), Err(SyncError::Storage));
    assert!(store.users.is_empty());
    assert_eq!(store.add_newcomers(&vec![1, 2]), Ok(()));
    assert_eq!(store.add_newcomers(&vec![2]), Err(SyncError::Storage));
    assert_eq!(store.users.len(), 2);
}

#[test]
fn startup_load_reconciles_and_ranks() {
    let mut store = store_with(
        vec![
            dao::User { discord_id: 1, exp: 150, on_server: true },
            dao::User { discord_id: 2, exp: 50, on_server: true },
            dao::User { discord_id: 9, exp: 10, on_server: true },
        ],
        vec![(111, 100)],
    );
    let state = AppState::new(&mut store, vec![1, 2, 4]).ok().unwrap();
    // the roster holds the live members that had an active row, with their
    // durable scores and derived ranks; the newcomer only gains a fresh
    // durable row, and the quitter is marked inactive.
    assert_eq!(state.users.len(), 2);
    assert_eq!(state.users[0].discord_id, 1);
    assert_eq!(state.users[0].exp, Exp(150));
    assert_eq!(state.users[0].earned_role_idx, Some(0));
    assert_eq!(state.users[0].nxt_exp_milestone, None);
    assert_eq!(state.users[1].discord_id, 2);
    assert_eq!(state.users[1].earned_role_idx, None);
    assert_eq!(state.users[1].nxt_exp_milestone, Some(Exp(100)));
    assert_eq!(
        store.users,
        vec![
            dao::User { discord_id: 1, exp: 150, on_server: true },
            dao::User { discord_id: 2, exp: 50, on_server: true },
            dao::User { discord_id: 9, exp: 10, on_server: false },
            dao::User { discord_id: 4, exp: 0, on_server: true },
        ]
    );
}
