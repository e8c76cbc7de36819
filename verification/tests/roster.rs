use roster_ranks::dao;
use roster_ranks::membership::{Diff, Pairing};
use roster_ranks::removal::remove_sorted_indices;
use roster_ranks::sort::sort_rows_by_id;
use roster_ranks::store::Store;

fn row(discord_id: i64, exp: i64) -> dao::ServerMember {
    dao::ServerMember { discord_id, exp }
}

fn user(discord_id: i64, exp: i64, on_server: bool) -> dao::User {
    dao::User { discord_id, exp, on_server }
}

#[test]
fn diff_classifies_example() {
    // persisted = [1,3,5], live = [3,4]:
    // matched = {3}, quitters = {1,5}, newcomers = {4}
    let persisted = vec![row(1, 10), row(3, 30), row(5, 50)];
    let live = vec![3, 4];
    let diff = Diff::new(persisted, live);
    assert_eq!(
        diff.pairings,
        vec![
            Pairing::Quitter { db_idx: 0 },
            Pairing::Matched { db_idx: 1, fetched_idx: 0 },
            Pairing::Newcomer { fetched_idx: 1 },
            Pairing::Quitter { db_idx: 2 },
        ]
    );
    let (quitters, quitter_positions, newcomers) = diff.quitters_and_newcomers();
    assert_eq!(quitters, vec![1, 5]);
    assert_eq!(quitter_positions, vec![0, 2]);
    assert_eq!(newcomers, vec![4]);
}

#[test]
fn diff_sorts_persisted_input() {
    let persisted = vec![row(5, 50), row(1, 10), row(3, 30)];
    let diff = Diff::new(persisted, vec![1, 3, 5]);
    assert_eq!(diff.db_info, vec![row(1, 10), row(3, 30), row(5, 50)]);
    assert!(diff
        .pairings
        .iter()
        .all(|p| matches!(p, Pairing::Matched { .. })));
}

#[test]
fn diff_of_empty_persisted_is_all_newcomers() {
    let diff = Diff::new(Vec::new(), vec![2, 9]);
    let (quitters, positions, newcomers) = diff.quitters_and_newcomers();
    assert!(quitters.is_empty());
    assert!(positions.is_empty());
    assert_eq!(newcomers, vec![2, 9]);
}

#[test]
fn diff_of_empty_live_is_all_quitters() {
    let diff = Diff::new(vec![row(4, 0), row(8, 1)], Vec::new());
    let (quitters, positions, newcomers) = diff.quitters_and_newcomers();
    assert_eq!(quitters, vec![4, 8]);
    assert_eq!(positions, vec![0, 1]);
    assert!(newcomers.is_empty());
}

#[test]
fn sync_marks_quitters_and_inserts_newcomers() {
    let mut store = Store {
        users: vec![user(1, 10, true), user(3, 30, true), user(5, 50, true)],
        earned_roles: Vec::new(),
    };
    let diff = Diff::new(store.server_members(), vec![3, 4]);
    let survivors = diff.sync_and_distill(&mut store).unwrap();
    assert_eq!(survivors, vec![row(3, 30)]);
    assert_eq!(
        store.users,
        vec![
            user(1, 10, false),
            user(3, 30, true),
            user(5, 50, false),
            user(4, 0, true),
        ]
    );
}

#[test]
fn sync_refuses_a_rejoining_quitter() {
    // member 5 quit earlier (inactive row) and shows up live again: the
    // newcomer insert hits the existing durable row and fails.
    let mut store = Store {
        users: vec![user(5, 50, false)],
        earned_roles: Vec::new(),
    };
    let diff = Diff::new(store.server_members(), vec![5]);
    let res = diff.sync_and_distill(&mut store);
    assert_eq!(res, Err(roster_ranks::errors::SyncError::Storage));
}

#[test]
fn second_sync_is_quiet() {
    // Reconciling twice with unchanged inputs: the second diff produces no
    // quitter and no newcomer writes.
    let mut store = Store {
        users: vec![user(1, 10, true), user(3, 30, true)],
        earned_roles: Vec::new(),
    };
    let live = vec![3, 4];
    let diff = Diff::new(store.server_members(), live.clone());
    diff.sync_and_distill(&mut store).unwrap();

    let users_before = store.users.clone();
    let second = Diff::new(store.server_members(), live);
    let (quitters, positions, newcomers) = second.quitters_and_newcomers();
    assert!(quitters.is_empty());
    assert!(positions.is_empty());
    assert!(newcomers.is_empty());
    second.sync_and_distill(&mut store).unwrap();
    assert_eq!(store.users, users_before);
}

#[test]
fn removal_by_sorted_positions_is_a_stable_filter() {
    let v = vec![10i64, 20, 30, 40, 50];
    let kept = remove_sorted_indices(&v, &vec![1usize, 3]);
    assert_eq!(kept, vec![10, 30, 50]);
}

#[test]
fn removal_with_no_positions_keeps_everything() {
    let v = vec![7i64, 8];
    assert_eq!(remove_sorted_indices(&v, &Vec::new()), vec![7, 8]);
}

#[test]
fn removal_of_every_position_empties_the_list() {
    let v = vec![7i64, 8];
    assert_eq!(remove_sorted_indices(&v, &vec![0usize, 1]), Vec::<i64>::new());
}

#[test]
fn sort_orders_rows_by_id() {
    let rows = vec![row(3, 33), row(1, 11), row(2, 22)];
    assert_eq!(
        sort_rows_by_id(rows),
        vec![row(1, 11), row(2, 22), row(3, 33)]
    );
}
