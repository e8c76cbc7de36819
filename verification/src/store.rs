use vstd::prelude::*;

use crate::dao;
use crate::errors::SyncError;
use crate::exp::Exp;

verus! {

/// No two user rows share an identifier (the durable primary key).
pub open spec fn users_unique(users: Seq<dao::User>) -> bool {
    forall|k1: int, k2: int|
        0 <= k1 < users.len() && 0 <= k2 < users.len() && k1 != k2 ==> users[k1].discord_id
            != users[k2].discord_id
}

/// Tier rows are strictly ascending by threshold.
pub open spec fn roles_sorted(roles: Seq<dao::EarnedRole>) -> bool {
    forall|k1: int, k2: int|
        0 <= k1 < k2 < roles.len() ==> roles[k1].exp_needed < roles[k2].exp_needed
}

/// Some user row carries this identifier.
pub open spec fn has_user(users: Seq<dao::User>, id: i64) -> bool {
    exists|k: int| 0 <= k < users.len() && #[trigger] users[k].discord_id == id
}

/// The position of the user row with this identifier (unique under
/// `users_unique`).
pub open spec fn user_index(users: Seq<dao::User>, id: i64) -> int {
    choose|k: int| 0 <= k < users.len() && #[trigger] users[k].discord_id == id
}

/// The durable score of the user row with this identifier.
pub open spec fn user_exp(users: Seq<dao::User>, id: i64) -> int {
    users[user_index(users, id)].exp as int
}

/// The active rows projected to what the roster logic reads, in row order.
pub open spec fn active_members(users: Seq<dao::User>) -> Seq<dao::ServerMember>
    decreases users.len(),
{
    if users.len() == 0 {
        Seq::empty()
    } else {
        let rest = active_members(users.drop_last());
        if users.last().on_server {
            rest.push(
                dao::ServerMember {
                    discord_id: users.last().discord_id,
                    exp: users.last().exp,
                },
            )
        } else {
            rest
        }
    }
}

/// Some tier row carries this threshold.
pub open spec fn has_threshold(roles: Seq<dao::EarnedRole>, exp_needed: i64) -> bool {
    exists|k: int| 0 <= k < roles.len() && #[trigger] roles[k].exp_needed == exp_needed
}

/// The fresh rows a newcomer batch inserts: zero score, active.
pub open spec fn newcomer_rows(ids: Seq<i64>) -> Seq<dao::User> {
    ids.map_values(|id: i64| dao::User { discord_id: id, exp: 0, on_server: true })
}

/// An in-memory model of the durable store: one table of member rows keyed
/// by identifier, one table of rank tiers kept ordered by threshold.
///
/// Callers that persist to a real database perform the same operations
/// there; the contracts here state what each operation leaves behind.
pub struct Store {
    pub users: Vec<dao::User>,
    pub earned_roles: Vec<dao::EarnedRole>,
}

impl Store {
    /// The store's invariant: identifiers are unique and tiers are strictly
    /// ordered by threshold.
    pub open spec fn wf(self) -> bool {
        &&& users_unique(self.users@)
        &&& roles_sorted(self.earned_roles@)
    }

    /// An empty store.
    pub fn new() -> (s: Store)
        ensures
            s.wf(),
            s.users@.len() == 0,
            s.earned_roles@.len() == 0,
    {
        Store { users: Vec::new(), earned_roles: Vec::new() }
    }

    /// Atomically adds `delta` to the member's durable score, creating the
    /// row with `exp = delta` when absent, and returns the new durable
    /// score.
    pub fn add_signed_exp(&mut self, discord_id: i64, delta: i64) -> (r: Exp)
        requires
            old(self).wf(),
            has_user(old(self).users@, discord_id) ==> 0 <= user_exp(old(self).users@, discord_id)
                + delta <= i64::MAX,
            !has_user(old(self).users@, discord_id) ==> 0 <= delta,
        ensures
            final(self).wf(),
            final(self).earned_roles@ == old(self).earned_roles@,
            has_user(old(self).users@, discord_id) ==> {
                let idx = user_index(old(self).users@, discord_id);
                &&& final(self).users@ == old(self).users@.update(
                    idx,
                    dao::User {
                        exp: (old(self).users@[idx].exp + delta) as i64,
                        ..old(self).users@[idx]
                    },
                )
                &&& r.0 == user_exp(old(self).users@, discord_id) + delta
            },
            !has_user(old(self).users@, discord_id) ==> {
                &&& final(self).users@ == old(self).users@.push(
                    dao::User { discord_id, exp: delta, on_server: true },
                )
                &&& r.0 == delta
            },
    {
        let ghost users0 = self.users@;
        let ghost roles0 = self.earned_roles@;
        let n = self.users.len();
        let mut i: usize = 0;
        while i < n
            invariant
                n == self.users@.len(),
                i <= n,
                users0 == old(self).users@,
                roles0 == old(self).earned_roles@,
                self.users@ == users0,
                self.earned_roles@ == roles0,
                old(self).wf(),
                users_unique(users0),
                has_user(users0, discord_id) ==> 0 <= user_exp(users0, discord_id) + delta
                    <= i64::MAX,
                forall|k: int| 0 <= k < i ==> #[trigger] users0[k].discord_id != discord_id,
            decreases n - i,
        {
            if self.users[i].discord_id == discord_id {
                proof {
                    assert(users0[i as int].discord_id == discord_id);
                    assert(has_user(users0, discord_id));
                    let k = user_index(users0, discord_id);
                    assert(0 <= k < users0.len() && users0[k].discord_id == discord_id);
                    if k != i {
                        assert(users0[k].discord_id != users0[i as int].discord_id);
                        assert(false);
                    }
                    assert(user_index(users0, discord_id) == i);
                    assert(user_exp(users0, discord_id) == users0[i as int].exp);
                }
                let old_exp = self.users[i].exp;
                let new_exp = old_exp + delta;
                let row = &mut self.users[i];
                row.exp = new_exp;
                proof {
                    assert(self.users@ =~= users0.update(
                        i as int,
                        dao::User { exp: new_exp, ..users0[i as int] },
                    ));
                    assert(users_unique(self.users@)) by {
                        assert(forall|k: int|
                            0 <= k < users0.len() ==> #[trigger] self.users@[k].discord_id
                                == users0[k].discord_id);
                    }
                }
                return Exp::from_i64(new_exp);
            }
            i = i + 1;
        }
        proof {
            if has_user(users0, discord_id) {
                let k = choose|k: int|
                    0 <= k < users0.len() && #[trigger] users0[k].discord_id == discord_id;
                assert(false);
            }
        }
        self.users.push(dao::User { discord_id, exp: delta, on_server: true });
        proof {
            assert(users_unique(self.users@)) by {
                assert(forall|k: int|
                    0 <= k < users0.len() ==> self.users@[k] == #[trigger] users0[k]);
                assert(self.users@[users0.len() as int].discord_id == discord_id);
                assert(forall|k: int|
                    0 <= k < users0.len() ==> #[trigger] users0[k].discord_id != discord_id);
            }
        }
        Exp::from_i64(delta)
    }

    /// The active roster rows, as the reconciliation logic reads them.
    pub fn server_members(&self) -> (r: Vec<dao::ServerMember>)
        ensures
            r@ == active_members(self.users@),
    {
        let mut out: Vec<dao::ServerMember> = Vec::new();
        let mut k: usize = 0;
        while k < self.users.len()
            invariant
                k <= self.users@.len(),
                out@ == active_members(self.users@.take(k as int)),
            decreases self.users@.len() - k,
        {
            let u = self.users[k];
            if u.on_server {
                out.push(dao::ServerMember { discord_id: u.discord_id, exp: u.exp });
            }
            k = k + 1;
            proof {
                let pre = self.users@.take(k - 1);
                let cur = self.users@.take(k as int);
                assert(cur.drop_last() =~= pre);
                assert(cur.last() == self.users@[k - 1]);
                assert(out@ == active_members(cur));
            }
        }
        proof {
            assert(self.users@.take(self.users@.len() as int) =~= self.users@);
        }
        out
    }

    /// Marks every listed member inactive; a row not listed is untouched,
    /// and an empty batch changes nothing.
    pub fn mark_as_quitters(&mut self, quitters: &Vec<i64>)
        ensures
            final(self).earned_roles@ == old(self).earned_roles@,
            final(self).users@.len() == old(self).users@.len(),
            forall|k: int|
                0 <= k < old(self).users@.len() ==> #[trigger] final(self).users@[k] == (dao::User {
                    on_server: old(self).users@[k].on_server && !quitters@.contains(
                        old(self).users@[k].discord_id,
                    ),
                    ..old(self).users@[k]
                }),
            old(self).wf() ==> final(self).wf(),
    {
        let ghost users0 = self.users@;
        let ghost roles0 = self.earned_roles@;
        let n = self.users.len();
        let mut k: usize = 0;
        while k < n
            invariant
                n == self.users@.len(),
                n == users0.len(),
                k <= n,
                self.earned_roles@ == roles0,
                forall|j: int| k <= j < n ==> #[trigger] self.users@[j] == users0[j],
                forall|j: int|
                    0 <= j < k ==> #[trigger] self.users@[j] == (dao::User {
                        on_server: users0[j].on_server && !quitters@.contains(
                            users0[j].discord_id,
                        ),
                        ..users0[j]
                    }),
            decreases n - k,
        {
            let id = self.users[k].discord_id;
            if contains_i64(quitters, id) {
                let row = &mut self.users[k];
                row.on_server = false;
            }
            k = k + 1;
        }
        proof {
            if users_unique(users0) && roles_sorted(roles0) {
                assert(users_unique(self.users@)) by {
                    assert(forall|j: int|
                        0 <= j < n ==> #[trigger] self.users@[j].discord_id
                            == users0[j].discord_id);
                }
            }
        }
    }

    /// Inserts the listed newcomers as fresh active rows with zero score.
    ///
    /// Fails, changing nothing, when a listed identifier already has a row
    /// (the durable key refuses it) or is listed twice; an empty batch
    /// changes nothing.
    pub fn add_newcomers(&mut self, newcomers: &Vec<i64>) -> (r: Result<(), SyncError>)
        requires
            old(self).wf(),
        ensures
            final(self).wf(),
            final(self).earned_roles@ == old(self).earned_roles@,
            r is Ok <==> (forall|m: int|
                0 <= m < newcomers@.len() ==> !has_user(
                    old(self).users@,
                    #[trigger] newcomers@[m],
                )) && (forall|m1: int, m2: int|
                0 <= m1 < m2 < newcomers@.len() ==> newcomers@[m1] != newcomers@[m2]),
            r is Ok ==> final(self).users@ == old(self).users@ + newcomer_rows(newcomers@),
            r is Err ==> final(self).users@ == old(self).users@ && r == Err::<(), SyncError>(
                SyncError::Storage,
            ),
    {
        let ghost users0 = self.users@;
        let ghost roles0 = self.earned_roles@;
        let n = newcomers.len();
        let mut m: usize = 0;
        while m < n
            invariant
                n == newcomers@.len(),
                m <= n,
                users0 == old(self).users@,
                roles0 == old(self).earned_roles@,
                self.users@ == users0,
                self.earned_roles@ == roles0,
                old(self).wf(),
                users_unique(users0),
                forall|j: int| 0 <= j < m ==> !has_user(users0, #[trigger] newcomers@[j]),
                forall|j1: int, j2: int|
                    0 <= j1 < j2 < m ==> newcomers@[j1] != newcomers@[j2],
            decreases n - m,
        {
            let id = newcomers[m];
            if find_user(&self.users, id) {
                proof {
                    assert(has_user(users0, newcomers@[m as int]));
                }
                return Err(SyncError::Storage);
            }
            let mut j: usize = 0;
            while j < m
                invariant
                    j <= m,
                    m < n,
                    n == newcomers@.len(),
                    users0 == old(self).users@,
                    roles0 == old(self).earned_roles@,
                    self.users@ == users0,
                    self.earned_roles@ == roles0,
                    old(self).wf(),
                    id == newcomers@[m as int],
                    forall|j2: int| 0 <= j2 < j ==> newcomers@[j2] != newcomers@[m as int],
                decreases m - j,
            {
                if newcomers[j] == id {
                    proof {
                        assert(newcomers@[j as int] == newcomers@[m as int]);
                        assert(!(forall|m1: int, m2: int|
                            0 <= m1 < m2 < newcomers@.len() ==> newcomers@[m1]
                                != newcomers@[m2]));
                    }
                    return Err(SyncError::Storage);
                }
                j = j + 1;
            }
            m = m + 1;
        }
        let ghost rows = newcomer_rows(newcomers@);
        let mut m2: usize = 0;
        while m2 < n
            invariant
                n == newcomers@.len(),
                m2 <= n,
                rows == newcomer_rows(newcomers@),
                self.earned_roles@ == roles0,
                self.users@ == users0 + rows.take(m2 as int),
            decreases n - m2,
        {
            self.users.push(dao::User { discord_id: newcomers[m2], exp: 0, on_server: true });
            m2 = m2 + 1;
            proof {
                assert(rows.take(m2 as int).drop_last() =~= rows.take(m2 - 1));
                assert(self.users@ =~= users0 + rows.take(m2 as int));
            }
        }
        proof {
            assert(rows.take(n as int) =~= rows);
            assert(self.users@ == users0 + rows);
            assert(users_unique(self.users@)) by {
                assert forall|k1: int, k2: int|
                    0 <= k1 < self.users@.len() && 0 <= k2 < self.users@.len() && k1 != k2 implies
                    self.users@[k1].discord_id != self.users@[k2].discord_id by {
                    let u0n = users0.len() as int;
                    if k1 < u0n && k2 < u0n {
                        assert(self.users@[k1] == users0[k1]);
                        assert(self.users@[k2] == users0[k2]);
                    } else if k1 >= u0n && k2 >= u0n {
                        assert(self.users@[k1].discord_id == newcomers@[k1 - u0n]);
                        assert(self.users@[k2].discord_id == newcomers@[k2 - u0n]);
                    } else {
                        let ka = if k1 < u0n {
                            k1
                        } else {
                            k2
                        };
                        let kb = if k1 < u0n {
                            k2
                        } else {
                            k1
                        };
                        assert(self.users@[ka] == users0[ka]);
                        assert(self.users@[kb].discord_id == newcomers@[kb - u0n]);
                        assert(!has_user(users0, newcomers@[kb - u0n]));
                        assert(users0[ka].discord_id != newcomers@[kb - u0n]);
                    }
                }
            }
        }
        Ok(())
    }

    /// Persists one new tier row at its ordered position. The caller rules
    /// out duplicate thresholds before persisting.
    pub fn add_earned_role(&mut self, role_id: i64, exp_needed: i64)
        requires
            old(self).wf(),
            !has_threshold(old(self).earned_roles@, exp_needed),
        ensures
            final(self).wf(),
            final(self).users@ == old(self).users@,
            exists|p: int|
                0 <= p <= old(self).earned_roles@.len() && final(self).earned_roles@
                    == #[trigger] old(self).earned_roles@.insert(
                    p,
                    dao::EarnedRole { role_id, exp_needed },
                ) && (forall|k: int|
                    0 <= k < p ==> #[trigger] old(self).earned_roles@[k].exp_needed < exp_needed)
                    && (forall|k: int|
                    p <= k < old(self).earned_roles@.len()
                        ==> #[trigger] old(self).earned_roles@[k].exp_needed > exp_needed),
    {
        let n = self.earned_roles.len();
        let ghost roles0 = self.earned_roles@;
        let ghost users0 = self.users@;
        let mut p: usize = 0;
        while p < n && self.earned_roles[p].exp_needed < exp_needed
            invariant
                n == self.earned_roles@.len(),
                p <= n,
                self.earned_roles@ == roles0,
                self.users@ == users0,
                forall|k: int| 0 <= k < p ==> #[trigger] roles0[k].exp_needed < exp_needed,
            decreases n - p,
        {
            p = p + 1;
        }
        proof {
            assert forall|k: int| p <= k < n implies #[trigger] roles0[k].exp_needed > exp_needed
                by {
                assert(!(roles0[p as int].exp_needed == exp_needed));
                if k > p {
                    assert(roles0[p as int].exp_needed < roles0[k].exp_needed);
                }
            }
        }
        self.earned_roles.insert(p, dao::EarnedRole { role_id, exp_needed });
        proof {
            roles0.insert_ensures(p as int, dao::EarnedRole { role_id, exp_needed });
            assert(roles_sorted(self.earned_roles@)) by {
                assert forall|k1: int, k2: int|
                    0 <= k1 < k2 < self.earned_roles@.len() implies
                    self.earned_roles@[k1].exp_needed < self.earned_roles@[k2].exp_needed by {
                    if k2 > p {
                        assert(self.earned_roles@[k2] == roles0[k2 - 1]);
                    }
                    if k1 > p {
                        assert(self.earned_roles@[k1] == roles0[k1 - 1]);
                    }
                }
            }
        }
    }

    /// The tier rows, ascending by threshold.
    pub fn sorted_earned_roles(&self) -> (r: Vec<dao::EarnedRole>)
        ensures
            r@ == self.earned_roles@,
    {
        let mut out: Vec<dao::EarnedRole> = Vec::new();
        let mut k: usize = 0;
        while k < self.earned_roles.len()
            invariant
                k <= self.earned_roles@.len(),
                out@ == self.earned_roles@.take(k as int),
            decreases self.earned_roles@.len() - k,
        {
            out.push(self.earned_roles[k]);
            k = k + 1;
            proof {
                assert(self.earned_roles@.take(k as int) =~= self.earned_roles@.take(k - 1).push(
                    self.earned_roles@[k - 1],
                ));
            }
        }
        proof {
            assert(self.earned_roles@.take(self.earned_roles@.len() as int) =~= self.earned_roles@);
        }
        out
    }
}

/// Whether the list holds the value; a linear scan.
fn contains_i64(v: &Vec<i64>, x: i64) -> (b: bool)
    ensures
        b == v@.contains(x),
{
    let mut k: usize = 0;
    while k < v.len()
        invariant
            k <= v@.len(),
            forall|j: int| 0 <= j < k ==> v@[j] != x,
        decreases v@.len() - k,
    {
        if v[k] == x {
            proof {
                assert(v@[k as int] == x);
            }
            return true;
        }
        k = k + 1;
    }
    false
}

/// Whether a user row with this identifier exists; a linear scan.
fn find_user(users: &Vec<dao::User>, id: i64) -> (b: bool)
    ensures
        b == has_user(users@, id),
{
    let mut k: usize = 0;
    while k < users.len()
        invariant
            k <= users@.len(),
            forall|j: int| 0 <= j < k ==> #[trigger] users@[j].discord_id != id,
        decreases users@.len() - k,
    {
        if users[k].discord_id == id {
            proof {
                assert(users@[k as int].discord_id == id);
            }
            return true;
        }
        k = k + 1;
    }
    proof {
        if has_user(users@, id) {
            let k2 = choose|k2: int|
                0 <= k2 < users@.len() && #[trigger] users@[k2].discord_id == id;
            assert(false);
        }
    }
    false
}

/// The row is the projection of some active user row.
pub open spec fn from_active_row(users: Seq<dao::User>, row: dao::ServerMember) -> bool {
    exists|k: int|
        0 <= k < users.len() && #[trigger] users[k].on_server && row == (dao::ServerMember {
            discord_id: users[k].discord_id,
            exp: users[k].exp,
        })
}

/// What the active projection holds: every projected row comes from an
/// active user row, every active user row is projected, and unique user
/// identifiers stay unique in the projection.
pub proof fn lemma_active_members_props(users: Seq<dao::User>)
    ensures
        forall|m: int|
            0 <= m < active_members(users).len() ==> from_active_row(
                users,
                #[trigger] active_members(users)[m],
            ),
        forall|k: int|
            0 <= k < users.len() && #[trigger] users[k].on_server ==> active_members(
                users,
            ).contains(
                dao::ServerMember { discord_id: users[k].discord_id, exp: users[k].exp },
            ),
        users_unique(users) ==> crate::dao::ids_unique(active_members(users)),
    decreases users.len(),
{
    if users.len() == 0 {
    } else {
        let rest = users.drop_last();
        lemma_active_members_props(rest);
        assert(forall|k: int| 0 <= k < rest.len() ==> #[trigger] rest[k] == users[k]);
        let act = active_members(users);
        let act_rest = active_members(rest);
        assert forall|m: int| 0 <= m < active_members(users).len() implies from_active_row(
            users,
            active_members(users)[m],
        ) by {
            if m < act_rest.len() {
                assert(from_active_row(rest, act_rest[m]));
                let k = choose|k: int|
                    0 <= k < rest.len() && #[trigger] rest[k].on_server && act_rest[m]
                        == (dao::ServerMember {
                        discord_id: rest[k].discord_id,
                        exp: rest[k].exp,
                    });
                assert(active_members(users)[m] == act_rest[m]);
                assert(users[k].on_server && active_members(users)[m] == (dao::ServerMember {
                    discord_id: users[k].discord_id,
                    exp: users[k].exp,
                }));
            } else {
                assert(users.last().on_server);
                assert(active_members(users)[m] == (dao::ServerMember {
                    discord_id: users[users.len() - 1].discord_id,
                    exp: users[users.len() - 1].exp,
                }));
                assert(users[users.len() - 1].on_server);
            }
        }
        assert forall|k: int| 0 <= k < users.len() && #[trigger] users[k].on_server implies
            active_members(users).contains(
            dao::ServerMember { discord_id: users[k].discord_id, exp: users[k].exp },
        ) by {
            let row = dao::ServerMember { discord_id: users[k].discord_id, exp: users[k].exp };
            if k < users.len() - 1 {
                assert(rest[k].on_server);
                assert(act_rest.contains(row));
                let m = choose|m: int| 0 <= m < act_rest.len() && act_rest[m] == row;
                assert(act[m] == row);
            } else {
                assert(act.last() == row);
                assert(act[act.len() - 1] == row);
            }
        }
        if users_unique(users) {
            assert(users_unique(rest));
            assert forall|m1: int, m2: int|
                0 <= m1 < active_members(users).len() && 0 <= m2 < active_members(users).len()
                    && m1 != m2 implies active_members(users)[m1].discord_id != active_members(
                    users,
                )[m2].discord_id by {
                if m1 < act_rest.len() && m2 < act_rest.len() {
                    assert(act[m1] == act_rest[m1] && act[m2] == act_rest[m2]);
                    assert(crate::dao::ids_unique(act_rest));
                } else {
                    let ma = if m1 < m2 {
                        m1
                    } else {
                        m2
                    };
                    let mb = if m1 < m2 {
                        m2
                    } else {
                        m1
                    };
                    assert(users.last().on_server);
                    assert(act[mb].discord_id == users[users.len() - 1].discord_id);
                    assert(act[ma] == act_rest[ma]);
                    assert(from_active_row(rest, act_rest[ma]));
                    let k = choose|k: int|
                        0 <= k < rest.len() && #[trigger] rest[k].on_server && act_rest[ma]
                            == (dao::ServerMember {
                            discord_id: rest[k].discord_id,
                            exp: rest[k].exp,
                        });
                    assert(users[k].discord_id != users[users.len() - 1].discord_id);
                }
            }
        }
    }
}

} // verus!
