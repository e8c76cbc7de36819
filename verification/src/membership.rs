use vstd::prelude::*;

use crate::dao;
use crate::dao::{ids_of, ids_unique, sorted_by_id};
use crate::errors::SyncError;
use crate::removal::{drops, keep_except, remove_sorted_indices};
use crate::sort::sort_rows_by_id;
use crate::store::{has_user, newcomer_rows, Store};

verus! {

/// One entry of a roster diff: an index into the persisted roster, an index
/// into the live snapshot, or both when the same member appears in each.
#[derive(Clone, Copy, Debug, PartialEq, Eq, Structural)]
pub enum Pairing {
    /// The member is in the persisted roster (at `db_idx`) and in the live
    /// snapshot (at `fetched_idx`).
    Matched { db_idx: usize, fetched_idx: usize },
    /// The member is persisted at `db_idx` but absent from the live snapshot.
    Quitter { db_idx: usize },
    /// The member is live at `fetched_idx` but has no persisted row.
    Newcomer { fetched_idx: usize },
}

/// Whether the pairing claims a slot of the persisted roster.
pub open spec fn has_db(p: Pairing) -> bool {
    match p {
        Pairing::Matched { .. } => true,
        Pairing::Quitter { .. } => true,
        Pairing::Newcomer { .. } => false,
    }
}

/// The persisted-roster index the pairing claims (meaningful when `has_db`).
pub open spec fn db_idx_of(p: Pairing) -> int {
    match p {
        Pairing::Matched { db_idx, .. } => db_idx as int,
        Pairing::Quitter { db_idx } => db_idx as int,
        Pairing::Newcomer { .. } => 0,
    }
}

/// Whether the pairing claims a slot of the live snapshot.
pub open spec fn has_fetched(p: Pairing) -> bool {
    match p {
        Pairing::Matched { .. } => true,
        Pairing::Quitter { .. } => false,
        Pairing::Newcomer { .. } => true,
    }
}

/// The live-snapshot index the pairing claims (meaningful when `has_fetched`).
pub open spec fn fetched_idx_of(p: Pairing) -> int {
    match p {
        Pairing::Matched { fetched_idx, .. } => fetched_idx as int,
        Pairing::Quitter { .. } => 0,
        Pairing::Newcomer { fetched_idx } => fetched_idx as int,
    }
}

/// The pairing classifies its indices correctly: a match joins equal
/// identifiers, a quitter's identifier is absent from the live snapshot, and
/// a newcomer's identifier is absent from the persisted roster.
pub open spec fn pairing_valid(db: Seq<dao::ServerMember>, live: Seq<i64>, p: Pairing) -> bool {
    match p {
        Pairing::Matched { db_idx, fetched_idx } => db_idx < db.len() && fetched_idx < live.len()
            && db[db_idx as int].discord_id == live[fetched_idx as int],
        Pairing::Quitter { db_idx } => db_idx < db.len() && !live.contains(
            db[db_idx as int].discord_id,
        ),
        Pairing::Newcomer { fetched_idx } => fetched_idx < live.len() && !ids_of(db).contains(
            live[fetched_idx as int],
        ),
    }
}

/// Every pairing classifies correctly.
pub open spec fn pairings_valid(db: Seq<dao::ServerMember>, live: Seq<i64>, ps: Seq<Pairing>) -> bool {
    forall|k: int| 0 <= k < ps.len() ==> pairing_valid(db, live, #[trigger] ps[k])
}

/// The persisted and live slots each appear in strictly increasing order, so
/// no slot is claimed twice.
pub open spec fn pairings_monotone(ps: Seq<Pairing>) -> bool {
    &&& forall|k1: int, k2: int|
        0 <= k1 < k2 < ps.len() && has_db(#[trigger] ps[k1]) && has_db(#[trigger] ps[k2])
            ==> db_idx_of(ps[k1]) < db_idx_of(ps[k2])
    &&& forall|k1: int, k2: int|
        0 <= k1 < k2 < ps.len() && has_fetched(#[trigger] ps[k1]) && has_fetched(
            #[trigger] ps[k2],
        ) ==> fetched_idx_of(ps[k1]) < fetched_idx_of(ps[k2])
}

/// Some pairing claims persisted-roster slot `d`.
pub open spec fn covers_db(ps: Seq<Pairing>, d: int) -> bool {
    exists|k: int| 0 <= k < ps.len() && has_db(#[trigger] ps[k]) && db_idx_of(ps[k]) == d
}

/// Some pairing claims live-snapshot slot `j`.
pub open spec fn covers_fetched(ps: Seq<Pairing>, j: int) -> bool {
    exists|k: int| 0 <= k < ps.len() && has_fetched(#[trigger] ps[k]) && fetched_idx_of(ps[k]) == j
}

/// The pairings are a complete, duplicate-free, correctly classified diff of
/// the persisted roster against the live snapshot: every index of either
/// input is claimed by exactly one pairing, and each pairing's category is
/// right for its identifiers.
pub open spec fn pairings_ok(db: Seq<dao::ServerMember>, live: Seq<i64>, ps: Seq<Pairing>) -> bool {
    &&& pairings_valid(db, live, ps)
    &&& pairings_monotone(ps)
    &&& forall|d: int| 0 <= d < db.len() ==> #[trigger] covers_db(ps, d)
    &&& forall|j: int| 0 <= j < live.len() ==> #[trigger] covers_fetched(ps, j)
}

/// The live snapshot is strictly ascending: sorted, with no duplicates.
pub open spec fn strictly_ascending(s: Seq<i64>) -> bool {
    forall|k1: int, k2: int| 0 <= k1 < k2 < s.len() ==> s[k1] < s[k2]
}

/// The diff between a persisted roster and a live membership snapshot.
///
/// `db_info` is the persisted roster sorted ascending by identifier;
/// `fetched_info` is the live snapshot as given; `pairings` classifies every
/// member of either into matched, quitter or newcomer.
pub struct Diff {
    pub db_info: Vec<dao::ServerMember>,
    pub fetched_info: Vec<i64>,
    pub pairings: Vec<Pairing>,
}

proof fn lemma_covers_db_push(ps: Seq<Pairing>, p: Pairing, d: int)
    requires
        covers_db(ps, d),
    ensures
        covers_db(ps.push(p), d),
{
    let k = choose|k: int| 0 <= k < ps.len() && has_db(#[trigger] ps[k]) && db_idx_of(ps[k]) == d;
    assert(ps.push(p)[k] == ps[k]);
}

proof fn lemma_covers_fetched_push(ps: Seq<Pairing>, p: Pairing, j: int)
    requires
        covers_fetched(ps, j),
    ensures
        covers_fetched(ps.push(p), j),
{
    let k = choose|k: int|
        0 <= k < ps.len() && has_fetched(#[trigger] ps[k]) && fetched_idx_of(ps[k]) == j;
    assert(ps.push(p)[k] == ps[k]);
}

/// Some newcomer pairing before `bound` carries live value `v`.
pub open spec fn newcomer_witness(ps: Seq<Pairing>, live: Seq<i64>, bound: int, v: i64) -> bool {
    exists|k2: int|
        0 <= k2 < bound && #[trigger] ps[k2] is Newcomer && v == live[fetched_idx_of(ps[k2])]
}

proof fn lemma_newcomer_witness_widen(ps: Seq<Pairing>, live: Seq<i64>, b1: int, b2: int, v: i64)
    requires
        newcomer_witness(ps, live, b1, v),
        b1 <= b2,
    ensures
        newcomer_witness(ps, live, b2, v),
{
    let k2 = choose|k2: int|
        0 <= k2 < b1 && #[trigger] ps[k2] is Newcomer && v == live[fetched_idx_of(ps[k2])];
    assert(0 <= k2 < b2 && ps[k2] is Newcomer && v == live[fetched_idx_of(ps[k2])]);
}

impl Diff {
    /// Computes the set-difference between a persisted roster (arbitrary
    /// order, unique identifiers) and a live snapshot of member identifiers,
    /// which the caller must supply strictly ascending.
    ///
    /// The persisted rows are sorted by identifier and merged against the
    /// live snapshot in one linear pass; every index of either input ends up
    /// in exactly one pairing, correctly classified.
    pub fn new(db_info: Vec<dao::ServerMember>, fetched_info: Vec<i64>) -> (d: Diff)
        requires
            ids_unique(db_info@),
            strictly_ascending(fetched_info@),
        ensures
            d.fetched_info == fetched_info,
            sorted_by_id(d.db_info@),
            ids_unique(d.db_info@),
            d.db_info@.to_multiset() == db_info@.to_multiset(),
            ids_of(d.db_info@).to_multiset() == ids_of(db_info@).to_multiset(),
            d.db_info@.len() == db_info@.len(),
            pairings_ok(d.db_info@, d.fetched_info@, d.pairings@),
    {
        let ghost orig_ids = ids_of(db_info@);
        let db = sort_rows_by_id(db_info);
        proof {
            assert(orig_ids.no_duplicates());
            orig_ids.lemma_multiset_has_no_duplicates();
            assert(forall|x: i64|
                ids_of(db@).to_multiset().contains(x) ==> ids_of(db@).to_multiset().count(x) == 1);
            ids_of(db@).lemma_multiset_has_no_duplicates_conv();
            assert forall|k1: int, k2: int|
                0 <= k1 < db@.len() && 0 <= k2 < db@.len() && k1 != k2 implies db@[k1].discord_id
                != db@[k2].discord_id by {
                assert(ids_of(db@)[k1] == db@[k1].discord_id);
                assert(ids_of(db@)[k2] == db@[k2].discord_id);
                assert(ids_of(db@)[k1] != ids_of(db@)[k2]);
            }
        }
        let live = fetched_info;
        let mut pairings: Vec<Pairing> = Vec::new();
        let mut i: usize = 0;
        let mut j: usize = 0;
        while i < db.len() || j < live.len()
            invariant
                i <= db@.len(),
                j <= live@.len(),
                sorted_by_id(db@),
                ids_unique(db@),
                strictly_ascending(live@),
                pairings_valid(db@, live@, pairings@),
                pairings_monotone(pairings@),
                forall|k: int|
                    0 <= k < pairings@.len() && has_db(#[trigger] pairings@[k]) ==> db_idx_of(
                        pairings@[k],
                    ) < i,
                forall|k: int|
                    0 <= k < pairings@.len() && has_fetched(#[trigger] pairings@[k])
                        ==> fetched_idx_of(pairings@[k]) < j,
                forall|d: int| 0 <= d < i ==> #[trigger] covers_db(pairings@, d),
                forall|l: int| 0 <= l < j ==> #[trigger] covers_fetched(pairings@, l),
                i < db@.len() ==> forall|l: int| 0 <= l < j ==> live@[l] < db@[i as int].discord_id,
                j < live@.len() ==> forall|k: int|
                    0 <= k < i ==> db@[k].discord_id < live@[j as int],
            decreases db@.len() - i + live@.len() - j,
        {
            let ghost ps_old = pairings@;
            let p: Pairing;
            if i < db.len() && j < live.len() {
                let a = db[i].discord_id;
                let b = live[j];
                if a == b {
                    p = Pairing::Matched { db_idx: i, fetched_idx: j };
                    pairings.push(p);
                    i = i + 1;
                    j = j + 1;
                } else if a < b {
                    p = Pairing::Quitter { db_idx: i };
                    proof {
                        assert(!live@.contains(a)) by {
                            assert(forall|l: int| 0 <= l < j ==> live@[l] < a);
                            assert(forall|l: int| j <= l < live@.len() ==> live@[l] >= b);
                        }
                    }
                    pairings.push(p);
                    i = i + 1;
                } else {
                    p = Pairing::Newcomer { fetched_idx: j };
                    proof {
                        assert(!ids_of(db@).contains(b)) by {
                            assert(forall|k: int| 0 <= k < i ==> db@[k].discord_id < b);
                            assert(forall|k: int|
                                i <= k < db@.len() ==> db@[k].discord_id >= a);
                            assert(forall|k: int|
                                0 <= k < db@.len() ==> ids_of(db@)[k] == db@[k].discord_id);
                        }
                    }
                    pairings.push(p);
                    j = j + 1;
                }
            } else if i < db.len() {
                p = Pairing::Quitter { db_idx: i };
                proof {
                    assert(!live@.contains(db@[i as int].discord_id)) by {
                        assert(forall|l: int|
                            0 <= l < live@.len() ==> live@[l] < db@[i as int].discord_id);
                    }
                }
                pairings.push(p);
                i = i + 1;
            } else {
                p = Pairing::Newcomer { fetched_idx: j };
                proof {
                    assert(!ids_of(db@).contains(live@[j as int])) by {
                        assert(forall|k: int|
                            0 <= k < db@.len() ==> db@[k].discord_id < live@[j as int]);
                        assert(forall|k: int|
                            0 <= k < db@.len() ==> ids_of(db@)[k] == db@[k].discord_id);
                    }
                }
                pairings.push(p);
                j = j + 1;
            }
            proof {
                assert(forall|k: int|
                    0 <= k < ps_old.len() ==> pairings@[k] == #[trigger] ps_old[k]);
                assert(pairings@[ps_old.len() as int] == p);
                assert forall|d: int| 0 <= d < i implies #[trigger] covers_db(pairings@, d) by {
                    if has_db(p) && db_idx_of(p) == d {
                        assert(covers_db(pairings@, d));
                    } else {
                        lemma_covers_db_push(ps_old, p, d);
                    }
                }
                assert forall|l: int| 0 <= l < j implies #[trigger] covers_fetched(
                    pairings@,
                    l,
                ) by {
                    if has_fetched(p) && fetched_idx_of(p) == l {
                        assert(covers_fetched(pairings@, l));
                    } else {
                        lemma_covers_fetched_push(ps_old, p, l);
                    }
                }
            }
        }
        Diff { db_info: db, fetched_info: live, pairings }
    }

    /// Collects the quitter batch (identifiers and their positions in the
    /// sorted persisted roster) and the newcomer batch (identifiers), in
    /// pairing order.
    ///
    /// The quitter positions come out strictly ascending and in range, and
    /// the batches are exhaustive: every persisted identifier absent from the
    /// live snapshot is a quitter, every live identifier absent from the
    /// persisted roster is a newcomer, and nothing else is in either batch.
    pub fn quitters_and_newcomers(&self) -> (r: (Vec<i64>, Vec<usize>, Vec<i64>))
        requires
            pairings_ok(self.db_info@, self.fetched_info@, self.pairings@),
            strictly_ascending(self.fetched_info@),
        ensures
            r.0@.len() == r.1@.len(),
            forall|m: int|
                0 <= m < r.1@.len() ==> #[trigger] r.1@[m] < self.db_info@.len() && r.0@[m]
                    == self.db_info@[r.1@[m] as int].discord_id && !self.fetched_info@.contains(
                    r.0@[m],
                ),
            forall|m1: int, m2: int| 0 <= m1 < m2 < r.1@.len() ==> r.1@[m1] < r.1@[m2],
            forall|d: int|
                0 <= d < self.db_info@.len() && !self.fetched_info@.contains(
                    #[trigger] self.db_info@[d].discord_id,
                ) ==> r.1@.contains(d as usize),
            forall|m: int|
                0 <= m < r.2@.len() ==> self.fetched_info@.contains(#[trigger] r.2@[m])
                    && !ids_of(self.db_info@).contains(r.2@[m]),
            forall|m1: int, m2: int| 0 <= m1 < m2 < r.2@.len() ==> r.2@[m1] < r.2@[m2],
            forall|j: int|
                0 <= j < self.fetched_info@.len() && !ids_of(self.db_info@).contains(
                    #[trigger] self.fetched_info@[j],
                ) ==> r.2@.contains(self.fetched_info@[j]),
    {
        let (quitters, quitters_indices) = collect_quitters(
            &self.db_info,
            &self.fetched_info,
            &self.pairings,
        );
        let newcomers = collect_newcomers(&self.db_info, &self.fetched_info, &self.pairings);
        (quitters, quitters_indices, newcomers)
    }
}

/// One pass over the pairings picking out the quitters: their identifiers
/// and their positions in the sorted persisted roster, in ascending order.
fn collect_quitters(
    db_info: &Vec<dao::ServerMember>,
    fetched_info: &Vec<i64>,
    pairings: &Vec<Pairing>,
) -> (r: (Vec<i64>, Vec<usize>))
    requires
        pairings_ok(db_info@, fetched_info@, pairings@),
    ensures
        r.0@.len() == r.1@.len(),
        forall|m: int|
            0 <= m < r.1@.len() ==> #[trigger] r.1@[m] < db_info@.len() && r.0@[m]
                == db_info@[r.1@[m] as int].discord_id && !fetched_info@.contains(r.0@[m]),
        forall|m1: int, m2: int| 0 <= m1 < m2 < r.1@.len() ==> r.1@[m1] < r.1@[m2],
        forall|d: int|
            0 <= d < db_info@.len() && !fetched_info@.contains(
                #[trigger] db_info@[d].discord_id,
            ) ==> r.1@.contains(d as usize),
{
    let ghost db = db_info@;
    let ghost live = fetched_info@;
    let ghost ps = pairings@;
    let mut quitters: Vec<i64> = Vec::new();
    let mut quitters_indices: Vec<usize> = Vec::new();
    let mut k: usize = 0;
    while k < pairings.len()
        invariant
            k <= ps.len(),
            db_info@ == db,
            fetched_info@ == live,
            pairings@ == ps,
            pairings_valid(db, live, ps),
            pairings_monotone(ps),
            quitters@.len() == quitters_indices@.len(),
            forall|m: int|
                0 <= m < quitters_indices@.len() ==> #[trigger] quitters_indices@[m] < db.len()
                    && quitters@[m] == db[quitters_indices@[m] as int].discord_id && !live.contains(
                    quitters@[m],
                ),
            forall|m1: int, m2: int|
                0 <= m1 < m2 < quitters_indices@.len() ==> quitters_indices@[m1]
                    < quitters_indices@[m2],
            forall|m: int|
                0 <= m < quitters_indices@.len() ==> exists|k2: int|
                    0 <= k2 < k && #[trigger] ps[k2] == (Pairing::Quitter {
                        db_idx: #[trigger] quitters_indices@[m],
                    }),
            forall|k2: int|
                0 <= k2 < k ==> match #[trigger] ps[k2] {
                    Pairing::Quitter { db_idx } => quitters_indices@.contains(db_idx),
                    _ => true,
                },
        decreases ps.len() - k,
    {
        let p = pairings[k];
        let ghost old_qi = quitters_indices@;
        let ghost old_q = quitters@;
        proof {
            assert(pairing_valid(db, live, ps[k as int]));
        }
        if let Pairing::Quitter { db_idx } = p {
            proof {
                assert forall|m: int| 0 <= m < quitters_indices@.len() implies quitters_indices@[m]
                    < db_idx by {
                    let k2 = choose|k2: int|
                        0 <= k2 < k && #[trigger] ps[k2] == (Pairing::Quitter {
                            db_idx: quitters_indices@[m],
                        });
                    assert(has_db(ps[k2]) && has_db(ps[k as int]));
                }
            }
            quitters_indices.push(db_idx);
            quitters.push(db_info[db_idx].discord_id);
            proof {
                assert(ps[k as int] == (Pairing::Quitter { db_idx }));
                assert(quitters_indices@ == old_qi.push(db_idx));
                assert(quitters_indices@.contains(db_idx)) by {
                    assert(quitters_indices@[old_qi.len() as int] == db_idx);
                }
                assert forall|x: usize| old_qi.contains(x) implies quitters_indices@.contains(
                    x,
                ) by {
                    let idx = choose|idx: int| 0 <= idx < old_qi.len() && old_qi[idx] == x;
                    assert(quitters_indices@[idx] == x);
                }
                assert(forall|m: int|
                    0 <= m < old_qi.len() ==> quitters_indices@[m] == #[trigger] old_qi[m]
                        && quitters@[m] == old_q[m]);
            }
        }
        let ghost k0 = k as int;
        k = k + 1;
        proof {
            assert forall|m: int| 0 <= m < quitters_indices@.len() implies exists|k2: int|
                0 <= k2 < k && #[trigger] ps[k2] == (Pairing::Quitter {
                    db_idx: #[trigger] quitters_indices@[m],
                }) by {
                if m < old_qi.len() {
                    assert(quitters_indices@[m] == old_qi[m]);
                    let k2 = choose|k2: int|
                        0 <= k2 < k0 && #[trigger] ps[k2] == (Pairing::Quitter {
                            db_idx: old_qi[m],
                        });
                    assert(0 <= k2 < k && ps[k2] == (Pairing::Quitter {
                        db_idx: quitters_indices@[m],
                    }));
                } else {
                    assert(ps[k0] == (Pairing::Quitter { db_idx: quitters_indices@[m] }));
                }
            }
        }
    }
    proof {
        assert forall|d: int|
            0 <= d < db.len() && !live.contains(#[trigger] db[d].discord_id) implies
            quitters_indices@.contains(d as usize) by {
            assert(covers_db(ps, d));
            let k2 = choose|k2: int|
                0 <= k2 < ps.len() && has_db(#[trigger] ps[k2]) && db_idx_of(ps[k2]) == d;
            assert(pairing_valid(db, live, ps[k2]));
            match ps[k2] {
                Pairing::Matched { db_idx, fetched_idx } => {
                    assert(live.contains(live[fetched_idx as int]));
                    assert(false);
                },
                Pairing::Quitter { db_idx } => {
                    assert(db_idx == d as usize);
                },
                Pairing::Newcomer { .. } => {
                    assert(false);
                },
            }
        }
    }
    (quitters, quitters_indices)
}

/// One pass over the pairings picking out the newcomers' identifiers, in
/// ascending order.
#[verifier::rlimit(100)]
fn collect_newcomers(
    db_info: &Vec<dao::ServerMember>,
    fetched_info: &Vec<i64>,
    pairings: &Vec<Pairing>,
) -> (r: Vec<i64>)
    requires
        pairings_ok(db_info@, fetched_info@, pairings@),
        strictly_ascending(fetched_info@),
    ensures
        forall|m: int|
            0 <= m < r@.len() ==> fetched_info@.contains(#[trigger] r@[m]) && !ids_of(
                db_info@,
            ).contains(r@[m]),
        forall|m1: int, m2: int| 0 <= m1 < m2 < r@.len() ==> r@[m1] < r@[m2],
        forall|j: int|
            0 <= j < fetched_info@.len() && !ids_of(db_info@).contains(
                #[trigger] fetched_info@[j],
            ) ==> r@.contains(fetched_info@[j]),
{
    let ghost db = db_info@;
    let ghost live = fetched_info@;
    let ghost ps = pairings@;
    let mut newcomers: Vec<i64> = Vec::new();
    let mut k: usize = 0;
    while k < pairings.len()
        invariant
            k <= ps.len(),
            db_info@ == db,
            fetched_info@ == live,
            pairings@ == ps,
            pairings_valid(db, live, ps),
            pairings_monotone(ps),
            strictly_ascending(live),
            forall|m: int|
                0 <= m < newcomers@.len() ==> live.contains(#[trigger] newcomers@[m]) && !ids_of(
                    db,
                ).contains(newcomers@[m]),
            forall|m: int|
                0 <= m < newcomers@.len() ==> newcomer_witness(
                    ps,
                    live,
                    k as int,
                    #[trigger] newcomers@[m],
                ),
            forall|m1: int, m2: int|
                0 <= m1 < m2 < newcomers@.len() ==> newcomers@[m1] < newcomers@[m2],
            forall|k2: int|
                0 <= k2 < k ==> match #[trigger] ps[k2] {
                    Pairing::Newcomer { fetched_idx } => newcomers@.contains(
                        live[fetched_idx as int],
                    ),
                    _ => true,
                },
        decreases ps.len() - k,
    {
        let p = pairings[k];
        let ghost old_n = newcomers@;
        proof {
            assert(pairing_valid(db, live, ps[k as int]));
        }
        if let Pairing::Newcomer { fetched_idx } = p {
            proof {
                assert(live.contains(live[fetched_idx as int])) by {
                    assert(live[fetched_idx as int] == live[fetched_idx as int]);
                }
                assert forall|m: int| 0 <= m < newcomers@.len() implies newcomers@[m] < live[
                    fetched_idx as int] by {
                    assert(newcomer_witness(ps, live, k as int, newcomers@[m]));
                    let k2 = choose|k2: int|
                        0 <= k2 < k && #[trigger] ps[k2] is Newcomer && newcomers@[m] == live[
                            fetched_idx_of(ps[k2])];
                    assert(has_fetched(ps[k2]) && has_fetched(ps[k as int]));
                    assert(fetched_idx_of(ps[k2]) < fetched_idx_of(ps[k as int]));
                }
            }
            newcomers.push(fetched_info[fetched_idx]);
            proof {
                assert(ps[k as int] == (Pairing::Newcomer { fetched_idx }));
                assert(newcomers@ == old_n.push(live[fetched_idx as int]));
                assert(newcomers@.contains(live[fetched_idx as int])) by {
                    assert(newcomers@[old_n.len() as int] == live[fetched_idx as int]);
                }
                assert forall|x: i64| old_n.contains(x) implies newcomers@.contains(x) by {
                    let idx = choose|idx: int| 0 <= idx < old_n.len() && old_n[idx] == x;
                    assert(newcomers@[idx] == x);
                }
                assert(forall|m: int|
                    0 <= m < old_n.len() ==> newcomers@[m] == #[trigger] old_n[m]);
            }
        }
        let ghost k0 = k as int;
        k = k + 1;
        proof {
            assert forall|m: int| 0 <= m < newcomers@.len() implies newcomer_witness(
                ps,
                live,
                k as int,
                newcomers@[m],
            ) by {
                if m < old_n.len() {
                    assert(newcomers@[m] == old_n[m]);
                    assert(newcomer_witness(ps, live, k0, old_n[m]));
                    lemma_newcomer_witness_widen(ps, live, k0, k as int, newcomers@[m]);
                } else {
                    assert(ps[k0] is Newcomer && newcomers@[m] == live[fetched_idx_of(ps[k0])]);
                }
            }
        }
    }
    proof {
        assert forall|j: int|
            0 <= j < live.len() && !ids_of(db).contains(#[trigger] live[j]) implies
            newcomers@.contains(live[j]) by {
            assert(covers_fetched(ps, j));
            let k2 = choose|k2: int|
                0 <= k2 < ps.len() && has_fetched(#[trigger] ps[k2]) && fetched_idx_of(ps[k2])
                    == j;
            assert(pairing_valid(db, live, ps[k2]));
            match ps[k2] {
                Pairing::Matched { db_idx, fetched_idx } => {
                    assert(ids_of(db)[db_idx as int] == db[db_idx as int].discord_id);
                    assert(ids_of(db).contains(live[j]));
                    assert(false);
                },
                Pairing::Quitter { .. } => {
                    assert(false);
                },
                Pairing::Newcomer { fetched_idx } => {},
            }
        }
    }
    newcomers
}

/// The persisted rows whose members are still live, in roster order: the
/// roster that survives reconciliation.
pub open spec fn surviving(db: Seq<dao::ServerMember>, live: Seq<i64>) -> Seq<dao::ServerMember>
    decreases db.len(),
{
    if db.len() == 0 {
        Seq::empty()
    } else {
        let rest = surviving(db.drop_last(), live);
        if live.contains(db.last().discord_id) {
            rest.push(db.last())
        } else {
            rest
        }
    }
}

/// No live member who lacks a persisted roster row has any durable row at
/// all: nobody who once quit is trying to come back. Reconciliation can
/// only insert its newcomers when this holds, because the durable key
/// refuses a second row for the same identifier.
pub open spec fn no_rejoins(
    store_users: Seq<dao::User>,
    db: Seq<dao::ServerMember>,
    live: Seq<i64>,
) -> bool {
    forall|j: int|
        0 <= j < live.len() && !ids_of(db).contains(#[trigger] live[j]) ==> !has_user(
            store_users,
            live[j],
        )
}

/// Removing the quitter positions from the roster is the same as keeping
/// the live members, when the positions are exactly those of the rows whose
/// identifier is not live.
proof fn lemma_keep_except_is_surviving(
    db: Seq<dao::ServerMember>,
    live: Seq<i64>,
    qidxs: Seq<usize>,
)
    requires
        forall|d: int|
            0 <= d < db.len() ==> (drops(qidxs, d) <==> !live.contains(
                #[trigger] db[d].discord_id,
            )),
    ensures
        keep_except(db, qidxs) == surviving(db, live),
    decreases db.len(),
{
    if db.len() > 0 {
        lemma_keep_except_is_surviving(db.drop_last(), live, qidxs);
        assert(forall|d: int|
            0 <= d < db.drop_last().len() ==> #[trigger] db.drop_last()[d] == db[d]);
        assert(drops(qidxs, db.len() - 1) <==> !live.contains(db.last().discord_id));
    }
}

impl Diff {
    /// Applies the diff to durable storage and produces the surviving
    /// roster: quitters are marked inactive, newcomers inserted with zero
    /// score (each a no-op on an empty batch), and the persisted rows at
    /// the quitter positions are removed in one order-preserving pass.
    ///
    /// Insertion fails, fatally for startup, exactly when a live member
    /// without a persisted roster row already has a durable row: a quitter
    /// trying to rejoin, which the durable key refuses. The quitters stay
    /// marked in that case; nothing is rolled back.
    pub fn sync_and_distill(self, store: &mut Store) -> (r: Result<
        Vec<dao::ServerMember>,
        SyncError,
    >)
        requires
            pairings_ok(self.db_info@, self.fetched_info@, self.pairings@),
            strictly_ascending(self.fetched_info@),
            old(store).wf(),
        ensures
            final(store).wf(),
            final(store).earned_roles@ == old(store).earned_roles@,
            final(store).users@.len() >= old(store).users@.len(),
            forall|k: int|
                0 <= k < old(store).users@.len() ==> #[trigger] final(store).users@[k]
                    == (dao::User {
                    on_server: old(store).users@[k].on_server && !(ids_of(
                        self.db_info@,
                    ).contains(old(store).users@[k].discord_id) && !self.fetched_info@.contains(
                        old(store).users@[k].discord_id,
                    )),
                    ..old(store).users@[k]
                }),
            r is Ok <==> no_rejoins(old(store).users@, self.db_info@, self.fetched_info@),
            r is Err ==> final(store).users@.len() == old(store).users@.len(),
            r is Ok ==> forall|k: int|
                old(store).users@.len() <= k < final(store).users@.len()
                    ==> #[trigger] final(store).users@[k].on_server
                    && final(store).users@[k].exp == 0
                    && !ids_of(self.db_info@).contains(final(store).users@[k].discord_id)
                    && self.fetched_info@.contains(final(store).users@[k].discord_id),
            r is Ok ==> forall|j: int|
                0 <= j < self.fetched_info@.len() && !ids_of(self.db_info@).contains(
                    #[trigger] self.fetched_info@[j],
                ) ==> has_user(final(store).users@, self.fetched_info@[j]),
            match r {
                Ok(rows) => rows@ == surviving(self.db_info@, self.fetched_info@),
                Err(e) => e == SyncError::Storage,
            },
    {
        let ghost db = self.db_info@;
        let ghost live = self.fetched_info@;
        let ghost users0 = store.users@;
        let (quitters, quitters_indices, newcomers) = self.quitters_and_newcomers();
        store.mark_as_quitters(&quitters);
        let ghost marked = store.users@;
        proof {
            assert forall|x: i64| has_user(marked, x) == has_user(users0, x) by {
                assert(marked.len() == users0.len());
                assert(forall|k: int|
                    0 <= k < users0.len() ==> #[trigger] marked[k].discord_id
                        == users0[k].discord_id);
                if has_user(marked, x) {
                    let k = choose|k: int|
                        0 <= k < marked.len() && #[trigger] marked[k].discord_id == x;
                    assert(users0[k].discord_id == x);
                    assert(has_user(users0, x));
                }
                if has_user(users0, x) {
                    let k = choose|k: int|
                        0 <= k < users0.len() && #[trigger] users0[k].discord_id == x;
                    assert(marked[k].discord_id == x);
                    assert(has_user(marked, x));
                }
            }
            assert forall|k: int| 0 <= k < users0.len() implies #[trigger] marked[k]
                == (dao::User {
                on_server: users0[k].on_server && !(ids_of(db).contains(users0[k].discord_id)
                    && !live.contains(users0[k].discord_id)),
                ..users0[k]
            }) by {
                let x = users0[k].discord_id;
                if quitters@.contains(x) {
                    let m = choose|m: int| 0 <= m < quitters@.len() && quitters@[m] == x;
                    assert(quitters_indices@[m] < db.len());
                    assert(ids_of(db)[quitters_indices@[m] as int]
                        == db[quitters_indices@[m] as int].discord_id);
                    assert(ids_of(db).contains(x));
                    assert(!live.contains(x));
                }
                if ids_of(db).contains(x) && !live.contains(x) {
                    let d = choose|d: int| 0 <= d < ids_of(db).len() && ids_of(db)[d] == x;
                    assert(db[d].discord_id == x);
                    assert(quitters_indices@.contains(d as usize));
                    let m = choose|m: int|
                        0 <= m < quitters_indices@.len() && quitters_indices@[m] == d as usize;
                    assert(quitters@[m] == db[d].discord_id);
                    assert(quitters@.contains(x));
                }
            }
        }
        let res = store.add_newcomers(&newcomers);
        proof {
            assert(forall|m1: int, m2: int|
                0 <= m1 < m2 < newcomers@.len() ==> newcomers@[m1] != newcomers@[m2]);
            if res is Ok {
                assert(no_rejoins(users0, db, live)) by {
                    assert forall|j: int|
                        0 <= j < live.len() && !ids_of(db).contains(#[trigger] live[j]) implies
                        !has_user(users0, live[j]) by {
                        assert(newcomers@.contains(live[j]));
                        let m = choose|m: int|
                            0 <= m < newcomers@.len() && newcomers@[m] == live[j];
                        assert(!has_user(marked, newcomers@[m]));
                    }
                }
            } else {
                assert(!no_rejoins(users0, db, live)) by {
                    assert(!(forall|m: int|
                        0 <= m < newcomers@.len() ==> !has_user(marked, #[trigger] newcomers@[m])));
                    let m = choose|m: int|
                        0 <= m < newcomers@.len() && has_user(marked, #[trigger] newcomers@[m]);
                    assert(live.contains(newcomers@[m]));
                    let j = choose|j: int| 0 <= j < live.len() && live[j] == newcomers@[m];
                    assert(has_user(users0, live[j]));
                    assert(!ids_of(db).contains(live[j]));
                }
            }
        }
        match res {
            Err(e) => {
                return Err(e);
            },
            Ok(()) => {},
        }
        proof {
            assert(store.users@ == marked + newcomer_rows(newcomers@));
            assert(forall|k: int| 0 <= k < marked.len() ==> #[trigger] store.users@[k] == marked[k]);
            assert forall|k: int|
                marked.len() <= k < store.users@.len() implies #[trigger] store.users@[k].on_server
                    && store.users@[k].exp == 0 && !ids_of(db).contains(
                    store.users@[k].discord_id,
                ) && live.contains(store.users@[k].discord_id) by {
                assert(store.users@[k] == newcomer_rows(newcomers@)[k - marked.len()]);
                assert(newcomer_rows(newcomers@)[k - marked.len()] == (dao::User {
                    discord_id: newcomers@[k - marked.len()],
                    exp: 0,
                    on_server: true,
                }));
            }
            assert forall|j: int|
                0 <= j < live.len() && !ids_of(db).contains(#[trigger] live[j]) implies has_user(
                    store.users@,
                    live[j],
                ) by {
                assert(newcomers@.contains(live[j]));
                let m = choose|m: int| 0 <= m < newcomers@.len() && newcomers@[m] == live[j];
                assert(store.users@[marked.len() + m] == newcomer_rows(newcomers@)[m]);
                assert(store.users@[marked.len() + m].discord_id == live[j]);
            }
        }
        let rows = remove_sorted_indices(&self.db_info, &quitters_indices);
        proof {
            assert forall|d: int|
                0 <= d < db.len() implies (drops(quitters_indices@, d) <==> !live.contains(
                    #[trigger] db[d].discord_id,
                )) by {
                if drops(quitters_indices@, d) {
                    let m = choose|m: int|
                        0 <= m < quitters_indices@.len() && #[trigger] quitters_indices@[m] == d;
                    assert(quitters@[m] == db[d].discord_id);
                    assert(!live.contains(quitters@[m]));
                }
                if !live.contains(db[d].discord_id) {
                    assert(quitters_indices@.contains(d as usize));
                    let m = choose|m: int|
                        0 <= m < quitters_indices@.len() && quitters_indices@[m] == d as usize;
                    assert(drops(quitters_indices@, d));
                }
            }
            lemma_keep_except_is_surviving(db, live, quitters_indices@);
        }
        Ok(rows)
    }
}

/// What the surviving roster holds: every surviving row is a persisted row
/// whose member is live, every such row survives, and a sorted roster with
/// unique identifiers survives strictly ascending.
pub proof fn lemma_surviving_props(db: Seq<dao::ServerMember>, live: Seq<i64>)
    ensures
        forall|m: int|
            0 <= m < surviving(db, live).len() ==> db.contains(#[trigger] surviving(db, live)[m])
                && live.contains(surviving(db, live)[m].discord_id),
        forall|d: int|
            0 <= d < db.len() && live.contains(#[trigger] db[d].discord_id) ==> surviving(
                db,
                live,
            ).contains(db[d]),
        sorted_by_id(db) && ids_unique(db) ==> forall|m1: int, m2: int|
            0 <= m1 < m2 < surviving(db, live).len() ==> surviving(db, live)[m1].discord_id
                < surviving(db, live)[m2].discord_id,
    decreases db.len(),
{
    if db.len() > 0 {
        let rest = db.drop_last();
        lemma_surviving_props(rest, live);
        assert(forall|k: int| 0 <= k < rest.len() ==> #[trigger] rest[k] == db[k]);
        let s = surviving(db, live);
        let s_rest = surviving(rest, live);
        assert forall|m: int| 0 <= m < s.len() implies db.contains(#[trigger] s[m])
            && live.contains(s[m].discord_id) by {
            if m < s_rest.len() {
                assert(s[m] == s_rest[m]);
                assert(rest.contains(s_rest[m]));
                let d = choose|d: int| 0 <= d < rest.len() && rest[d] == s_rest[m];
                assert(db[d] == s[m]);
            } else {
                assert(live.contains(db.last().discord_id));
                assert(s[m] == db.last());
                assert(db[db.len() - 1] == db.last());
            }
        }
        assert forall|d: int|
            0 <= d < db.len() && live.contains(#[trigger] db[d].discord_id) implies s.contains(
            db[d],
        ) by {
            if d < db.len() - 1 {
                assert(rest[d] == db[d]);
                assert(s_rest.contains(rest[d]));
                let m = choose|m: int| 0 <= m < s_rest.len() && s_rest[m] == rest[d];
                assert(s[m] == db[d]);
            } else {
                assert(live.contains(db.last().discord_id));
                assert(s[s.len() - 1] == db[d]);
            }
        }
        if sorted_by_id(db) && ids_unique(db) {
            assert(sorted_by_id(rest) && ids_unique(rest));
            assert forall|m1: int, m2: int| 0 <= m1 < m2 < s.len() implies s[m1].discord_id
                < s[m2].discord_id by {
                if m2 < s_rest.len() {
                    assert(s[m1] == s_rest[m1] && s[m2] == s_rest[m2]);
                } else {
                    assert(s[m2] == db.last());
                    assert(s[m1] == s_rest[m1]);
                    assert(rest.contains(s_rest[m1]));
                    let d = choose|d: int| 0 <= d < rest.len() && rest[d] == s_rest[m1];
                    assert(db[d].discord_id <= db[db.len() - 1].discord_id);
                    assert(db[d].discord_id != db[db.len() - 1].discord_id);
                }
            }
        }
    }
}

/// The pairing carries identifier `x`.
pub open spec fn carries(
    db: Seq<dao::ServerMember>,
    live: Seq<i64>,
    p: Pairing,
    x: i64,
) -> bool {
    match p {
        Pairing::Matched { db_idx, .. } => db_idx < db.len() && db[db_idx as int].discord_id == x,
        Pairing::Quitter { db_idx } => db_idx < db.len() && db[db_idx as int].discord_id == x,
        Pairing::Newcomer { fetched_idx } => fetched_idx < live.len() && live[fetched_idx as int]
            == x,
    }
}

/// Some pairing carries identifier `x`.
pub open spec fn some_pairing_carries(
    db: Seq<dao::ServerMember>,
    live: Seq<i64>,
    ps: Seq<Pairing>,
    x: i64,
) -> bool {
    exists|k: int| 0 <= k < ps.len() && carries(db, live, #[trigger] ps[k], x)
}

proof fn lemma_each_id_carried(db: Seq<dao::ServerMember>, live: Seq<i64>, ps: Seq<Pairing>, x: i64)
    requires
        pairings_ok(db, live, ps),
        ids_of(db).contains(x) || live.contains(x),
    ensures
        some_pairing_carries(db, live, ps, x),
{
    if ids_of(db).contains(x) {
        let d = choose|d: int| 0 <= d < ids_of(db).len() && ids_of(db)[d] == x;
        assert(db[d].discord_id == x);
        assert(covers_db(ps, d));
        let k = choose|k: int| 0 <= k < ps.len() && has_db(#[trigger] ps[k]) && db_idx_of(ps[k]) == d;
        assert(pairing_valid(db, live, ps[k]));
        assert(carries(db, live, ps[k], x));
    } else {
        let j = choose|j: int| 0 <= j < live.len() && live[j] == x;
        assert(covers_fetched(ps, j));
        let k = choose|k: int|
            0 <= k < ps.len() && has_fetched(#[trigger] ps[k]) && fetched_idx_of(ps[k]) == j;
        assert(pairing_valid(db, live, ps[k]));
        match ps[k] {
            Pairing::Matched { db_idx, fetched_idx } => {
                assert(carries(db, live, ps[k], x));
            },
            Pairing::Quitter { .. } => {
                assert(false);
            },
            Pairing::Newcomer { fetched_idx } => {
                assert(carries(db, live, ps[k], x));
            },
        }
    }
}

/// Law: a diff is a partition of the identifiers. Every identifier present
/// in either input is carried by some pairing, and by no more than one, so
/// the matched, quitter and newcomer categories together classify each
/// identifier exactly once, none lost, none duplicated.
pub proof fn lemma_diff_classifies_each_id_once(
    db: Seq<dao::ServerMember>,
    live: Seq<i64>,
    ps: Seq<Pairing>,
)
    requires
        ids_unique(db),
        strictly_ascending(live),
        pairings_ok(db, live, ps),
    ensures
        forall|x: i64|
            ids_of(db).contains(x) || live.contains(x) ==> #[trigger] some_pairing_carries(
                db,
                live,
                ps,
                x,
            ),
        forall|x: i64, k1: int, k2: int|
            0 <= k1 < ps.len() && 0 <= k2 < ps.len() && #[trigger] carries(db, live, ps[k1], x)
                && #[trigger] carries(db, live, ps[k2], x) ==> k1 == k2,
{
    assert forall|x: i64| ids_of(db).contains(x) || live.contains(x) implies
        #[trigger] some_pairing_carries(db, live, ps, x) by {
        lemma_each_id_carried(db, live, ps, x);
    }
    assert forall|x: i64, k1: int, k2: int|
        0 <= k1 < ps.len() && 0 <= k2 < ps.len() && #[trigger] carries(db, live, ps[k1], x)
            && #[trigger] carries(db, live, ps[k2], x) implies k1 == k2 by {
        if k1 != k2 {
            assert(pairing_valid(db, live, ps[k1]));
            assert(pairing_valid(db, live, ps[k2]));
            if has_db(ps[k1]) && has_db(ps[k2]) {
                let d1 = db_idx_of(ps[k1]);
                let d2 = db_idx_of(ps[k2]);
                assert(db[d1].discord_id == x && db[d2].discord_id == x);
                assert(d1 == d2);
                if k1 < k2 {
                    assert(db_idx_of(ps[k1]) < db_idx_of(ps[k2]));
                }
                if k2 < k1 {
                    assert(db_idx_of(ps[k2]) < db_idx_of(ps[k1]));
                }
                assert(false);
            } else {
                let ka = if has_db(ps[k1]) {
                    k1
                } else {
                    k2
                };
                let kb = if has_db(ps[k1]) {
                    k2
                } else {
                    k1
                };
                assert(ps[kb] is Newcomer);
                assert(!ids_of(db).contains(x));
                assert(db[db_idx_of(ps[ka])].discord_id == x);
                assert(ids_of(db)[db_idx_of(ps[ka])] == x);
                assert(false);
            }
        }
    }
}

/// Law: reconciling twice is quiet. When the persisted roster and the live
/// snapshot already hold the same identifiers, as they do after one
/// successful reconciliation, every pairing of a fresh diff is a match, so
/// the second run produces no quitter and no newcomer writes.
pub proof fn lemma_resync_is_quiet(db: Seq<dao::ServerMember>, live: Seq<i64>, ps: Seq<Pairing>)
    requires
        forall|d: int| 0 <= d < db.len() ==> live.contains(#[trigger] db[d].discord_id),
        forall|j: int| 0 <= j < live.len() ==> ids_of(db).contains(#[trigger] live[j]),
        pairings_ok(db, live, ps),
    ensures
        forall|k: int| 0 <= k < ps.len() ==> (#[trigger] ps[k]) is Matched,
{
    assert forall|k: int| 0 <= k < ps.len() implies (#[trigger] ps[k]) is Matched by {
        assert(pairing_valid(db, live, ps[k]));
        match ps[k] {
            Pairing::Matched { .. } => {},
            Pairing::Quitter { db_idx } => {
                assert(live.contains(db[db_idx as int].discord_id));
                assert(false);
            },
            Pairing::Newcomer { fetched_idx } => {
                assert(ids_of(db).contains(live[fetched_idx as int]));
                assert(false);
            },
        }
    }
}

} // verus!
