use vstd::prelude::*;

use crate::entry::LeaderboardEntry;
use crate::entry::clone_entry;
use crate::entry::count_username;
use crate::entry::sorted_desc;
use crate::entry::has_id;
use crate::entry::has_username;
use crate::entry::ids_unique;
use crate::entry::lemma_count_username_positive;
use crate::entry::lemma_id_determines_position;
use crate::entry::lemma_score_of;
use crate::entry::score_of;
use crate::entry::updated_rows;
use crate::errors::LeaderboardError;

verus! {

/// The leaderboard table itself: the rows in insertion order, the next
/// identifier the store will assign, and whether the schema has been set up.
///
/// The store performs raw row operations and keeps no business rule beyond
/// identifier assignment; username uniqueness is the service's concern.
pub struct Store {
    pub entries: Vec<LeaderboardEntry>,
    pub next_id: i32,
    pub ready: bool,
}

/// `s` after `initialize`: the same rows under the same identifier counter,
/// with the schema in place.
pub open spec fn init_step(s: Store) -> Store {
    Store { entries: s.entries, next_id: s.next_id, ready: true }
}

impl Store {
    /// Every identifier is positive, below the next one to be assigned, and
    /// distinct from the others; before the schema exists the table is empty.
    pub open spec fn wf(self) -> bool {
        &&& 1 <= self.next_id <= i32::MAX
        &&& forall|i: int|
            0 <= i < self.entries@.len() ==> 1 <= (#[trigger] self.entries@[i]).id
                < self.next_id
        &&& ids_unique(self.entries@)
        &&& !self.ready ==> self.entries@.len() == 0
    }

    /// A fresh store: no schema yet, no rows, identifiers start at 1.
    pub fn new() -> (s: Store)
        ensures
            s.wf(),
            !s.ready,
            s.entries@.len() == 0,
            s.next_id == 1,
    {
        Store { entries: Vec::new(), next_id: 1, ready: false }
    }

    /// Sets up the schema if it is absent and touches nothing else; calling
    /// it on a store that is already set up changes nothing.
    pub fn initialize(&mut self)
        requires
            old(self).wf(),
        ensures
            final(self).wf(),
            *final(self) == init_step(*old(self)),
    {
        self.ready = true;
    }

    /// Appends a new row under the next free identifier and returns that
    /// identifier; fails with `StoreWriteError` exactly when the identifier
    /// space is exhausted, and then changes nothing.
    pub fn insert(&mut self, username: String, highscore: i32, date_created: String) -> (r: Result<
        i32,
        LeaderboardError,
    >)
        requires
            old(self).wf(),
            old(self).ready,
        ensures
            final(self).wf(),
            final(self).ready,
            old(self).next_id == i32::MAX ==> r == Err::<i32, LeaderboardError>(
                LeaderboardError::StoreWriteError,
            ) && *final(self) == *old(self),
            old(self).next_id < i32::MAX ==> {
                &&& r == Ok::<i32, LeaderboardError>(old(self).next_id)
                &&& final(self).entries@ == old(self).entries@.push(
                    LeaderboardEntry {
                        id: old(self).next_id,
                        username: username,
                        highscore: highscore,
                        date_created: date_created,
                    },
                )
                &&& final(self).next_id == old(self).next_id + 1
            },
    {
        if self.next_id == i32::MAX {
            return Err(LeaderboardError::StoreWriteError);
        }
        let id = self.next_id;
        let e = LeaderboardEntry { id, username, highscore, date_created };
        self.entries.push(e);
        self.next_id = id + 1;
        Ok(id)
    }

    /// Counts the rows that carry `username`; zero means no such row.
    pub fn count_by_username(&self, username: &String) -> (n: usize)
        ensures
            n == count_username(self.entries@, username@),
            n > 0 <==> has_username(self.entries@, username@),
    {
        let rows = &self.entries;
        let mut n: usize = 0;
        let mut i: usize = 0;
        while i < rows.len()
            invariant
                0 <= i <= rows@.len(),
                n <= i,
                n == count_username(rows@.take(i as int), username@),
            decreases rows@.len() - i,
        {
            proof {
                let prefix = rows@.take(i as int + 1);
                assert(prefix.drop_last() =~= rows@.take(i as int));
                assert(prefix.last() == rows@[i as int]);
                assert(count_username(prefix, username@) == count_username(
                    rows@.take(i as int),
                    username@,
                ) + if rows@[i as int].username@ == username@ {
                    1nat
                } else {
                    0nat
                });
            }
            if rows[i].username == *username {
                n = n + 1;
            }
            i = i + 1;
        }
        proof {
            assert(rows@.take(rows@.len() as int) =~= rows@);
            lemma_count_username_positive(rows@, username@);
        }
        n
    }

    /// Looks up the score stored under `id`; fails with `NotFound` exactly
    /// when no row carries that identifier.
    pub fn get_score(&self, id: i32) -> (r: Result<i32, LeaderboardError>)
        requires
            self.wf(),
        ensures
            has_id(self.entries@, id) ==> r == Ok::<i32, LeaderboardError>(
                score_of(self.entries@, id),
            ),
            !has_id(self.entries@, id) ==> r == Err::<i32, LeaderboardError>(
                LeaderboardError::NotFound,
            ),
    {
        let rows = &self.entries;
        let mut i: usize = 0;
        while i < rows.len()
            invariant
                0 <= i <= rows@.len(),
                self.wf(),
                rows == &self.entries,
                forall|t: int| 0 <= t < i ==> (#[trigger] rows@[t]).id != id,
            decreases rows@.len() - i,
        {
            if rows[i].id == id {
                proof {
                    lemma_score_of(rows@, i as int);
                }
                return Ok(rows[i].highscore);
            }
            i = i + 1;
        }
        Err(LeaderboardError::NotFound)
    }

    /// Sets the score of the row carrying `id` and reports how many rows
    /// that affected: one when the row exists, zero when it does not — a
    /// missing identifier is not an error at this layer. No other row, and
    /// no other field, changes.
    pub fn update_score(&mut self, id: i32, new_score: i32) -> (n: usize)
        requires
            old(self).wf(),
            old(self).ready,
        ensures
            final(self).wf(),
            final(self).ready,
            n <= 1,
            n == 1 <==> has_id(old(self).entries@, id),
            final(self).entries@ == updated_rows(old(self).entries@, id, new_score),
            final(self).next_id == old(self).next_id,
            !has_id(old(self).entries@, id) ==> *final(self) == *old(self),
    {
        let ghost rows0 = self.entries@;
        let len = self.entries.len();
        let mut i: usize = 0;
        while i < len
            invariant
                0 <= i <= len,
                len == rows0.len(),
                *self == *old(self),
                old(self).wf(),
                old(self).ready,
                rows0 == old(self).entries@,
                forall|t: int| 0 <= t < i ==> (#[trigger] rows0[t]).id != id,
            decreases len - i,
        {
            if self.entries[i].id == id {
                self.entries[i].highscore = new_score;
                proof {
                    let rows1 = self.entries@;
                    assert(rows1 == rows0.update(
                        i as int,
                        LeaderboardEntry {
                            id: rows0[i as int].id,
                            username: rows0[i as int].username,
                            highscore: new_score,
                            date_created: rows0[i as int].date_created,
                        },
                    ));
                    assert forall|j: int| 0 <= j < rows0.len() && j != i as int implies (
                    #[trigger] rows0[j]).id != id by {
                        if rows0[j].id == id {
                            lemma_id_determines_position(rows0, j, i as int);
                        }
                    }
                    assert(rows1 =~= updated_rows(rows0, id, new_score));
                    assert(forall|j: int|
                        0 <= j < rows1.len() ==> (#[trigger] rows1[j]).id == rows0[j].id);
                }
                return 1;
            }
            i = i + 1;
        }
        proof {
            assert(self.entries@ =~= updated_rows(rows0, id, new_score));
        }
        0
    }

    /// Produces the full listing, ranked by score descending; the result
    /// holds exactly the stored rows, and an empty table yields an empty
    /// listing, not an error. Rows with equal scores may come out in any
    /// order.
    pub fn list_all(&self) -> (r: Vec<LeaderboardEntry>)
        ensures
            r@.to_multiset() == self.entries@.to_multiset(),
            r@.len() == self.entries@.len(),
            sorted_desc(r@),
    {
        broadcast use vstd::seq_lib::group_to_multiset_ensures;
        broadcast use vstd::multiset::group_multiset_axioms;

        let mut work: Vec<LeaderboardEntry> = Vec::new();
        let mut i: usize = 0;
        while i < self.entries.len()
            invariant
                0 <= i <= self.entries@.len(),
                work@ == self.entries@.take(i as int),
            decreases self.entries@.len() - i,
        {
            work.push(clone_entry(&self.entries[i]));
            proof {
                assert(self.entries@.take(i as int + 1) =~= self.entries@.take(i as int).push(
                    self.entries@[i as int],
                ));
            }
            i = i + 1;
        }
        proof {
            assert(self.entries@.take(self.entries@.len() as int) =~= self.entries@);
        }
        let ghost total = self.entries@.to_multiset();
        let mut out: Vec<LeaderboardEntry> = Vec::new();
        while work.len() > 0
            invariant
                out@.to_multiset().add(work@.to_multiset()) == total,
                out@.len() + work@.len() == total.len(),
                total == self.entries@.to_multiset(),
                total.len() == self.entries@.len(),
                sorted_desc(out@),
                forall|a: int, b: int|
                    0 <= a < out@.len() && 0 <= b < work@.len() ==> (#[trigger] out@[a]).highscore
                        >= (#[trigger] work@[b]).highscore,
            decreases work@.len(),
        {
            let mut m: usize = 0;
            let mut k: usize = 1;
            while k < work.len()
                invariant
                    0 < work@.len(),
                    0 <= m < work@.len(),
                    1 <= k <= work@.len(),
                    forall|t: int|
                        0 <= t < k ==> work@[m as int].highscore >= (#[trigger] work@[t]).highscore,
                decreases work@.len() - k,
            {
                if work[k].highscore > work[m].highscore {
                    m = k;
                }
                k = k + 1;
            }
            let ghost out0 = out@;
            let ghost work0 = work@;
            let e = work.remove(m);
            out.push(e);
            proof {
                broadcast use vstd::seq_lib::group_to_multiset_ensures;
                broadcast use vstd::multiset::group_multiset_axioms;

                assert(work0.contains(e));
                assert(work0.to_multiset().count(e) > 0);
                assert(out@.to_multiset() == out0.to_multiset().insert(e));
                assert(work@.to_multiset() == work0.to_multiset().remove(e));
                assert forall|x: LeaderboardEntry|
                    out@.to_multiset().add(work@.to_multiset()).count(x) == out0.to_multiset().add(
                        work0.to_multiset(),
                    ).count(x) by {
                    assert(out@.to_multiset().count(x) == out0.to_multiset().count(x) + if x == e {
                        1int
                    } else {
                        0int
                    });
                    assert(work@.to_multiset().count(x) == work0.to_multiset().count(x) - if x
                        == e {
                        1int
                    } else {
                        0int
                    });
                }
                assert(out@.to_multiset().add(work@.to_multiset()) =~= out0.to_multiset().add(
                    work0.to_multiset(),
                ));
                assert forall|j: int| 0 <= j < work@.len() implies e.highscore >= (
                #[trigger] work@[j]).highscore by {
                    assert(work@[j] == if j < m as int {
                        work0[j]
                    } else {
                        work0[j + 1]
                    });
                }
                assert(forall|a: int|
                    0 <= a < out@.len() ==> (#[trigger] out@[a]).highscore >= e.highscore);
            }
        }
        out
    }
}

/// Setting up the schema twice is the same as setting it up once: the second
/// call finds the table present and leaves the store exactly as it was.
pub proof fn lemma_initialize_idempotent(s: Store)
    ensures
        init_step(init_step(s)) == init_step(s),
{
}

} // verus!
