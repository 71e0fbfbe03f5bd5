use vstd::prelude::*;

use crate::clock::now_timestamp;
use crate::entry::LeaderboardEntry;
use crate::entry::count_username;
use crate::entry::has_id;
use crate::entry::has_username;
use crate::entry::ids_unique;
use crate::entry::lemma_count_username_positive;
use crate::entry::lemma_id_determines_position;
use crate::entry::score_of;
use crate::entry::sorted_desc;
use crate::entry::updated_rows;
use crate::entry::usernames_unique;
use crate::errors::LeaderboardError;
use crate::store::Store;

verus! {

/// The business layer over the store: it refuses duplicate usernames,
/// reports missing identifiers as `NotFound`, and hands the listing out
/// ranked by score.
///
/// Each operation works on `&mut self` or `&self` in one call, so a caller
/// that holds the service behind one lock gets every rule — the existence
/// check and the insert of a registration included — as a single critical
/// section.
pub struct LeaderboardService {
    pub store: Store,
}

/// Rows the service accepts as an initial table: identifiers positive,
/// below the largest assignable one, and distinct, and usernames distinct.
pub open spec fn valid_rows(rows: Seq<LeaderboardEntry>) -> bool {
    &&& ids_unique(rows)
    &&& usernames_unique(rows)
    &&& forall|i: int| 0 <= i < rows.len() ==> 1 <= (#[trigger] rows[i]).id < i32::MAX
}

/// What one registration does to the table: a duplicate username leaves it
/// unchanged and reports `AlreadyExists`; an exhausted identifier space
/// leaves it unchanged and reports `StoreWriteError`; otherwise the new
/// entry is appended under the next identifier and returned.
pub open spec fn register_step(
    rows: Seq<LeaderboardEntry>,
    next_id: i32,
    username: String,
    initial_score: i32,
    date_created: String,
) -> (Seq<LeaderboardEntry>, i32, Result<LeaderboardEntry, LeaderboardError>) {
    if has_username(rows, username@) {
        (rows, next_id, Err(LeaderboardError::AlreadyExists))
    } else if next_id == i32::MAX {
        (rows, next_id, Err(LeaderboardError::StoreWriteError))
    } else {
        let e = LeaderboardEntry {
            id: next_id,
            username: username,
            highscore: initial_score,
            date_created: date_created,
        };
        (rows.push(e), (next_id + 1) as i32, Ok(e))
    }
}

impl LeaderboardService {
    /// The store is well formed with its schema in place, and no two entries
    /// share a username.
    pub open spec fn wf(self) -> bool {
        &&& self.store.wf()
        &&& self.store.ready
        &&& usernames_unique(self.store.entries@)
    }

    /// A service over a fresh, empty store with the schema set up.
    pub fn new() -> (s: LeaderboardService)
        ensures
            s.wf(),
            s.store.entries@.len() == 0,
            s.store.next_id == 1,
    {
        let mut store = Store::new();
        store.initialize();
        LeaderboardService { store }
    }

    /// Rebuilds a service around rows read back from a durable copy of the
    /// table. Returns `None` exactly when the rows could not have been
    /// produced under the service's rules; otherwise the service holds the
    /// rows as given and assigns identifiers from just above the largest
    /// loaded one.
    pub fn load(rows: Vec<LeaderboardEntry>) -> (r: Option<LeaderboardService>)
        ensures
            r is Some <==> valid_rows(rows@),
            r matches Some(s) ==> {
                &&& s.wf()
                &&& s.store.entries@ == rows@
                &&& rows@.len() == 0 ==> s.store.next_id == 1
                &&& rows@.len() > 0 ==> has_id(rows@, (s.store.next_id - 1) as i32)
            },
    {
        let len = rows.len();
        let mut max_id: i32 = 0;
        let mut i: usize = 0;
        while i < len
            invariant
                0 <= i <= len,
                len == rows@.len(),
                0 <= max_id < i32::MAX,
                forall|t: int| 0 <= t < i ==> 1 <= (#[trigger] rows@[t]).id <= max_id,
                i == 0 ==> max_id == 0,
                i > 0 ==> has_id(rows@, max_id),
            decreases len - i,
        {
            let id = rows[i].id;
            if id < 1 || id == i32::MAX {
                proof {
                    assert(!(1 <= rows@[i as int].id < i32::MAX));
                }
                return None;
            }
            if id > max_id {
                max_id = id;
                proof {
                    assert(0 <= i < rows@.len() && rows@[i as int].id == max_id);
                }
            }
            i = i + 1;
        }
        i = 0;
        while i < len
            invariant
                0 <= i <= len,
                len == rows@.len(),
                forall|a: int, b: int|
                    0 <= a < b < len && a < i ==> (#[trigger] rows@[a]).id != (
                    #[trigger] rows@[b]).id,
                forall|a: int, b: int|
                    0 <= a < b < len && a < i ==> (#[trigger] rows@[a]).username@ != (
                    #[trigger] rows@[b]).username@,
            decreases len - i,
        {
            let mut j = i + 1;
            while j < len
                invariant
                    0 <= i < j <= len,
                    len == rows@.len(),
                    forall|b: int|
                        i < b < j ==> rows@[i as int].id != (#[trigger] rows@[b]).id,
                    forall|b: int|
                        i < b < j ==> rows@[i as int].username@ != (#[trigger] rows@[b]).username@,
                decreases len - j,
            {
                if rows[i].id == rows[j].id {
                    proof {
                        assert(!ids_unique(rows@));
                    }
                    return None;
                }
                if rows[i].username == rows[j].username {
                    proof {
                        assert(!usernames_unique(rows@));
                    }
                    return None;
                }
                j = j + 1;
            }
            i = i + 1;
        }
        let store = Store { entries: rows, next_id: max_id + 1, ready: true };
        Some(LeaderboardService { store })
    }

    /// Registers a player under a caller-supplied creation timestamp. A
    /// username that already has an entry is reported as `AlreadyExists`, an
    /// exhausted identifier space as `StoreWriteError`, and in both cases
    /// nothing changes; otherwise the created entry is appended and
    /// returned. The whole step follows `register_step`.
    pub fn register_with_timestamp(
        &mut self,
        username: String,
        initial_score: i32,
        date_created: String,
    ) -> (r: Result<LeaderboardEntry, LeaderboardError>)
        requires
            old(self).wf(),
        ensures
            final(self).wf(),
            ({
                let (rows2, next2, out) = register_step(
                    old(self).store.entries@,
                    old(self).store.next_id,
                    username,
                    initial_score,
                    date_created,
                );
                &&& final(self).store.entries@ == rows2
                &&& final(self).store.next_id == next2
                &&& r == out
            }),
            r is Err ==> *final(self) == *old(self),
    {
        let already = self.store.count_by_username(&username);
        if already > 0 {
            return Err(LeaderboardError::AlreadyExists);
        }
        let username_kept = username.clone();
        let date_kept = date_created.clone();
        let ghost rows0 = self.store.entries@;
        match self.store.insert(username, initial_score, date_created) {
            Ok(id) => {
                let e = LeaderboardEntry {
                    id,
                    username: username_kept,
                    highscore: initial_score,
                    date_created: date_kept,
                };
                proof {
                    let rows1 = self.store.entries@;
                    assert(rows1 == rows0.push(e));
                    assert forall|a: int, b: int|
                        0 <= a < b < rows1.len() implies (#[trigger] rows1[a]).username@ != (
                    #[trigger] rows1[b]).username@ by {
                        if b == rows1.len() - 1 {
                            assert(rows1[a] == rows0[a]);
                            assert(!(rows0[a].username@ == username@));
                        }
                    }
                }
                Ok(e)
            },
            Err(err) => Err(err),
        }
    }

    /// Registers a player with the current wall-clock time as the creation
    /// timestamp. Apart from that timestamp, which the clock supplies, the
    /// outcome is the one `register_with_timestamp` pins down: a duplicate
    /// username is reported as `AlreadyExists`, an exhausted identifier
    /// space as `StoreWriteError`, and either way nothing changes; otherwise
    /// the created entry is appended under the next identifier and returned.
    pub fn register_user(&mut self, username: String, initial_score: i32) -> (r: Result<
        LeaderboardEntry,
        LeaderboardError,
    >)
        requires
            old(self).wf(),
        ensures
            final(self).wf(),
            has_username(old(self).store.entries@, username@) <==> r == Err::<
                LeaderboardEntry,
                LeaderboardError,
            >(LeaderboardError::AlreadyExists),
            (!has_username(old(self).store.entries@, username@) && old(self).store.next_id
                == i32::MAX) <==> r == Err::<LeaderboardEntry, LeaderboardError>(
                LeaderboardError::StoreWriteError,
            ),
            r is Err ==> (*final(self) == *old(self) && (r == Err::<
                LeaderboardEntry,
                LeaderboardError,
            >(LeaderboardError::AlreadyExists) || r == Err::<LeaderboardEntry, LeaderboardError>(
                LeaderboardError::StoreWriteError,
            ))),
            r matches Ok(e) ==> {
                &&& e.id == old(self).store.next_id
                &&& e.username == username
                &&& e.highscore == initial_score
                &&& final(self).store.entries@ == old(self).store.entries@.push(e)
                &&& final(self).store.next_id == old(self).store.next_id + 1
            },
    {
        let stamp = now_timestamp();
        self.register_with_timestamp(username, initial_score, stamp)
    }

    /// Sets the score stored under `id`. A missing identifier is reported as
    /// `NotFound` — never as a generic failure — and then nothing changes;
    /// otherwise exactly that row's score becomes `new_score`.
    pub fn update_score(&mut self, id: i32, new_score: i32) -> (r: Result<(), LeaderboardError>)
        requires
            old(self).wf(),
        ensures
            final(self).wf(),
            has_id(old(self).store.entries@, id) <==> r == Ok::<(), LeaderboardError>(()),
            !has_id(old(self).store.entries@, id) ==> r == Err::<(), LeaderboardError>(
                LeaderboardError::NotFound,
            ) && *final(self) == *old(self),
            final(self).store.entries@ == updated_rows(old(self).store.entries@, id, new_score),
            final(self).store.next_id == old(self).store.next_id,
    {
        let ghost rows0 = self.store.entries@;
        let n = self.store.update_score(id, new_score);
        proof {
            let rows1 = self.store.entries@;
            assert forall|a: int, b: int|
                0 <= a < b < rows1.len() implies (#[trigger] rows1[a]).username@ != (
            #[trigger] rows1[b]).username@ by {
                assert(rows0[a].username@ != rows0[b].username@);
                assert(rows1[a].username == rows0[a].username);
                assert(rows1[b].username == rows0[b].username);
            }
        }
        if n == 0 {
            Err(LeaderboardError::NotFound)
        } else {
            Ok(())
        }
    }

    /// Looks up the score stored under `id`; a missing identifier is
    /// reported as `NotFound`, never as a generic failure.
    pub fn get_highscore(&self, id: i32) -> (r: Result<i32, LeaderboardError>)
        requires
            self.wf(),
        ensures
            has_id(self.store.entries@, id) ==> r == Ok::<i32, LeaderboardError>(
                score_of(self.store.entries@, id),
            ),
            !has_id(self.store.entries@, id) ==> r == Err::<i32, LeaderboardError>(
                LeaderboardError::NotFound,
            ),
    {
        self.store.get_score(id)
    }

    /// Hands out the full table ranked by score descending: exactly the
    /// stored rows, highest score first.
    pub fn get_leaderboard(&self) -> (r: Vec<LeaderboardEntry>)
        ensures
            r@.to_multiset() == self.store.entries@.to_multiset(),
            r@.len() == self.store.entries@.len(),
            sorted_desc(r@),
    {
        self.store.list_all()
    }
}

/// Registration uniqueness: once a registration for a username has
/// succeeded, a further registration under the same username — whatever its
/// score or timestamp — reports `AlreadyExists` and leaves every row, the
/// stored score included, exactly as it was; exactly one entry for that
/// username remains. Two registrations racing for one username serialize to
/// these two steps, since each registration runs as one critical section.
pub proof fn lemma_register_unique(
    rows: Seq<LeaderboardEntry>,
    next_id: i32,
    u1: String,
    s1: i32,
    d1: String,
    u2: String,
    s2: i32,
    d2: String,
)
    requires
        register_step(rows, next_id, u1, s1, d1).2 is Ok,
        u2@ == u1@,
    ensures
        ({
            let (rows1, next1, _) = register_step(rows, next_id, u1, s1, d1);
            let (rows_after, next_after, out) = register_step(rows1, next1, u2, s2, d2);
            &&& out == Err::<LeaderboardEntry, LeaderboardError>(LeaderboardError::AlreadyExists)
            &&& rows_after == rows1
            &&& next_after == next1
            &&& count_username(rows_after, u2@) == 1
        }),
{
    let (rows1, next1, _) = register_step(rows, next_id, u1, s1, d1);
    assert(rows1[rows1.len() - 1].username@ == u1@);
    assert(has_username(rows1, u2@));
    lemma_count_username_positive(rows, u1@);
    assert(count_username(rows, u1@) == 0);
    assert(rows1.drop_last() =~= rows);
    assert(rows1.last().username@ == u1@);
    assert(count_username(rows1, u1@) == count_username(rows, u1@) + 1);
}

/// Update correctness: after the score under an existing identifier is set
/// to `new_score`, the lookup of that identifier reads back exactly
/// `new_score`; the identifiers themselves, and their uniqueness, are
/// untouched.
pub proof fn lemma_update_then_get(rows: Seq<LeaderboardEntry>, id: i32, new_score: i32)
    requires
        ids_unique(rows),
        has_id(rows, id),
    ensures
        has_id(updated_rows(rows, id, new_score), id),
        ids_unique(updated_rows(rows, id, new_score)),
        score_of(updated_rows(rows, id, new_score), id) == new_score,
{
    let rows1 = updated_rows(rows, id, new_score);
    assert(forall|j: int| 0 <= j < rows1.len() ==> (#[trigger] rows1[j]).id == rows[j].id);
    let i = choose|i: int| 0 <= i < rows.len() && rows[i].id == id;
    assert(rows1[i].id == id);
    assert(rows1[i].highscore == new_score);
    let k = choose|k: int| 0 <= k < rows1.len() && rows1[k].id == id;
    lemma_id_determines_position(rows1, k, i);
}

} // verus!
