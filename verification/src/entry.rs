use vstd::prelude::*;

verus! {

/// One row of the leaderboard: a player's identity and current score.
///
/// `id` is assigned by the store on creation and never changes; `username`
/// and `date_created` are fixed at creation; `highscore` may be raised or
/// lowered arbitrarily often.
#[derive(Debug, PartialEq, Eq)]
pub struct LeaderboardEntry {
    pub id: i32,
    pub username: String,
    pub highscore: i32,
    pub date_created: String,
}

/// Some entry in `rows` carries the identifier `id`.
pub open spec fn has_id(rows: Seq<LeaderboardEntry>, id: i32) -> bool {
    exists|i: int| 0 <= i < rows.len() && rows[i].id == id
}

/// Some entry in `rows` carries the username `name`.
pub open spec fn has_username(rows: Seq<LeaderboardEntry>, name: Seq<char>) -> bool {
    exists|i: int| 0 <= i < rows.len() && rows[i].username@ == name
}

/// The score stored under `id`; meaningful only when `has_id(rows, id)`
/// and the identifiers in `rows` are distinct.
pub open spec fn score_of(rows: Seq<LeaderboardEntry>, id: i32) -> i32 {
    let i = choose|i: int| 0 <= i < rows.len() && rows[i].id == id;
    rows[i].highscore
}

/// No two entries share an identifier.
pub open spec fn ids_unique(rows: Seq<LeaderboardEntry>) -> bool {
    forall|i: int, j: int|
        0 <= i < j < rows.len() ==> rows[i].id != rows[j].id
}

/// No two entries share a username.
pub open spec fn usernames_unique(rows: Seq<LeaderboardEntry>) -> bool {
    forall|i: int, j: int|
        0 <= i < j < rows.len() ==> rows[i].username@ != rows[j].username@
}

/// Scores never increase along `rows`: every pair in order, adjacent pairs
/// included, is ranked highest first.
pub open spec fn sorted_desc(rows: Seq<LeaderboardEntry>) -> bool {
    forall|i: int, j: int|
        0 <= i < j < rows.len() ==> rows[i].highscore >= rows[j].highscore
}

/// `rows` with the score under `id` set to `score`; entries with another
/// identifier are untouched, and the order of the rows is kept.
pub open spec fn updated_rows(rows: Seq<LeaderboardEntry>, id: i32, score: i32) -> Seq<
    LeaderboardEntry,
> {
    rows.map_values(
        |e: LeaderboardEntry|
            if e.id == id {
                LeaderboardEntry {
                    id: e.id,
                    username: e.username,
                    highscore: score,
                    date_created: e.date_created,
                }
            } else {
                e
            },
    )
}

/// How many entries in `rows` carry the username `name`.
pub open spec fn count_username(rows: Seq<LeaderboardEntry>, name: Seq<char>) -> nat
    decreases rows.len(),
{
    if rows.len() == 0 {
        0
    } else {
        count_username(rows.drop_last(), name) + if rows.last().username@ == name {
            1nat
        } else {
            0nat
        }
    }
}

/// Two distinct positions never carry the same identifier when the
/// identifiers are unique, so a position is determined by its identifier.
pub proof fn lemma_id_determines_position(rows: Seq<LeaderboardEntry>, i: int, j: int)
    requires
        ids_unique(rows),
        0 <= i < rows.len(),
        0 <= j < rows.len(),
        rows[i].id == rows[j].id,
    ensures
        i == j,
{
}

/// `score_of` reads back exactly the score stored at the position that
/// carries the identifier.
pub proof fn lemma_score_of(rows: Seq<LeaderboardEntry>, k: int)
    requires
        ids_unique(rows),
        0 <= k < rows.len(),
    ensures
        score_of(rows, rows[k].id) == rows[k].highscore,
{
    let id = rows[k].id;
    assert(has_id(rows, id));
    let j = choose|i: int| 0 <= i < rows.len() && rows[i].id == id;
    lemma_id_determines_position(rows, j, k);
}

/// A positive username count and the existence of a matching entry are the
/// same thing.
pub proof fn lemma_count_username_positive(rows: Seq<LeaderboardEntry>, name: Seq<char>)
    ensures
        count_username(rows, name) > 0 <==> has_username(rows, name),
    decreases rows.len(),
{
    if rows.len() > 0 {
        lemma_count_username_positive(rows.drop_last(), name);
        if rows.last().username@ == name {
            assert(rows[rows.len() - 1].username@ == name);
        } else if has_username(rows.drop_last(), name) {
            let i = choose|i: int|
                0 <= i < rows.drop_last().len() && rows.drop_last()[i].username@ == name;
            assert(rows[i].username@ == name);
        } else if has_username(rows, name) {
            let i = choose|i: int| 0 <= i < rows.len() && rows[i].username@ == name;
            assert(0 <= i < rows.len() - 1);
            assert(rows.drop_last()[i].username@ == name);
        }
    }
}

/// Copies an entry field by field; the copy equals the original.
pub fn clone_entry(e: &LeaderboardEntry) -> (r: LeaderboardEntry)
    ensures
        r == *e,
{
    LeaderboardEntry {
        id: e.id,
        username: e.username.clone(),
        highscore: e.highscore,
        date_created: e.date_created.clone(),
    }
}

} // verus!
