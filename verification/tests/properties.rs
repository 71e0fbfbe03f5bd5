use leaderboard::entry::LeaderboardEntry;
use leaderboard::errors::LeaderboardError;
use leaderboard::service::LeaderboardService;
use leaderboard::store::Store;

fn row(id: i32, username: &str, highscore: i32) -> LeaderboardEntry {
    LeaderboardEntry {
        id,
        username: username.to_string(),
        highscore,
        date_created: "2024-01-01 00:00:00.0 +00:00:00".to_string(),
    }
}

#[test]
fn initialize_twice_leaves_the_store_usable_and_unchanged() {
    let mut store = Store::new();
    store.initialize();
    store.initialize();
    let id = store
        .insert("alice".to_string(), 10, "2024-01-01".to_string())
        .expect("insert into an initialized store must succeed");
    assert_eq!(id, 1);
    assert_eq!(store.list_all().len(), 1);

    store.initialize();
    assert_eq!(store.list_all().len(), 1);
}

#[test]
fn second_registration_for_a_username_never_alters_its_score() {
    let mut s = LeaderboardService::new();
    let first = s.register_user("carol".to_string(), 7).expect("registration must succeed");
    let second = s.register_user("carol".to_string(), 1000);
    assert_eq!(second, Err(LeaderboardError::AlreadyExists));
    assert_eq!(s.get_highscore(first.id), Ok(7));
    assert_eq!(s.store.count_by_username(&"carol".to_string()), 1);
}

#[test]
fn update_of_missing_id_reports_not_found_and_changes_nothing() {
    let mut s = LeaderboardService::new();
    s.register_user("dave".to_string(), 3).expect("registration must succeed");
    assert_eq!(s.update_score(42, 50), Err(LeaderboardError::NotFound));
    assert_eq!(s.get_highscore(1), Ok(3));
}

#[test]
fn listing_is_sorted_descending_with_ties_allowed() {
    let mut s = LeaderboardService::new();
    let players = [("p1", 5), ("p2", 90), ("p3", 17), ("p4", 90), ("p5", 0), ("p6", 17)];
    for (name, score) in players {
        s.register_user(name.to_string(), score).expect("registration must succeed");
    }
    let board = s.get_leaderboard();
    assert_eq!(board.len(), players.len());
    for pair in board.windows(2) {
        assert!(pair[0].highscore >= pair[1].highscore);
    }
    let scores: Vec<i32> = board.iter().map(|e| e.highscore).collect();
    assert_eq!(scores, vec![90, 90, 17, 17, 5, 0]);
}

#[test]
fn store_update_reports_how_many_rows_were_affected() {
    let mut store = Store::new();
    store.initialize();
    store
        .insert("erin".to_string(), 1, "2024-01-01".to_string())
        .expect("insert into an initialized store must succeed");
    assert_eq!(store.update_score(1, 8), 1);
    assert_eq!(store.update_score(2, 8), 0);
    assert_eq!(store.get_score(1), Ok(8));
    assert_eq!(store.get_score(2), Err(LeaderboardError::NotFound));
}

#[test]
fn load_accepts_a_valid_table_and_assigns_fresh_ids_above_it() {
    let rows = vec![row(3, "alice", 10), row(7, "bob", 20)];
    let mut s = LeaderboardService::load(rows).expect("a valid table must load");
    assert_eq!(s.get_highscore(3), Ok(10));
    assert_eq!(s.get_highscore(7), Ok(20));
    let e = s.register_user("carol".to_string(), 15).expect("registration must succeed");
    assert_eq!(e.id, 8);
}

#[test]
fn load_rejects_duplicate_ids() {
    let rows = vec![row(1, "alice", 10), row(1, "bob", 20)];
    assert!(LeaderboardService::load(rows).is_none());
}

#[test]
fn load_rejects_duplicate_usernames() {
    let rows = vec![row(1, "alice", 10), row(2, "alice", 20)];
    assert!(LeaderboardService::load(rows).is_none());
}

#[test]
fn load_rejects_out_of_range_ids() {
    assert!(LeaderboardService::load(vec![row(0, "alice", 10)]).is_none());
    assert!(LeaderboardService::load(vec![row(-4, "bob", 10)]).is_none());
    assert!(LeaderboardService::load(vec![row(i32::MAX, "carol", 10)]).is_none());
}

#[test]
fn registration_fails_with_store_write_error_when_ids_are_exhausted() {
    let rows = vec![row(i32::MAX - 1, "alice", 10)];
    let mut s = LeaderboardService::load(rows).expect("a valid table must load");
    let r = s.register_user("bob".to_string(), 20);
    assert_eq!(r, Err(LeaderboardError::StoreWriteError));
    assert_eq!(s.get_leaderboard().len(), 1);
}

#[test]
fn registered_entries_carry_a_wall_clock_timestamp() {
    let mut s = LeaderboardService::new();
    let e = s.register_user("frank".to_string(), 1).expect("registration must succeed");
    assert!(!e.date_created.is_empty());
    let board = s.get_leaderboard();
    assert_eq!(board[0].date_created, e.date_created);
}
