use leaderboard::errors::LeaderboardError;
use leaderboard::service::LeaderboardService;

#[test]
fn register_alice_creates_first_entry() {
    let mut s = LeaderboardService::new();
    let e = s.register_user("alice".to_string(), 10).expect("registration must succeed");
    assert_eq!(e.id, 1);
    assert_eq!(e.username, "alice");
    assert_eq!(e.highscore, 10);

    let board = s.get_leaderboard();
    assert_eq!(board.len(), 1);
    assert_eq!(board[0].id, 1);
    assert_eq!(board[0].username, "alice");
    assert_eq!(board[0].highscore, 10);
}

#[test]
fn leaderboard_is_sorted_descending_after_second_registration() {
    let mut s = LeaderboardService::new();
    s.register_user("alice".to_string(), 10).expect("registration must succeed");
    let bob = s.register_user("bob".to_string(), 20).expect("registration must succeed");
    assert_eq!(bob.id, 2);

    let board = s.get_leaderboard();
    assert_eq!(board.len(), 2);
    assert_eq!(board[0].username, "bob");
    assert_eq!(board[0].highscore, 20);
    assert_eq!(board[1].username, "alice");
    assert_eq!(board[1].highscore, 10);
}

#[test]
fn update_changes_score_and_reorders_listing() {
    let mut s = LeaderboardService::new();
    s.register_user("alice".to_string(), 10).expect("registration must succeed");
    s.register_user("bob".to_string(), 20).expect("registration must succeed");

    s.update_score(1, 30).expect("update of an existing id must succeed");
    assert_eq!(s.get_highscore(1), Ok(30));

    let board = s.get_leaderboard();
    assert_eq!(board.len(), 2);
    assert_eq!(board[0].username, "alice");
    assert_eq!(board[0].highscore, 30);
    assert_eq!(board[1].username, "bob");
    assert_eq!(board[1].highscore, 20);
}

#[test]
fn duplicate_registration_reports_already_exists_and_changes_nothing() {
    let mut s = LeaderboardService::new();
    s.register_user("alice".to_string(), 10).expect("registration must succeed");
    s.register_user("bob".to_string(), 20).expect("registration must succeed");
    s.update_score(1, 30).expect("update of an existing id must succeed");

    let again = s.register_user("alice".to_string(), 99);
    assert_eq!(again, Err(LeaderboardError::AlreadyExists));
    assert_eq!(s.get_highscore(1), Ok(30));
    assert_eq!(s.get_leaderboard().len(), 2);
}

#[test]
fn lookup_of_missing_id_reports_not_found() {
    let mut s = LeaderboardService::new();
    s.register_user("alice".to_string(), 10).expect("registration must succeed");
    assert_eq!(s.get_highscore(999), Err(LeaderboardError::NotFound));
}
