//! The leaderboard engine: submission processing, ranking and statistics.

use score_ledger::{GameScore, ScoreError, ScoreManager, ScoreSubmission};

/// A record with chosen fields and its content hash already computed.
fn hashed_record(player: &str, score: u32, timestamp: u64, difficulty: u8) -> GameScore {
    let mut record = GameScore {
        player_id: player.to_string(),
        score,
        timestamp,
        game_session_id: format!("session_{}", score),
        difficulty_level: difficulty,
        proof_hash: String::new(),
    };
    record.compute_proof_hash();
    record
}

#[test]
fn test_score_submission_validation() {
    let valid = ScoreSubmission::new("Alice".to_string(), 100, 1);
    assert!(valid.validate().is_ok());

    let invalid_id = ScoreSubmission::new("".to_string(), 100, 1);
    assert!(invalid_id.validate().is_err());

    let invalid_score = ScoreSubmission::new("Alice".to_string(), 2_000_000, 1);
    assert!(invalid_score.validate().is_err());

    let invalid_difficulty = ScoreSubmission::new("Alice".to_string(), 100, 15);
    assert!(invalid_difficulty.validate().is_err());
}

#[test]
fn test_score_processing() {
    let submission = ScoreSubmission::new("Bob".to_string(), 250, 2);
    let mut manager = ScoreManager::new();
    let result = manager.process_score(submission);

    assert!(result.is_ok());
    let response = result.unwrap();
    assert!(response.success);
    assert!(response.proof.is_some());
    assert!(response.leaderboard_position.is_some());
}

#[test]
fn test_validation_error_kinds() {
    let blank = ScoreSubmission::new("   ".to_string(), 100, 1);
    assert_eq!(blank.validate(), Err(ScoreError::EmptyPlayerId));
    let zero = ScoreSubmission::new("Alice".to_string(), 0, 1);
    assert_eq!(zero.validate(), Err(ScoreError::ScoreZero));
    let high = ScoreSubmission::new("Alice".to_string(), 1_000_001, 1);
    assert_eq!(high.validate(), Err(ScoreError::ScoreTooHigh));
    let hard = ScoreSubmission::new("Alice".to_string(), 100, 11);
    assert_eq!(hard.validate(), Err(ScoreError::InvalidDifficulty));
    let edge = ScoreSubmission::new("Alice".to_string(), 1_000_000, 10);
    assert_eq!(edge.validate(), Ok(()));
    let low_edge = ScoreSubmission::new("Alice".to_string(), 1, 0);
    assert_eq!(low_edge.validate(), Ok(()));
}

#[test]
fn test_zero_score_submission_rejected() {
    let mut manager = ScoreManager::new();
    let resp = manager
        .process_score(ScoreSubmission::new("Alice".to_string(), 0, 1))
        .unwrap();
    assert!(!resp.success);
    assert_eq!(resp.error, Some(ScoreError::ScoreZero));
    assert!(resp.proof.is_none());
    assert!(manager.get_leaderboard(1, 10).unwrap().is_empty());
}

#[test]
fn test_builder_setters() {
    let s = ScoreSubmission::new("Alice".to_string(), 5, 1)
        .with_session("abc".to_string())
        .with_timestamp(77);
    assert_eq!(s.game_session_id.as_deref(), Some("abc"));
    assert_eq!(s.timestamp, Some(77));
    assert_eq!(s.player_id, "Alice");
}

#[test]
fn test_insert_rank_edges() {
    let mut manager = ScoreManager::new();
    // The sole entry of an empty category is ranked first.
    let first = hashed_record("P1", 500, 10, 3);
    assert_eq!(manager.add_to_leaderboard(&first), Ok(1));
    // A strictly higher score goes to the top.
    let top = hashed_record("P2", 900, 11, 3);
    assert_eq!(manager.add_to_leaderboard(&top), Ok(1));
    // A strictly lower score goes to the bottom: rank equals the count.
    let bottom = hashed_record("P3", 100, 12, 3);
    assert_eq!(manager.add_to_leaderboard(&bottom), Ok(3));
}

#[test]
fn test_tie_breaks_on_timestamp() {
    let mut manager = ScoreManager::new();
    let late = hashed_record("Late", 500, 2000, 2);
    let early = hashed_record("Early", 500, 1000, 2);
    assert_eq!(manager.add_to_leaderboard(&late), Ok(1));
    // An equal score with an earlier timestamp ranks above.
    assert_eq!(manager.add_to_leaderboard(&early), Ok(1));
    let board = manager.get_leaderboard(2, 10).unwrap();
    assert_eq!(board[0].player_id, "Early");
    assert_eq!(board[1].player_id, "Late");
}

#[test]
fn test_order_independent_of_insertion() {
    let records = [
        hashed_record("A", 300, 5, 1),
        hashed_record("B", 700, 9, 1),
        hashed_record("C", 700, 2, 1),
        hashed_record("D", 100, 1, 1),
    ];
    let mut forward = ScoreManager::new();
    for r in records.iter() {
        forward.add_to_leaderboard(r).unwrap();
    }
    let mut backward = ScoreManager::new();
    for r in records.iter().rev() {
        backward.add_to_leaderboard(r).unwrap();
    }
    let f = forward.get_leaderboard(1, 10).unwrap();
    let b = backward.get_leaderboard(1, 10).unwrap();
    assert_eq!(f.len(), 4);
    assert_eq!(b.len(), 4);
    for i in 0..4 {
        assert_eq!(f[i].player_id, b[i].player_id);
        assert_eq!(f[i].score, b[i].score);
        assert_eq!(f[i].timestamp, b[i].timestamp);
    }
    // Sorted: score descending, timestamp ascending on the tie.
    assert_eq!(f[0].player_id, "C");
    assert_eq!(f[1].player_id, "B");
    assert_eq!(f[2].player_id, "A");
    assert_eq!(f[3].player_id, "D");
}

#[test]
fn test_category_scenario_and_stats() {
    let mut manager = ScoreManager::new();
    let r1 = manager
        .process_score(ScoreSubmission::new("Alice".to_string(), 100, 1))
        .unwrap();
    assert!(r1.success);
    let r2 = manager
        .process_score(ScoreSubmission::new("Bob".to_string(), 250, 1))
        .unwrap();
    assert!(r2.success);
    assert_eq!(r2.leaderboard_position, Some(1));

    let board = manager.get_leaderboard(1, 10).unwrap();
    assert_eq!(board.len(), 2);
    assert_eq!(board[0].player_id, "Bob");
    assert_eq!(board[1].player_id, "Alice");

    let stats = manager.get_player_stats("Alice").unwrap();
    assert_eq!(stats.total_games, 1);
    assert_eq!(stats.highest_score, 100);
    assert_eq!(stats.total_score, 100);
}

#[test]
fn test_unknown_category_is_empty() {
    let mut manager = ScoreManager::new();
    manager
        .process_score(ScoreSubmission::new("Alice".to_string(), 100, 1))
        .unwrap();
    assert!(manager.get_leaderboard(9, 10).unwrap().is_empty());
    assert!(manager.get_leaderboard(200, 10).unwrap().is_empty());
}

#[test]
fn test_limit_truncates() {
    let mut manager = ScoreManager::new();
    for (i, score) in [400u32, 200, 600, 800, 100].iter().enumerate() {
        let r = hashed_record(&format!("P{}", i), *score, i as u64, 4);
        manager.add_to_leaderboard(&r).unwrap();
    }
    let top2 = manager.get_leaderboard(4, 2).unwrap();
    assert_eq!(top2.len(), 2);
    assert_eq!(top2[0].score, 800);
    assert_eq!(top2[1].score, 600);
    let all = manager.get_leaderboard(4, 100).unwrap();
    assert_eq!(all.len(), 5);
}

#[test]
fn test_global_leaderboard_merges_categories() {
    let mut manager = ScoreManager::new();
    manager.add_to_leaderboard(&hashed_record("A", 300, 1, 0)).unwrap();
    manager.add_to_leaderboard(&hashed_record("B", 900, 2, 5)).unwrap();
    manager.add_to_leaderboard(&hashed_record("C", 500, 3, 10)).unwrap();
    manager.add_to_leaderboard(&hashed_record("D", 700, 4, 5)).unwrap();

    let global = manager.get_global_leaderboard(10).unwrap();
    assert_eq!(global.len(), 4);
    let order: Vec<&str> = global.iter().map(|e| e.player_id.as_str()).collect();
    assert_eq!(order, vec!["B", "D", "C", "A"]);

    let top3 = manager.get_global_leaderboard(3).unwrap();
    assert_eq!(top3.len(), 3);
    assert_eq!(top3[2].player_id, "C");
}

#[test]
fn test_duplicate_submission_collides() {
    let mut manager = ScoreManager::new();
    let first = manager
        .process_score(ScoreSubmission::new("Alice".to_string(), 100, 1))
        .unwrap();
    assert!(first.success);
    let first_hash = first.proof.unwrap().score_data.proof_hash;

    let second = manager
        .process_score(ScoreSubmission::new("Alice".to_string(), 100, 1))
        .unwrap();
    assert!(!second.success);
    assert_eq!(second.error, Some(ScoreError::CollisionError));
    assert!(second.proof.is_none());
    assert!(second.leaderboard_position.is_none());

    // Identical fields re-derive the identical content hash.
    let mut same = GameScore::new("Alice".to_string(), 100, 1);
    same.compute_proof_hash();
    assert_eq!(same.proof_hash, first_hash);

    // The failed submission left the store untouched.
    assert_eq!(manager.get_leaderboard(1, 10).unwrap().len(), 1);
}

#[test]
fn test_duplicate_hash_direct_insert_collides() {
    let mut manager = ScoreManager::new();
    let record = hashed_record("Alice", 64, 500, 6);
    assert_eq!(manager.add_to_leaderboard(&record), Ok(1));
    assert_eq!(manager.add_to_leaderboard(&record), Err(ScoreError::CollisionError));
}

#[test]
fn test_failed_validation_leaves_store_untouched() {
    let mut manager = ScoreManager::new();
    let resp = manager
        .process_score(ScoreSubmission::new("".to_string(), 50, 1))
        .unwrap();
    assert!(!resp.success);
    assert_eq!(resp.error, Some(ScoreError::EmptyPlayerId));
    assert!(manager.get_leaderboard(1, 10).unwrap().is_empty());
    assert!(manager.get_global_leaderboard(10).unwrap().is_empty());
}

#[test]
fn test_player_stats_breakdown() {
    let mut manager = ScoreManager::new();
    manager.add_to_leaderboard(&hashed_record("Alice", 100, 1, 2)).unwrap();
    manager.add_to_leaderboard(&hashed_record("Alice", 300, 2, 2)).unwrap();
    manager.add_to_leaderboard(&hashed_record("Alice", 50, 3, 7)).unwrap();
    manager.add_to_leaderboard(&hashed_record("Bob", 999, 4, 2)).unwrap();

    let stats = manager.get_player_stats("Alice").unwrap();
    assert_eq!(stats.player_id, "Alice");
    assert_eq!(stats.total_games, 3);
    assert_eq!(stats.highest_score, 300);
    assert_eq!(stats.total_score, 450);
    assert_eq!(stats.difficulty_breakdown.len(), 2);
    assert_eq!(stats.difficulty_breakdown[0].0, 2);
    assert_eq!(stats.difficulty_breakdown[0].1.games_played, 2);
    assert_eq!(stats.difficulty_breakdown[0].1.highest_score, 300);
    assert_eq!(stats.difficulty_breakdown[0].1.score_sum, 400);
    assert_eq!(stats.difficulty_breakdown[1].0, 7);
    assert_eq!(stats.difficulty_breakdown[1].1.games_played, 1);
    assert_eq!(stats.difficulty_breakdown[1].1.score_sum, 50);

    let none = manager.get_player_stats("Nobody").unwrap();
    assert_eq!(none.total_games, 0);
    assert_eq!(none.highest_score, 0);
    assert_eq!(none.total_score, 0);
    assert!(none.difficulty_breakdown.is_empty());
}
