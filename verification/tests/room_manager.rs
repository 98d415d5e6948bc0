use std::collections::HashSet;
use syncup_game_server::ids::now_ms;
use syncup_game_server::manager::RoomManager;
use syncup_game_server::model::{ErrorCode, GamePhase, MAX_PLAYERS};

fn manager() -> RoomManager {
    RoomManager::new(
        (1..=30)
            .map(|number| format!("Friendly question {number}?"))
            .collect(),
    )
}

fn fresh_id() -> u128 {
    uuid::Uuid::new_v4().as_u128()
}

fn connected_host(manager: &mut RoomManager) -> (String, String, u128) {
    let (code, token) = manager.create_room().unwrap();
    let connection = fresh_id();
    manager.authenticate_host(&code, &token, connection).unwrap();
    (code, token, connection)
}

#[test]
fn room_code_format_is_unambiguous() {
    for _ in 0..1_000 {
        let code = RoomManager::generate_room_code();
        assert_eq!(code.len(), 6);
        assert!(code
            .chars()
            .all(|character| character.is_ascii_uppercase() || character.is_ascii_digit()));
        assert!(!code.chars().any(|character| "O0I1".contains(character)));
    }
}

#[test]
fn generated_room_codes_are_unique() {
    let mut manager = manager();
    let mut codes = HashSet::new();
    for _ in 0..500 {
        let (code, _) = manager.create_room().unwrap();
        assert!(codes.insert(code));
    }
}

#[test]
fn leaving_removes_player_and_transfers_host_atomically() {
    let mut manager = manager();
    let (code, _token, _connection) = connected_host(&mut manager);
    let first_host = manager.public_snapshot(&code).unwrap().host_player_id;
    let (sam, _) = manager.join_room(&code, "Sam").unwrap();
    let (afreen, _) = manager.join_room(&code, "Afreen").unwrap();

    manager.leave_room(&code, first_host).unwrap();
    let snapshot = manager.public_snapshot(&code).unwrap();
    assert_eq!(snapshot.host_player_id, sam);
    assert_eq!(snapshot.players.len(), 2);
    assert!(!snapshot
        .players
        .iter()
        .any(|player| player.id == first_host));
    assert!(snapshot
        .notice
        .unwrap()
        .message
        .contains("Sam is now the host"));

    let error = manager.start_game_by_player(&code, afreen).unwrap_err();
    assert_eq!(error.code, ErrorCode::Unauthorized);
    manager.start_game_by_player(&code, sam).unwrap();
}

#[test]
fn leaving_recalculates_votes_and_completion_requirements() {
    let mut manager = manager();
    let (code, _token, _connection) = connected_host(&mut manager);
    let host = manager.public_snapshot(&code).unwrap().host_player_id;
    let (sam, _) = manager.join_room(&code, "Sam").unwrap();
    let (afreen, _) = manager.join_room(&code, "Afreen").unwrap();
    manager.start_game_by_player(&code, host).unwrap();
    manager.submit_vote(&code, host, 1, sam).unwrap();
    manager.submit_vote(&code, sam, 1, afreen).unwrap();
    manager.leave_room(&code, afreen).unwrap();
    let snapshot = manager.public_snapshot(&code).unwrap();
    assert_eq!(snapshot.players.len(), 2);
    assert_eq!(snapshot.submitted_answer_count, 1);
    assert_eq!(snapshot.total_eligible_player_count, 2);
    manager.submit_vote(&code, sam, 1, host).unwrap();
    manager.reveal_results_by_player(&code, host).unwrap();
}

#[test]
fn another_game_keeps_room_and_roster_but_resets_match_state() {
    let mut manager = manager();
    let (code, _token, _connection) = connected_host(&mut manager);
    let host = manager.public_snapshot(&code).unwrap().host_player_id;
    let (sam, _) = manager.join_room(&code, "Sam").unwrap();
    manager.start_game_by_player(&code, host).unwrap();
    manager.submit_vote(&code, host, 1, sam).unwrap();
    manager.submit_vote(&code, sam, 1, host).unwrap();
    manager.reveal_results_by_player(&code, host).unwrap();
    for _ in 1..5 {
        manager.next_round_by_player(&code, host).unwrap();
        let round = manager.public_snapshot(&code).unwrap().round;
        manager.submit_vote(&code, host, round, sam).unwrap();
        manager.submit_vote(&code, sam, round, host).unwrap();
        manager.reveal_results_by_player(&code, host).unwrap();
    }
    manager.next_round_by_player(&code, host).unwrap();
    manager.choose_another_game(&code, host).unwrap();
    manager
        .configure_game(&code, host, "priority-sync", 5, "sakura")
        .unwrap();
    let snapshot = manager.public_snapshot(&code).unwrap();
    assert_eq!(snapshot.room_code, code);
    assert_eq!(snapshot.players.len(), 2);
    assert_eq!(snapshot.phase, GamePhase::Lobby);
    assert_eq!(snapshot.round, 0);
    assert_eq!(snapshot.submitted_answer_count, 0);
    assert!(snapshot.leaderboard.iter().all(|entry| entry.score == 0));
}

#[test]
fn room_capacity_is_twelve() {
    let mut manager = manager();
    let (code, _) = manager.create_room().unwrap();
    for number in 0..(MAX_PLAYERS - 1) {
        manager
            .join_room(&code, &format!("Player {number}"))
            .unwrap();
    }
    let error = manager.join_room(&code, "Too many").unwrap_err();
    assert_eq!(error.code, ErrorCode::RoomFull);
}

#[test]
fn nicknames_are_trimmed_validated_and_deduplicated() {
    let mut manager = manager();
    let (code, _) = manager.create_room().unwrap();
    let (first, _) = manager.join_room(&code, "  Afreen  ").unwrap();
    let (second, _) = manager.join_room(&code, "afreen").unwrap();
    let snapshot = manager.public_snapshot(&code).unwrap();
    assert_eq!(
        snapshot
            .players
            .iter()
            .find(|player| player.id == first)
            .unwrap()
            .nickname,
        "Afreen (2)"
    );
    assert_eq!(
        snapshot
            .players
            .iter()
            .find(|player| player.id == second)
            .unwrap()
            .nickname,
        "afreen (3)"
    );
    for invalid in ["", "   ", "line\nbreak", "123456789012345678901"] {
        let error = manager.join_room(&code, invalid).unwrap_err();
        assert_eq!(error.code, ErrorCode::InvalidNickname);
    }
}

#[test]
fn invalid_authentication_tokens_are_rejected() {
    let mut manager = manager();
    let (code, host_token) = manager.create_room().unwrap();
    let (player_id, session_token) = manager.join_room(&code, "Afreen").unwrap();
    assert_eq!(
        manager
            .authenticate_host(&code, "wrong", fresh_id())
            .unwrap_err()
            .code,
        ErrorCode::InvalidToken
    );
    assert_eq!(
        manager
            .authenticate_player(&code, player_id, "wrong", fresh_id())
            .unwrap_err()
            .code,
        ErrorCode::InvalidToken
    );
    manager
        .authenticate_host(&code, &host_token, fresh_id())
        .unwrap();
    manager
        .authenticate_player(&code, player_id, &session_token, fresh_id())
        .unwrap();
}

#[test]
fn host_actions_require_auth_and_two_players() {
    let mut manager = manager();
    let (code, token, _) = connected_host(&mut manager);
    assert_eq!(
        manager.start_game(&code, "not-the-token").unwrap_err().code,
        ErrorCode::Unauthorized
    );
    assert_eq!(
        manager.start_game(&code, &token).unwrap_err().code,
        ErrorCode::NotEnoughPlayers
    );
    manager.join_room(&code, "Afreen").unwrap();
    manager.start_game(&code, &token).unwrap();
}

#[test]
fn voting_validates_round_target_and_duplicate() {
    let mut manager = manager();
    let (code, token, _) = connected_host(&mut manager);
    let (afreen, _) = manager.join_room(&code, "Afreen").unwrap();
    let (sam, _) = manager.join_room(&code, "Sam").unwrap();
    manager.start_game(&code, &token).unwrap();

    assert_eq!(
        manager.submit_vote(&code, afreen, 2, sam).unwrap_err().code,
        ErrorCode::RoundMismatch
    );
    assert_eq!(
        manager
            .submit_vote(&code, afreen, 1, fresh_id())
            .unwrap_err()
            .code,
        ErrorCode::InvalidPlayer
    );
    manager.submit_vote(&code, afreen, 1, sam).unwrap();
    assert_eq!(
        manager.submit_vote(&code, afreen, 1, afreen).unwrap_err().code,
        ErrorCode::AlreadyVoted
    );
}

#[test]
fn phase_transitions_results_and_history_are_authoritative() {
    let mut manager = manager();
    let (code, token, _) = connected_host(&mut manager);
    let (afreen, _) = manager.join_room(&code, "Afreen").unwrap();
    let (sam, _) = manager.join_room(&code, "Sam").unwrap();
    manager.start_game(&code, &token).unwrap();
    let mut seen_questions = HashSet::new();
    let total_rounds = manager.public_snapshot(&code).unwrap().max_rounds;
    let host = manager.public_snapshot(&code).unwrap().host_player_id;

    for round in 1..=total_rounds {
        let voting = manager.public_snapshot(&code).unwrap();
        assert_eq!(voting.phase, GamePhase::Playing);
        assert_eq!(voting.round, round);
        assert!(voting.results.is_none());
        assert!(seen_questions.insert(voting.current_question.unwrap()));
        manager.submit_vote(&code, afreen, round, sam).unwrap();
        manager.submit_vote(&code, sam, round, sam).unwrap();
        manager.submit_vote(&code, host, round, sam).unwrap();
        manager.reveal_results(&code, &token).unwrap();
        let results = manager.public_snapshot(&code).unwrap();
        assert_eq!(results.phase, GamePhase::Results);
        let totals = results.results.unwrap();
        assert_eq!(totals[0].player_id, Some(sam));
        assert_eq!(totals[0].votes, 3);
        manager.next_round(&code, &token).unwrap();
    }

    let finished = manager.public_snapshot(&code).unwrap();
    assert_eq!(finished.phase, GamePhase::Finished);
    assert_eq!(finished.round_history.unwrap().len(), total_rounds as usize);
}

#[test]
fn disconnect_and_reconnect_restore_connection_state() {
    let mut manager = manager();
    let (code, host_token, host_connection) = connected_host(&mut manager);
    let (player_id, player_token) = manager.join_room(&code, "Afreen").unwrap();
    let player_connection = fresh_id();
    manager
        .authenticate_player(&code, player_id, &player_token, player_connection)
        .unwrap();
    manager.disconnect_player(&code, player_id, player_connection);
    manager.disconnect_host(&code, host_connection);
    let disconnected = manager.public_snapshot(&code).unwrap();
    assert!(!disconnected.host_connected);
    assert!(!disconnected.players[0].connected);

    manager
        .authenticate_host(&code, &host_token, fresh_id())
        .unwrap();
    manager
        .authenticate_player(&code, player_id, &player_token, fresh_id())
        .unwrap();
    let connected = manager.public_snapshot(&code).unwrap();
    assert!(connected.host_connected);
    assert!(connected.players[0].connected);
}

#[test]
fn rooms_expire_after_disconnected_grace_period() {
    let mut manager = manager();
    manager.create_room().unwrap();
    manager.cleanup_at(now_ms() + 91_000);
    assert_eq!(manager.room_count(), 0);
}
