use std::collections::{HashMap, HashSet};
use syncup_game_server::access::{is_listed, origin_verdict, player_asset_plan};
use syncup_game_server::catalog::{
    priority_sync_from_strings, GameDefinition, GameExperience, Question, ResponseMode,
};
use syncup_game_server::codes::generate_token;
use syncup_game_server::events::{
    authenticate_connection, http_status, process_event, role_name, ClientEvent, ServerEvent,
};
use syncup_game_server::ids::now_ms;
use syncup_game_server::manager::{truth_or_dare_pools, RoomManager};
use syncup_game_server::model::{AuthenticatedRole, ErrorCode, GamePhase, TruthOrDarePhase};
use syncup_game_server::selection::{balanced_pick, draw_questions, round_robin};

fn fresh_id() -> u128 {
    uuid::Uuid::new_v4().as_u128()
}

fn question(prompt: &str, category: &str, options: &[&str]) -> Question {
    Question {
        prompt: prompt.into(),
        category: category.into(),
        difficulty: "easy".into(),
        options: options.iter().map(|option| option.to_string()).collect(),
        visual_options: vec![],
        correct_option: None,
    }
}

fn game(id: &str, mode: ResponseMode, questions: Vec<Question>) -> GameDefinition {
    GameDefinition {
        id: id.into(),
        title: format!("Title of {id}"),
        description: "For the tests.".into(),
        icon: "spark".into(),
        category: "Party".into(),
        estimated_minutes: 5,
        response_mode: mode,
        experience: GameExperience::Voting,
        default_rounds: 3,
        min_players: 2,
        questions,
    }
}

fn manager() -> RoomManager {
    RoomManager::new((1..=8).map(|n| format!("Question {n}?")).collect())
}

fn error_code(event: Option<ServerEvent>) -> Option<ErrorCode> {
    match event {
        Some(ServerEvent::Error { code, .. }) => Some(code),
        _ => None,
    }
}

#[test]
fn tokens_are_sixty_four_lower_case_hex_digits() {
    let token = generate_token();
    assert_eq!(token.len(), 64);
    assert!(token.chars().all(|c| c.is_ascii_digit() || ('a'..='f').contains(&c)));
    assert_ne!(token, generate_token());
}

#[test]
fn clock_reads_after_the_epoch() {
    assert!(now_ms() > 1_600_000_000_000);
}

#[test]
fn http_statuses_follow_error_codes() {
    assert_eq!(http_status(ErrorCode::RoomNotFound), 404);
    assert_eq!(http_status(ErrorCode::GameNotFound), 404);
    assert_eq!(http_status(ErrorCode::RoomFull), 409);
    assert_eq!(http_status(ErrorCode::RoomLocked), 409);
    assert_eq!(http_status(ErrorCode::InvalidNickname), 400);
    assert_eq!(http_status(ErrorCode::RoundMismatch), 400);
    assert_eq!(http_status(ErrorCode::InvalidToken), 401);
    assert_eq!(http_status(ErrorCode::Unauthorized), 401);
    assert_eq!(http_status(ErrorCode::InvalidPhase), 422);
    assert_eq!(http_status(ErrorCode::InternalError), 422);
}

#[test]
fn room_codes_are_found_in_any_case_and_with_spaces() {
    let mut manager = manager();
    let (code, _) = manager.create_room().unwrap();
    let sloppy = format!("  {}  ", code.to_lowercase());
    assert_eq!(manager.public_snapshot(&sloppy).unwrap().room_code, code);
    assert_eq!(
        manager.public_snapshot("ABC234").unwrap_err().code,
        ErrorCode::RoomNotFound
    );
}

#[test]
fn a_new_room_has_only_its_host_in_the_lobby() {
    let mut manager = manager();
    let (code, _) = manager
        .create_room_with_host_options("priority-sync", Some(4), Some("sakura"), "  Host  ")
        .unwrap();
    let snapshot = manager.public_snapshot(&code).unwrap();
    assert_eq!(snapshot.phase, GamePhase::Lobby);
    assert_eq!(snapshot.players.len(), 1);
    assert_eq!(snapshot.players[0].nickname, "Host");
    assert_eq!(snapshot.players[0].id, snapshot.host_player_id);
    assert_eq!(snapshot.max_rounds, 4);
    assert_eq!(snapshot.theme, "sakura");
    assert_eq!(snapshot.version, 1);
    assert!(!snapshot.host_connected);
}

#[test]
fn rounds_are_clamped_and_themes_normalized() {
    let mut manager = manager();
    let (code, _) = manager
        .create_room_with_options("priority-sync", Some(0), Some("plaid"))
        .unwrap();
    let snapshot = manager.public_snapshot(&code).unwrap();
    assert_eq!(snapshot.max_rounds, 1);
    assert_eq!(snapshot.theme, "neon-night");
    let (code, _) = manager.create_room_for_game("priority-sync", Some(50)).unwrap();
    assert_eq!(manager.public_snapshot(&code).unwrap().max_rounds, 8);
    let (code, _) = manager.create_room().unwrap();
    assert_eq!(manager.public_snapshot(&code).unwrap().max_rounds, 5);
}

#[test]
fn unknown_games_are_refused_and_priority_sync_falls_back() {
    let mut manager = RoomManager::with_catalog(vec![game(
        "quiz-night",
        ResponseMode::Quiz,
        vec![question("Q?", "general", &["a", "b"])],
    )]);
    assert_eq!(
        manager
            .create_room_for_game("no-such-game", None)
            .unwrap_err()
            .code,
        ErrorCode::GameNotFound
    );
    assert_eq!(manager.room_count(), 0);
    let (code, _) = manager.create_room().unwrap();
    assert_eq!(manager.public_snapshot(&code).unwrap().game_id, "quiz-night");
    assert_eq!(
        manager
            .create_room_with_host_options("quiz-night", None, None, "   ")
            .unwrap_err()
            .code,
        ErrorCode::InvalidNickname
    );
}

#[test]
fn the_catalog_summarises_each_game() {
    let manager = RoomManager::with_catalog(vec![
        game("a", ResponseMode::Choice, vec![question("1", "x", &[]), question("2", "x", &[])]),
        game("b", ResponseMode::Quiz, vec![question("3", "y", &[])]),
    ]);
    let catalog = manager.game_catalog();
    assert_eq!(catalog.len(), 2);
    assert_eq!(catalog[0].id, "a");
    assert_eq!(catalog[0].question_count, 2);
    assert_eq!(catalog[1].response_mode, ResponseMode::Quiz);
    assert_eq!(catalog[1].question_count, 1);
}

#[test]
fn priority_sync_questions_come_from_strings() {
    let game = priority_sync_from_strings(vec!["One?".into(), "Two?".into()]);
    assert_eq!(game.id, "priority-sync");
    assert_eq!(game.response_mode, ResponseMode::PlayerVote);
    assert_eq!(game.questions.len(), 2);
    assert_eq!(game.questions[1].prompt, "Two?");
    assert_eq!(game.questions[0].category, "friends");
}

#[test]
fn truth_and_dare_prompts_are_read_from_tagged_options() {
    let tod = game(
        "truth-or-dare",
        ResponseMode::Choice,
        vec![
            question("1", "x", &["Truth: Tell a secret", "Dare: Sing", "Other"]),
            question("2", "x", &["Dare: Dance"]),
        ],
    );
    let (truths, dares) = truth_or_dare_pools(&tod);
    assert_eq!(truths, vec!["Tell a secret".to_string()]);
    assert_eq!(dares, vec!["Sing".to_string(), "Dance".to_string()]);
    let other = game("quiz", ResponseMode::Quiz, vec![question("1", "x", &["Truth: no"])]);
    let (truths, dares) = truth_or_dare_pools(&other);
    assert!(truths.is_empty() && dares.is_empty());
}

#[test]
fn balanced_draws_take_categories_in_turn() {
    let mut questions = Vec::new();
    for n in 0..6 {
        questions.push(question(&format!("a{n}"), "a", &[]));
    }
    questions.push(question("b0", "b", &[]));
    questions.push(question("c0", "c", &[]));
    questions.push(question("c1", "c", &[]));
    let pool: Vec<usize> = (0..questions.len()).collect();
    let picked = balanced_pick(&questions, &pool, 5);
    assert_eq!(picked.len(), 5);
    assert_eq!(picked.iter().collect::<HashSet<_>>().len(), 5);
    let mut per_category: HashMap<String, usize> = HashMap::new();
    for index in &picked {
        *per_category.entry(questions[*index].category.clone()).or_default() += 1;
    }
    assert_eq!(per_category["a"], 2);
    assert_eq!(per_category["b"], 1);
    assert_eq!(per_category["c"], 2);
    // The first turn takes each category once, in one order, which the second turn repeats
    // for the categories that have questions left.
    let first_turn: Vec<String> = picked[..3].iter().map(|i| questions[*i].category.clone()).collect();
    assert_eq!(first_turn.iter().collect::<HashSet<_>>().len(), 3);
    let second_turn: Vec<String> = picked[3..].iter().map(|i| questions[*i].category.clone()).collect();
    let expected: Vec<String> = first_turn.iter().filter(|c| c.as_str() != "b").cloned().collect();
    assert_eq!(second_turn, expected);
    let everything = balanced_pick(&questions, &pool, 50);
    assert_eq!(everything.len(), questions.len());
}

#[test]
fn tied_results_keep_the_order_of_their_options() {
    let mut manager = RoomManager::with_catalog(vec![GameDefinition {
        experience: GameExperience::Competitive,
        default_rounds: 1,
        ..game("quiz-night", ResponseMode::Quiz, vec![question("Pick one", "general", &["Same", "Same", "Other"])])
    }]);
    let (code, token) = manager.create_room_for_game("quiz-night", Some(1)).unwrap();
    manager.authenticate_host(&code, &token, fresh_id()).unwrap();
    let host = manager.public_snapshot(&code).unwrap().host_player_id;
    let (sam, _) = manager.join_room(&code, "Sam").unwrap();
    manager.start_game(&code, &token).unwrap();
    manager.submit_answer(&code, host, 1, "2").unwrap();
    manager.submit_answer(&code, sam, 1, "2").unwrap();
    manager.reveal_results(&code, &token).unwrap();
    let results = manager.public_snapshot(&code).unwrap().results.unwrap();
    let ids: Vec<&str> = results.iter().map(|line| line.id.as_str()).collect();
    assert_eq!(ids, vec!["2", "0", "1"]);
}

#[test]
fn draws_prefer_questions_not_seen_recently() {
    let questions: Vec<Question> = (0..8).map(|n| question(&format!("q{n}"), "x", &[])).collect();
    let mut recent: Vec<String> = Vec::new();
    let first = draw_questions(&questions, &mut recent, 3);
    let second = draw_questions(&questions, &mut recent, 3);
    let first_prompts: HashSet<_> = first.iter().map(|q| q.prompt.clone()).collect();
    assert_eq!(first_prompts.len(), 3);
    assert!(second.iter().all(|q| !first_prompts.contains(&q.prompt)));
    assert_eq!(recent.len(), 6);
    let third = draw_questions(&questions, &mut recent, 3);
    assert_eq!(third.len(), 3);
    assert_eq!(recent.len(), 6);
}

#[test]
fn forgetting_a_prompt_frees_it_even_when_the_history_holds_it_twice() {
    let questions = vec![
        question("Same", "x", &[]),
        question("Same", "x", &[]),
        question("X", "x", &[]),
        question("Y", "x", &[]),
    ];
    let mut recent: Vec<String> = vec!["Same".into(), "X".into(), "Same".into()];
    let drawn = draw_questions(&questions, &mut recent, 2);
    assert_eq!(drawn.len(), 2);
    assert!(drawn.iter().all(|q| q.prompt != "X"));
    assert_eq!(recent.len(), 3);
    assert_eq!(recent[0], "Same");
}

#[test]
fn every_error_code_has_an_input() {
    let mut manager = RoomManager::with_catalog(vec![
        game("quiz-night", ResponseMode::Quiz, vec![question("Q?", "general", &["a", "b"])]),
        game("truth-or-dare", ResponseMode::Choice, vec![question("1", "x", &["Dare: Jump"])]),
    ]);
    let (code, token) = manager.create_room_for_game("quiz-night", Some(1)).unwrap();
    assert_eq!(manager.join_room("ZZZZZZ", "A").unwrap_err().code, ErrorCode::RoomNotFound);
    assert_eq!(manager.start_game(&code, &token).unwrap_err().code, ErrorCode::HostDisconnected);
    manager.authenticate_host(&code, &token, fresh_id()).unwrap();
    assert_eq!(manager.start_game(&code, &token).unwrap_err().code, ErrorCode::NotEnoughPlayers);
    let (afreen, _) = manager.join_room(&code, "Afreen").unwrap();
    assert_eq!(manager.submit_answer(&code, afreen, 1, "0").unwrap_err().code, ErrorCode::InvalidPhase);
    manager.start_game(&code, &token).unwrap();
    assert_eq!(manager.join_room(&code, "Late").unwrap_err().code, ErrorCode::RoomLocked);
    assert_eq!(manager.submit_answer(&code, afreen, 1, "x").unwrap_err().code, ErrorCode::InvalidAnswer);
    manager.submit_answer(&code, afreen, 1, "1").unwrap();
    assert_eq!(manager.submit_answer(&code, afreen, 1, "0").unwrap_err().code, ErrorCode::AlreadyAnswered);
    assert_eq!(manager.kick_player(&code, &token, afreen).unwrap_err().code, ErrorCode::InvalidPhase);
    assert_eq!(manager.kick_player(&code, &token, fresh_id()).unwrap_err().code, ErrorCode::InvalidPhase);
    assert_eq!(manager.leave_room(&code, fresh_id()).unwrap_err().code, ErrorCode::InvalidPlayer);
    assert_eq!(manager.end_game(&code, "bad").unwrap_err().code, ErrorCode::Unauthorized);

    let (tod, tod_token) = manager.create_room_for_game("truth-or-dare", Some(1)).unwrap();
    manager.authenticate_host(&tod, &tod_token, fresh_id()).unwrap();
    let (sam, _) = manager.join_room(&tod, "Sam").unwrap();
    manager.start_game(&tod, &tod_token).unwrap();
    assert_eq!(manager.submit_answer(&tod, sam, 1, "truth").unwrap_err().code, ErrorCode::InternalError);
    assert_eq!(manager.submit_answer(&tod, sam, 1, "maybe").unwrap_err().code, ErrorCode::InvalidAnswer);
    assert_eq!(manager.submit_answer(&tod, sam, 2, "dare").unwrap_err().code, ErrorCode::RoundMismatch);
    manager.submit_answer(&tod, sam, 1, "  DARE ").unwrap();
    let view = manager.snapshot_for_player(&tod, sam).unwrap();
    assert_eq!(view.viewer_truth_or_dare_choice.as_deref(), Some("dare"));
}

#[test]
fn the_host_removes_players_only_from_the_lobby_with_the_token() {
    let mut manager = manager();
    let (code, token) = manager.create_room().unwrap();
    let host = manager.public_snapshot(&code).unwrap().host_player_id;
    let (sam, _) = manager.join_room(&code, "Sam").unwrap();
    assert_eq!(manager.kick_player(&code, &token, host).unwrap_err().code, ErrorCode::HostDisconnected);
    manager.authenticate_host(&code, &token, fresh_id()).unwrap();
    assert_eq!(manager.kick_player(&code, &token, host).unwrap_err().code, ErrorCode::Unauthorized);
    manager.kick_player(&code, &token, sam).unwrap();
    assert_eq!(manager.public_snapshot(&code).unwrap().players.len(), 1);
    let (afreen, _) = manager.join_room(&code, "Afreen").unwrap();
    assert_eq!(manager.kick_player_by_player(&code, afreen, host).unwrap_err().code, ErrorCode::Unauthorized);
    manager.kick_player_by_player(&code, host, afreen).unwrap();
    let snapshot = manager.public_snapshot(&code).unwrap();
    assert_eq!(snapshot.players.len(), 1);
    assert!(snapshot.notice.unwrap().message.contains("was removed from the party"));
}

#[test]
fn the_last_player_leaving_closes_the_room() {
    let mut manager = manager();
    let (code, _) = manager.create_room().unwrap();
    let host = manager.public_snapshot(&code).unwrap().host_player_id;
    manager.leave_room(&code, host).unwrap();
    let snapshot = manager.public_snapshot(&code).unwrap();
    assert_eq!(snapshot.phase, GamePhase::Closed);
    assert_eq!(snapshot.notice.unwrap().kind, "room_ended");
}

#[test]
fn ending_the_room_closes_it_for_everyone() {
    let mut manager = manager();
    let (code, _) = manager.create_room().unwrap();
    let host = manager.public_snapshot(&code).unwrap().host_player_id;
    let (sam, _) = manager.join_room(&code, "Sam").unwrap();
    assert_eq!(manager.end_room_by_player(&code, sam).unwrap_err().code, ErrorCode::Unauthorized);
    manager.end_room_by_player(&code, host).unwrap();
    assert_eq!(manager.public_snapshot(&code).unwrap().phase, GamePhase::Closed);
}

#[test]
fn connected_rooms_survive_cleanup_and_idle_ones_do_not() {
    let mut manager = manager();
    let (kept, token) = manager.create_room().unwrap();
    manager.authenticate_host(&kept, &token, fresh_id()).unwrap();
    let (gone, _) = manager.create_room().unwrap();
    manager.cleanup_at(now_ms() + 60_000);
    assert_eq!(manager.room_count(), 1);
    assert!(manager.public_snapshot(&kept).is_ok());
    assert!(manager.public_snapshot(&gone).is_err());
    manager.cleanup_once();
    assert_eq!(manager.room_count(), 1);
}

#[test]
fn disconnected_players_expire_and_the_host_role_passes_on() {
    let mut manager = manager();
    let (code, token) = manager.create_room().unwrap();
    let connection = fresh_id();
    manager.authenticate_host(&code, &token, connection).unwrap();
    let (sam, sam_token) = manager.join_room(&code, "Sam").unwrap();
    manager.authenticate_player(&code, sam, &sam_token, fresh_id()).unwrap();
    manager.disconnect_host(&code, connection);
    manager.cleanup_at(now_ms() + 40_000);
    let snapshot = manager.public_snapshot(&code).unwrap();
    assert_eq!(snapshot.players.len(), 1);
    assert_eq!(snapshot.host_player_id, sam);
    assert!(snapshot.notice.unwrap().message.contains("Sam is now the host"));
}

#[test]
fn live_requests_run_the_room_operations() {
    let mut manager = manager();
    let (code, token) = manager.create_room().unwrap();
    let (sam, sam_token) = manager.join_room(&code, "Sam").unwrap();
    let refused = authenticate_connection(&mut manager, ClientEvent::StartGame, fresh_id());
    assert!(matches!(refused, Err(ServerEvent::Error { code: ErrorCode::Unauthorized, .. })));
    let (room, host_role, snapshot) = authenticate_connection(
        &mut manager,
        ClientEvent::AuthenticateHost { room_code: format!(" {} ", code.to_lowercase()), host_token: token.clone() },
        fresh_id(),
    )
    .unwrap();
    assert_eq!(room, code);
    assert_eq!(role_name(&host_role), "host");
    assert!(matches!(host_role, AuthenticatedRole::Host { player_id, .. } if player_id == snapshot.host_player_id));
    let (_, player_role, _) = authenticate_connection(
        &mut manager,
        ClientEvent::AuthenticatePlayer { room_code: code.clone(), player_id: sam, session_token: sam_token },
        fresh_id(),
    )
    .unwrap();
    assert_eq!(role_name(&player_role), "player");
    assert!(matches!(process_event(&mut manager, &room, &host_role, ClientEvent::Ping), Some(ServerEvent::Pong)));
    assert_eq!(
        error_code(process_event(&mut manager, &room, &player_role, ClientEvent::EndGame)),
        Some(ErrorCode::Unauthorized)
    );
    assert_eq!(
        error_code(process_event(&mut manager, &room, &player_role, ClientEvent::StartGame)),
        Some(ErrorCode::Unauthorized)
    );
    assert_eq!(
        error_code(process_event(
            &mut manager,
            &room,
            &player_role,
            ClientEvent::AuthenticateHost { room_code: code.clone(), host_token: token.clone() }
        )),
        Some(ErrorCode::Unauthorized)
    );
    assert!(process_event(&mut manager, &room, &host_role, ClientEvent::StartGame).is_none());
    let host = snapshot.host_player_id;
    assert!(process_event(
        &mut manager,
        &room,
        &player_role,
        ClientEvent::SubmitVote { round: 1, selected_player_id: host }
    )
    .is_none());
    assert_eq!(
        error_code(process_event(
            &mut manager,
            &room,
            &player_role,
            ClientEvent::SubmitVote { round: 1, selected_player_id: host }
        )),
        Some(ErrorCode::AlreadyVoted)
    );
    assert!(process_event(&mut manager, &room, &host_role, ClientEvent::EndGame).is_none());
    assert_eq!(manager.public_snapshot(&code).unwrap().phase, GamePhase::Finished);
}

#[test]
fn configured_and_development_origins_are_allowed() {
    assert!(is_listed("https://a.example, https://b.example", "https://b.example"));
    assert!(!is_listed("https://a.example,https://b.example", "https://c.example"));
    assert_eq!(
        origin_verdict("https://host.example", Some(" https://host.example ,https://x"), true),
        Some(true)
    );
    assert_eq!(origin_verdict("http://localhost:5173", None, true), Some(false));
    assert_eq!(origin_verdict("http://localhost:5173", None, false), Some(true));
    assert_eq!(origin_verdict("tauri://localhost", Some(""), false), Some(true));
    assert_eq!(origin_verdict("http://192.168.1.9:5173", None, false), None);
}

#[test]
fn player_app_paths_map_to_files() {
    assert_eq!(player_asset_plan("/"), Some(("index.html".to_string(), false)));
    assert_eq!(player_asset_plan("//assets/app.js"), Some(("assets/app.js".to_string(), false)));
    assert_eq!(player_asset_plan("/room/ABC234"), Some(("room/ABC234".to_string(), true)));
    assert_eq!(player_asset_plan("/api/rooms"), None);
    assert_eq!(player_asset_plan("/health"), None);
    assert_eq!(player_asset_plan("/healthy"), Some(("healthy".to_string(), true)));
}

#[test]
fn reconnecting_keeps_the_roster() {
    let mut manager = manager();
    let (code, _) = manager.create_room().unwrap();
    let (sam, token) = manager.join_room(&code, "Sam").unwrap();
    let before = manager.public_snapshot(&code).unwrap();
    manager.authenticate_player(&code, sam, &token, fresh_id()).unwrap();
    manager.authenticate_player(&code, sam, &token, fresh_id()).unwrap();
    let after = manager.public_snapshot(&code).unwrap();
    assert_eq!(after.players.len(), before.players.len());
    assert_eq!(after.players[1].id, sam);
    assert_eq!(after.players[1].nickname, "Sam");
    assert!(after.version > before.version);
}

#[test]
fn refusals_carry_their_messages() {
    let mut manager = manager();
    let (code, token) = manager.create_room().unwrap();
    let missing = manager.join_room("ZZZZZZ", "A").unwrap_err();
    assert_eq!(missing.message, "The room could not be found.");
    let disconnected = manager.start_game(&code, &token).unwrap_err();
    assert_eq!(disconnected.message, "Host is disconnected.");
    let wrong = manager.end_game(&code, "bad").unwrap_err();
    assert_eq!(wrong.message, "Host authorization required.");
    manager.authenticate_host(&code, &token, fresh_id()).unwrap();
    let alone = manager.start_game(&code, &token).unwrap_err();
    assert_eq!(alone.message, "At least two players are required.");
    let nickname = manager.join_room(&code, "   ").unwrap_err();
    assert_eq!(
        nickname.message,
        "Nickname must be 1 to 20 characters and contain no control characters."
    );
    let (afreen, _) = manager.join_room(&code, "Afreen").unwrap();
    let not_host = manager.start_game_by_player(&code, afreen).unwrap_err();
    assert_eq!(not_host.code, ErrorCode::Unauthorized);
    assert_eq!(not_host.message, "Only the current host can do that.");
    manager.start_game(&code, &token).unwrap();
    let vote = manager.submit_answer(&code, afreen, 1, "not-a-player").unwrap_err();
    assert_eq!(vote.message, "Choose a player.");
    let host = manager.public_snapshot(&code).unwrap().host_player_id;
    manager.submit_vote(&code, afreen, 1, host).unwrap();
    let twice = manager.submit_vote(&code, afreen, 1, host).unwrap_err();
    assert_eq!(twice.code, ErrorCode::AlreadyVoted);
    assert_eq!(twice.message, "Your answer is already locked.");
}

#[test]
fn a_viewer_sees_only_their_own_highlight_votes() {
    let challenges = (1..=3)
        .map(|n| {
            question(
                &format!("Round {n}"),
                "spicy",
                &[&format!("Truth: Tell secret {n}"), &format!("Dare: Do stunt {n}")],
            )
        })
        .collect();
    let mut manager = RoomManager::with_catalog(vec![game(
        "truth-or-dare",
        ResponseMode::Choice,
        challenges,
    )]);
    let (code, token) = manager
        .create_room_with_host_options("truth-or-dare", Some(1), None, "Host")
        .unwrap();
    manager.authenticate_host(&code, &token, fresh_id()).unwrap();
    let host = manager.public_snapshot(&code).unwrap().host_player_id;
    let (afreen, _) = manager.join_room(&code, "Afreen").unwrap();
    let (sam, _) = manager.join_room(&code, "Sam").unwrap();
    manager.start_game(&code, &token).unwrap();
    for player in [host, afreen, sam] {
        manager.submit_answer(&code, player, 1, "truth").unwrap();
    }
    manager.reveal_results(&code, &token).unwrap();
    for _ in 0..3 {
        let current = manager.public_snapshot(&code).unwrap().spotlight_player_id.unwrap();
        manager.mark_completed(&code, current, 1).unwrap();
        manager.next_spotlight(&code, host, 1).unwrap();
    }
    let voting = manager.public_snapshot(&code).unwrap();
    assert_eq!(voting.truth_or_dare_phase, Some(TruthOrDarePhase::HighlightVoting));
    let category = voting.highlight_categories[0].id.clone();
    manager.submit_highlight_vote(&code, afreen, 1, &category, sam).unwrap();
    manager.submit_highlight_vote(&code, sam, 1, &category, afreen).unwrap();
    let own = manager.snapshot_for_player(&code, afreen).unwrap();
    assert_eq!(own.viewer_highlight_votes.len(), 1);
    assert_eq!(own.viewer_highlight_votes[0].category_id, category);
    assert_eq!(own.viewer_highlight_votes[0].selected_id, sam);
    let other = manager.snapshot_for_player(&code, sam).unwrap();
    assert_eq!(other.viewer_highlight_votes.len(), 1);
    assert_eq!(other.viewer_highlight_votes[0].selected_id, afreen);
    assert!(manager.public_snapshot(&code).unwrap().viewer_highlight_votes.is_empty());
    assert!(manager.snapshot_for_player(&code, host).unwrap().viewer_highlight_votes.is_empty());
}

#[test]
fn white_space_and_control_characters_match_the_unicode_tables() {
    for c in (0u32..=0x10FFFF).filter_map(char::from_u32) {
        let alone = c.to_string();
        assert_eq!(syncup_game_server::text::trim(&alone).is_empty(), c.is_whitespace(), "{:X}", c as u32);
        assert_eq!(syncup_game_server::text::any_control(&alone), c.is_control(), "{:X}", c as u32);
    }
    assert_eq!(syncup_game_server::text::trim("\u{3000}Sam\u{a0}"), "Sam");
    assert!(RoomManager::validate_nickname("Sa\u{7f}m").is_err());
}

#[test]
fn a_new_room_takes_the_first_drawn_code_no_room_holds() {
    let mut manager = manager();
    let (held, _) = manager.create_room().unwrap();
    let drawn = vec![held.clone(), "zzzzz2".to_string(), "zzzzz3".to_string()];
    assert_eq!(manager.first_unheld(&drawn), Some(1));
    assert_eq!(manager.first_unheld(&vec![held.clone(), held.clone()]), None);
    assert_eq!(manager.first_unheld(&Vec::new()), None);
    let codes = syncup_game_server::codes::draw_room_codes(5);
    assert_eq!(codes.len(), 5);
    assert!(codes.iter().all(|code| code.len() == 6));
}

#[test]
fn groups_take_turns_giving_their_last_question() {
    let qs = vec![
        question("A0", "A", &[]),
        question("A1", "A", &[]),
        question("A2", "A", &[]),
        question("B0", "B", &[]),
        question("C0", "C", &[]),
        question("C1", "C", &[]),
    ];
    let pool: Vec<usize> = (0..6).collect();
    let groups = vec![vec![0, 1, 2], vec![3], vec![4, 5]];
    assert_eq!(round_robin(&qs, &pool, &groups, 2), vec![2, 3]);
    assert_eq!(round_robin(&qs, &pool, &groups, 5), vec![2, 3, 5, 1, 4]);
    assert_eq!(round_robin(&qs, &pool, &groups, 10), vec![2, 3, 5, 1, 4, 0]);
    assert_eq!(round_robin(&qs, &pool, &groups, 0), Vec::<usize>::new());
}
