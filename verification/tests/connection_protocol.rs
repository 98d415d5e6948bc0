use syncup_game_server::catalog::{GameDefinition, GameExperience, Question, ResponseMode};
use syncup_game_server::events::{authenticate_connection, process_event, ClientEvent, ServerEvent};
use syncup_game_server::model::{AuthenticatedRole, ErrorCode};
use syncup_game_server::RoomManager;

fn connection_id() -> u128 {
    uuid::Uuid::new_v4().as_u128()
}

/// Truth or Dare with one tagged prompt of each kind per round.
fn truth_or_dare_catalog() -> Vec<GameDefinition> {
    let rounds = (1..=3)
        .map(|n| Question {
            prompt: format!("Round {n}"),
            category: "spicy".into(),
            difficulty: "easy".into(),
            options: vec![format!("Truth: Tell secret {n}"), format!("Dare: Do stunt {n}")],
            visual_options: vec![],
            correct_option: None,
        })
        .collect();
    vec![GameDefinition {
        id: "truth-or-dare".into(),
        title: "Truth or Dare".into(),
        description: "Spotlight challenges.".into(),
        icon: "flame".into(),
        category: "Party".into(),
        estimated_minutes: 10,
        response_mode: ResponseMode::Choice,
        experience: GameExperience::Voting,
        default_rounds: 3,
        min_players: 2,
        questions: rounds,
    }]
}

#[test]
fn websocket_rejects_commands_before_authentication() {
    let mut manager = RoomManager::new(vec!["Question?".into()]);
    let reply = authenticate_connection(&mut manager, ClientEvent::StartGame, connection_id());
    match reply {
        Err(ServerEvent::Error { code, .. }) => assert_eq!(code, ErrorCode::Unauthorized),
        _ => panic!("a command before authentication must be refused"),
    }
}

#[test]
fn authenticated_host_and_player_receive_safe_lobby_snapshots() {
    let mut manager = RoomManager::new(vec!["Question?".into()]);
    let (code, host_token) = manager.create_room().unwrap();
    let (player_id, player_token) = manager.join_room(&code, "Afreen").unwrap();

    let (_, host_role, host_snapshot) = authenticate_connection(
        &mut manager,
        ClientEvent::AuthenticateHost { room_code: code.clone(), host_token: host_token.clone() },
        connection_id(),
    )
    .unwrap();
    assert!(matches!(host_role, AuthenticatedRole::Host { .. }));
    let rendered = format!("{host_snapshot:?}");
    assert!(!rendered.contains(&host_token));
    assert!(!rendered.contains(&player_token));

    let (_, player_role, player_snapshot) = authenticate_connection(
        &mut manager,
        ClientEvent::AuthenticatePlayer {
            room_code: code.clone(),
            player_id,
            session_token: player_token.clone(),
        },
        connection_id(),
    )
    .unwrap();
    assert!(matches!(player_role, AuthenticatedRole::Player { .. }));
    assert_eq!(player_snapshot.players[0].nickname, "Afreen");
    assert_eq!(player_snapshot.viewer_has_answered, Some(false));
    let rendered = format!("{player_snapshot:?}");
    assert!(!rendered.contains(&host_token));
    assert!(!rendered.contains(&player_token));
}

#[test]
fn authenticated_player_cannot_overwrite_another_truth_or_dare_choice() {
    let mut manager = RoomManager::with_catalog(truth_or_dare_catalog());
    let (code, host_token) = manager
        .create_room_with_host_options("truth-or-dare", Some(2), None, "Host")
        .unwrap();
    manager.authenticate_host(&code, &host_token, connection_id()).unwrap();
    let host = manager.public_snapshot(&code).unwrap().host_player_id;
    let (afreen, afreen_token) = manager.join_room(&code, "Afreen").unwrap();
    let (sam, _) = manager.join_room(&code, "Sam").unwrap();
    manager.start_game_by_player(&code, host).unwrap();

    let (room, role, _) = authenticate_connection(
        &mut manager,
        ClientEvent::AuthenticatePlayer { room_code: code.clone(), player_id: afreen, session_token: afreen_token },
        connection_id(),
    )
    .unwrap();
    let _ = process_event(
        &mut manager,
        &room,
        &role,
        ClientEvent::SubmitAnswer { round: 1, answer: "dare".into() },
    );
    let afreen_snapshot = manager.snapshot_for_player(&code, afreen).unwrap();
    let sam_snapshot = manager.snapshot_for_player(&code, sam).unwrap();
    assert_eq!(afreen_snapshot.viewer_truth_or_dare_choice.as_deref(), Some("dare"));
    assert!(!sam_snapshot.viewer_has_answered.unwrap());
    assert!(sam_snapshot.viewer_truth_or_dare_choice.is_none());
}
