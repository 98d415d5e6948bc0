use std::collections::HashSet;
use syncup_game_server::catalog::{GameDefinition, GameExperience, Question, ResponseMode};
use syncup_game_server::manager::RoomManager;
use syncup_game_server::model::{ErrorCode, GamePhase, TruthOrDarePhase};

fn fresh_id() -> u128 {
    uuid::Uuid::new_v4().as_u128()
}

fn question(prompt: &str, category: &str, options: &[&str], correct: Option<usize>) -> Question {
    Question {
        prompt: prompt.into(),
        category: category.into(),
        difficulty: "easy".into(),
        options: options.iter().map(|option| option.to_string()).collect(),
        visual_options: vec![],
        correct_option: correct,
    }
}

fn game(
    id: &str,
    response_mode: ResponseMode,
    experience: GameExperience,
    questions: Vec<Question>,
) -> GameDefinition {
    GameDefinition {
        id: id.into(),
        title: id.into(),
        description: "A game for the tests.".into(),
        icon: "spark".into(),
        category: "Party".into(),
        estimated_minutes: 5,
        response_mode,
        experience,
        default_rounds: 3,
        min_players: 2,
        questions,
    }
}

fn quiz_manager() -> RoomManager {
    RoomManager::with_catalog(vec![GameDefinition {
        id: "test-quiz".into(),
        title: "Test Quiz".into(),
        description: "A deterministic scoring test.".into(),
        icon: "timer".into(),
        category: "Quiz".into(),
        estimated_minutes: 5,
        response_mode: ResponseMode::Quiz,
        experience: GameExperience::Competitive,
        default_rounds: 1,
        min_players: 2,
        questions: vec![Question {
            prompt: "Choose the correct answer.".into(),
            category: "test".into(),
            difficulty: "easy".into(),
            options: vec!["Wrong".into(), "Correct".into()],
            visual_options: vec![],
            correct_option: Some(1),
        }],
    }])
}

/// A small catalog with a voting game and Truth or Dare.
fn party_catalog() -> Vec<GameDefinition> {
    let votes = (1..=4)
        .map(|n| question(&format!("Who is most likely to do thing {n}?"), "party", &[], None))
        .collect();
    let challenges = (1..=3)
        .map(|n| {
            question(
                &format!("Round {n}"),
                "spicy",
                &[&format!("Truth: Tell secret {n}"), &format!("Dare: Do stunt {n}")],
                None,
            )
        })
        .collect();
    vec![
        game("most-likely-to", ResponseMode::PlayerVote, GameExperience::Voting, votes),
        game("truth-or-dare", ResponseMode::Choice, GameExperience::Voting, challenges),
    ]
}

#[test]
fn quiz_answers_score_and_rank_players() {
    let mut manager = quiz_manager();
    let (code, token) = manager
        .create_room_with_host_options("test-quiz", Some(1), None, "Host")
        .unwrap();
    manager.authenticate_host(&code, &token, fresh_id()).unwrap();
    let (afreen, _) = manager.join_room(&code, "Afreen").unwrap();
    let (sam, _) = manager.join_room(&code, "Sam").unwrap();
    manager.start_game(&code, &token).unwrap();
    let host = manager.public_snapshot(&code).unwrap().host_player_id;
    manager.submit_answer(&code, host, 1, "0").unwrap();
    manager.submit_answer(&code, afreen, 1, "1").unwrap();
    manager.submit_answer(&code, sam, 1, "0").unwrap();
    manager.reveal_results(&code, &token).unwrap();

    let snapshot = manager.public_snapshot(&code).unwrap();
    assert_eq!(snapshot.phase, GamePhase::Results);
    assert_eq!(snapshot.leaderboard[0].nickname, "Afreen");
    assert_eq!(snapshot.leaderboard[0].score, 100);
    assert_eq!(snapshot.leaderboard[1].score, 0);
    let correct = snapshot
        .results
        .unwrap()
        .into_iter()
        .find(|result| result.label == "Correct")
        .unwrap();
    assert_eq!(correct.votes, 1);
    assert_eq!(correct.is_correct, Some(true));
}

#[test]
fn invalid_choice_is_rejected_and_answers_lock() {
    let mut manager = quiz_manager();
    let (code, token) = manager.create_room_for_game("test-quiz", Some(1)).unwrap();
    manager.authenticate_host(&code, &token, fresh_id()).unwrap();
    let (afreen, _) = manager.join_room(&code, "Afreen").unwrap();
    manager.join_room(&code, "Sam").unwrap();
    manager.start_game(&code, &token).unwrap();
    assert!(manager.submit_answer(&code, afreen, 1, "99").is_err());
    manager.submit_answer(&code, afreen, 1, "1").unwrap();
    assert!(manager.submit_answer(&code, afreen, 1, "0").is_err());
}

#[test]
fn voting_games_do_not_award_points() {
    let mut manager = RoomManager::with_catalog(party_catalog());
    let (code, token) = manager
        .create_room_with_host_options("most-likely-to", Some(1), None, "Host")
        .unwrap();
    manager.authenticate_host(&code, &token, fresh_id()).unwrap();
    let (afreen, _) = manager.join_room(&code, "Afreen").unwrap();
    let (sam, _) = manager.join_room(&code, "Sam").unwrap();
    manager.start_game(&code, &token).unwrap();
    let host = manager.public_snapshot(&code).unwrap().host_player_id;
    manager.submit_vote(&code, host, 1, sam).unwrap();
    manager.submit_vote(&code, afreen, 1, sam).unwrap();
    manager.submit_vote(&code, sam, 1, afreen).unwrap();
    manager.reveal_results(&code, &token).unwrap();
    let snapshot = manager.public_snapshot(&code).unwrap();
    assert!(snapshot.leaderboard.iter().all(|entry| entry.score == 0));
    assert!(snapshot.round_points.is_empty());
}

#[test]
fn truth_or_dare_keeps_choices_prompts_and_completion_private_per_player() {
    let mut manager = RoomManager::with_catalog(party_catalog());
    let (code, token) = manager
        .create_room_with_host_options("truth-or-dare", Some(2), None, "Host")
        .unwrap();
    manager.authenticate_host(&code, &token, fresh_id()).unwrap();
    let (afreen, afreen_token) = manager.join_room(&code, "Afreen").unwrap();
    let (sam, _) = manager.join_room(&code, "Sam").unwrap();
    manager.start_game(&code, &token).unwrap();
    let snapshot = manager.public_snapshot(&code).unwrap();
    let host = snapshot.host_player_id;
    assert!(snapshot.active_player_id.is_none());
    manager.submit_answer(&code, host, 1, "truth").unwrap();
    manager.submit_answer(&code, afreen, 1, "dare").unwrap();
    manager.submit_answer(&code, sam, 1, "truth").unwrap();
    assert!(manager.submit_answer(&code, host, 1, "dare").is_err());

    let public = manager.public_snapshot(&code).unwrap();
    assert_eq!(public.submitted_answer_count, 3);
    assert!(public.viewer_truth_or_dare_choice.is_none());
    assert!(public.viewer_truth_or_dare_prompt.is_none());
    let host_private = manager.snapshot_for_player(&code, host).unwrap();
    let afreen_private = manager.snapshot_for_player(&code, afreen).unwrap();
    let sam_private = manager.snapshot_for_player(&code, sam).unwrap();
    assert_eq!(host_private.viewer_truth_or_dare_choice.as_deref(), Some("truth"));
    assert_eq!(afreen_private.viewer_truth_or_dare_choice.as_deref(), Some("dare"));
    assert_eq!(sam_private.viewer_truth_or_dare_choice.as_deref(), Some("truth"));
    assert!(host_private.viewer_truth_or_dare_prompt.is_none());

    manager.reveal_results(&code, &token).unwrap();
    let spotlight = manager.public_snapshot(&code).unwrap();
    assert_eq!(spotlight.truth_or_dare_phase, Some(TruthOrDarePhase::Spotlight));
    assert_eq!(spotlight.spotlight_order.len(), 3);
    assert_eq!(
        spotlight.spotlight_order.iter().copied().collect::<HashSet<_>>(),
        HashSet::from([host, afreen, sam])
    );
    assert!(spotlight.spotlight_prompt.is_some());
    assert_eq!(
        spotlight.spotlight_player_id,
        spotlight.spotlight_order.first().copied()
    );

    let reconnect_one = fresh_id();
    manager
        .authenticate_player(&code, afreen, &afreen_token, reconnect_one)
        .unwrap();
    manager.disconnect_player(&code, afreen, reconnect_one);
    let restored = manager
        .authenticate_player(&code, afreen, &afreen_token, fresh_id())
        .unwrap();
    assert_eq!(restored.viewer_truth_or_dare_choice.as_deref(), Some("dare"));
    if restored.spotlight_player_id == Some(afreen) {
        assert_eq!(restored.viewer_truth_or_dare_prompt, restored.spotlight_prompt);
    } else {
        assert!(restored.viewer_truth_or_dare_prompt.is_none());
    }

    for _ in 0..3 {
        let current = manager.public_snapshot(&code).unwrap();
        let spotlight_player = current.spotlight_player_id.unwrap();
        let choice = current.spotlight_choice.clone().unwrap();
        let prompt = current.spotlight_prompt.clone().unwrap();
        assert!(!prompt.is_empty());
        assert!(matches!(choice.as_str(), "truth" | "dare"));
        let other = if spotlight_player == host { afreen } else { host };
        assert!(manager.mark_completed(&code, other, 1).is_err());
        manager.mark_completed(&code, spotlight_player, 1).unwrap();
        manager.next_spotlight(&code, host, 1).unwrap();
    }
    let voting = manager.public_snapshot(&code).unwrap();
    assert_eq!(voting.truth_or_dare_phase, Some(TruthOrDarePhase::HighlightVoting));
    for player in [host, afreen, sam] {
        manager.skip_highlight_voting(&code, player, 1).unwrap();
    }
    manager.reveal_highlights(&code, host, 1).unwrap();
    manager.next_round(&code, &token).unwrap();
    let snapshot = manager.public_snapshot(&code).unwrap();
    assert_eq!(snapshot.round, 2);
    assert_eq!(snapshot.phase, GamePhase::Playing);
    assert_eq!(snapshot.submitted_answer_count, 0);
    assert_eq!(snapshot.completed_count, 0);
    assert!(!snapshot.truth_or_dare_revealed);
    assert_eq!(snapshot.truth_or_dare_phase, Some(TruthOrDarePhase::Choosing));
    let reset = manager.snapshot_for_player(&code, host).unwrap();
    assert!(reset.viewer_truth_or_dare_choice.is_none());
    assert!(reset.viewer_truth_or_dare_prompt.is_none());
    assert!(snapshot.leaderboard.iter().all(|entry| entry.score == 0));
}

#[test]
fn spotlight_rerolls_reactions_and_highlight_votes_are_authoritative() {
    let mut manager = RoomManager::with_catalog(party_catalog());
    let (code, token) = manager
        .create_room_with_host_options("truth-or-dare", Some(2), None, "Host")
        .unwrap();
    manager.authenticate_host(&code, &token, fresh_id()).unwrap();
    let host = manager.public_snapshot(&code).unwrap().host_player_id;
    let (afreen, _) = manager.join_room(&code, "Afreen").unwrap();
    let (sam, _) = manager.join_room(&code, "Sam").unwrap();
    manager.start_game(&code, &token).unwrap();
    manager.submit_answer(&code, host, 1, "dare").unwrap();
    manager.submit_answer(&code, afreen, 1, "dare").unwrap();
    manager.submit_answer(&code, sam, 1, "truth").unwrap();
    manager.reveal_results(&code, &token).unwrap();

    let first = manager.public_snapshot(&code).unwrap();
    let current = first.spotlight_player_id.unwrap();
    let first_prompt = first.spotlight_prompt.clone().unwrap();
    manager.reroll_spotlight(&code, current, 1).unwrap();
    let rerolled = manager.public_snapshot(&code).unwrap();
    assert_eq!(rerolled.spotlight_choice, first.spotlight_choice);
    assert_ne!(rerolled.spotlight_prompt.as_deref(), Some(first_prompt.as_str()));
    assert!(manager.reroll_spotlight(&code, current, 1).is_err());
    let reaction_id = fresh_id();
    manager.send_reaction(&code, afreen, 1, "🔥", reaction_id).unwrap();
    manager.send_reaction(&code, afreen, 1, "🔥", reaction_id).unwrap();
    assert_eq!(manager.public_snapshot(&code).unwrap().reactions.len(), 1);

    for _ in 0..3 {
        let current = manager
            .public_snapshot(&code)
            .unwrap()
            .spotlight_player_id
            .unwrap();
        manager.mark_completed(&code, current, 1).unwrap();
        manager.next_spotlight(&code, host, 1).unwrap();
    }
    let voting = manager.public_snapshot(&code).unwrap();
    assert_eq!(voting.truth_or_dare_phase, Some(TruthOrDarePhase::HighlightVoting));
    assert!(voting.highlight_categories.len() >= 2);
    for voter in [host, afreen, sam] {
        for category in &voting.highlight_categories {
            let selected = category
                .eligible_player_ids
                .iter()
                .copied()
                .find(|candidate| *candidate != voter)
                .unwrap();
            manager
                .submit_highlight_vote(&code, voter, 1, &category.id, selected)
                .unwrap();
            assert!(manager
                .submit_highlight_vote(&code, voter, 1, &category.id, selected)
                .is_err());
        }
    }
    manager.reveal_highlights(&code, host, 1).unwrap();
    let results = manager.public_snapshot(&code).unwrap();
    assert_eq!(results.truth_or_dare_phase, Some(TruthOrDarePhase::HighlightResults));
    assert_eq!(results.highlight_results.len(), voting.highlight_categories.len());
}

#[test]
fn truth_or_dare_departure_recalculates_readiness_and_removes_private_state() {
    let mut manager = RoomManager::with_catalog(party_catalog());
    let (code, token) = manager
        .create_room_with_host_options("truth-or-dare", Some(2), None, "Host")
        .unwrap();
    manager.authenticate_host(&code, &token, fresh_id()).unwrap();
    let host = manager.public_snapshot(&code).unwrap().host_player_id;
    let (afreen, old_token) = manager.join_room(&code, "Afreen").unwrap();
    let (sam, _) = manager.join_room(&code, "Sam").unwrap();
    manager.start_game(&code, &token).unwrap();
    manager.submit_answer(&code, host, 1, "truth").unwrap();
    manager.submit_answer(&code, afreen, 1, "dare").unwrap();
    manager.submit_answer(&code, sam, 1, "truth").unwrap();
    manager.leave_room(&code, afreen).unwrap();
    let snapshot = manager.public_snapshot(&code).unwrap();
    assert_eq!(snapshot.submitted_answer_count, 2);
    assert_eq!(snapshot.total_eligible_player_count, 2);
    manager.reveal_results(&code, &token).unwrap();
    let error = manager
        .authenticate_player(&code, afreen, &old_token, fresh_id())
        .unwrap_err();
    assert_eq!(error.code, ErrorCode::InvalidPlayer);
}
