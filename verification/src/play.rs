//! Playing a match: starting, answering, scoring, revealing and moving between rounds.
use crate::catalog::{GameExperience, Question, QuestionView, ResponseMode};
use crate::entries::{
    contains_key, find_key, first_index, has_key, lemma_first_index_range, without_key, Keyed,
};
use crate::ids::{parse_uuid, uuid_parse};
use crate::model::{
    ErrorCode, GameError, GamePhase, PlayerAnswer, PlayerTally, Refusal, Room, RoomView,
    RoundSummary, RoundSummaryView, TruthOrDarePhase,
};
use crate::results::result_lines;
use crate::room::{is_member, lemma_vec_push_deep, lemma_vec_update_deep, touched};
use crate::text::{parse_usize, parse_usize_spec, str_equal};
use vstd::prelude::*;

verus! {

/// Whether the room is playing Truth or Dare.
pub open spec fn is_truth_or_dare(r: RoomView) -> bool {
    r.game_id == "truth-or-dare"@
}

/// The Truth or Dare stage a fresh round starts in: choosing, for Truth or Dare only.
pub open spec fn fresh_truth_or_dare_phase(r: RoomView) -> Option<TruthOrDarePhase> {
    if is_truth_or_dare(r) {
        Some(TruthOrDarePhase::Choosing)
    } else {
        None
    }
}

/// The question of round `round` (counting from 1), if the queue has one.
pub open spec fn question_for(queue: Seq<QuestionView>, round: u8) -> Option<QuestionView> {
    if 1 <= round && round - 1 < queue.len() {
        Some(queue[round - 1])
    } else {
        None
    }
}

/// The room at the start of round `round`: answers, turns, Spotlight, reactions and
/// highlight voting cleared, and the round's question loaded.
pub open spec fn round_opened(r: RoomView, round: u8) -> RoomView {
    RoomView {
        current_round: round,
        phase: GamePhase::Playing,
        answers: Seq::empty(),
        completions: Seq::empty(),
        challenges: Seq::empty(),
        truth_or_dare_revealed: false,
        truth_or_dare_phase: fresh_truth_or_dare_phase(r),
        spotlight_order: Seq::empty(),
        spotlight_index: 0,
        reactions: Seq::empty(),
        highlight_categories: Seq::empty(),
        highlight_votes: Seq::empty(),
        highlight_skips: Seq::empty(),
        highlight_results: Seq::empty(),
        current_question: question_for(r.question_queue, round),
        active_player_id: None,
        ..r
    }
}

/// Why starting is refused, if it is: not in the lobby, then fewer than two players.
pub open spec fn start_refusal(r: RoomView) -> Refusal {
    if r.phase != GamePhase::Lobby {
        Some((ErrorCode::InvalidPhase, "Game is not in the lobby."@))
    } else if r.players.len() < 2 {
        Some((ErrorCode::NotEnoughPlayers, "At least two players are required."@))
    } else {
        None
    }
}

/// Why an answer is refused before its content is looked at, if it is.
pub open spec fn answer_gate(r: RoomView, player: u128, round: u8) -> Refusal {
    if r.phase != GamePhase::Playing {
        Some((ErrorCode::InvalidPhase, "Answers are not open."@))
    } else if is_truth_or_dare(r) && r.truth_or_dare_phase != Some(TruthOrDarePhase::Choosing) {
        Some((ErrorCode::InvalidPhase, "Truth or Dare choices are closed."@))
    } else if round != r.current_round {
        Some((ErrorCode::RoundMismatch, "Round does not match."@))
    } else if !is_member(r, player) {
        Some((ErrorCode::Unauthorized, "Player is not in the room."@))
    } else if has_key::<PlayerAnswer>(r.answers, player) {
        Some((ErrorCode::AlreadyAnswered, "Your answer is already locked."@))
    } else {
        None
    }
}

/// Why the content of an answer is refused, if it is: a vote must name a member; an
/// option must be the index of one of the current question's options.
pub open spec fn answer_content_refusal(r: RoomView, answer: Seq<char>) -> Refusal {
    match r.response_mode {
        ResponseMode::PlayerVote => match uuid_parse(answer) {
            None => Some((ErrorCode::InvalidAnswer, "Choose a player."@)),
            Some(selected) => if is_member(r, selected) {
                None
            } else {
                Some((ErrorCode::InvalidPlayer, "Selected player is not in the room."@))
            },
        },
        _ => match parse_usize_spec(answer) {
            None => Some((ErrorCode::InvalidAnswer, "Choose one of the available answers."@)),
            Some(i) => if r.current_question.is_some() && i < r.current_question.unwrap().options.len() {
                None
            } else {
                Some((ErrorCode::InvalidAnswer, "Choose one of the available answers."@))
            },
        },
    }
}

/// `s` with `d` added to the value of `id` (wrapping as `u32` addition does), or with a
/// new entry of `d` when `id` has none.
pub open spec fn tally_add(s: Seq<(u128, u32)>, id: u128, d: u32) -> Seq<(u128, u32)> {
    let i = first_index::<PlayerTally>(s, id);
    if i >= 0 {
        s.update(i, (id, s[i].1.wrapping_add(d)))
    } else {
        s.push((id, d))
    }
}

/// `s` with the value of `id` set to `v` (`insert`).
pub open spec fn tally_put(s: Seq<(u128, u32)>, id: u128, v: u32) -> Seq<(u128, u32)> {
    let i = first_index::<PlayerTally>(s, id);
    if i >= 0 {
        s.update(i, (id, v))
    } else {
        s.push((id, v))
    }
}

/// 100 points to the player each vote names, vote by vote.
pub open spec fn vote_points(s: Seq<(u128, u32)>, answers: Seq<(u128, Seq<char>)>) -> Seq<
    (u128, u32),
>
    decreases answers.len(),
{
    if answers.len() == 0 {
        s
    } else {
        let before = vote_points(s, answers.drop_last());
        match uuid_parse(answers.last().1) {
            Some(selected) => tally_add(before, selected, 100),
            None => before,
        }
    }
}

/// 100 points added to each player whose answer is the correct option.
pub open spec fn quiz_scores(
    s: Seq<(u128, u32)>,
    answers: Seq<(u128, Seq<char>)>,
    correct: Option<usize>,
) -> Seq<(u128, u32)>
    decreases answers.len(),
{
    if answers.len() == 0 {
        s
    } else {
        let before = quiz_scores(s, answers.drop_last(), correct);
        if parse_usize_spec(answers.last().1) == correct {
            tally_add(before, answers.last().0, 100)
        } else {
            before
        }
    }
}

/// The round points of a quiz: 100 for each player whose answer is the correct option.
pub open spec fn quiz_round_points(
    s: Seq<(u128, u32)>,
    answers: Seq<(u128, Seq<char>)>,
    correct: Option<usize>,
) -> Seq<(u128, u32)>
    decreases answers.len(),
{
    if answers.len() == 0 {
        s
    } else {
        let before = quiz_round_points(s, answers.drop_last(), correct);
        if parse_usize_spec(answers.last().1) == correct {
            tally_put(before, answers.last().0, 100)
        } else {
            before
        }
    }
}

/// The correct option of the current question, if any.
pub open spec fn correct_option(r: RoomView) -> Option<usize> {
    match r.current_question {
        Some(q) => q.correct_option,
        None => None,
    }
}

/// The room after scoring a round: the round's points start empty; only competitive
/// games score, votes giving 100 to the player named and quizzes 100 for the correct option.
pub open spec fn scored(r: RoomView) -> RoomView {
    let cleared = RoomView { current_round_points: Seq::empty(), ..r };
    if r.experience != GameExperience::Competitive {
        cleared
    } else {
        match r.response_mode {
            ResponseMode::PlayerVote => RoomView {
                scores: vote_points(r.scores, r.answers),
                current_round_points: vote_points(Seq::empty(), r.answers),
                ..cleared
            },
            ResponseMode::Quiz => RoomView {
                scores: quiz_scores(r.scores, r.answers, correct_option(r)),
                current_round_points: quiz_round_points(Seq::empty(), r.answers, correct_option(r)),
                ..cleared
            },
            ResponseMode::Choice => cleared,
        }
    }
}

/// The history line of the current round, with `results` as its results.
pub open spec fn summary_of(r: RoomView, results: Seq<crate::model::RoundResultView>) -> RoundSummaryView {
    RoundSummaryView {
        round: r.current_round,
        question: match r.current_question {
            Some(q) => q.prompt,
            None => Seq::empty(),
        },
        category: match r.current_question {
            Some(q) => q.category,
            None => Seq::empty(),
        },
        results,
    }
}

/// A history line records the current round, and its results are the round's result lines
/// in order.
pub open spec fn summary_records(s: RoundSummaryView, r: RoomView) -> bool {
    &&& s == summary_of(r, s.results)
    &&& s.results.to_multiset() == result_lines(r).to_multiset()
    &&& crate::order::results_ordered(s.results)
}

/// Why revealing the results is refused, if it is.
pub open spec fn reveal_refusal(r: RoomView) -> Refusal {
    if r.phase != GamePhase::Playing {
        Some((ErrorCode::InvalidPhase, "Game is not accepting answers."@))
    } else if r.answers.len() < r.players.len() {
        Some((ErrorCode::InvalidPhase, "Everyone must lock an answer before results are revealed."@))
    } else if is_truth_or_dare(r) && r.truth_or_dare_phase != Some(TruthOrDarePhase::PreparingReveal) {
        Some((ErrorCode::InvalidPhase, "The Spotlight is not ready yet."@))
    } else {
        None
    }
}

/// The room after the round's results are revealed in a game other than Truth or Dare:
/// scores applied, the phase at results, and the round added to the history.
pub open spec fn results_revealed(r: RoomView, summary: RoundSummaryView, now: u64) -> RoomView {
    let s = scored(r);
    touched(
        RoomView { phase: GamePhase::Results, round_history: s.round_history.push(summary), ..s },
        now,
    )
}

/// The room after the Spotlight opens with the players in `order`.
pub open spec fn spotlight_opened(r: RoomView, order: Seq<u128>, now: u64) -> RoomView {
    touched(
        RoomView {
            spotlight_order: order,
            spotlight_index: 0,
            truth_or_dare_revealed: true,
            truth_or_dare_phase: Some(TruthOrDarePhase::Spotlight),
            reactions: Seq::empty(),
            ..r
        },
        now,
    )
}

/// Whether a Truth or Dare round is over and the next may begin.
pub open spec fn truth_or_dare_round_over(r: RoomView) -> bool {
    is_truth_or_dare(r) && r.phase == GamePhase::Playing && (r.truth_or_dare_phase == Some(
        TruthOrDarePhase::HighlightResults,
    ) || r.truth_or_dare_phase == Some(TruthOrDarePhase::RoundComplete))
}

/// The room after moving on from a round: finished after the last round, otherwise the
/// next round opens with its points cleared.
pub open spec fn advanced(r: RoomView) -> RoomView {
    if r.current_round >= r.max_rounds {
        RoomView { phase: GamePhase::Finished, ..r }
    } else {
        round_opened(
            RoomView { current_round_points: Seq::empty(), ..r },
            (r.current_round + 1) as u8,
        )
    }
}

impl Room {
    /// Whether this room plays Truth or Dare.
    pub fn truth_or_dare(&self) -> (b: bool)
        ensures
            b == is_truth_or_dare(self@),
    {
        str_equal(self.game_id.as_str(), "truth-or-dare")
    }

    /// Loads the question of the current round and clears the active player.
    fn load_current_question(&mut self)
        requires
            old(self).current_round >= 1,
        ensures
            final(self)@ == (RoomView {
                current_question: question_for(old(self)@.question_queue, old(self).current_round),
                active_player_id: None,
                ..old(self)@
            }),
    {
        let index = (self.current_round - 1) as usize;
        if index < self.question_queue.len() {
            self.current_question = Some(self.question_queue[index].duplicate());
        } else {
            self.current_question = None;
        }
        self.active_player_id = None;
    }

    /// Clears the per-round state and opens round `round`.
    fn open_round(&mut self, round: u8)
        requires
            round >= 1,
        ensures
            final(self)@ == round_opened(old(self)@, round),
    {
        let tod = self.truth_or_dare();
        self.current_round = round;
        self.phase = GamePhase::Playing;
        self.answers = Vec::new();
        self.completions = Vec::new();
        self.truth_or_dare_states = Vec::new();
        self.truth_or_dare_revealed = false;
        self.truth_or_dare_phase = if tod {
            Some(TruthOrDarePhase::Choosing)
        } else {
            None
        };
        self.spotlight_order = Vec::new();
        self.spotlight_index = 0;
        self.reactions = Vec::new();
        self.highlight_categories = Vec::new();
        self.highlight_votes = Vec::new();
        self.highlight_skips = Vec::new();
        self.highlight_results = Vec::new();
        self.load_current_question();
        assert(self.answers.deep_view() =~= Seq::empty());
        assert(self.truth_or_dare_states.deep_view() =~= Seq::empty());
        assert(self.reactions.deep_view() =~= Seq::empty());
        assert(self.highlight_categories.deep_view() =~= Seq::empty());
        assert(self.highlight_votes.deep_view() =~= Seq::empty());
        assert(self.highlight_results.deep_view() =~= Seq::empty());
    }

    /// Starts the match from the lobby with at least two players.
    pub fn start_game_locked(&mut self, now: u64) -> (r: Result<(), GameError>)
        ensures
            r.is_err() <==> start_refusal(old(self)@).is_some(),
            r.is_err() ==> r.unwrap_err()@ == start_refusal(old(self)@).unwrap() && final(self)@ == old(self)@,
            r.is_ok() ==> final(self)@ == touched(round_opened(old(self)@, 1), now),
    {
        if self.phase != GamePhase::Lobby {
            return Err(GameError::new(ErrorCode::InvalidPhase, "Game is not in the lobby."));
        }
        if self.players.len() < 2 {
            return Err(
                GameError::new(ErrorCode::NotEnoughPlayers, "At least two players are required."),
            );
        }
        self.open_round(1);
        self.changed(now);
        Ok(())
    }

    /// Checks what an answer says: a member's id in a vote, an option index otherwise.
    pub fn validate_answer(&self, answer: &str) -> (r: Result<(), GameError>)
        ensures
            r.is_err() <==> answer_content_refusal(self@, answer@).is_some(),
            r.is_err() ==> r.unwrap_err()@ == answer_content_refusal(self@, answer@).unwrap(),
    {
        match self.response_mode {
            ResponseMode::PlayerVote => {
                let selected = match parse_uuid(answer) {
                    Some(s) => s,
                    None => {
                        return Err(GameError::new(ErrorCode::InvalidAnswer, "Choose a player."));
                    },
                };
                if !self.has_player(selected) {
                    return Err(
                        GameError::new(ErrorCode::InvalidPlayer, "Selected player is not in the room."),
                    );
                }
            },
            _ => {
                let index = match parse_usize(answer) {
                    Some(i) => i,
                    None => {
                        return Err(
                            GameError::new(
                                ErrorCode::InvalidAnswer,
                                "Choose one of the available answers.",
                            ),
                        );
                    },
                };
                let valid = match &self.current_question {
                    Some(q) => index < q.options.len(),
                    None => false,
                };
                if !valid {
                    return Err(
                        GameError::new(ErrorCode::InvalidAnswer, "Choose one of the available answers."),
                    );
                }
            },
        }
        Ok(())
    }

    /// Checks the phase, round, membership and answer lock of an answer.
    pub fn answer_gate_check(&self, player_id: u128, round: u8) -> (r: Result<(), GameError>)
        ensures
            r.is_err() <==> answer_gate(self@, player_id, round).is_some(),
            r.is_err() ==> r.unwrap_err()@ == answer_gate(self@, player_id, round).unwrap(),
    {
        if self.phase != GamePhase::Playing {
            return Err(GameError::new(ErrorCode::InvalidPhase, "Answers are not open."));
        }
        if self.truth_or_dare() && self.truth_or_dare_phase != Some(TruthOrDarePhase::Choosing) {
            return Err(GameError::new(ErrorCode::InvalidPhase, "Truth or Dare choices are closed."));
        }
        if round != self.current_round {
            return Err(GameError::new(ErrorCode::RoundMismatch, "Round does not match."));
        }
        if !self.has_player(player_id) {
            return Err(GameError::new(ErrorCode::Unauthorized, "Player is not in the room."));
        }
        if contains_key(&self.answers, player_id) {
            return Err(GameError::new(ErrorCode::AlreadyAnswered, "Your answer is already locked."));
        }
        Ok(())
    }

    /// Locks `answer` as `player_id`'s answer in a game other than Truth or Dare.
    pub fn submit_plain_answer(&mut self, player_id: u128, round: u8, answer: &str, now: u64) -> (r:
        Result<(), GameError>)
        requires
            !is_truth_or_dare(old(self)@),
        ensures
            r.is_err() <==> answer_gate(old(self)@, player_id, round).is_some()
                || answer_content_refusal(old(self)@, answer@).is_some(),
            r.is_err() ==> final(self)@ == old(self)@ && r.unwrap_err()@ == (if answer_gate(
                old(self)@,
                player_id,
                round,
            ).is_some() {
                answer_gate(old(self)@, player_id, round).unwrap()
            } else {
                answer_content_refusal(old(self)@, answer@).unwrap()
            }),
            r.is_ok() ==> final(self)@ == touched(
                RoomView {
                    answers: old(self)@.answers.push((player_id, answer@)),
                    ..old(self)@
                },
                now,
            ),
    {
        match self.answer_gate_check(player_id, round) {
            Err(e) => {
                return Err(e);
            },
            Ok(()) => {},
        }
        match self.validate_answer(answer) {
            Err(e) => {
                return Err(e);
            },
            Ok(()) => {},
        }
        let a = PlayerAnswer { player_id, answer: answer.to_owned() };
        let ghost before = self.answers;
        self.answers.push(a);
        proof {
            lemma_vec_push_deep(before, self.answers, a);
        }
        self.changed(now);
        Ok(())
    }

    /// Adds `d` to the value of `id` in `v`, or records `d` for `id`.
    pub fn add_to_tally(v: &mut Vec<PlayerTally>, id: u128, d: u32)
        ensures
            final(v).deep_view() == tally_add(old(v).deep_view(), id, d),
    {
        let ghost before = *v;
        proof {
            lemma_first_index_range::<PlayerTally>(v.deep_view(), id);
        }
        match find_key(v, id) {
            Some(i) => {
                let t = v[i].value.wrapping_add(d);
                v[i].value = t;
                proof {
                    lemma_vec_update_deep(before, *v, i as int);
                }
            },
            None => {
                let t = PlayerTally { player_id: id, value: d };
                v.push(t);
                proof {
                    lemma_vec_push_deep(before, *v, t);
                }
            },
        }
    }

    /// Sets the value of `id` in `v` to `value`.
    fn put_tally(v: &mut Vec<PlayerTally>, id: u128, value: u32)
        ensures
            final(v).deep_view() == tally_put(old(v).deep_view(), id, value),
    {
        let ghost before = *v;
        proof {
            lemma_first_index_range::<PlayerTally>(v.deep_view(), id);
        }
        match find_key(v, id) {
            Some(i) => {
                v[i].value = value;
                proof {
                    lemma_vec_update_deep(before, *v, i as int);
                }
            },
            None => {
                let t = PlayerTally { player_id: id, value };
                v.push(t);
                proof {
                    lemma_vec_push_deep(before, *v, t);
                }
            },
        }
    }

    /// Scores the round: votes give 100 to the player named; a quiz gives 100 for the
    /// correct option; nothing is scored outside competitive games.
    pub fn apply_scores(&mut self)
        ensures
            final(self)@ == scored(old(self)@),
    {
        self.current_round_points = Vec::new();
        assert(self.current_round_points.deep_view() =~= Seq::<(u128, u32)>::empty());
        if self.experience != GameExperience::Competitive {
            return;
        }
        let ghost r0 = *old(self);
        let ghost answers = self.answers.deep_view();
        match self.response_mode {
            ResponseMode::PlayerVote => {
                let mut i: usize = 0;
                while i < self.answers.len()
                    invariant
                        i <= self.answers.len(),
                        answers == self.answers.deep_view(),
                        answers == r0@.answers,
                        self.scores.deep_view() == vote_points(r0@.scores, answers.subrange(0, i as int)),
                        self.current_round_points.deep_view() == vote_points(Seq::empty(), answers.subrange(0, i as int)),
                        self@ == (RoomView { scores: self.scores.deep_view(), current_round_points: self.current_round_points.deep_view(), ..r0@ }),
                    decreases self.answers.len() - i,
                {
                    proof {
                        assert(answers.subrange(0, i + 1).drop_last() =~= answers.subrange(0, i as int));
                        assert(answers[i as int] == self.answers[i as int].deep_view());
                    }
                    match parse_uuid(self.answers[i].answer.as_str()) {
                        Some(selected) => {
                            Self::add_to_tally(&mut self.scores, selected, 100);
                            Self::add_to_tally(&mut self.current_round_points, selected, 100);
                        },
                        None => {},
                    }
                    i = i + 1;
                }
                assert(answers.subrange(0, self.answers.len() as int) =~= answers);
            },
            ResponseMode::Quiz => {
                let correct = match &self.current_question {
                    Some(q) => q.correct_option,
                    None => None,
                };
                let mut i: usize = 0;
                while i < self.answers.len()
                    invariant
                        i <= self.answers.len(),
                        answers == self.answers.deep_view(),
                        answers == r0@.answers,
                        correct == correct_option(r0@),
                        self.scores.deep_view() == quiz_scores(r0@.scores, answers.subrange(0, i as int), correct),
                        self.current_round_points.deep_view() == quiz_round_points(Seq::empty(), answers.subrange(0, i as int), correct),
                        self@ == (RoomView { scores: self.scores.deep_view(), current_round_points: self.current_round_points.deep_view(), ..r0@ }),
                    decreases self.answers.len() - i,
                {
                    proof {
                        assert(answers.subrange(0, i + 1).drop_last() =~= answers.subrange(0, i as int));
                        assert(answers[i as int] == self.answers[i as int].deep_view());
                    }
                    if parse_usize(self.answers[i].answer.as_str()) == correct {
                        let who = self.answers[i].player_id;
                        Self::add_to_tally(&mut self.scores, who, 100);
                        Self::put_tally(&mut self.current_round_points, who, 100);
                    }
                    i = i + 1;
                }
                assert(answers.subrange(0, self.answers.len() as int) =~= answers);
            },
            ResponseMode::Choice => {},
        }
    }

    /// The history line of the current round.
    pub fn current_summary(&self) -> (s: RoundSummary)
        requires
            self.answers.len() <= u32::MAX,
        ensures
            summary_records(s@, self@),
    {
        let (question, category) = match &self.current_question {
            Some(q) => (q.prompt.clone(), q.category.clone()),
            None => (String::new(), String::new()),
        };
        RoundSummary {
            round: self.current_round,
            question,
            category,
            results: self.calculate_results(),
        }
    }

    /// Moves on from the current round.
    pub fn advance_round(&mut self)
        ensures
            final(self)@ == advanced(old(self)@),
    {
        if self.current_round >= self.max_rounds {
            self.phase = GamePhase::Finished;
        } else {
            self.current_round_points = Vec::new();
            assert(self.current_round_points.deep_view() =~= Seq::<(u128, u32)>::empty());
            let next = self.current_round + 1;
            self.open_round(next);
        }
    }
}

} // verus!

verus! {

/// A Truth or Dare answer as it is compared: trimmed and in ASCII lower case.
pub open spec fn normalized_choice(answer: Seq<char>) -> Seq<char> {
    crate::text::ascii_lower(crate::text::trim_spec(answer))
}

/// Why a Truth or Dare choice is refused, if it is: not `truth` or `dare`, or no prompt to give.
pub open spec fn choice_refusal(r: RoomView, answer: Seq<char>) -> Refusal {
    let c = normalized_choice(answer);
    if !(c == "truth"@ || c == "dare"@) {
        Some((ErrorCode::InvalidAnswer, "Choose either Truth or Dare."@))
    } else if crate::prompts::pool_of(r, c).len() == 0 {
        Some((ErrorCode::InternalError, "No prompts are available for that choice."@))
    } else {
        None
    }
}

/// Why an answer is refused, if it is.
pub open spec fn answer_refusal(r: RoomView, player: u128, round: u8, answer: Seq<char>) -> Refusal {
    if answer_gate(r, player, round).is_some() {
        answer_gate(r, player, round)
    } else if is_truth_or_dare(r) {
        choice_refusal(r, answer)
    } else {
        answer_content_refusal(r, answer)
    }
}

/// The room after `player` locks `choice` and is given prompt `k`: the choice is the
/// player's answer, the turn is recorded, and choosing closes once everyone has chosen.
pub open spec fn choice_locked(r: RoomView, player: u128, choice: Seq<char>, k: int) -> RoomView {
    let recorded = crate::prompts::prompt_recorded(r, player, choice, k);
    let answers = r.answers.push((player, choice));
    RoomView {
        challenges: crate::prompts::challenge_put(
            r.challenges,
            player,
            crate::prompts::assigned_challenge(r, choice, k),
        ),
        answers,
        truth_or_dare_phase: if answers.len() == r.players.len() {
            Some(TruthOrDarePhase::PreparingReveal)
        } else {
            r.truth_or_dare_phase
        },
        ..recorded
    }
}

impl Room {
    /// Locks `player_id`'s answer for round `round`. In Truth or Dare the answer is the
    /// choice, and the player is given a random prompt among the candidates.
    pub fn submit_answer(&mut self, player_id: u128, round: u8, answer: &str, now: u64) -> (r:
        Result<(), GameError>)
        ensures
            r.is_err() <==> answer_refusal(old(self)@, player_id, round, answer@).is_some(),
            r.is_err() ==> final(self)@ == old(self)@ && r.unwrap_err()@ == answer_refusal(
                old(self)@,
                player_id,
                round,
                answer@,
            ).unwrap(),
            r.is_ok() && !is_truth_or_dare(old(self)@) ==> final(self)@ == touched(
                RoomView {
                    answers: old(self)@.answers.push((player_id, answer@)),
                    ..old(self)@
                },
                now,
            ),
            r.is_ok() && is_truth_or_dare(old(self)@) ==> exists|k: usize|
                #![trigger crate::prompts::candidates_for(old(self)@, player_id, normalized_choice(answer@)).contains(k)]
                crate::prompts::candidates_for(old(self)@, player_id, normalized_choice(answer@)).contains(k)
                    && final(self)@ == touched(
                    choice_locked(old(self)@, player_id, normalized_choice(answer@), k as int),
                    now,
                ),
    {
        if !self.truth_or_dare() {
            return self.submit_plain_answer(player_id, round, answer, now);
        }
        match self.answer_gate_check(player_id, round) {
            Err(e) => {
                return Err(e);
            },
            Ok(()) => {},
        }
        let trimmed = crate::text::trim(answer);
        let choice = crate::text::to_ascii_lowercase(trimmed.as_str());
        if !(str_equal(choice.as_str(), "truth") || str_equal(choice.as_str(), "dare")) {
            return Err(GameError::new(ErrorCode::InvalidAnswer, "Choose either Truth or Dare."));
        }
        let ghost r0 = self@;
        let state = match self.assign_truth_or_dare_prompt(player_id, choice.as_str()) {
            Ok(s) => s,
            Err(e) => {
                return Err(e);
            },
        };
        let ghost r1 = self@;
        let ghost k = choose|k: usize|
            #![trigger crate::prompts::candidates_for(r0, player_id, choice@).contains(k)]
            crate::prompts::candidates_for(r0, player_id, choice@).contains(k) && k
                < crate::prompts::pool_of(r0, choice@).len() && state@
                == crate::prompts::assigned_challenge(r0, choice@, k as int) && r1
                == crate::prompts::prompt_recorded(r0, player_id, choice@, k as int);
        self.put_challenge(player_id, state);
        let a = PlayerAnswer { player_id, answer: choice };
        let ghost before = self.answers;
        self.answers.push(a);
        proof {
            lemma_vec_push_deep(before, self.answers, a);
        }
        if self.answers.len() == self.players.len() {
            self.truth_or_dare_phase = Some(TruthOrDarePhase::PreparingReveal);
        }
        assert(self@ == choice_locked(r0, player_id, choice@, k as int));
        self.changed(now);
        Ok(())
    }
}

} // verus!

verus! {

/// Why moving to the next round is refused, if it is: results must be showing, or a Truth
/// or Dare round must be over.
pub open spec fn next_round_refusal(r: RoomView) -> Refusal {
    if r.phase != GamePhase::Results && !truth_or_dare_round_over(r) {
        Some(
            (
                ErrorCode::InvalidPhase,
                if is_truth_or_dare(r) {
                    "Finish the Spotlight highlights first."@
                } else {
                    "Results are not showing."@
                },
            ),
        )
    } else {
        None
    }
}

impl Room {
    /// The players' ids, in roster order.
    pub fn player_id_list(&self) -> (ids: Vec<u128>)
        ensures
            ids@ == crate::room::player_ids(self@.players),
    {
        let mut ids: Vec<u128> = Vec::new();
        let mut i: usize = 0;
        while i < self.players.len()
            invariant
                i <= self.players.len(),
                ids@ =~= crate::room::player_ids(self@.players).subrange(0, i as int),
            decreases self.players.len() - i,
        {
            assert(self@.players[i as int] == self.players[i as int].deep_view());
            ids.push(self.players[i].id);
            i = i + 1;
        }
        assert(crate::room::player_ids(self@.players).subrange(0, self.players.len() as int)
            =~= crate::room::player_ids(self@.players));
        ids
    }

    /// Reveals the round once everyone has answered: in Truth or Dare the Spotlight opens
    /// with every player in a random order; otherwise the round is scored, results show
    /// and the round enters the history.
    pub fn reveal_results_locked(&mut self, now: u64) -> (r: Result<(), GameError>)
        requires
            old(self).answers.len() <= u32::MAX,
        ensures
            r.is_err() <==> reveal_refusal(old(self)@).is_some(),
            r.is_err() ==> final(self)@ == old(self)@ && r.unwrap_err()@ == reveal_refusal(
                old(self)@,
            ).unwrap(),
            r.is_ok() && is_truth_or_dare(old(self)@) ==> final(self)@.spotlight_order.to_multiset()
                == crate::room::player_ids(old(self)@.players).to_multiset() && final(self)@
                == spotlight_opened(old(self)@, final(self)@.spotlight_order, now),
            r.is_ok() && !is_truth_or_dare(old(self)@) ==> final(self)@.round_history.len()
                == old(self)@.round_history.len() + 1 && summary_records(
                final(self)@.round_history.last(),
                old(self)@,
            ) && final(self)@ == results_revealed(
                old(self)@,
                final(self)@.round_history.last(),
                now,
            ),
    {
        if self.phase != GamePhase::Playing {
            return Err(GameError::new(ErrorCode::InvalidPhase, "Game is not accepting answers."));
        }
        if self.answers.len() < self.players.len() {
            return Err(
                GameError::new(
                    ErrorCode::InvalidPhase,
                    "Everyone must lock an answer before results are revealed.",
                ),
            );
        }
        if self.truth_or_dare() {
            if self.truth_or_dare_phase != Some(TruthOrDarePhase::PreparingReveal) {
                return Err(GameError::new(ErrorCode::InvalidPhase, "The Spotlight is not ready yet."));
            }
            let mut order = self.player_id_list();
            crate::ids::shuffle(&mut order);
            self.spotlight_order = order;
            self.spotlight_index = 0;
            self.truth_or_dare_revealed = true;
            self.truth_or_dare_phase = Some(TruthOrDarePhase::Spotlight);
            self.reactions = Vec::new();
            assert(self.reactions.deep_view() =~= Seq::empty());
            self.changed(now);
            return Ok(());
        }
        let ghost r0 = self@;
        self.apply_scores();
        self.phase = GamePhase::Results;
        let summary = self.current_summary();
        let ghost before = self.round_history;
        self.round_history.push(summary);
        proof {
            lemma_vec_push_deep(before, self.round_history, summary);
            assert(crate::results::result_lines(scored(r0)) == crate::results::result_lines(r0));
        }
        self.changed(now);
        Ok(())
    }

    /// Records the current round in the history.
    fn record_current_round(&mut self)
        requires
            old(self).answers.len() <= u32::MAX,
        ensures
            final(self)@.round_history.len() == old(self)@.round_history.len() + 1,
            summary_records(final(self)@.round_history.last(), old(self)@),
            final(self)@ == (RoomView { round_history: final(self)@.round_history, ..old(self)@ }),
            final(self)@.round_history == old(self)@.round_history.push(final(self)@.round_history.last()),
    {
        let summary = self.current_summary();
        let ghost before = self.round_history;
        self.round_history.push(summary);
        proof {
            lemma_vec_push_deep(before, self.round_history, summary);
        }
    }

    /// Moves on from a round whose results are showing, or from a finished Truth or Dare
    /// round (which is first recorded in the history).
    pub fn next_round_locked(&mut self, now: u64) -> (r: Result<(), GameError>)
        requires
            old(self).answers.len() <= u32::MAX,
        ensures
            r.is_err() <==> next_round_refusal(old(self)@).is_some(),
            r.is_err() ==> final(self)@ == old(self)@ && r.unwrap_err()@ == next_round_refusal(old(self)@).unwrap(),
            r.is_ok() && !truth_or_dare_round_over(old(self)@) ==> final(self)@ == touched(
                advanced(old(self)@),
                now,
            ),
            r.is_ok() && truth_or_dare_round_over(old(self)@) ==> exists|s: RoundSummaryView|
                summary_records(s, old(self)@) && #[trigger] final(self)@ == touched(
                    advanced(RoomView { round_history: old(self)@.round_history.push(s), ..old(self)@ }),
                    now,
                ),
    {
        let tod = self.truth_or_dare();
        let ready = tod && self.phase == GamePhase::Playing && (self.truth_or_dare_phase == Some(
            TruthOrDarePhase::HighlightResults,
        ) || self.truth_or_dare_phase == Some(TruthOrDarePhase::RoundComplete));
        if self.phase != GamePhase::Results && !ready {
            return Err(
                GameError::new(
                    ErrorCode::InvalidPhase,
                    if tod {
                        "Finish the Spotlight highlights first."
                    } else {
                        "Results are not showing."
                    },
                ),
            );
        }
        if ready {
            self.record_current_round();
        }
        self.advance_round();
        self.changed(now);
        Ok(())
    }
}

} // verus!
