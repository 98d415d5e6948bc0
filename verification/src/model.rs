//! The room model: players, phases, per-round state, and the errors the rules report.
//!
//! Identifiers are 128-bit integers and times are milliseconds on the server clock.
//! Per-player maps are kept as lists of entries, at most one entry per player.
use crate::catalog::{GameExperience, Question, QuestionView, ResponseMode};
use vstd::prelude::*;

verus! {

/// The most players a room admits.
pub const MAX_PLAYERS: usize = 12;

/// The most rounds a match can have.
pub const MAX_ROUNDS: u8 = 10;

#[derive(Clone, Copy, Debug, PartialEq, Eq, Structural)]
pub enum GamePhase {
    Lobby,
    Playing,
    Results,
    Finished,
    Choosing,
    Closed,
}

#[derive(Clone, Copy, Debug, PartialEq, Eq, Structural)]
pub enum TruthOrDarePhase {
    Choosing,
    PreparingReveal,
    Spotlight,
    HighlightVoting,
    HighlightResults,
    RoundComplete,
}

#[derive(Clone, Copy, Debug, PartialEq, Eq, Structural)]
pub enum ErrorCode {
    RoomNotFound,
    RoomFull,
    RoomLocked,
    GameNotFound,
    InvalidNickname,
    InvalidToken,
    Unauthorized,
    InvalidPhase,
    NotEnoughPlayers,
    AlreadyAnswered,
    AlreadyVoted,
    InvalidAnswer,
    InvalidPlayer,
    RoundMismatch,
    HostDisconnected,
    InternalError,
}

/// A refused request: what went wrong and a message for people.
#[derive(Debug)]
pub struct GameError {
    pub code: ErrorCode,
    pub message: String,
}

impl View for GameError {
    type V = (ErrorCode, Seq<char>);

    open spec fn view(&self) -> (ErrorCode, Seq<char>) {
        (self.code, self.message@)
    }
}

/// Why a request is refused, as the code and message of the error it gets; `None` when nothing
/// stands in its way.
pub type Refusal = Option<(ErrorCode, Seq<char>)>;

impl GameError {
    pub fn new(code: ErrorCode, message: &str) -> (r: GameError)
        ensures
            r.code == code,
            r.message@ == message@,
            r@ == (code, message@),
    {
        GameError { code, message: message.to_owned() }
    }
}

/// A message shown to everyone in the room.
#[derive(Debug)]
pub struct RoomNotice {
    pub id: u64,
    pub message: String,
    pub kind: String,
}

pub struct NoticeView {
    pub id: u64,
    pub message: Seq<char>,
    pub kind: Seq<char>,
}

impl View for RoomNotice {
    type V = NoticeView;

    open spec fn view(&self) -> NoticeView {
        NoticeView { id: self.id, message: self.message@, kind: self.kind@ }
    }
}

impl DeepView for RoomNotice {
    type V = NoticeView;

    open spec fn deep_view(&self) -> NoticeView {
        self@
    }
}

#[derive(Debug)]
pub struct Player {
    pub id: u128,
    pub nickname: String,
    pub session_token: String,
    pub connected: bool,
    pub last_seen: u64,
    pub connection_id: Option<u128>,
}

pub struct PlayerView {
    pub id: u128,
    pub nickname: Seq<char>,
    pub session_token: Seq<char>,
    pub connected: bool,
    pub last_seen: u64,
    pub connection_id: Option<u128>,
}

impl View for Player {
    type V = PlayerView;

    open spec fn view(&self) -> PlayerView {
        PlayerView {
            id: self.id,
            nickname: self.nickname@,
            session_token: self.session_token@,
            connected: self.connected,
            last_seen: self.last_seen,
            connection_id: self.connection_id,
        }
    }
}

impl DeepView for Player {
    type V = PlayerView;

    open spec fn deep_view(&self) -> PlayerView {
        self@
    }
}

/// One line of a round's results: a player or an answer option with its vote count.
#[derive(Debug)]
pub struct RoundResult {
    pub id: String,
    pub label: String,
    pub votes: u32,
    pub player_id: Option<u128>,
    pub is_correct: Option<bool>,
}

pub struct RoundResultView {
    pub id: Seq<char>,
    pub label: Seq<char>,
    pub votes: u32,
    pub player_id: Option<u128>,
    pub is_correct: Option<bool>,
}

impl View for RoundResult {
    type V = RoundResultView;

    open spec fn view(&self) -> RoundResultView {
        RoundResultView {
            id: self.id@,
            label: self.label@,
            votes: self.votes,
            player_id: self.player_id,
            is_correct: self.is_correct,
        }
    }
}

impl DeepView for RoundResult {
    type V = RoundResultView;

    open spec fn deep_view(&self) -> RoundResultView {
        self@
    }
}

impl RoundResult {
    pub fn duplicate(&self) -> (r: RoundResult)
        ensures
            r@ == self@,
    {
        RoundResult {
            id: self.id.clone(),
            label: self.label.clone(),
            votes: self.votes,
            player_id: self.player_id,
            is_correct: self.is_correct,
        }
    }
}

#[derive(Debug)]
pub struct RoundSummary {
    pub round: u8,
    pub question: String,
    pub category: String,
    pub results: Vec<RoundResult>,
}

pub struct RoundSummaryView {
    pub round: u8,
    pub question: Seq<char>,
    pub category: Seq<char>,
    pub results: Seq<RoundResultView>,
}

impl View for RoundSummary {
    type V = RoundSummaryView;

    open spec fn view(&self) -> RoundSummaryView {
        RoundSummaryView {
            round: self.round,
            question: self.question@,
            category: self.category@,
            results: self.results.deep_view(),
        }
    }
}

impl DeepView for RoundSummary {
    type V = RoundSummaryView;

    open spec fn deep_view(&self) -> RoundSummaryView {
        self@
    }
}

#[derive(Debug)]
pub struct LeaderboardEntry {
    pub player_id: u128,
    pub nickname: String,
    pub score: u32,
    pub rank: usize,
}

pub struct LeaderboardEntryView {
    pub player_id: u128,
    pub nickname: Seq<char>,
    pub score: u32,
    pub rank: usize,
}

impl View for LeaderboardEntry {
    type V = LeaderboardEntryView;

    open spec fn view(&self) -> LeaderboardEntryView {
        LeaderboardEntryView {
            player_id: self.player_id,
            nickname: self.nickname@,
            score: self.score,
            rank: self.rank,
        }
    }
}

impl DeepView for LeaderboardEntry {
    type V = LeaderboardEntryView;

    open spec fn deep_view(&self) -> LeaderboardEntryView {
        self@
    }
}

#[derive(Debug)]
pub struct PublicPlayer {
    pub id: u128,
    pub nickname: String,
    pub connected: bool,
    pub role: String,
}

#[derive(Debug)]
pub struct RoundPoint {
    pub player_id: u128,
    pub nickname: String,
    pub points: u32,
}

/// One player's Truth or Dare turn: the locked choice, the assigned prompt and the outcome.
#[derive(Debug)]
pub struct TruthOrDarePlayerState {
    pub choice: String,
    pub prompt_id: String,
    pub prompt: String,
    pub completed: bool,
    pub skipped: bool,
}

pub struct ChallengeView {
    pub choice: Seq<char>,
    pub prompt_id: Seq<char>,
    pub prompt: Seq<char>,
    pub completed: bool,
    pub skipped: bool,
}

impl View for TruthOrDarePlayerState {
    type V = ChallengeView;

    open spec fn view(&self) -> ChallengeView {
        ChallengeView {
            choice: self.choice@,
            prompt_id: self.prompt_id@,
            prompt: self.prompt@,
            completed: self.completed,
            skipped: self.skipped,
        }
    }
}

impl DeepView for TruthOrDarePlayerState {
    type V = ChallengeView;

    open spec fn deep_view(&self) -> ChallengeView {
        self@
    }
}

#[derive(Debug)]
pub struct SpotlightReaction {
    pub id: u128,
    pub player_id: u128,
    pub emoji: String,
    pub spotlight_index: usize,
}

pub struct ReactionView {
    pub id: u128,
    pub player_id: u128,
    pub emoji: Seq<char>,
    pub spotlight_index: usize,
}

impl View for SpotlightReaction {
    type V = ReactionView;

    open spec fn view(&self) -> ReactionView {
        ReactionView {
            id: self.id,
            player_id: self.player_id,
            emoji: self.emoji@,
            spotlight_index: self.spotlight_index,
        }
    }
}

impl DeepView for SpotlightReaction {
    type V = ReactionView;

    open spec fn deep_view(&self) -> ReactionView {
        self@
    }
}

#[derive(Debug)]
pub struct HighlightCategory {
    pub id: String,
    pub label: String,
    pub emoji: String,
    pub eligible_player_ids: Vec<u128>,
}

pub struct CategoryView {
    pub id: Seq<char>,
    pub label: Seq<char>,
    pub emoji: Seq<char>,
    pub eligible: Seq<u128>,
}

impl View for HighlightCategory {
    type V = CategoryView;

    open spec fn view(&self) -> CategoryView {
        CategoryView {
            id: self.id@,
            label: self.label@,
            emoji: self.emoji@,
            eligible: self.eligible_player_ids@,
        }
    }
}

impl DeepView for HighlightCategory {
    type V = CategoryView;

    open spec fn deep_view(&self) -> CategoryView {
        self@
    }
}

#[derive(Debug)]
pub struct HighlightResult {
    pub category_id: String,
    pub label: String,
    pub emoji: String,
    pub winner_player_ids: Vec<u128>,
    pub votes: u32,
}

pub struct HighlightResultView {
    pub category_id: Seq<char>,
    pub label: Seq<char>,
    pub emoji: Seq<char>,
    pub winners: Seq<u128>,
    pub votes: u32,
}

impl View for HighlightResult {
    type V = HighlightResultView;

    open spec fn view(&self) -> HighlightResultView {
        HighlightResultView {
            category_id: self.category_id@,
            label: self.label@,
            emoji: self.emoji@,
            winners: self.winner_player_ids@,
            votes: self.votes,
        }
    }
}

impl DeepView for HighlightResult {
    type V = HighlightResultView;

    open spec fn deep_view(&self) -> HighlightResultView {
        self@
    }
}

/// A player's locked answer for the current round.
#[derive(Debug)]
pub struct PlayerAnswer {
    pub player_id: u128,
    pub answer: String,
}

impl DeepView for PlayerAnswer {
    type V = (u128, Seq<char>);

    open spec fn deep_view(&self) -> (u128, Seq<char>) {
        (self.player_id, self.answer@)
    }
}

/// A number kept per player: a score, a round's points or a reaction count.
#[derive(Clone, Copy, Debug)]
pub struct PlayerTally {
    pub player_id: u128,
    pub value: u32,
}

impl DeepView for PlayerTally {
    type V = (u128, u32);

    open spec fn deep_view(&self) -> (u128, u32) {
        (self.player_id, self.value)
    }
}

/// A player's Truth or Dare turn.
#[derive(Debug)]
pub struct PlayerChallenge {
    pub player_id: u128,
    pub state: TruthOrDarePlayerState,
}

impl DeepView for PlayerChallenge {
    type V = (u128, ChallengeView);

    open spec fn deep_view(&self) -> (u128, ChallengeView) {
        (self.player_id, self.state@)
    }
}

/// One highlight vote: in a category, a voter picked a player.
#[derive(Debug)]
pub struct HighlightVote {
    pub category_id: String,
    pub voter_id: u128,
    pub selected_id: u128,
}

pub struct HighlightVoteView {
    pub category_id: Seq<char>,
    pub voter_id: u128,
    pub selected_id: u128,
}

impl DeepView for HighlightVote {
    type V = HighlightVoteView;

    open spec fn deep_view(&self) -> HighlightVoteView {
        HighlightVoteView {
            category_id: self.category_id@,
            voter_id: self.voter_id,
            selected_id: self.selected_id,
        }
    }
}

/// A prompt that a player has already been given in this match.
#[derive(Debug)]
pub struct UsedPrompt {
    pub player_id: u128,
    pub prompt: String,
}

impl DeepView for UsedPrompt {
    type V = (u128, Seq<char>);

    open spec fn deep_view(&self) -> (u128, Seq<char>) {
        (self.player_id, self.prompt@)
    }
}

/// A highlight vote as its voter sees it.
#[derive(Debug)]
pub struct ViewerHighlightVote {
    pub category_id: String,
    pub selected_id: u128,
}

/// Who sent an authenticated request.
#[derive(Debug)]
pub enum AuthenticatedRole {
    Host { host_token: String, player_id: u128 },
    Player { player_id: u128 },
}

impl AuthenticatedRole {
    pub open spec fn actor(&self) -> u128 {
        match self {
            AuthenticatedRole::Host { player_id, .. } => *player_id,
            AuthenticatedRole::Player { player_id } => *player_id,
        }
    }

    /// The player who acts under this role.
    pub fn actor_id(&self) -> (r: u128)
        ensures
            r == self.actor(),
    {
        match self {
            AuthenticatedRole::Host { player_id, .. } => *player_id,
            AuthenticatedRole::Player { player_id } => *player_id,
        }
    }
}

#[derive(Debug)]
pub struct Room {
    pub id: u128,
    pub code: String,
    pub host_token: String,
    pub host_player_id: u128,
    pub host_connected: bool,
    pub host_connection_id: Option<u128>,
    pub host_last_seen: u64,
    pub players: Vec<Player>,
    pub game_id: String,
    pub game_title: String,
    pub response_mode: ResponseMode,
    pub experience: GameExperience,
    pub theme: String,
    pub phase: GamePhase,
    pub question_queue: Vec<Question>,
    pub current_question: Option<Question>,
    pub current_round: u8,
    pub max_rounds: u8,
    pub answers: Vec<PlayerAnswer>,
    pub scores: Vec<PlayerTally>,
    pub current_round_points: Vec<PlayerTally>,
    pub active_player_id: Option<u128>,
    pub completions: Vec<u128>,
    pub truth_or_dare_states: Vec<PlayerChallenge>,
    pub truth_or_dare_revealed: bool,
    pub truth_or_dare_phase: Option<TruthOrDarePhase>,
    pub spotlight_order: Vec<u128>,
    pub spotlight_index: usize,
    pub rerolls_used: Vec<u128>,
    pub reactions: Vec<SpotlightReaction>,
    pub highlight_categories: Vec<HighlightCategory>,
    pub highlight_votes: Vec<HighlightVote>,
    pub highlight_skips: Vec<u128>,
    pub highlight_results: Vec<HighlightResult>,
    pub historical_highlights: Vec<HighlightResult>,
    pub reaction_totals: Vec<PlayerTally>,
    pub truth_prompts: Vec<String>,
    pub dare_prompts: Vec<String>,
    pub used_truth_prompts: Vec<UsedPrompt>,
    pub used_dare_prompts: Vec<UsedPrompt>,
    pub round_history: Vec<RoundSummary>,
    pub created_at: i64,
    pub last_activity: u64,
    pub expires_at: u64,
    pub version: u64,
    pub notice: Option<RoomNotice>,
}

/// Everything a room holds, as plain values.
pub struct RoomView {
    pub id: u128,
    pub code: Seq<char>,
    pub host_token: Seq<char>,
    pub host_player_id: u128,
    pub host_connected: bool,
    pub host_connection_id: Option<u128>,
    pub host_last_seen: u64,
    pub players: Seq<PlayerView>,
    pub game_id: Seq<char>,
    pub game_title: Seq<char>,
    pub response_mode: ResponseMode,
    pub experience: GameExperience,
    pub theme: Seq<char>,
    pub phase: GamePhase,
    pub question_queue: Seq<QuestionView>,
    pub current_question: Option<QuestionView>,
    pub current_round: u8,
    pub max_rounds: u8,
    pub answers: Seq<(u128, Seq<char>)>,
    pub scores: Seq<(u128, u32)>,
    pub current_round_points: Seq<(u128, u32)>,
    pub active_player_id: Option<u128>,
    pub completions: Seq<u128>,
    pub challenges: Seq<(u128, ChallengeView)>,
    pub truth_or_dare_revealed: bool,
    pub truth_or_dare_phase: Option<TruthOrDarePhase>,
    pub spotlight_order: Seq<u128>,
    pub spotlight_index: usize,
    pub rerolls_used: Seq<u128>,
    pub reactions: Seq<ReactionView>,
    pub highlight_categories: Seq<CategoryView>,
    pub highlight_votes: Seq<HighlightVoteView>,
    pub highlight_skips: Seq<u128>,
    pub highlight_results: Seq<HighlightResultView>,
    pub historical_highlights: Seq<HighlightResultView>,
    pub reaction_totals: Seq<(u128, u32)>,
    pub truth_prompts: Seq<Seq<char>>,
    pub dare_prompts: Seq<Seq<char>>,
    pub used_truth_prompts: Seq<(u128, Seq<char>)>,
    pub used_dare_prompts: Seq<(u128, Seq<char>)>,
    pub round_history: Seq<RoundSummaryView>,
    pub created_at: i64,
    pub last_activity: u64,
    pub expires_at: u64,
    pub version: u64,
    pub notice: Option<NoticeView>,
}

impl View for Room {
    type V = RoomView;

    open spec fn view(&self) -> RoomView {
        RoomView {
            id: self.id,
            code: self.code@,
            host_token: self.host_token@,
            host_player_id: self.host_player_id,
            host_connected: self.host_connected,
            host_connection_id: self.host_connection_id,
            host_last_seen: self.host_last_seen,
            players: self.players.deep_view(),
            game_id: self.game_id@,
            game_title: self.game_title@,
            response_mode: self.response_mode,
            experience: self.experience,
            theme: self.theme@,
            phase: self.phase,
            question_queue: self.question_queue.deep_view(),
            current_question: self.current_question.deep_view(),
            current_round: self.current_round,
            max_rounds: self.max_rounds,
            answers: self.answers.deep_view(),
            scores: self.scores.deep_view(),
            current_round_points: self.current_round_points.deep_view(),
            active_player_id: self.active_player_id,
            completions: self.completions@,
            challenges: self.truth_or_dare_states.deep_view(),
            truth_or_dare_revealed: self.truth_or_dare_revealed,
            truth_or_dare_phase: self.truth_or_dare_phase,
            spotlight_order: self.spotlight_order@,
            spotlight_index: self.spotlight_index,
            rerolls_used: self.rerolls_used@,
            reactions: self.reactions.deep_view(),
            highlight_categories: self.highlight_categories.deep_view(),
            highlight_votes: self.highlight_votes.deep_view(),
            highlight_skips: self.highlight_skips@,
            highlight_results: self.highlight_results.deep_view(),
            historical_highlights: self.historical_highlights.deep_view(),
            reaction_totals: self.reaction_totals.deep_view(),
            truth_prompts: self.truth_prompts.deep_view(),
            dare_prompts: self.dare_prompts.deep_view(),
            used_truth_prompts: self.used_truth_prompts.deep_view(),
            used_dare_prompts: self.used_dare_prompts.deep_view(),
            round_history: self.round_history.deep_view(),
            created_at: self.created_at,
            last_activity: self.last_activity,
            expires_at: self.expires_at,
            version: self.version,
            notice: self.notice.deep_view(),
        }
    }
}

impl DeepView for Room {
    type V = RoomView;

    open spec fn deep_view(&self) -> RoomView {
        self@
    }
}

} // verus!
