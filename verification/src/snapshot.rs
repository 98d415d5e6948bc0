//! What a room shows: the public snapshot, and what it adds for one viewer.
use crate::catalog::{clone_strings, GameExperience, ResponseMode};
use crate::departure::spotlight_player;
use crate::entries::{find_key, first_index, has_key, lemma_first_index_range, Keyed};
use crate::model::{
    CategoryView, GamePhase, HighlightCategory, HighlightResult, HighlightResultView,
    HighlightVoteView, LeaderboardEntry, LeaderboardEntryView, NoticeView, Player, PlayerAnswer,
    PlayerChallenge, PlayerTally, PlayerView, PublicPlayer, ReactionView, Room, RoomNotice, RoomView,
    RoundPoint, RoundResult, RoundResultView, RoundSummary, RoundSummaryView, SpotlightReaction,
    TruthOrDarePhase, ViewerHighlightVote,
};
use crate::order::{entries_ordered, entries_stable, results_ordered, results_stable};
use crate::play::is_truth_or_dare;
use crate::results::{leaderboard_lines, ranked, result_lines, unranked};
use crate::room::{clone_ids, lemma_ids_deep, lemma_vec_push_deep};
use crate::spotlight::{challenge_of, has_highlight_vote};
use vstd::prelude::*;

verus! {

pub struct PublicPlayerView {
    pub id: u128,
    pub nickname: Seq<char>,
    pub connected: bool,
    pub role: Seq<char>,
}

impl DeepView for PublicPlayer {
    type V = PublicPlayerView;

    open spec fn deep_view(&self) -> PublicPlayerView {
        PublicPlayerView { id: self.id, nickname: self.nickname@, connected: self.connected, role: self.role@ }
    }
}

pub struct RoundPointView {
    pub player_id: u128,
    pub nickname: Seq<char>,
    pub points: u32,
}

impl DeepView for RoundPoint {
    type V = RoundPointView;

    open spec fn deep_view(&self) -> RoundPointView {
        RoundPointView { player_id: self.player_id, nickname: self.nickname@, points: self.points }
    }
}

impl DeepView for ViewerHighlightVote {
    type V = (Seq<char>, u128);

    open spec fn deep_view(&self) -> (Seq<char>, u128) {
        (self.category_id@, self.selected_id)
    }
}

/// Everything a room shows to one viewer (or to everyone, without a viewer).
#[derive(Debug)]
pub struct RoomSnapshot {
    pub version: u64,
    pub room_code: String,
    pub game_id: String,
    pub game_title: String,
    pub response_mode: ResponseMode,
    pub experience: GameExperience,
    pub phase: GamePhase,
    pub round: u8,
    pub max_rounds: u8,
    pub current_question: Option<String>,
    pub current_category: Option<String>,
    pub current_difficulty: Option<String>,
    pub current_options: Vec<String>,
    pub current_visual_options: Vec<String>,
    pub theme: String,
    pub round_points: Vec<RoundPoint>,
    pub active_player_id: Option<u128>,
    pub selected_answer: Option<String>,
    pub completed_count: usize,
    pub truth_or_dare_revealed: bool,
    pub truth_or_dare_phase: Option<TruthOrDarePhase>,
    pub spotlight_order: Vec<u128>,
    pub spotlight_index: usize,
    pub spotlight_player_id: Option<u128>,
    pub spotlight_player_name: Option<String>,
    pub spotlight_choice: Option<String>,
    pub spotlight_prompt: Option<String>,
    pub spotlight_completed: bool,
    pub spotlight_skipped: bool,
    pub viewer_reroll_available: bool,
    pub reactions: Vec<SpotlightReaction>,
    pub highlight_categories: Vec<HighlightCategory>,
    pub highlight_results: Vec<HighlightResult>,
    pub historical_highlights: Vec<HighlightResult>,
    pub reaction_totals: Vec<PlayerTally>,
    pub viewer_highlight_votes: Vec<ViewerHighlightVote>,
    pub viewer_skipped_highlight_voting: bool,
    pub highlight_ready_count: usize,
    pub players: Vec<PublicPlayer>,
    pub submitted_answer_count: usize,
    pub total_eligible_player_count: usize,
    pub results: Option<Vec<RoundResult>>,
    pub leaderboard: Vec<LeaderboardEntry>,
    pub round_history: Option<Vec<RoundSummary>>,
    pub host_connected: bool,
    pub host_player_id: u128,
    pub notice: Option<RoomNotice>,
    pub viewer_has_answered: Option<bool>,
    pub viewer_player_id: Option<u128>,
    pub viewer_answer: Option<String>,
    pub viewer_has_completed: Option<bool>,
    pub viewer_truth_or_dare_choice: Option<String>,
    pub viewer_truth_or_dare_prompt_id: Option<String>,
    pub viewer_truth_or_dare_prompt: Option<String>,
}

pub struct SnapshotView {
    pub version: u64,
    pub room_code: Seq<char>,
    pub game_id: Seq<char>,
    pub game_title: Seq<char>,
    pub response_mode: ResponseMode,
    pub experience: GameExperience,
    pub phase: GamePhase,
    pub round: u8,
    pub max_rounds: u8,
    pub current_question: Option<Seq<char>>,
    pub current_category: Option<Seq<char>>,
    pub current_difficulty: Option<Seq<char>>,
    pub current_options: Seq<Seq<char>>,
    pub current_visual_options: Seq<Seq<char>>,
    pub theme: Seq<char>,
    pub round_points: Seq<RoundPointView>,
    pub active_player_id: Option<u128>,
    pub selected_answer: Option<Seq<char>>,
    pub completed_count: usize,
    pub truth_or_dare_revealed: bool,
    pub truth_or_dare_phase: Option<TruthOrDarePhase>,
    pub spotlight_order: Seq<u128>,
    pub spotlight_index: usize,
    pub spotlight_player_id: Option<u128>,
    pub spotlight_player_name: Option<Seq<char>>,
    pub spotlight_choice: Option<Seq<char>>,
    pub spotlight_prompt: Option<Seq<char>>,
    pub spotlight_completed: bool,
    pub spotlight_skipped: bool,
    pub viewer_reroll_available: bool,
    pub reactions: Seq<ReactionView>,
    pub highlight_categories: Seq<CategoryView>,
    pub highlight_results: Seq<HighlightResultView>,
    pub historical_highlights: Seq<HighlightResultView>,
    pub reaction_totals: Seq<(u128, u32)>,
    pub viewer_highlight_votes: Seq<(Seq<char>, u128)>,
    pub viewer_skipped_highlight_voting: bool,
    pub highlight_ready_count: usize,
    pub players: Seq<PublicPlayerView>,
    pub submitted_answer_count: usize,
    pub total_eligible_player_count: usize,
    pub results: Option<Seq<RoundResultView>>,
    pub leaderboard: Seq<LeaderboardEntryView>,
    pub round_history: Option<Seq<RoundSummaryView>>,
    pub host_connected: bool,
    pub host_player_id: u128,
    pub notice: Option<NoticeView>,
    pub viewer_has_answered: Option<bool>,
    pub viewer_player_id: Option<u128>,
    pub viewer_answer: Option<Seq<char>>,
    pub viewer_has_completed: Option<bool>,
    pub viewer_truth_or_dare_choice: Option<Seq<char>>,
    pub viewer_truth_or_dare_prompt_id: Option<Seq<char>>,
    pub viewer_truth_or_dare_prompt: Option<Seq<char>>,
}

impl DeepView for RoomSnapshot {
    type V = SnapshotView;

    open spec fn deep_view(&self) -> SnapshotView {
        SnapshotView {
            version: self.version,
            room_code: self.room_code@,
            game_id: self.game_id@,
            game_title: self.game_title@,
            response_mode: self.response_mode,
            experience: self.experience,
            phase: self.phase,
            round: self.round,
            max_rounds: self.max_rounds,
            current_question: self.current_question.deep_view(),
            current_category: self.current_category.deep_view(),
            current_difficulty: self.current_difficulty.deep_view(),
            current_options: self.current_options.deep_view(),
            current_visual_options: self.current_visual_options.deep_view(),
            theme: self.theme@,
            round_points: self.round_points.deep_view(),
            active_player_id: self.active_player_id,
            selected_answer: self.selected_answer.deep_view(),
            completed_count: self.completed_count,
            truth_or_dare_revealed: self.truth_or_dare_revealed,
            truth_or_dare_phase: self.truth_or_dare_phase,
            spotlight_order: self.spotlight_order@,
            spotlight_index: self.spotlight_index,
            spotlight_player_id: self.spotlight_player_id,
            spotlight_player_name: self.spotlight_player_name.deep_view(),
            spotlight_choice: self.spotlight_choice.deep_view(),
            spotlight_prompt: self.spotlight_prompt.deep_view(),
            spotlight_completed: self.spotlight_completed,
            spotlight_skipped: self.spotlight_skipped,
            viewer_reroll_available: self.viewer_reroll_available,
            reactions: self.reactions.deep_view(),
            highlight_categories: self.highlight_categories.deep_view(),
            highlight_results: self.highlight_results.deep_view(),
            historical_highlights: self.historical_highlights.deep_view(),
            reaction_totals: self.reaction_totals.deep_view(),
            viewer_highlight_votes: self.viewer_highlight_votes.deep_view(),
            viewer_skipped_highlight_voting: self.viewer_skipped_highlight_voting,
            highlight_ready_count: self.highlight_ready_count,
            players: self.players.deep_view(),
            submitted_answer_count: self.submitted_answer_count,
            total_eligible_player_count: self.total_eligible_player_count,
            results: self.results.deep_view(),
            leaderboard: self.leaderboard.deep_view(),
            round_history: self.round_history.deep_view(),
            host_connected: self.host_connected,
            host_player_id: self.host_player_id,
            notice: self.notice.deep_view(),
            viewer_has_answered: self.viewer_has_answered,
            viewer_player_id: self.viewer_player_id,
            viewer_answer: self.viewer_answer.deep_view(),
            viewer_has_completed: self.viewer_has_completed,
            viewer_truth_or_dare_choice: self.viewer_truth_or_dare_choice.deep_view(),
            viewer_truth_or_dare_prompt_id: self.viewer_truth_or_dare_prompt_id.deep_view(),
            viewer_truth_or_dare_prompt: self.viewer_truth_or_dare_prompt.deep_view(),
        }
    }
}

/// The nickname of member `id` (the first, should there be several).
pub open spec fn nickname_of(r: RoomView, id: u128) -> Option<Seq<char>> {
    let i = first_index::<Player>(r.players, id);
    if i >= 0 {
        Some(r.players[i].nickname)
    } else {
        None
    }
}

/// The answer recorded for `id`, if any.
pub open spec fn answer_of(answers: Seq<(u128, Seq<char>)>, id: u128) -> Option<Seq<char>> {
    let i = first_index::<PlayerAnswer>(answers, id);
    if i >= 0 {
        Some(answers[i].1)
    } else {
        None
    }
}

pub open spec fn public_player(r: RoomView, p: PlayerView) -> PublicPlayerView {
    PublicPlayerView {
        id: p.id,
        nickname: p.nickname,
        connected: p.connected,
        role: if p.id == r.host_player_id {
            "host"@
        } else {
            "player"@
        },
    }
}

pub open spec fn point_of_member(r: RoomView) -> spec_fn((u128, u32)) -> bool {
    |e: (u128, u32)| crate::room::is_member(r, e.0)
}

/// The round's points of current members, each with the member's nickname.
pub open spec fn round_points_of(r: RoomView) -> Seq<RoundPointView> {
    r.current_round_points.filter(point_of_member(r)).map_values(
        |e: (u128, u32)| RoundPointView { player_id: e.0, nickname: nickname_of(r, e.0).unwrap(), points: e.1 },
    )
}

pub open spec fn vote_by(viewer: u128) -> spec_fn(HighlightVoteView) -> bool {
    |v: HighlightVoteView| v.voter_id == viewer
}

/// The viewer's own highlight votes, as category and pick.
pub open spec fn viewer_votes(r: RoomView, viewer: Option<u128>) -> Seq<(Seq<char>, u128)> {
    match viewer {
        Some(v) => r.highlight_votes.filter(vote_by(v)).map_values(
            |x: HighlightVoteView| (x.category_id, x.selected_id),
        ),
        None => Seq::empty(),
    }
}

pub open spec fn ready_for_reveal(r: RoomView) -> spec_fn(PlayerView) -> bool {
    |p: PlayerView|
        r.highlight_skips.contains(p.id) || (r.highlight_categories.len() > 0 && forall|k: int|
            0 <= k < r.highlight_categories.len() ==> has_highlight_vote(
                r.highlight_votes,
                (#[trigger] r.highlight_categories[k]).id,
                p.id,
            ))
}

/// `s` is the snapshot of room `r` for `viewer`: its result lines (shown only at results)
/// are the round's lines in display order, and its leaderboard ranks every player's score.
pub open spec fn snapshot_fits(r: RoomView, viewer: Option<u128>, s: SnapshotView) -> bool {
    &&& s == snapshot_of(r, viewer, s.results, s.leaderboard)
    &&& s.results.is_some() ==> s.results.unwrap().to_multiset() == result_lines(r).to_multiset()
        && results_ordered(s.results.unwrap()) && results_stable(result_lines(r), s.results.unwrap())
    &&& s.results.is_some() <==> r.phase == GamePhase::Results
    &&& s.leaderboard.map_values(|e: LeaderboardEntryView| unranked(e)).to_multiset()
        == leaderboard_lines(r).to_multiset()
    &&& entries_ordered(s.leaderboard)
    &&& ranked(s.leaderboard)
    &&& entries_stable(leaderboard_lines(r), s.leaderboard.map_values(|e: LeaderboardEntryView| unranked(e)))
}

/// The snapshot of room `r` for `viewer`, with `results` and `leaderboard` as its ordered
/// result lines and leaderboard.
pub open spec fn snapshot_of(
    r: RoomView,
    viewer: Option<u128>,
    results: Option<Seq<RoundResultView>>,
    leaderboard: Seq<LeaderboardEntryView>,
) -> SnapshotView {
    let tod = is_truth_or_dare(r);
    let q = r.current_question;
    let holder = spotlight_player(r);
    let turn = match holder {
        Some(id) => challenge_of(r.challenges, id),
        None => None,
    };
    SnapshotView {
        version: r.version,
        room_code: r.code,
        game_id: r.game_id,
        game_title: r.game_title,
        response_mode: r.response_mode,
        experience: r.experience,
        phase: r.phase,
        round: r.current_round,
        max_rounds: r.max_rounds,
        current_question: if tod {
            Some("Truth or Dare?"@)
        } else {
            match q {
                Some(q) => Some(q.prompt),
                None => None,
            }
        },
        current_category: match q {
            Some(q) => Some(q.category),
            None => None,
        },
        current_difficulty: match q {
            Some(q) => Some(q.difficulty),
            None => None,
        },
        current_options: if tod {
            seq!["Truth"@, "Dare"@]
        } else {
            match q {
                Some(q) => q.options,
                None => Seq::empty(),
            }
        },
        current_visual_options: match q {
            Some(q) => q.visual_options,
            None => Seq::empty(),
        },
        theme: r.theme,
        round_points: round_points_of(r),
        active_player_id: r.active_player_id,
        selected_answer: if !tod && r.active_player_id.is_some() {
            answer_of(r.answers, r.active_player_id.unwrap())
        } else {
            None
        },
        completed_count: r.completions.len() as usize,
        truth_or_dare_revealed: r.truth_or_dare_revealed,
        truth_or_dare_phase: r.truth_or_dare_phase,
        spotlight_order: r.spotlight_order,
        spotlight_index: r.spotlight_index,
        spotlight_player_id: holder,
        spotlight_player_name: match holder {
            Some(id) => nickname_of(r, id),
            None => None,
        },
        spotlight_choice: match turn {
            Some(t) => Some(t.choice),
            None => None,
        },
        spotlight_prompt: match turn {
            Some(t) => Some(t.prompt),
            None => None,
        },
        spotlight_completed: turn.is_some() && turn.unwrap().completed,
        spotlight_skipped: turn.is_some() && turn.unwrap().skipped,
        viewer_reroll_available: viewer.is_some() && !r.rerolls_used.contains(viewer.unwrap()),
        reactions: r.reactions,
        highlight_categories: r.highlight_categories,
        highlight_results: r.highlight_results,
        historical_highlights: r.historical_highlights,
        reaction_totals: r.reaction_totals,
        viewer_highlight_votes: viewer_votes(r, viewer),
        viewer_skipped_highlight_voting: viewer.is_some() && r.highlight_skips.contains(viewer.unwrap()),
        highlight_ready_count: r.players.filter(ready_for_reveal(r)).len() as usize,
        players: r.players.map_values(|p: PlayerView| public_player(r, p)),
        submitted_answer_count: r.answers.len() as usize,
        total_eligible_player_count: r.players.len() as usize,
        results,
        leaderboard,
        round_history: if r.phase == GamePhase::Finished {
            Some(r.round_history)
        } else {
            None
        },
        host_connected: r.host_connected,
        host_player_id: r.host_player_id,
        notice: r.notice,
        viewer_has_answered: match viewer {
            Some(v) => Some(has_key::<PlayerAnswer>(r.answers, v)),
            None => None,
        },
        viewer_player_id: viewer,
        viewer_answer: match viewer {
            Some(v) => answer_of(r.answers, v),
            None => None,
        },
        viewer_has_completed: match viewer {
            Some(v) => Some(r.completions.contains(v)),
            None => None,
        },
        viewer_truth_or_dare_choice: match viewer {
            Some(v) => match challenge_of(r.challenges, v) {
                Some(t) => Some(t.choice),
                None => None,
            },
            None => None,
        },
        viewer_truth_or_dare_prompt_id: match viewer {
            Some(v) => if holder == Some(v) {
                match challenge_of(r.challenges, v) {
                    Some(t) => Some(t.prompt_id),
                    None => None,
                }
            } else {
                None
            },
            None => None,
        },
        viewer_truth_or_dare_prompt: match viewer {
            Some(v) => if holder == Some(v) {
                match challenge_of(r.challenges, v) {
                    Some(t) => Some(t.prompt),
                    None => None,
                }
            } else {
                None
            },
            None => None,
        },
    }
}

} // verus!

verus! {

fn copy_reactions(v: &Vec<SpotlightReaction>) -> (r: Vec<SpotlightReaction>)
    ensures
        r.deep_view() == v.deep_view(),
{
    let mut r: Vec<SpotlightReaction> = Vec::new();
    let mut i: usize = 0;
    while i < v.len()
        invariant
            i <= v.len(),
            r.deep_view() =~= v.deep_view().subrange(0, i as int),
        decreases v.len() - i,
    {
        let x = SpotlightReaction {
            id: v[i].id,
            player_id: v[i].player_id,
            emoji: v[i].emoji.clone(),
            spotlight_index: v[i].spotlight_index,
        };
        let ghost before = r;
        r.push(x);
        proof {
            lemma_vec_push_deep(before, r, x);
        }
        i = i + 1;
    }
    assert(v.deep_view().subrange(0, v.len() as int) =~= v.deep_view());
    r
}

fn copy_categories(v: &Vec<HighlightCategory>) -> (r: Vec<HighlightCategory>)
    ensures
        r.deep_view() == v.deep_view(),
{
    let mut r: Vec<HighlightCategory> = Vec::new();
    let mut i: usize = 0;
    while i < v.len()
        invariant
            i <= v.len(),
            r.deep_view() =~= v.deep_view().subrange(0, i as int),
        decreases v.len() - i,
    {
        let x = HighlightCategory {
            id: v[i].id.clone(),
            label: v[i].label.clone(),
            emoji: v[i].emoji.clone(),
            eligible_player_ids: clone_ids(&v[i].eligible_player_ids),
        };
        let ghost before = r;
        r.push(x);
        proof {
            lemma_vec_push_deep(before, r, x);
        }
        i = i + 1;
    }
    assert(v.deep_view().subrange(0, v.len() as int) =~= v.deep_view());
    r
}

fn copy_highlight_results(v: &Vec<HighlightResult>) -> (r: Vec<HighlightResult>)
    ensures
        r.deep_view() == v.deep_view(),
{
    let mut r: Vec<HighlightResult> = Vec::new();
    let mut i: usize = 0;
    while i < v.len()
        invariant
            i <= v.len(),
            r.deep_view() =~= v.deep_view().subrange(0, i as int),
        decreases v.len() - i,
    {
        let x = HighlightResult {
            category_id: v[i].category_id.clone(),
            label: v[i].label.clone(),
            emoji: v[i].emoji.clone(),
            winner_player_ids: clone_ids(&v[i].winner_player_ids),
            votes: v[i].votes,
        };
        let ghost before = r;
        r.push(x);
        proof {
            lemma_vec_push_deep(before, r, x);
        }
        i = i + 1;
    }
    assert(v.deep_view().subrange(0, v.len() as int) =~= v.deep_view());
    r
}

fn copy_results(v: &Vec<RoundResult>) -> (r: Vec<RoundResult>)
    ensures
        r.deep_view() == v.deep_view(),
{
    let mut r: Vec<RoundResult> = Vec::new();
    let mut i: usize = 0;
    while i < v.len()
        invariant
            i <= v.len(),
            r.deep_view() =~= v.deep_view().subrange(0, i as int),
        decreases v.len() - i,
    {
        let x = v[i].duplicate();
        let ghost before = r;
        r.push(x);
        proof {
            lemma_vec_push_deep(before, r, x);
        }
        i = i + 1;
    }
    assert(v.deep_view().subrange(0, v.len() as int) =~= v.deep_view());
    r
}

fn copy_history(v: &Vec<RoundSummary>) -> (r: Vec<RoundSummary>)
    ensures
        r.deep_view() == v.deep_view(),
{
    let mut r: Vec<RoundSummary> = Vec::new();
    let mut i: usize = 0;
    while i < v.len()
        invariant
            i <= v.len(),
            r.deep_view() =~= v.deep_view().subrange(0, i as int),
        decreases v.len() - i,
    {
        let x = RoundSummary {
            round: v[i].round,
            question: v[i].question.clone(),
            category: v[i].category.clone(),
            results: copy_results(&v[i].results),
        };
        let ghost before = r;
        r.push(x);
        proof {
            lemma_vec_push_deep(before, r, x);
        }
        i = i + 1;
    }
    assert(v.deep_view().subrange(0, v.len() as int) =~= v.deep_view());
    r
}

fn copy_tallies(v: &Vec<PlayerTally>) -> (r: Vec<PlayerTally>)
    ensures
        r.deep_view() == v.deep_view(),
{
    let mut r: Vec<PlayerTally> = Vec::new();
    let mut i: usize = 0;
    while i < v.len()
        invariant
            i <= v.len(),
            r.deep_view() =~= v.deep_view().subrange(0, i as int),
        decreases v.len() - i,
    {
        let x = PlayerTally { player_id: v[i].player_id, value: v[i].value };
        let ghost before = r;
        r.push(x);
        proof {
            lemma_vec_push_deep(before, r, x);
        }
        i = i + 1;
    }
    assert(v.deep_view().subrange(0, v.len() as int) =~= v.deep_view());
    r
}

fn copy_notice(n: &Option<RoomNotice>) -> (r: Option<RoomNotice>)
    ensures
        r.deep_view() == n.deep_view(),
{
    match n {
        Some(x) => Some(RoomNotice { id: x.id, message: x.message.clone(), kind: x.kind.clone() }),
        None => None,
    }
}

fn copy_text(t: &String) -> (r: Option<String>)
    ensures
        r.deep_view() == Some(t@),
{
    Some(t.clone())
}

impl Room {
    /// The nickname of member `id`, if any.
    fn nickname_for(&self, id: u128) -> (r: Option<String>)
        ensures
            r.deep_view() == nickname_of(self@, id),
    {
        proof {
            lemma_first_index_range::<Player>(self@.players, id);
        }
        match find_key(&self.players, id) {
            Some(i) => {
                assert(self@.players[i as int] == self.players[i as int].deep_view());
                Some(self.players[i].nickname.clone())
            },
            None => None,
        }
    }

    /// The answer recorded for `id`, if any.
    fn answer_for(&self, id: u128) -> (r: Option<String>)
        ensures
            r.deep_view() == answer_of(self@.answers, id),
    {
        proof {
            lemma_first_index_range::<PlayerAnswer>(self@.answers, id);
        }
        match find_key(&self.answers, id) {
            Some(i) => {
                assert(self@.answers[i as int] == self.answers[i as int].deep_view());
                Some(self.answers[i].answer.clone())
            },
            None => None,
        }
    }

    fn public_players(&self) -> (r: Vec<PublicPlayer>)
        ensures
            r.deep_view() == self@.players.map_values(|p: PlayerView| public_player(self@, p)),
    {
        let ghost target = self@.players.map_values(|p: PlayerView| public_player(self@, p));
        let mut r: Vec<PublicPlayer> = Vec::new();
        let mut i: usize = 0;
        while i < self.players.len()
            invariant
                i <= self.players.len(),
                target == self@.players.map_values(|p: PlayerView| public_player(self@, p)),
                r.deep_view() =~= target.subrange(0, i as int),
            decreases self.players.len() - i,
        {
            let p = &self.players[i];
            assert(self@.players[i as int] == p.deep_view());
            let x = PublicPlayer {
                id: p.id,
                nickname: p.nickname.clone(),
                connected: p.connected,
                role: if p.id == self.host_player_id {
                    String::from_str("host")
                } else {
                    String::from_str("player")
                },
            };
            let ghost before = r;
            r.push(x);
            proof {
                lemma_vec_push_deep(before, r, x);
            }
            i = i + 1;
        }
        assert(target.subrange(0, self.players.len() as int) =~= target);
        r
    }

    fn round_point_list(&self) -> (r: Vec<RoundPoint>)
        ensures
            r.deep_view() == round_points_of(self@),
    {
        let ghost pts = self@.current_round_points;
        let ghost pred = point_of_member(self@);
        let ghost f = |e: (u128, u32)| RoundPointView { player_id: e.0, nickname: nickname_of(self@, e.0).unwrap(), points: e.1 };
        let mut r: Vec<RoundPoint> = Vec::new();
        let mut i: usize = 0;
        while i < self.current_round_points.len()
            invariant
                i <= self.current_round_points.len(),
                pts == self@.current_round_points,
                pred == point_of_member(self@),
                f == (|e: (u128, u32)| RoundPointView { player_id: e.0, nickname: nickname_of(self@, e.0).unwrap(), points: e.1 }),
                r.deep_view() =~= pts.subrange(0, i as int).filter(pred).map_values(f),
            decreases self.current_round_points.len() - i,
        {
            proof {
                pts.subrange(0, i as int).lemma_filter_push(pts[i as int], pred);
                assert(pts.subrange(0, i as int).push(pts[i as int]) =~= pts.subrange(0, i + 1));
                assert(pts[i as int] == self.current_round_points[i as int].deep_view());
            }
            let id = self.current_round_points[i].player_id;
            match self.nickname_for(id) {
                Some(name) => {
                    proof {
                        lemma_first_index_range::<Player>(self@.players, id);
                    }
                    let x = RoundPoint { player_id: id, nickname: name, points: self.current_round_points[i].value };
                    let ghost before = r;
                    r.push(x);
                    proof {
                        lemma_vec_push_deep(before, r, x);
                    }
                },
                None => {
                    proof {
                        lemma_first_index_range::<Player>(self@.players, id);
                    }
                },
            }
            i = i + 1;
        }
        assert(pts.subrange(0, self.current_round_points.len() as int) =~= pts);
        r
    }

    fn viewer_vote_list(&self, viewer: Option<u128>) -> (r: Vec<ViewerHighlightVote>)
        ensures
            r.deep_view() == viewer_votes(self@, viewer),
    {
        let mut r: Vec<ViewerHighlightVote> = Vec::new();
        let v = match viewer {
            Some(v) => v,
            None => {
                assert(r.deep_view() =~= Seq::empty());
                return r;
            },
        };
        let ghost vs = self@.highlight_votes;
        let ghost pred = vote_by(v);
        let ghost f = |x: HighlightVoteView| (x.category_id, x.selected_id);
        let mut i: usize = 0;
        while i < self.highlight_votes.len()
            invariant
                i <= self.highlight_votes.len(),
                vs == self@.highlight_votes,
                pred == vote_by(v),
                f == (|x: HighlightVoteView| (x.category_id, x.selected_id)),
                r.deep_view() =~= vs.subrange(0, i as int).filter(pred).map_values(f),
            decreases self.highlight_votes.len() - i,
        {
            proof {
                vs.subrange(0, i as int).lemma_filter_push(vs[i as int], pred);
                assert(vs.subrange(0, i as int).push(vs[i as int]) =~= vs.subrange(0, i + 1));
                assert(vs[i as int] == self.highlight_votes[i as int].deep_view());
            }
            if self.highlight_votes[i].voter_id == v {
                let x = ViewerHighlightVote {
                    category_id: self.highlight_votes[i].category_id.clone(),
                    selected_id: self.highlight_votes[i].selected_id,
                };
                let ghost before = r;
                r.push(x);
                proof {
                    lemma_vec_push_deep(before, r, x);
                }
            }
            i = i + 1;
        }
        assert(vs.subrange(0, self.highlight_votes.len() as int) =~= vs);
        r
    }

    fn ready_count(&self) -> (n: usize)
        ensures
            n == self@.players.filter(ready_for_reveal(self@)).len(),
    {
        let ghost ps = self@.players;
        let ghost pred = ready_for_reveal(self@);
        proof {
            lemma_ids_deep(self.highlight_skips);
        }
        let mut n: usize = 0;
        let mut i: usize = 0;
        while i < self.players.len()
            invariant
                i <= self.players.len(),
                ps == self@.players,
                pred == ready_for_reveal(self@),
                self.highlight_skips.deep_view() == self.highlight_skips@,
                n == ps.subrange(0, i as int).filter(pred).len(),
                n <= i,
            decreases self.players.len() - i,
        {
            proof {
                ps.subrange(0, i as int).lemma_filter_push(ps[i as int], pred);
                assert(ps.subrange(0, i as int).push(ps[i as int]) =~= ps.subrange(0, i + 1));
                assert(ps[i as int] == self.players[i as int].deep_view());
            }
            let id = self.players[i].id;
            let mut ready = crate::entries::contains_key(&self.highlight_skips, id);
            proof {
                assert(has_key::<u128>(self@.highlight_skips, id) == self@.highlight_skips.contains(id)) by {
                    if self@.highlight_skips.contains(id) {
                        let k = choose|k: int| 0 <= k < self@.highlight_skips.len() && self@.highlight_skips[k] == id;
                        assert(<u128 as Keyed>::key_of(self@.highlight_skips[k]) == id);
                    }
                }
            }
            if !ready && self.highlight_categories.len() > 0 {
                let mut all = true;
                let mut c: usize = 0;
                while c < self.highlight_categories.len()
                    invariant
                        c <= self.highlight_categories.len(),
                        all == forall|k: int| 0 <= k < c ==> has_highlight_vote(self@.highlight_votes, (#[trigger] self@.highlight_categories[k]).id, id),
                    decreases self.highlight_categories.len() - c,
                {
                    assert(self@.highlight_categories[c as int] == self.highlight_categories[c as int].deep_view());
                    if !self.voted_in(self.highlight_categories[c].id.as_str(), id) {
                        all = false;
                    }
                    c = c + 1;
                }
                ready = all;
            }
            if ready {
                n = n + 1;
            }
            i = i + 1;
        }
        assert(ps.subrange(0, self.players.len() as int) =~= ps);
        n
    }

    /// The room as `viewer` sees it; without a viewer, what everyone may see. Results show
    /// only while the phase is at results, and the round history only once finished. A
    /// viewer sees their own choice; their prompt only while they hold the Spotlight.
    pub fn snapshot(&self, viewer: Option<u128>) -> (s: RoomSnapshot)
        requires
            self.answers.len() <= u32::MAX,
        ensures
            snapshot_fits(self@, viewer, s.deep_view()),
    {
        let tod = self.truth_or_dare();
        let holder = self.spotlight_player_id();
        let turn_index = match holder {
            Some(id) => self.challenge_index(id),
            None => None,
        };
        let viewer_index = match viewer {
            Some(v) => self.challenge_index(v),
            None => None,
        };
        let (current_question, current_category, current_difficulty, options, visual) = match &self.current_question {
            Some(q) => (
                if tod {
                    Some(String::from_str("Truth or Dare?"))
                } else {
                    copy_text(&q.prompt)
                },
                copy_text(&q.category),
                copy_text(&q.difficulty),
                if tod {
                    vec![String::from_str("Truth"), String::from_str("Dare")]
                } else {
                    clone_strings(&q.options)
                },
                clone_strings(&q.visual_options),
            ),
            None => (
                if tod {
                    Some(String::from_str("Truth or Dare?"))
                } else {
                    None
                },
                None,
                None,
                if tod {
                    vec![String::from_str("Truth"), String::from_str("Dare")]
                } else {
                    Vec::new()
                },
                Vec::new(),
            ),
        };
        proof {
            if tod {
                assert(options.deep_view() =~= seq!["Truth"@, "Dare"@]);
            } else if self.current_question.is_none() {
                assert(options.deep_view() =~= Seq::<Seq<char>>::empty());
            }
            if self.current_question.is_none() {
                assert(visual.deep_view() =~= Seq::<Seq<char>>::empty());
            }
        }
        let selected_answer = if !tod {
            match self.active_player_id {
                Some(id) => self.answer_for(id),
                None => None,
            }
        } else {
            None
        };
        proof {
            lemma_ids_deep(self.rerolls_used);
            lemma_ids_deep(self.highlight_skips);
            lemma_ids_deep(self.completions);
            lemma_ids_deep(self.spotlight_order);
        }
        let reroll_available = match viewer {
            Some(v) => !crate::entries::contains_key(&self.rerolls_used, v),
            None => false,
        };
        let skipped_highlights = match viewer {
            Some(v) => crate::entries::contains_key(&self.highlight_skips, v),
            None => false,
        };
        let has_completed = match viewer {
            Some(v) => Some(crate::entries::contains_key(&self.completions, v)),
            None => None,
        };
        proof {
            assert forall|s: Seq<u128>, x: u128| #[trigger] has_key::<u128>(s, x) == s.contains(x) by {
                if s.contains(x) {
                    let k = choose|k: int| 0 <= k < s.len() && s[k] == x;
                    assert(<u128 as Keyed>::key_of(s[k]) == x);
                }
            }
        }
        let has_answered = match viewer {
            Some(v) => Some(crate::entries::contains_key(&self.answers, v)),
            None => None,
        };
        let viewer_answer = match viewer {
            Some(v) => self.answer_for(v),
            None => None,
        };
        let spotlight_player_name = match holder {
            Some(id) => self.nickname_for(id),
            None => None,
        };
        let (spotlight_choice, spotlight_prompt, spotlight_completed, spotlight_skipped) = match turn_index {
            Some(i) => (
                copy_text(&self.truth_or_dare_states[i].state.choice),
                copy_text(&self.truth_or_dare_states[i].state.prompt),
                self.truth_or_dare_states[i].state.completed,
                self.truth_or_dare_states[i].state.skipped,
            ),
            None => (None, None, false, false),
        };
        let viewer_choice = match viewer_index {
            Some(i) => copy_text(&self.truth_or_dare_states[i].state.choice),
            None => None,
        };
        let holds_spotlight = match (viewer, holder) {
            (Some(v), Some(h)) => v == h,
            _ => false,
        };
        let (viewer_prompt_id, viewer_prompt) = match viewer_index {
            Some(i) => if holds_spotlight {
                (
                    copy_text(&self.truth_or_dare_states[i].state.prompt_id),
                    copy_text(&self.truth_or_dare_states[i].state.prompt),
                )
            } else {
                (None, None)
            },
            None => (None, None),
        };
        let results = if self.phase == GamePhase::Results {
            Some(self.calculate_results())
        } else {
            None
        };
        let round_history = if self.phase == GamePhase::Finished {
            Some(copy_history(&self.round_history))
        } else {
            None
        };
        let s = RoomSnapshot {
            version: self.version,
            room_code: self.code.clone(),
            game_id: self.game_id.clone(),
            game_title: self.game_title.clone(),
            response_mode: self.response_mode,
            experience: self.experience,
            phase: self.phase,
            round: self.current_round,
            max_rounds: self.max_rounds,
            current_question,
            current_category,
            current_difficulty,
            current_options: options,
            current_visual_options: visual,
            theme: self.theme.clone(),
            round_points: self.round_point_list(),
            active_player_id: self.active_player_id,
            selected_answer,
            completed_count: self.completions.len(),
            truth_or_dare_revealed: self.truth_or_dare_revealed,
            truth_or_dare_phase: self.truth_or_dare_phase,
            spotlight_order: clone_ids(&self.spotlight_order),
            spotlight_index: self.spotlight_index,
            spotlight_player_id: holder,
            spotlight_player_name,
            spotlight_choice,
            spotlight_prompt,
            spotlight_completed,
            spotlight_skipped,
            viewer_reroll_available: reroll_available,
            reactions: copy_reactions(&self.reactions),
            highlight_categories: copy_categories(&self.highlight_categories),
            highlight_results: copy_highlight_results(&self.highlight_results),
            historical_highlights: copy_highlight_results(&self.historical_highlights),
            reaction_totals: copy_tallies(&self.reaction_totals),
            viewer_highlight_votes: self.viewer_vote_list(viewer),
            viewer_skipped_highlight_voting: skipped_highlights,
            highlight_ready_count: self.ready_count(),
            players: self.public_players(),
            submitted_answer_count: self.answers.len(),
            total_eligible_player_count: self.players.len(),
            results,
            leaderboard: self.leaderboard(),
            round_history,
            host_connected: self.host_connected,
            host_player_id: self.host_player_id,
            notice: copy_notice(&self.notice),
            viewer_has_answered: has_answered,
            viewer_player_id: viewer,
            viewer_answer,
            viewer_has_completed: has_completed,
            viewer_truth_or_dare_choice: viewer_choice,
            viewer_truth_or_dare_prompt_id: viewer_prompt_id,
            viewer_truth_or_dare_prompt: viewer_prompt,
        };
        s
    }
}

} // verus!
