//! A player leaving a room: everything the room holds about the player goes with them.
use crate::entries::{
    drop_key, find_key, first_index, has_key, key_differs, lemma_first_index_range, without_key,
    Keyed,
};
use crate::ids::{uuid_text, uuid_to_text};
use crate::model::{
    CategoryView, ChallengeView, GamePhase, HighlightVote, HighlightVoteView, Player,
    PlayerAnswer, PlayerChallenge, PlayerTally, PlayerView, Room, RoomView, TruthOrDarePhase,
    UsedPrompt,
};
use crate::room::{is_member, lemma_ids_deep, member_index};
use crate::spotlight::{challenge_over, highlight_voting_prepared};
use crate::text::str_equal;
use vstd::prelude::*;

verus! {

/// Every player in the Spotlight order has a turn record, and each such turn is over.
pub open spec fn all_turns_over(order: Seq<u128>, cs: Seq<(u128, ChallengeView)>) -> bool {
    forall|k: int|
        0 <= k < order.len() ==> has_key::<PlayerChallenge>(cs, #[trigger] order[k])
            && challenge_over(cs[first_index::<PlayerChallenge>(cs, order[k])].1)
}

/// The player in the Spotlight, if the index points into the order.
pub open spec fn spotlight_player(r: RoomView) -> Option<u128> {
    if r.spotlight_index < r.spotlight_order.len() {
        Some(r.spotlight_order[r.spotlight_index as int])
    } else {
        None
    }
}

/// Highlight votes cast neither by nor for `id`.
pub open spec fn votes_without(votes: Seq<HighlightVoteView>, id: u128) -> Seq<HighlightVoteView> {
    votes.filter(|v: HighlightVoteView| v.voter_id != id && v.selected_id != id)
}

/// The categories with `id` no longer eligible.
pub open spec fn categories_without(cats: Seq<CategoryView>, id: u128) -> Seq<CategoryView> {
    cats.map_values(
        |c: CategoryView| CategoryView { eligible: without_key::<u128>(c.eligible, id), ..c },
    )
}

/// Answers that are not a vote written as `text`.
pub open spec fn answers_not(answers: Seq<(u128, Seq<char>)>, text: Seq<char>) -> Seq<
    (u128, Seq<char>),
> {
    answers.filter(answer_differs(text))
}

/// Whether an answer is other than `text`.
pub open spec fn answer_differs(text: Seq<char>) -> spec_fn((u128, Seq<char>)) -> bool {
    |a: (u128, Seq<char>)| a.1 != text
}

/// The room once member `id` is gone: their entry, answer, score, points, completion,
/// turn, reroll, highlight votes (cast by or for them), highlight skip, eligibility and
/// prompt history are removed, as are votes for them. The Spotlight index stays in range;
/// Truth or Dare choosing moves on when everyone left has chosen; the active player falls
/// back to the first player.
pub open spec fn departed_core(r: RoomView, id: u128) -> RoomView {
    let i = member_index(r, id);
    let players = r.players.remove(i);
    let order = without_key::<u128>(r.spotlight_order, id);
    let answers = answers_not(without_key::<PlayerAnswer>(r.answers, id), uuid_text(id));
    let challenges = without_key::<PlayerChallenge>(r.challenges, id);
    let phase = if r.truth_or_dare_phase == Some(TruthOrDarePhase::Choosing) && players.len() > 0
        && answers.len() == players.len() {
        Some(TruthOrDarePhase::PreparingReveal)
    } else {
        r.truth_or_dare_phase
    };
    let s = RoomView {
        players,
        answers,
        scores: without_key::<PlayerTally>(r.scores, id),
        current_round_points: without_key::<PlayerTally>(r.current_round_points, id),
        completions: without_key::<u128>(r.completions, id),
        challenges,
        spotlight_order: order,
        spotlight_index: if r.spotlight_index >= order.len() && order.len() > 0 {
            (order.len() - 1) as usize
        } else {
            r.spotlight_index
        },
        rerolls_used: without_key::<u128>(r.rerolls_used, id),
        highlight_skips: without_key::<u128>(r.highlight_skips, id),
        highlight_votes: votes_without(r.highlight_votes, id),
        highlight_categories: categories_without(r.highlight_categories, id),
        used_truth_prompts: without_key::<UsedPrompt>(r.used_truth_prompts, id),
        used_dare_prompts: without_key::<UsedPrompt>(r.used_dare_prompts, id),
        truth_or_dare_phase: phase,
        active_player_id: if r.active_player_id == Some(id) {
            if players.len() > 0 {
                Some(players[0].id)
            } else {
                None
            }
        } else {
            r.active_player_id
        },
        ..r
    };
    s
}

/// Whether the departure of `id` ends the Spotlight: they held it, and every turn left is over.
pub open spec fn departure_ends_spotlight(r: RoomView, id: u128) -> bool {
    let s = departed_core(r, id);
    spotlight_player(r) == Some(id) && s.truth_or_dare_phase == Some(TruthOrDarePhase::Spotlight)
        && (s.spotlight_order.len() == 0 || all_turns_over(s.spotlight_order, s.challenges))
}

/// The room once member `id` is gone (see [`departed_core`]); when the departing player held
/// the Spotlight and every remaining turn is over, highlight voting opens.
pub open spec fn departed(r: RoomView, id: u128) -> RoomView {
    if departure_ends_spotlight(r, id) {
        highlight_voting_prepared(departed_core(r, id))
    } else {
        departed_core(r, id)
    }
}

fn drop_votes_involving(votes: &mut Vec<HighlightVote>, id: u128)
    ensures
        final(votes).deep_view() == votes_without(old(votes).deep_view(), id),
{
    let ghost orig = old(votes).deep_view();
    let ghost pred = |v: HighlightVoteView| v.voter_id != id && v.selected_id != id;
    let mut i: usize = 0;
    let ghost mut j: int = 0;
    while i < votes.len()
        invariant
            0 <= j <= orig.len(),
            i <= votes.len(),
            pred == (|v: HighlightVoteView| v.voter_id != id && v.selected_id != id),
            votes.deep_view() =~= orig.subrange(0, j).filter(pred) + orig.subrange(
                j,
                orig.len() as int,
            ),
            i == orig.subrange(0, j).filter(pred).len(),
        decreases votes.len() - i,
    {
        let ghost done = orig.subrange(0, j).filter(pred);
        proof {
            orig.subrange(0, j).lemma_filter_push(orig[j], pred);
            assert(orig.subrange(0, j).push(orig[j]) =~= orig.subrange(0, j + 1));
            assert(votes.deep_view()[i as int] == orig[j]);
        }
        if votes[i].voter_id == id || votes[i].selected_id == id {
            let ghost before = votes.deep_view();
            let _ = votes.remove(i);
            assert(votes.deep_view() =~= before.remove(i as int));
            assert(votes.deep_view() =~= done + orig.subrange(j + 1, orig.len() as int));
        } else {
            assert(votes.deep_view() =~= done.push(orig[j]) + orig.subrange(
                j + 1,
                orig.len() as int,
            ));
            i = i + 1;
        }
        proof {
            j = j + 1;
        }
    }
    assert(orig.subrange(0, j) =~= orig);
}

fn drop_answers_equal(answers: &mut Vec<PlayerAnswer>, text: &str)
    ensures
        final(answers).deep_view() == answers_not(old(answers).deep_view(), text@),
{
    let ghost orig = old(answers).deep_view();
    let ghost pred = answer_differs(text@);
    let mut i: usize = 0;
    let ghost mut j: int = 0;
    while i < answers.len()
        invariant
            0 <= j <= orig.len(),
            i <= answers.len(),
            pred == answer_differs(text@),
            answers.deep_view() =~= orig.subrange(0, j).filter(pred) + orig.subrange(
                j,
                orig.len() as int,
            ),
            i == orig.subrange(0, j).filter(pred).len(),
        decreases answers.len() - i,
    {
        let ghost done = orig.subrange(0, j).filter(pred);
        proof {
            orig.subrange(0, j).lemma_filter_push(orig[j], pred);
            assert(orig.subrange(0, j).push(orig[j]) =~= orig.subrange(0, j + 1));
            assert(answers.deep_view()[i as int] == orig[j]);
        }
        if str_equal(answers[i].answer.as_str(), text) {
            let ghost before = answers.deep_view();
            let _ = answers.remove(i);
            assert(answers.deep_view() =~= before.remove(i as int));
            assert(answers.deep_view() =~= done + orig.subrange(j + 1, orig.len() as int));
        } else {
            assert(answers.deep_view() =~= done.push(orig[j]) + orig.subrange(
                j + 1,
                orig.len() as int,
            ));
            i = i + 1;
        }
        proof {
            j = j + 1;
        }
    }
    assert(orig.subrange(0, j) =~= orig);
}

impl Room {
    /// Whether every player in the Spotlight order has a turn that is over.
    pub fn spotlight_turns_over(&self) -> (r: bool)
        ensures
            r == all_turns_over(self@.spotlight_order, self@.challenges),
    {
        let mut i: usize = 0;
        while i < self.spotlight_order.len()
            invariant
                i <= self.spotlight_order.len(),
                forall|k: int|
                    0 <= k < i ==> has_key::<PlayerChallenge>(
                        self@.challenges,
                        #[trigger] self@.spotlight_order[k],
                    ) && challenge_over(
                        self@.challenges[first_index::<PlayerChallenge>(
                            self@.challenges,
                            self@.spotlight_order[k],
                        )].1,
                    ),
            decreases self.spotlight_order.len() - i,
        {
            let id = self.spotlight_order[i];
            proof {
                lemma_first_index_range::<PlayerChallenge>(self@.challenges, id);
            }
            match find_key(&self.truth_or_dare_states, id) {
                Some(j) => {
                    assert(self@.challenges[j as int] == self.truth_or_dare_states[j as int].deep_view());
                    if !(self.truth_or_dare_states[j].state.completed
                        || self.truth_or_dare_states[j].state.skipped) {
                        return false;
                    }
                },
                None => {
                    return false;
                },
            }
            i = i + 1;
        }
        true
    }

    fn drop_eligibility(&mut self, id: u128)
        ensures
            final(self)@ == (RoomView {
                highlight_categories: categories_without(old(self)@.highlight_categories, id),
                ..old(self)@
            }),
    {
        let ghost orig = self@.highlight_categories;
        let mut i: usize = 0;
        while i < self.highlight_categories.len()
            invariant
                i <= self.highlight_categories.len(),
                self.highlight_categories.len() == orig.len(),
                forall|k: int|
                    0 <= k < i ==> #[trigger] self.highlight_categories.deep_view()[k]
                        == categories_without(orig, id)[k],
                forall|k: int|
                    i <= k < orig.len() ==> #[trigger] self.highlight_categories.deep_view()[k]
                        == orig[k],
                self@ == (RoomView { highlight_categories: self.highlight_categories.deep_view(), ..old(self)@ }),
            decreases self.highlight_categories.len() - i,
        {
            let ghost before = self.highlight_categories;
            proof {
                lemma_ids_deep(self.highlight_categories@[i as int].eligible_player_ids);
            }
            drop_key(&mut self.highlight_categories[i].eligible_player_ids, id);
            proof {
                lemma_ids_deep(self.highlight_categories@[i as int].eligible_player_ids);
                assert(before.deep_view()[i as int] == orig[i as int]);
                assert(self.highlight_categories@[i as int].deep_view() =~= categories_without(orig, id)[i as int]);
                assert(self.highlight_categories@ =~= before@.update(
                    i as int,
                    self.highlight_categories@[i as int],
                ));
                assert(self.highlight_categories.deep_view() =~= before.deep_view().update(
                    i as int,
                    self.highlight_categories@[i as int].deep_view(),
                ));
            }
            i = i + 1;
        }
        assert(self.highlight_categories.deep_view() =~= categories_without(orig, id));
    }

    /// Removes member `player_id` and all state kept for them; returns their nickname, or
    /// `None` when no member has that id.
    pub fn remove_player_state(&mut self, player_id: u128) -> (r: Option<String>)
        ensures
            r.is_some() <==> is_member(old(self)@, player_id),
            r.is_none() ==> final(self)@ == old(self)@,
            r.is_some() ==> r.unwrap()@ == old(self)@.players[member_index(
                old(self)@,
                player_id,
            )].nickname && final(self)@ == departed(old(self)@, player_id),
    {
        proof {
            lemma_first_index_range::<Player>(self@.players, player_id);
        }
        let index = match find_key(&self.players, player_id) {
            Some(i) => i,
            None => {
                return None;
            },
        };
        proof {
            lemma_ids_deep(self.completions);
            lemma_ids_deep(self.spotlight_order);
            lemma_ids_deep(self.rerolls_used);
            lemma_ids_deep(self.highlight_skips);
        }
        let ghost r0 = self@;
        let ghost players_before = self.players;
        let removed = self.players.remove(index);
        assert(self.players.deep_view() =~= players_before.deep_view().remove(index as int));
        let nickname = removed.nickname;
        drop_key(&mut self.answers, player_id);
        drop_key(&mut self.scores, player_id);
        drop_key(&mut self.current_round_points, player_id);
        drop_key(&mut self.completions, player_id);
        drop_key(&mut self.truth_or_dare_states, player_id);
        let was_current = self.spotlight_index < self.spotlight_order.len()
            && self.spotlight_order[self.spotlight_index] == player_id;
        drop_key(&mut self.spotlight_order, player_id);
        assert(self.spotlight_order.deep_view() =~= self.spotlight_order@);
        if self.spotlight_index >= self.spotlight_order.len() && self.spotlight_order.len() > 0 {
            self.spotlight_index = self.spotlight_order.len() - 1;
        }
        drop_key(&mut self.rerolls_used, player_id);
        drop_key(&mut self.highlight_skips, player_id);
        drop_votes_involving(&mut self.highlight_votes, player_id);
        self.drop_eligibility(player_id);
        drop_key(&mut self.used_truth_prompts, player_id);
        drop_key(&mut self.used_dare_prompts, player_id);
        let text = uuid_to_text(player_id);
        drop_answers_equal(&mut self.answers, text.as_str());
        if self.truth_or_dare_phase == Some(TruthOrDarePhase::Choosing) && self.players.len() > 0
            && self.answers.len() == self.players.len() {
            self.truth_or_dare_phase = Some(TruthOrDarePhase::PreparingReveal);
        }
        if self.active_player_id == Some(player_id) {
            self.active_player_id = if self.players.len() > 0 {
                Some(self.players[0].id)
            } else {
                None
            };
        }
        assert(self.completions.deep_view() =~= self.completions@);
        assert(self.rerolls_used.deep_view() =~= self.rerolls_used@);
        assert(self.highlight_skips.deep_view() =~= self.highlight_skips@);
        let ghost core = departed_core(r0, player_id);
        assert(self@.players == core.players);
        assert(self@.answers == core.answers);
        assert(self@.scores == core.scores);
        assert(self@.current_round_points == core.current_round_points);
        assert(self@.completions == core.completions);
        assert(self@.challenges == core.challenges);
        assert(self@.spotlight_order == core.spotlight_order);
        assert(self@.spotlight_index == core.spotlight_index);
        assert(self@.rerolls_used == core.rerolls_used);
        assert(self@.highlight_skips == core.highlight_skips);
        assert(self@.highlight_votes == core.highlight_votes);
        assert(self@.highlight_categories == core.highlight_categories);
        assert(self@.used_truth_prompts == core.used_truth_prompts);
        assert(self@.used_dare_prompts == core.used_dare_prompts);
        assert(self@.truth_or_dare_phase == core.truth_or_dare_phase);
        assert(self@.active_player_id == core.active_player_id);
        assert(self@ == departed_core(r0, player_id));
        let finish = was_current && self.truth_or_dare_phase == Some(TruthOrDarePhase::Spotlight)
            && (self.spotlight_order.len() == 0 || self.spotlight_turns_over());
        if finish {
            self.prepare_highlight_voting();
        }
        Some(nickname)
    }
}

} // verus!
