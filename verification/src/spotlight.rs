//! Truth or Dare: the Spotlight turns, reactions and highlight voting.
use crate::entries::{find_key, first_index, has_key, lemma_first_index_range, Keyed};
use crate::model::{
    CategoryView, ChallengeView, ErrorCode, GameError, GamePhase, HighlightCategory, HighlightVote,
    HighlightResult, HighlightResultView, HighlightVoteView, PlayerChallenge, ReactionView, Refusal,
    Room, RoomView,
    TruthOrDarePhase,
};
use crate::room::lemma_vec_push_deep;
use crate::text::str_equal;
use vstd::prelude::*;

verus! {

/// A turn that was completed rather than skipped.
pub open spec fn challenge_done(c: ChallengeView) -> bool {
    c.completed && !c.skipped
}

/// A turn that is over: completed or skipped.
pub open spec fn challenge_over(c: ChallengeView) -> bool {
    c.completed || c.skipped
}

/// Completed turns, of the given choice when one is given.
pub open spec fn done_filter(choice: Option<Seq<char>>) -> spec_fn((u128, ChallengeView)) -> bool {
    |e: (u128, ChallengeView)|
        challenge_done(e.1) && (choice.is_none() || e.1.choice == choice.unwrap())
}

/// The players, in turn-record order, whose turn was completed (with the given choice).
pub open spec fn done_players(cs: Seq<(u128, ChallengeView)>, choice: Option<Seq<char>>) -> Seq<
    u128,
> {
    cs.filter(done_filter(choice)).map_values(|e: (u128, ChallengeView)| e.0)
}

pub open spec fn category(id: Seq<char>, label: Seq<char>, emoji: Seq<char>, eligible: Seq<u128>) -> CategoryView {
    CategoryView { id, label, emoji, eligible }
}

/// The highlight categories a round offers: Most Daring and Best Truth when at least two
/// players completed such a turn, and Crowd Favourite when at least two completed any.
pub open spec fn highlight_categories_for(cs: Seq<(u128, ChallengeView)>) -> Seq<CategoryView> {
    let dares = done_players(cs, Some("dare"@));
    let truths = done_players(cs, Some("truth"@));
    let all = done_players(cs, None);
    let first = if dares.len() >= 2 {
        seq![category("most-daring"@, "Most Daring"@, "🔥"@, dares)]
    } else {
        Seq::empty()
    };
    let second = first + if truths.len() >= 2 {
        seq![category("best-truth"@, "Best Truth"@, "💬"@, truths)]
    } else {
        Seq::empty()
    };
    second + if all.len() >= 2 && second.len() < 3 {
        seq![category("crowd-favourite"@, "Crowd Favourite"@, "👏"@, all)]
    } else {
        Seq::empty()
    }
}

/// The room when the Spotlight turns are over: highlight voting opens, or the round is
/// complete when no category applies.
pub open spec fn highlight_voting_prepared(r: RoomView) -> RoomView {
    let cats = highlight_categories_for(r.challenges);
    RoomView {
        highlight_categories: cats,
        highlight_votes: Seq::empty(),
        highlight_skips: Seq::empty(),
        highlight_results: Seq::empty(),
        truth_or_dare_phase: Some(
            if cats.len() == 0 {
                TruthOrDarePhase::RoundComplete
            } else {
                TruthOrDarePhase::HighlightVoting
            },
        ),
        ..r
    }
}

pub open spec fn choice_view(choice: Option<&str>) -> Option<Seq<char>> {
    match choice {
        Some(c) => Some(c@),
        None => None,
    }
}

/// The players whose turn was completed, with the given choice when one is given.
fn collect_done(states: &Vec<PlayerChallenge>, choice: Option<&str>) -> (r: Vec<u128>)
    ensures
        r@ == done_players(states.deep_view(), choice_view(choice)),
{
    let ghost cs = states.deep_view();
    let ghost pred = done_filter(choice_view(choice));
    let ghost key = |e: (u128, ChallengeView)| e.0;
    let mut r: Vec<u128> = Vec::new();
    let mut i: usize = 0;
    while i < states.len()
        invariant
            i <= states.len(),
            cs == states.deep_view(),
            pred == done_filter(choice_view(choice)),
            key == (|e: (u128, ChallengeView)| e.0),
            r@ =~= cs.subrange(0, i as int).filter(pred).map_values(key),
        decreases states.len() - i,
    {
        let s = &states[i].state;
        let matches = match choice {
            Some(c) => str_equal(s.choice.as_str(), c),
            None => true,
        };
        proof {
            cs.subrange(0, i as int).lemma_filter_push(cs[i as int], pred);
            assert(cs.subrange(0, i as int).push(cs[i as int]) =~= cs.subrange(0, i + 1));
            assert(cs[i as int] == states[i as int].deep_view());
        }
        if s.completed && !s.skipped && matches {
            r.push(states[i].player_id);
            assert(cs.subrange(0, i + 1).filter(pred) == cs.subrange(0, i as int).filter(pred).push(
                cs[i as int],
            ));
        } else {
            assert(cs.subrange(0, i + 1).filter(pred) == cs.subrange(0, i as int).filter(pred));
        }
        i = i + 1;
    }
    assert(cs.subrange(0, states.len() as int) =~= cs);
    r
}

fn make_category(id: &str, label: &str, emoji: &str, eligible: Vec<u128>) -> (c: HighlightCategory)
    ensures
        c@ == category(id@, label@, emoji@, eligible@),
{
    HighlightCategory {
        id: id.to_owned(),
        label: label.to_owned(),
        emoji: emoji.to_owned(),
        eligible_player_ids: eligible,
    }
}

impl Room {
    /// Ends the Spotlight: offers the highlight categories that apply and clears earlier
    /// highlight votes, skips and results.
    pub fn prepare_highlight_voting(&mut self)
        ensures
            final(self)@ == highlight_voting_prepared(old(self)@),
    {
        let truths = collect_done(&self.truth_or_dare_states, Some("truth"));
        let dares = collect_done(&self.truth_or_dare_states, Some("dare"));
        let all = collect_done(&self.truth_or_dare_states, None);
        let ghost cs = self@.challenges;
        let mut cats: Vec<HighlightCategory> = Vec::new();
        if dares.len() >= 2 {
            let c = make_category("most-daring", "Most Daring", "🔥", dares);
            let ghost before = cats;
            cats.push(c);
            proof {
                lemma_vec_push_deep(before, cats, c);
            }
        }
        if truths.len() >= 2 {
            let c = make_category("best-truth", "Best Truth", "💬", truths);
            let ghost before = cats;
            cats.push(c);
            proof {
                lemma_vec_push_deep(before, cats, c);
            }
        }
        if all.len() >= 2 && cats.len() < 3 {
            let c = make_category("crowd-favourite", "Crowd Favourite", "👏", all);
            let ghost before = cats;
            cats.push(c);
            proof {
                lemma_vec_push_deep(before, cats, c);
            }
        }
        assert(cats.deep_view() =~= highlight_categories_for(cs));
        let empty_cats = cats.len() == 0;
        self.highlight_categories = cats;
        self.highlight_votes = Vec::new();
        self.highlight_skips = Vec::new();
        self.highlight_results = Vec::new();
        self.truth_or_dare_phase = Some(
            if empty_cats {
                TruthOrDarePhase::RoundComplete
            } else {
                TruthOrDarePhase::HighlightVoting
            },
        );
        assert(self.highlight_votes.deep_view() =~= Seq::empty());
        assert(self.highlight_results.deep_view() =~= Seq::empty());
    }
}

} // verus!

verus! {

/// The turn recorded for `id`, if any.
pub open spec fn challenge_of(cs: Seq<(u128, ChallengeView)>, id: u128) -> Option<ChallengeView> {
    let i = first_index::<PlayerChallenge>(cs, id);
    if i >= 0 {
        Some(cs[i].1)
    } else {
        None
    }
}

/// `cs` with the recorded turn of `id` replaced by `c`.
pub open spec fn challenge_set(cs: Seq<(u128, ChallengeView)>, id: u128, c: ChallengeView) -> Seq<
    (u128, ChallengeView),
> {
    let i = first_index::<PlayerChallenge>(cs, id);
    if i >= 0 {
        cs.update(i, (id, c))
    } else {
        cs
    }
}

/// `s` with `x` added when absent (set insertion).
pub open spec fn set_insert(s: Seq<u128>, x: u128) -> Seq<u128> {
    if s.contains(x) {
        s
    } else {
        s.push(x)
    }
}

/// The player in the Spotlight, if the index points into the order.
pub open spec fn spotlight_holder(r: RoomView) -> Option<u128> {
    if r.spotlight_index < r.spotlight_order.len() {
        Some(r.spotlight_order[r.spotlight_index as int])
    } else {
        None
    }
}

/// Why a Spotlight action by `player` is refused, if it is: no Spotlight turn is open
/// for `round`, or `player` is not the one in the Spotlight.
pub open spec fn spotlight_actor_refusal(r: RoomView, player: u128, round: u8) -> Refusal {
    if !crate::play::is_truth_or_dare(r) || r.phase != GamePhase::Playing || r.truth_or_dare_phase
        != Some(TruthOrDarePhase::Spotlight) || r.current_round != round {
        Some((ErrorCode::InvalidPhase, "There is no active Spotlight turn."@))
    } else if spotlight_holder(r) != Some(player) {
        Some((ErrorCode::Unauthorized, "Only the Spotlight player can do that."@))
    } else {
        None
    }
}

/// Why marking a prompt completed is refused, if it is.
pub open spec fn complete_refusal(r: RoomView, player: u128, round: u8) -> Refusal {
    if !crate::play::is_truth_or_dare(r) || r.phase != GamePhase::Playing || round != r.current_round {
        Some((ErrorCode::InvalidPhase, "There is no active challenge to complete."@))
    } else if !crate::room::is_member(r, player) {
        Some((ErrorCode::Unauthorized, "Player is not in the room."@))
    } else if r.truth_or_dare_phase != Some(TruthOrDarePhase::Spotlight) {
        Some((ErrorCode::InvalidPhase, "There is no player in the Spotlight."@))
    } else if spotlight_holder(r) != Some(player) {
        Some((ErrorCode::Unauthorized, "Only the Spotlight player can complete this prompt."@))
    } else if challenge_of(r.challenges, player).is_none() {
        Some((ErrorCode::InvalidPhase, "Lock a choice first."@))
    } else if challenge_of(r.challenges, player).unwrap().completed {
        Some((ErrorCode::InvalidPhase, "You already completed this prompt."@))
    } else {
        None
    }
}

/// The room with `player`'s turn marked as completed or skipped and the player counted.
pub open spec fn turn_closed(r: RoomView, player: u128, skipped: bool) -> RoomView {
    let c = challenge_of(r.challenges, player).unwrap();
    RoomView {
        challenges: challenge_set(
            r.challenges,
            player,
            if skipped {
                ChallengeView { skipped: true, ..c }
            } else {
                ChallengeView { completed: true, ..c }
            },
        ),
        completions: set_insert(r.completions, player),
        ..r
    }
}

/// Why skipping one's own Spotlight turn is refused, if it is.
pub open spec fn skip_refusal(r: RoomView, player: u128, round: u8) -> Refusal {
    if spotlight_actor_refusal(r, player, round).is_some() {
        spotlight_actor_refusal(r, player, round)
    } else if challenge_of(r.challenges, player).is_none() {
        Some(no_prompt())
    } else if challenge_over(challenge_of(r.challenges, player).unwrap()) {
        Some((ErrorCode::InvalidPhase, "This turn is already finished."@))
    } else {
        None
    }
}

/// Why a reroll is refused, if it is: not the Spotlight player's turn, the free reroll
/// already used, no turn recorded, or no prompt to give.
pub open spec fn reroll_refusal(r: RoomView, player: u128, round: u8) -> Refusal {
    if spotlight_actor_refusal(r, player, round).is_some() {
        spotlight_actor_refusal(r, player, round)
    } else if r.rerolls_used.contains(player) {
        Some((ErrorCode::InvalidPhase, "Your free reroll has already been used."@))
    } else if challenge_of(r.challenges, player).is_none() {
        Some(no_prompt())
    } else if crate::prompts::pool_of(r, challenge_of(r.challenges, player).unwrap().choice).len() == 0 {
        Some((ErrorCode::InternalError, "No prompts are available for that choice."@))
    } else {
        None
    }
}

/// The refusal of a turn action for a player who holds no prompt.
pub open spec fn no_prompt() -> (ErrorCode, Seq<char>) {
    (ErrorCode::InvalidPhase, "No prompt is assigned."@)
}

/// Why a host Spotlight action (next turn, forced skip) is refused before the turn is
/// looked at, if it is.
pub open spec fn host_spotlight_refusal(r: RoomView, host: u128, round: u8) -> Refusal {
    if !crate::room::is_acting_host(r, host) {
        Some(crate::room::host_only())
    } else if r.current_round != round || r.truth_or_dare_phase != Some(TruthOrDarePhase::Spotlight) {
        Some((ErrorCode::InvalidPhase, "There is no active Spotlight turn."@))
    } else if spotlight_holder(r).is_none() {
        Some((ErrorCode::InvalidPhase, "The Spotlight order is empty."@))
    } else {
        None
    }
}

/// Why moving to the next Spotlight turn is refused, if it is: the current turn must be over.
pub open spec fn next_spotlight_refusal(r: RoomView, host: u128, round: u8) -> Refusal {
    if host_spotlight_refusal(r, host, round).is_some() {
        host_spotlight_refusal(r, host, round)
    } else if !(challenge_of(r.challenges, spotlight_holder(r).unwrap()).is_some()
        && challenge_over(challenge_of(r.challenges, spotlight_holder(r).unwrap()).unwrap())) {
        Some((ErrorCode::InvalidPhase, "Wait for the Spotlight player to complete or skip."@))
    } else {
        None
    }
}

/// The room after the Spotlight moves on: to the next player with reactions cleared, or,
/// after the last player, to highlight voting.
pub open spec fn spotlight_moved(r: RoomView) -> RoomView {
    if r.spotlight_index + 1 < r.spotlight_order.len() {
        RoomView {
            spotlight_index: (r.spotlight_index + 1) as usize,
            reactions: Seq::empty(),
            ..r
        }
    } else {
        highlight_voting_prepared(r)
    }
}

impl Room {
    /// The player in the Spotlight, if any.
    pub fn spotlight_player_id(&self) -> (r: Option<u128>)
        ensures
            r == spotlight_holder(self@),
    {
        if self.spotlight_index < self.spotlight_order.len() {
            Some(self.spotlight_order[self.spotlight_index])
        } else {
            None
        }
    }

    /// The position of `id`'s recorded turn, if any.
    pub(crate) fn challenge_index(&self, id: u128) -> (r: Option<usize>)
        ensures
            r.is_some() <==> challenge_of(self@.challenges, id).is_some(),
            r.is_some() ==> r.unwrap() < self.truth_or_dare_states.len() && r.unwrap() as int
                == first_index::<PlayerChallenge>(self@.challenges, id) && self@.challenges[r.unwrap() as int].1 == challenge_of(self@.challenges, id).unwrap()
                && self.truth_or_dare_states[r.unwrap() as int].state@ == challenge_of(self@.challenges, id).unwrap(),
    {
        proof {
            lemma_first_index_range::<PlayerChallenge>(self@.challenges, id);
        }
        let r = find_key(&self.truth_or_dare_states, id);
        match r {
            Some(i) => {
                assert(self@.challenges[i as int] == self.truth_or_dare_states[i as int].deep_view());
            },
            None => {},
        }
        r
    }

    /// Adds `id` to the completions when absent.
    fn insert_completion(&mut self, id: u128)
        ensures
            final(self)@ == (RoomView { completions: set_insert(old(self)@.completions, id), ..old(self)@ }),
    {
        if !crate::entries::contains_key(&self.completions, id) {
            self.completions.push(id);
        }
        proof {
            crate::room::lemma_ids_deep(self.completions);
            crate::room::lemma_ids_deep(old(self).completions);
            assert(has_key::<u128>(old(self)@.completions, id) == old(self)@.completions.contains(id)) by {
                if old(self)@.completions.contains(id) {
                    let k = choose|k: int| 0 <= k < old(self)@.completions.len() && old(self)@.completions[k] == id;
                    assert(<u128 as Keyed>::key_of(old(self)@.completions[k]) == id);
                }
            }
        }
    }

    /// Closes `player`'s recorded turn (at `i`) as completed or skipped.
    fn close_turn(&mut self, player: u128, i: usize, skipped: bool)
        requires
            i < old(self).truth_or_dare_states.len(),
            i as int == first_index::<PlayerChallenge>(old(self)@.challenges, player),
            challenge_of(old(self)@.challenges, player).is_some(),
        ensures
            final(self)@ == turn_closed(old(self)@, player, skipped),
    {
        proof {
            lemma_first_index_range::<PlayerChallenge>(self@.challenges, player);
        }
        let ghost before = self.truth_or_dare_states;
        if skipped {
            self.truth_or_dare_states[i].state.skipped = true;
        } else {
            self.truth_or_dare_states[i].state.completed = true;
        }
        proof {
            crate::room::lemma_vec_update_deep(before, self.truth_or_dare_states, i as int);
        }
        self.insert_completion(player);
    }

    /// Allows a Spotlight action only from the player in the Spotlight, during that turn.
    pub fn authorize_spotlight_actor(&self, player_id: u128, round: u8) -> (r: Result<(), GameError>)
        ensures
            r.is_err() <==> spotlight_actor_refusal(self@, player_id, round).is_some(),
            r.is_err() ==> r.unwrap_err()@ == spotlight_actor_refusal(self@, player_id, round).unwrap(),
    {
        if !self.truth_or_dare() || self.phase != GamePhase::Playing || self.truth_or_dare_phase
            != Some(TruthOrDarePhase::Spotlight) || self.current_round != round {
            return Err(GameError::new(ErrorCode::InvalidPhase, "There is no active Spotlight turn."));
        }
        if self.spotlight_player_id() != Some(player_id) {
            return Err(GameError::new(ErrorCode::Unauthorized, "Only the Spotlight player can do that."));
        }
        Ok(())
    }

    /// The Spotlight player marks their prompt completed.
    pub fn mark_completed(&mut self, player_id: u128, round: u8, now: u64) -> (r: Result<(), GameError>)
        ensures
            r.is_err() <==> complete_refusal(old(self)@, player_id, round).is_some(),
            r.is_err() ==> final(self)@ == old(self)@ && r.unwrap_err()@ == complete_refusal(old(self)@, player_id, round).unwrap(),
            r.is_ok() ==> final(self)@ == crate::room::touched(turn_closed(old(self)@, player_id, false), now),
    {
        if !self.truth_or_dare() || self.phase != GamePhase::Playing || round != self.current_round {
            return Err(GameError::new(ErrorCode::InvalidPhase, "There is no active challenge to complete."));
        }
        if !self.has_player(player_id) {
            return Err(GameError::new(ErrorCode::Unauthorized, "Player is not in the room."));
        }
        if self.truth_or_dare_phase != Some(TruthOrDarePhase::Spotlight) {
            return Err(GameError::new(ErrorCode::InvalidPhase, "There is no player in the Spotlight."));
        }
        if self.spotlight_player_id() != Some(player_id) {
            return Err(GameError::new(ErrorCode::Unauthorized, "Only the Spotlight player can complete this prompt."));
        }
        let i = match self.challenge_index(player_id) {
            Some(i) => i,
            None => {
                return Err(GameError::new(ErrorCode::InvalidPhase, "Lock a choice first."));
            },
        };
        if self.truth_or_dare_states[i].state.completed {
            return Err(GameError::new(ErrorCode::InvalidPhase, "You already completed this prompt."));
        }
        self.close_turn(player_id, i, false);
        self.changed(now);
        Ok(())
    }

    /// The Spotlight player skips their own turn.
    pub fn skip_spotlight(&mut self, player_id: u128, round: u8, now: u64) -> (r: Result<(), GameError>)
        ensures
            r.is_err() <==> skip_refusal(old(self)@, player_id, round).is_some(),
            r.is_err() ==> final(self)@ == old(self)@ && r.unwrap_err()@ == skip_refusal(old(self)@, player_id, round).unwrap(),
            r.is_ok() ==> final(self)@ == crate::room::touched(turn_closed(old(self)@, player_id, true), now),
    {
        match self.authorize_spotlight_actor(player_id, round) {
            Err(e) => {
                return Err(e);
            },
            Ok(()) => {},
        }
        let i = match self.challenge_index(player_id) {
            Some(i) => i,
            None => {
                return Err(GameError::new(ErrorCode::InvalidPhase, "No prompt is assigned."));
            },
        };
        if self.truth_or_dare_states[i].state.completed || self.truth_or_dare_states[i].state.skipped {
            return Err(GameError::new(ErrorCode::InvalidPhase, "This turn is already finished."));
        }
        self.close_turn(player_id, i, true);
        self.changed(now);
        Ok(())
    }

    /// Checks a host Spotlight action: the host, during the round's Spotlight, with a
    /// player in it; returns that player.
    fn host_spotlight_check(&self, host_id: u128, round: u8) -> (r: Result<u128, GameError>)
        ensures
            r.is_err() <==> host_spotlight_refusal(self@, host_id, round).is_some(),
            r.is_err() ==> r.unwrap_err()@ == host_spotlight_refusal(self@, host_id, round).unwrap(),
            r.is_ok() ==> Some(r.unwrap()) == spotlight_holder(self@),
    {
        match self.authorize_player_host(host_id) {
            Err(e) => {
                return Err(e);
            },
            Ok(()) => {},
        }
        if self.current_round != round || self.truth_or_dare_phase != Some(TruthOrDarePhase::Spotlight) {
            return Err(GameError::new(ErrorCode::InvalidPhase, "There is no active Spotlight turn."));
        }
        match self.spotlight_player_id() {
            Some(id) => Ok(id),
            None => Err(GameError::new(ErrorCode::InvalidPhase, "The Spotlight order is empty.")),
        }
    }

    /// The host moves the Spotlight on once the current turn is over.
    pub fn next_spotlight(&mut self, host_id: u128, round: u8, now: u64) -> (r: Result<(), GameError>)
        ensures
            r.is_err() <==> next_spotlight_refusal(old(self)@, host_id, round).is_some(),
            r.is_err() ==> final(self)@ == old(self)@ && r.unwrap_err()@ == next_spotlight_refusal(old(self)@, host_id, round).unwrap(),
            r.is_ok() ==> final(self)@ == crate::room::touched(spotlight_moved(old(self)@), now),
    {
        let current = match self.host_spotlight_check(host_id, round) {
            Err(e) => {
                return Err(e);
            },
            Ok(c) => c,
        };
        let finished = match self.challenge_index(current) {
            Some(i) => self.truth_or_dare_states[i].state.completed || self.truth_or_dare_states[i].state.skipped,
            None => false,
        };
        if !finished {
            return Err(GameError::new(ErrorCode::InvalidPhase, "Wait for the Spotlight player to complete or skip."));
        }
        assert(self.spotlight_index < self.spotlight_order.len());
        if self.spotlight_index + 1 < self.spotlight_order.len() {
            self.spotlight_index = self.spotlight_index + 1;
            self.reactions = Vec::new();
            assert(self.reactions.deep_view() =~= Seq::empty());
        } else {
            self.prepare_highlight_voting();
        }
        self.changed(now);
        Ok(())
    }

    /// The host skips the current Spotlight turn.
    pub fn force_skip_spotlight(&mut self, host_id: u128, round: u8, now: u64) -> (r: Result<(), GameError>)
        ensures
            r.is_err() <==> host_spotlight_refusal(old(self)@, host_id, round).is_some()
                || challenge_of(old(self)@.challenges, spotlight_holder(old(self)@).unwrap()).is_none(),
            r.is_err() ==> final(self)@ == old(self)@ && r.unwrap_err()@ == (if host_spotlight_refusal(old(self)@, host_id, round).is_some() {
                host_spotlight_refusal(old(self)@, host_id, round).unwrap()
            } else {
                no_prompt()
            }),
            r.is_ok() ==> final(self)@ == crate::room::touched(
                turn_closed(old(self)@, spotlight_holder(old(self)@).unwrap(), true),
                now,
            ),
    {
        let current = match self.host_spotlight_check(host_id, round) {
            Err(e) => {
                return Err(e);
            },
            Ok(c) => c,
        };
        let i = match self.challenge_index(current) {
            Some(i) => i,
            None => {
                return Err(GameError::new(ErrorCode::InvalidPhase, "No prompt is assigned."));
            },
        };
        self.close_turn(current, i, true);
        self.changed(now);
        Ok(())
    }
}

} // verus!

verus! {

/// The reactions players may send.
pub open spec fn reaction_allowed(emoji: Seq<char>) -> bool {
    emoji == "😂"@ || emoji == "😱"@ || emoji == "👏"@ || emoji == "🔥"@ || emoji == "❤️"@
}

/// Why a reaction is refused before duplicates and the rate limit are looked at, if it is.
pub open spec fn reaction_refusal(r: RoomView, player: u128, round: u8, emoji: Seq<char>) -> Refusal {
    if r.current_round != round || r.truth_or_dare_phase != Some(TruthOrDarePhase::Spotlight)
        || !crate::room::is_member(r, player) {
        Some((ErrorCode::InvalidPhase, "Reactions are not open."@))
    } else if !reaction_allowed(emoji) {
        Some((ErrorCode::InvalidAnswer, "Choose an available reaction."@))
    } else {
        None
    }
}

/// A reaction with this id was already received.
pub open spec fn reaction_seen(r: RoomView, id: u128) -> bool {
    exists|i: int| 0 <= i < r.reactions.len() && (#[trigger] r.reactions[i]).id == id
}

/// How many reactions `player` sent during Spotlight turn `index`.
pub open spec fn reactions_by(r: RoomView, player: u128, index: usize) -> nat {
    r.reactions.filter(sent_by(player, index)).len()
}

pub open spec fn sent_by(player: u128, index: usize) -> spec_fn(ReactionView) -> bool {
    |x: ReactionView| x.player_id == player && x.spotlight_index == index
}

/// The most reactions one player may send per Spotlight turn.
pub const MAX_REACTIONS_PER_TURN: usize = 5;

/// The room after a reaction is received: it is listed, and the player in the Spotlight
/// (if any) is credited with it.
pub open spec fn reaction_added(r: RoomView, player: u128, emoji: Seq<char>, id: u128) -> RoomView {
    RoomView {
        reactions: r.reactions.push(
            ReactionView { id, player_id: player, emoji, spotlight_index: r.spotlight_index },
        ),
        reaction_totals: match spotlight_holder(r) {
            Some(sp) => crate::play::tally_add(r.reaction_totals, sp, 1),
            None => r.reaction_totals,
        },
        ..r
    }
}

/// Why a highlight action is refused for lack of open voting, if it is.
pub open spec fn highlight_gate(r: RoomView, player: u128, round: u8) -> bool {
    r.current_round != round || r.truth_or_dare_phase != Some(TruthOrDarePhase::HighlightVoting)
        || !crate::room::is_member(r, player)
}

/// The position of the first category with this id, or -1.
pub open spec fn category_position(cats: Seq<CategoryView>, id: Seq<char>) -> int
    decreases cats.len(),
{
    if cats.len() == 0 {
        -1
    } else if cats[0].id == id {
        0
    } else {
        let k = category_position(cats.drop_first(), id);
        if k < 0 {
            -1
        } else {
            k + 1
        }
    }
}

proof fn lemma_category_position(cats: Seq<CategoryView>, id: Seq<char>, i: int)
    requires
        0 <= i <= cats.len(),
        forall|k: int| 0 <= k < i ==> (#[trigger] cats[k]).id != id,
        i < cats.len() ==> cats[i].id == id,
    ensures
        category_position(cats, id) == (if i < cats.len() {
            i
        } else {
            -1
        }),
    decreases i,
{
    if cats.len() > 0 && i > 0 {
        assert forall|k: int| 0 <= k < i - 1 implies (#[trigger] cats.drop_first()[k]).id != id by {
            assert(cats.drop_first()[k] == cats[k + 1]);
        }
        lemma_category_position(cats.drop_first(), id, i - 1);
    }
}

/// `voter` has a highlight vote in category `category_id`.
pub open spec fn has_highlight_vote(votes: Seq<HighlightVoteView>, category_id: Seq<char>, voter: u128) -> bool {
    exists|i: int|
        0 <= i < votes.len() && (#[trigger] votes[i]).category_id == category_id && votes[i].voter_id == voter
}

/// The refusal of a highlight request while voting is not open.
pub open spec fn voting_closed() -> (ErrorCode, Seq<char>) {
    (ErrorCode::InvalidPhase, "Highlight voting is not open."@)
}

/// Why a highlight vote is refused, if it is.
pub open spec fn highlight_vote_refusal(
    r: RoomView,
    player: u128,
    round: u8,
    category_id: Seq<char>,
    selected: u128,
) -> Refusal {
    let pos = category_position(r.highlight_categories, category_id);
    if highlight_gate(r, player, round) {
        Some(voting_closed())
    } else if player == selected {
        Some((ErrorCode::InvalidAnswer, "Choose someone else for this highlight."@))
    } else if pos < 0 {
        Some((ErrorCode::InvalidAnswer, "That highlight is unavailable."@))
    } else if !r.highlight_categories[pos].eligible.contains(selected) {
        Some((ErrorCode::InvalidPlayer, "That player is not eligible for this highlight."@))
    } else if has_highlight_vote(r.highlight_votes, category_id, player) {
        Some((ErrorCode::AlreadyVoted, "Your highlight vote is already locked."@))
    } else {
        None
    }
}

impl Room {
    /// The Spotlight player uses their one free reroll: a new random prompt of the same choice.
    pub fn reroll_spotlight(&mut self, player_id: u128, round: u8, now: u64) -> (r: Result<(), GameError>)
        ensures
            r.is_err() <==> reroll_refusal(old(self)@, player_id, round).is_some(),
            r.is_err() ==> final(self)@ == old(self)@ && r.unwrap_err()@ == reroll_refusal(old(self)@, player_id, round).unwrap(),
            r.is_ok() ==> exists|k: usize|
                #![trigger crate::prompts::candidates_for(old(self)@, player_id, challenge_of(old(self)@.challenges, player_id).unwrap().choice).contains(k)]
                crate::prompts::candidates_for(old(self)@, player_id, challenge_of(old(self)@.challenges, player_id).unwrap().choice).contains(k)
                && final(self)@ == crate::room::touched(
                    RoomView {
                        challenges: crate::prompts::challenge_put(
                            old(self)@.challenges,
                            player_id,
                            crate::prompts::assigned_challenge(old(self)@, challenge_of(old(self)@.challenges, player_id).unwrap().choice, k as int),
                        ),
                        rerolls_used: set_insert(old(self)@.rerolls_used, player_id),
                        ..crate::prompts::prompt_recorded(old(self)@, player_id, challenge_of(old(self)@.challenges, player_id).unwrap().choice, k as int)
                    },
                    now,
                ),
    {
        match self.authorize_spotlight_actor(player_id, round) {
            Err(e) => {
                return Err(e);
            },
            Ok(()) => {},
        }
        proof {
            crate::room::lemma_ids_deep(self.rerolls_used);
        }
        let used = crate::entries::contains_key(&self.rerolls_used, player_id);
        proof {
            assert(has_key::<u128>(self@.rerolls_used, player_id) == self@.rerolls_used.contains(player_id)) by {
                if self@.rerolls_used.contains(player_id) {
                    let k = choose|k: int| 0 <= k < self@.rerolls_used.len() && self@.rerolls_used[k] == player_id;
                    assert(<u128 as Keyed>::key_of(self@.rerolls_used[k]) == player_id);
                }
            }
        }
        if used {
            return Err(GameError::new(ErrorCode::InvalidPhase, "Your free reroll has already been used."));
        }
        let i = match self.challenge_index(player_id) {
            Some(i) => i,
            None => {
                return Err(GameError::new(ErrorCode::InvalidPhase, "No prompt is assigned."));
            },
        };
        let choice = self.truth_or_dare_states[i].state.choice.clone();
        let ghost r0 = self@;
        let replacement = match self.assign_truth_or_dare_prompt(player_id, choice.as_str()) {
            Ok(s) => s,
            Err(e) => {
                return Err(e);
            },
        };
        let ghost r1 = self@;
        let ghost k = choose|k: usize|
            #![trigger crate::prompts::candidates_for(r0, player_id, choice@).contains(k)]
            crate::prompts::candidates_for(r0, player_id, choice@).contains(k) && k
                < crate::prompts::pool_of(r0, choice@).len() && replacement@
                == crate::prompts::assigned_challenge(r0, choice@, k as int) && r1
                == crate::prompts::prompt_recorded(r0, player_id, choice@, k as int);
        self.put_challenge(player_id, replacement);
        self.rerolls_used.push(player_id);
        proof {
            crate::room::lemma_ids_deep(self.rerolls_used);
        }
        self.changed(now);
        Ok(())
    }

    /// Counts the reactions `player` sent during Spotlight turn `index`.
    fn count_reactions(&self, player: u128, index: usize) -> (n: usize)
        ensures
            n == reactions_by(self@, player, index),
    {
        let ghost rs = self@.reactions;
        let ghost pred = sent_by(player, index);
        let mut n: usize = 0;
        let mut i: usize = 0;
        while i < self.reactions.len()
            invariant
                i <= self.reactions.len(),
                rs == self@.reactions,
                pred == sent_by(player, index),
                n == rs.subrange(0, i as int).filter(pred).len(),
                n <= i,
            decreases self.reactions.len() - i,
        {
            proof {
                rs.subrange(0, i as int).lemma_filter_push(rs[i as int], pred);
                assert(rs.subrange(0, i as int).push(rs[i as int]) =~= rs.subrange(0, i + 1));
                assert(rs[i as int] == self.reactions[i as int].deep_view());
            }
            if self.reactions[i].player_id == player && self.reactions[i].spotlight_index == index {
                n = n + 1;
            }
            i = i + 1;
        }
        assert(rs.subrange(0, self.reactions.len() as int) =~= rs);
        n
    }

    /// A player reacts during the Spotlight. A reaction id already received is accepted
    /// and ignored; at most five reactions per player per turn.
    pub fn send_reaction(&mut self, player_id: u128, round: u8, emoji: &str, reaction_id: u128, now: u64) -> (r: Result<(), GameError>)
        ensures
            reaction_refusal(old(self)@, player_id, round, emoji@).is_some() ==> r.is_err()
                && r.unwrap_err()@ == reaction_refusal(old(self)@, player_id, round, emoji@).unwrap(),
            reaction_refusal(old(self)@, player_id, round, emoji@).is_none() && reaction_seen(old(self)@, reaction_id) ==> r.is_ok(),
            reaction_refusal(old(self)@, player_id, round, emoji@).is_none() && !reaction_seen(old(self)@, reaction_id)
                && reactions_by(old(self)@, player_id, old(self)@.spotlight_index) >= MAX_REACTIONS_PER_TURN ==> r.is_err()
                && r.unwrap_err()@ == (ErrorCode::InvalidPhase, "Take a moment before reacting again."@),
            reaction_refusal(old(self)@, player_id, round, emoji@).is_none() && !reaction_seen(old(self)@, reaction_id)
                && reactions_by(old(self)@, player_id, old(self)@.spotlight_index) < MAX_REACTIONS_PER_TURN ==> r.is_ok()
                && final(self)@ == crate::room::touched(reaction_added(old(self)@, player_id, emoji@, reaction_id), now),
            r.is_err() || reaction_seen(old(self)@, reaction_id) ==> final(self)@ == old(self)@,
    {
        if self.current_round != round || self.truth_or_dare_phase != Some(TruthOrDarePhase::Spotlight)
            || !self.has_player(player_id) {
            return Err(GameError::new(ErrorCode::InvalidPhase, "Reactions are not open."));
        }
        if !(str_equal(emoji, "😂") || str_equal(emoji, "😱") || str_equal(emoji, "👏")
            || str_equal(emoji, "🔥") || str_equal(emoji, "❤️")) {
            return Err(GameError::new(ErrorCode::InvalidAnswer, "Choose an available reaction."));
        }
        let mut i: usize = 0;
        while i < self.reactions.len()
            invariant
                i <= self.reactions.len(),
                forall|k: int| 0 <= k < i ==> (#[trigger] self@.reactions[k]).id != reaction_id,
                reaction_refusal(self@, player_id, round, emoji@).is_none(),
            decreases self.reactions.len() - i,
        {
            assert(self@.reactions[i as int] == self.reactions[i as int].deep_view());
            if self.reactions[i].id == reaction_id {
                return Ok(());
            }
            i = i + 1;
        }
        let count = self.count_reactions(player_id, self.spotlight_index);
        if count >= MAX_REACTIONS_PER_TURN {
            return Err(GameError::new(ErrorCode::InvalidPhase, "Take a moment before reacting again."));
        }
        let reaction = crate::model::SpotlightReaction {
            id: reaction_id,
            player_id,
            emoji: emoji.to_owned(),
            spotlight_index: self.spotlight_index,
        };
        let ghost before = self.reactions;
        self.reactions.push(reaction);
        proof {
            lemma_vec_push_deep(before, self.reactions, reaction);
        }
        match self.spotlight_player_id() {
            Some(sp) => {
                Self::add_to_tally(&mut self.reaction_totals, sp, 1);
            },
            None => {},
        }
        self.changed(now);
        Ok(())
    }

    /// The position of the first highlight category with this id, if any.
    fn category_index(&self, id: &str) -> (r: Option<usize>)
        ensures
            r.is_some() <==> category_position(self@.highlight_categories, id@) >= 0,
            r.is_some() ==> r.unwrap() as int == category_position(self@.highlight_categories, id@)
                && r.unwrap() < self.highlight_categories.len(),
    {
        let mut i: usize = 0;
        while i < self.highlight_categories.len()
            invariant
                i <= self.highlight_categories.len(),
                forall|k: int| 0 <= k < i ==> (#[trigger] self@.highlight_categories[k]).id != id@,
            decreases self.highlight_categories.len() - i,
        {
            assert(self@.highlight_categories[i as int] == self.highlight_categories[i as int].deep_view());
            if str_equal(self.highlight_categories[i].id.as_str(), id) {
                proof {
                    lemma_category_position(self@.highlight_categories, id@, i as int);
                }
                return Some(i);
            }
            i = i + 1;
        }
        proof {
            lemma_category_position(self@.highlight_categories, id@, i as int);
        }
        None
    }

    /// Whether `voter` has a highlight vote in category `category_id`.
    pub(crate) fn voted_in(&self, category_id: &str, voter: u128) -> (r: bool)
        ensures
            r == has_highlight_vote(self@.highlight_votes, category_id@, voter),
    {
        let mut i: usize = 0;
        while i < self.highlight_votes.len()
            invariant
                i <= self.highlight_votes.len(),
                forall|k: int| 0 <= k < i ==> !((#[trigger] self@.highlight_votes[k]).category_id == category_id@ && self@.highlight_votes[k].voter_id == voter),
            decreases self.highlight_votes.len() - i,
        {
            assert(self@.highlight_votes[i as int] == self.highlight_votes[i as int].deep_view());
            if self.highlight_votes[i].voter_id == voter && str_equal(self.highlight_votes[i].category_id.as_str(), category_id) {
                return true;
            }
            i = i + 1;
        }
        false
    }

    /// A player votes for someone else in a highlight category; one vote per category.
    pub fn submit_highlight_vote(&mut self, player_id: u128, round: u8, category_id: &str, selected_player_id: u128, now: u64) -> (r: Result<(), GameError>)
        ensures
            r.is_err() <==> highlight_vote_refusal(old(self)@, player_id, round, category_id@, selected_player_id).is_some(),
            r.is_err() ==> final(self)@ == old(self)@ && r.unwrap_err()@ == highlight_vote_refusal(old(self)@, player_id, round, category_id@, selected_player_id).unwrap(),
            r.is_ok() ==> final(self)@ == crate::room::touched(
                RoomView {
                    highlight_votes: old(self)@.highlight_votes.push(
                        HighlightVoteView { category_id: category_id@, voter_id: player_id, selected_id: selected_player_id },
                    ),
                    ..old(self)@
                },
                now,
            ),
    {
        if self.current_round != round || self.truth_or_dare_phase != Some(TruthOrDarePhase::HighlightVoting)
            || !self.has_player(player_id) {
            return Err(GameError::new(ErrorCode::InvalidPhase, "Highlight voting is not open."));
        }
        if player_id == selected_player_id {
            return Err(GameError::new(ErrorCode::InvalidAnswer, "Choose someone else for this highlight."));
        }
        let c = match self.category_index(category_id) {
            Some(c) => c,
            None => {
                return Err(GameError::new(ErrorCode::InvalidAnswer, "That highlight is unavailable."));
            },
        };
        proof {
            assert(self@.highlight_categories[c as int] == self.highlight_categories[c as int].deep_view());
            crate::room::lemma_ids_deep(self.highlight_categories[c as int].eligible_player_ids);
            assert(has_key::<u128>(self.highlight_categories[c as int].eligible_player_ids@, selected_player_id)
                == self.highlight_categories[c as int].eligible_player_ids@.contains(selected_player_id)) by {
                let e = self.highlight_categories[c as int].eligible_player_ids@;
                if e.contains(selected_player_id) {
                    let k = choose|k: int| 0 <= k < e.len() && e[k] == selected_player_id;
                    assert(<u128 as Keyed>::key_of(e[k]) == selected_player_id);
                }
            }
        }
        if !crate::entries::contains_key(&self.highlight_categories[c].eligible_player_ids, selected_player_id) {
            return Err(GameError::new(ErrorCode::InvalidPlayer, "That player is not eligible for this highlight."));
        }
        if self.voted_in(category_id, player_id) {
            return Err(GameError::new(ErrorCode::AlreadyVoted, "Your highlight vote is already locked."));
        }
        let vote = HighlightVote { category_id: category_id.to_owned(), voter_id: player_id, selected_id: selected_player_id };
        let ghost before = self.highlight_votes;
        self.highlight_votes.push(vote);
        proof {
            lemma_vec_push_deep(before, self.highlight_votes, vote);
        }
        self.changed(now);
        Ok(())
    }

    /// A player skips highlight voting this round.
    pub fn skip_highlight_voting(&mut self, player_id: u128, round: u8, now: u64) -> (r: Result<(), GameError>)
        ensures
            r.is_err() <==> highlight_gate(old(self)@, player_id, round),
            r.is_err() ==> final(self)@ == old(self)@ && r.unwrap_err()@ == voting_closed(),
            r.is_ok() ==> final(self)@ == crate::room::touched(
                RoomView { highlight_skips: set_insert(old(self)@.highlight_skips, player_id), ..old(self)@ },
                now,
            ),
    {
        if self.current_round != round || self.truth_or_dare_phase != Some(TruthOrDarePhase::HighlightVoting)
            || !self.has_player(player_id) {
            return Err(GameError::new(ErrorCode::InvalidPhase, "Highlight voting is not open."));
        }
        proof {
            crate::room::lemma_ids_deep(self.highlight_skips);
            assert(has_key::<u128>(self@.highlight_skips, player_id) == self@.highlight_skips.contains(player_id)) by {
                if self@.highlight_skips.contains(player_id) {
                    let k = choose|k: int| 0 <= k < self@.highlight_skips.len() && self@.highlight_skips[k] == player_id;
                    assert(<u128 as Keyed>::key_of(self@.highlight_skips[k]) == player_id);
                }
            }
        }
        if !crate::entries::contains_key(&self.highlight_skips, player_id) {
            self.highlight_skips.push(player_id);
        }
        proof {
            crate::room::lemma_ids_deep(self.highlight_skips);
        }
        self.changed(now);
        Ok(())
    }
}

} // verus!

verus! {

pub open spec fn in_category(category_id: Seq<char>) -> spec_fn(HighlightVoteView) -> bool {
    |v: HighlightVoteView| v.category_id == category_id
}

/// The players picked in category `category_id`, one entry per vote.
pub open spec fn selections(votes: Seq<HighlightVoteView>, category_id: Seq<char>) -> Seq<u128> {
    votes.filter(in_category(category_id)).map_values(|v: HighlightVoteView| v.selected_id)
}

pub open spec fn equal_to(x: u128) -> spec_fn(u128) -> bool {
    |y: u128| y == x
}

/// How many votes `x` received.
pub open spec fn vote_count(sel: Seq<u128>, x: u128) -> nat {
    sel.filter(equal_to(x)).len()
}

/// The most votes any of the first `n` picks received.
pub open spec fn top_count(sel: Seq<u128>, n: int) -> nat
    decreases n,
{
    if n <= 0 {
        0
    } else {
        let before = top_count(sel, n - 1);
        let here = vote_count(sel, sel[n - 1]);
        if here > before {
            here
        } else {
            before
        }
    }
}

/// `n` as a `u32`, held at `u32::MAX`.
pub open spec fn clamp_u32(n: nat) -> u32 {
    if n > u32::MAX {
        u32::MAX
    } else {
        n as u32
    }
}

/// `res` is the outcome of category `cat`: the most votes, and the players who received
/// that many, in ascending id order.
pub open spec fn highlight_outcome(res: HighlightResultView, cat: CategoryView, votes: Seq<HighlightVoteView>) -> bool {
    let sel = selections(votes, cat.id);
    let top = top_count(sel, sel.len() as int);
    &&& res.category_id == cat.id
    &&& res.label == cat.label
    &&& res.emoji == cat.emoji
    &&& res.votes == clamp_u32(top)
    &&& forall|i: int, j: int| 0 <= i < j < res.winners.len() ==> res.winners[i] < res.winners[j]
    &&& forall|x: u128| #[trigger] res.winners.contains(x) <==> (sel.contains(x) && vote_count(sel, x) == top)
}

pub open spec fn has_selections(votes: Seq<HighlightVoteView>) -> spec_fn(CategoryView) -> bool {
    |c: CategoryView| selections(votes, c.id).len() > 0
}

/// The highlight results: one per category that received a vote, in category order.
pub open spec fn highlight_outcomes(results: Seq<HighlightResultView>, cats: Seq<CategoryView>, votes: Seq<HighlightVoteView>) -> bool {
    let voted = cats.filter(has_selections(votes));
    &&& results.len() == voted.len()
    &&& forall|i: int| 0 <= i < results.len() ==> highlight_outcome(#[trigger] results[i], voted[i], votes)
}

/// A player is done with highlight voting: skipped, or voted in every category.
pub open spec fn highlight_done(r: RoomView, id: u128) -> bool {
    r.highlight_skips.contains(id) || forall|k: int|
        0 <= k < r.highlight_categories.len() ==> has_highlight_vote(
            r.highlight_votes,
            (#[trigger] r.highlight_categories[k]).id,
            id,
        )
}

/// Every player is done with highlight voting.
pub open spec fn highlights_ready(r: RoomView) -> bool {
    forall|i: int| 0 <= i < r.players.len() ==> highlight_done(r, (#[trigger] r.players[i]).id)
}

/// Why revealing the highlights is refused, if it is.
pub open spec fn reveal_highlights_refusal(r: RoomView, host: u128, round: u8) -> Refusal {
    if !crate::room::is_acting_host(r, host) {
        Some(crate::room::host_only())
    } else if r.current_round != round || r.truth_or_dare_phase != Some(TruthOrDarePhase::HighlightVoting) {
        Some(voting_closed())
    } else if !highlights_ready(r) {
        Some((ErrorCode::InvalidPhase, "Wait for everyone to vote or skip."@))
    } else {
        None
    }
}

/// The room after the highlights are revealed with `results`: shown, kept in the match
/// history, and the Truth or Dare stage at highlight results.
pub open spec fn highlights_revealed(r: RoomView, results: Seq<HighlightResultView>) -> RoomView {
    RoomView {
        highlight_results: results,
        historical_highlights: r.historical_highlights + results,
        truth_or_dare_phase: Some(TruthOrDarePhase::HighlightResults),
        ..r
    }
}

fn picks_in(votes: &Vec<HighlightVote>, category_id: &str) -> (sel: Vec<u128>)
    ensures
        sel@ == selections(votes.deep_view(), category_id@),
{
    let ghost vs = votes.deep_view();
    let ghost pred = in_category(category_id@);
    let ghost key = |v: HighlightVoteView| v.selected_id;
    let mut sel: Vec<u128> = Vec::new();
    let mut i: usize = 0;
    while i < votes.len()
        invariant
            i <= votes.len(),
            vs == votes.deep_view(),
            pred == in_category(category_id@),
            key == (|v: HighlightVoteView| v.selected_id),
            sel@ =~= vs.subrange(0, i as int).filter(pred).map_values(key),
        decreases votes.len() - i,
    {
        proof {
            vs.subrange(0, i as int).lemma_filter_push(vs[i as int], pred);
            assert(vs.subrange(0, i as int).push(vs[i as int]) =~= vs.subrange(0, i + 1));
            assert(vs[i as int] == votes[i as int].deep_view());
        }
        if str_equal(votes[i].category_id.as_str(), category_id) {
            sel.push(votes[i].selected_id);
        }
        i = i + 1;
    }
    assert(vs.subrange(0, votes.len() as int) =~= vs);
    sel
}

fn count_of(sel: &Vec<u128>, x: u128) -> (n: usize)
    ensures
        n == vote_count(sel@, x),
{
    let ghost s = sel@;
    let ghost pred = equal_to(x);
    let mut n: usize = 0;
    let mut i: usize = 0;
    while i < sel.len()
        invariant
            i <= sel.len(),
            s == sel@,
            pred == equal_to(x),
            n == s.subrange(0, i as int).filter(pred).len(),
            n <= i,
        decreases sel.len() - i,
    {
        proof {
            s.subrange(0, i as int).lemma_filter_push(s[i as int], pred);
            assert(s.subrange(0, i as int).push(s[i as int]) =~= s.subrange(0, i + 1));
        }
        if sel[i] == x {
            n = n + 1;
        }
        i = i + 1;
    }
    assert(s.subrange(0, sel.len() as int) =~= s);
    n
}

fn contains_id(v: &Vec<u128>, x: u128) -> (r: bool)
    ensures
        r == v@.contains(x),
{
    let mut i: usize = 0;
    while i < v.len()
        invariant
            i <= v.len(),
            forall|k: int| 0 <= k < i ==> v@[k] != x,
        decreases v.len() - i,
    {
        if v[i] == x {
            return true;
        }
        i = i + 1;
    }
    false
}

proof fn lemma_top_count_bound(sel: Seq<u128>, n: int)
    requires
        0 <= n <= sel.len(),
    ensures
        top_count(sel, n) <= sel.len(),
        forall|k: int| 0 <= k < n ==> vote_count(sel, #[trigger] sel[k]) <= top_count(sel, n),
        n > 0 ==> exists|k: int| 0 <= k < n && vote_count(sel, #[trigger] sel[k]) == top_count(sel, n),
    decreases n,
{
    if n > 0 {
        lemma_top_count_bound(sel, n - 1);
        sel.filter(equal_to(sel[n - 1])).lemma_filter_len(equal_to(sel[n - 1]));
        sel.lemma_filter_len(equal_to(sel[n - 1]));
        if n - 1 > 0 && vote_count(sel, sel[n - 1]) <= top_count(sel, n - 1) {
            let k = choose|k: int| 0 <= k < n - 1 && vote_count(sel, #[trigger] sel[k]) == top_count(sel, n - 1);
            assert(vote_count(sel, sel[k]) == top_count(sel, n));
        }
    }
}

/// The outcome of one category, when it received a vote.
fn category_outcome(cat: &HighlightCategory, votes: &Vec<HighlightVote>) -> (r: Option<HighlightResult>)
    ensures
        r.is_some() <==> selections(votes.deep_view(), cat@.id).len() > 0,
        r.is_some() ==> highlight_outcome(r.unwrap()@, cat@, votes.deep_view()),
{
    let sel = picks_in(votes, cat.id.as_str());
    if sel.len() == 0 {
        return None;
    }
    let ghost s = sel@;
    let mut top: usize = 0;
    let mut k: usize = 0;
    while k < sel.len()
        invariant
            k <= sel.len(),
            s == sel@,
            top == top_count(s, k as int),
            top <= s.len(),
        decreases sel.len() - k,
    {
        proof {
            lemma_top_count_bound(s, k + 1);
        }
        let c = count_of(&sel, sel[k]);
        if c > top {
            top = c;
        }
        k = k + 1;
    }
    let mut winners: Vec<u128> = Vec::new();
    let mut k: usize = 0;
    while k < sel.len()
        invariant
            k <= sel.len(),
            s == sel@,
            top == top_count(s, s.len() as int),
            winners@.no_duplicates(),
            forall|x: u128| winners@.contains(x) <==> exists|j: int| 0 <= j < k && #[trigger] s[j] == x && vote_count(s, x) == top,
        decreases sel.len() - k,
    {
        let x = sel[k];
        let c = count_of(&sel, x);
        let ghost prev = winners@;
        if c == top && !contains_id(&winners, x) {
            winners.push(x);
            assert(winners@ == prev.push(x));
        }
        assert forall|y: u128| winners@.contains(y) <==> exists|j: int| 0 <= j < k + 1 && #[trigger] s[j] == y && vote_count(s, y) == top by {
            if winners@.contains(y) {
                if prev.contains(y) {
                } else {
                    assert(y == x);
                    assert(s[k as int] == y);
                }
            }
            if exists|j: int| 0 <= j < k + 1 && #[trigger] s[j] == y && vote_count(s, y) == top {
                if !(exists|j: int| 0 <= j < k && #[trigger] s[j] == y && vote_count(s, y) == top) {
                    assert(y == x);
                    if !prev.contains(x) {
                        assert(winners@[winners@.len() - 1] == x);
                    }
                } else {
                    assert(prev.contains(y));
                    let m = choose|m: int| 0 <= m < prev.len() && prev[m] == y;
                    assert(winners@[m] == y);
                }
            }
        }
        k = k + 1;
    }
    let ghost unsorted = winners@;
    crate::order::sort_ids(&mut winners);
    proof {
        unsorted.lemma_multiset_has_no_duplicates();
        unsorted.to_multiset_ensures();
        winners@.to_multiset_ensures();
        assert forall|x: u128| winners@.to_multiset().contains(x) implies winners@.to_multiset().count(x) == 1 by {}
        winners@.lemma_multiset_has_no_duplicates_conv();
        assert forall|i: int, j: int| 0 <= i < j < winners@.len() implies winners@[i] < winners@[j] by {
            assert(winners@[i] != winners@[j]);
        }
        assert forall|x: u128| #[trigger] winners@.contains(x) <==> (s.contains(x) && vote_count(s, x) == top) by {
            assert(winners@.contains(x) <==> winners@.to_multiset().count(x) > 0);
            assert(unsorted.contains(x) <==> unsorted.to_multiset().count(x) > 0);
            if s.contains(x) && vote_count(s, x) == top {
                let j = choose|j: int| 0 <= j < s.len() && s[j] == x;
                assert(exists|j: int| 0 <= j < s.len() && #[trigger] s[j] == x && vote_count(s, x) == top);
            }
        }
    }
    let votes_total: u32 = if top > 0xffff_ffff {
        0xffff_ffff
    } else {
        top as u32
    };
    Some(HighlightResult {
        category_id: cat.id.clone(),
        label: cat.label.clone(),
        emoji: cat.emoji.clone(),
        winner_player_ids: winners,
        votes: votes_total,
    })
}

impl Room {
    /// Whether every player is done with highlight voting.
    fn highlights_all_ready(&self) -> (r: bool)
        ensures
            r == highlights_ready(self@),
    {
        proof {
            crate::room::lemma_ids_deep(self.highlight_skips);
        }
        let mut i: usize = 0;
        while i < self.players.len()
            invariant
                i <= self.players.len(),
                forall|k: int| 0 <= k < i ==> highlight_done(self@, (#[trigger] self@.players[k]).id),
                self.highlight_skips.deep_view() == self.highlight_skips@,
            decreases self.players.len() - i,
        {
            let id = self.players[i].id;
            assert(self@.players[i as int].id == id);
            let skipped = contains_id(&self.highlight_skips, id);
            if !skipped {
                let mut c: usize = 0;
                while c < self.highlight_categories.len()
                    invariant
                        c <= self.highlight_categories.len(),
                        i < self.players.len(),
                        id == self@.players[i as int].id,
                        !self@.highlight_skips.contains(id),
                        forall|k: int| 0 <= k < c ==> has_highlight_vote(self@.highlight_votes, (#[trigger] self@.highlight_categories[k]).id, id),
                    decreases self.highlight_categories.len() - c,
                {
                    assert(self@.highlight_categories[c as int] == self.highlight_categories[c as int].deep_view());
                    if !self.voted_in(self.highlight_categories[c].id.as_str(), id) {
                        assert(!highlight_done(self@, self@.players[i as int].id));
                        return false;
                    }
                    c = c + 1;
                }
            }
            i = i + 1;
        }
        true
    }

    /// The host reveals the highlights once every player has voted or skipped.
    pub fn reveal_highlights(&mut self, host_id: u128, round: u8, now: u64) -> (r: Result<(), GameError>)
        ensures
            r.is_err() <==> reveal_highlights_refusal(old(self)@, host_id, round).is_some(),
            r.is_err() ==> final(self)@ == old(self)@ && r.unwrap_err()@ == reveal_highlights_refusal(old(self)@, host_id, round).unwrap(),
            r.is_ok() ==> highlight_outcomes(final(self)@.highlight_results, old(self)@.highlight_categories, old(self)@.highlight_votes)
                && final(self)@ == crate::room::touched(highlights_revealed(old(self)@, final(self)@.highlight_results), now),
    {
        match self.authorize_player_host(host_id) {
            Err(e) => {
                return Err(e);
            },
            Ok(()) => {},
        }
        if self.current_round != round || self.truth_or_dare_phase != Some(TruthOrDarePhase::HighlightVoting) {
            return Err(GameError::new(ErrorCode::InvalidPhase, "Highlight voting is not open."));
        }
        if !self.highlights_all_ready() {
            return Err(GameError::new(ErrorCode::InvalidPhase, "Wait for everyone to vote or skip."));
        }
        let ghost cats = self@.highlight_categories;
        let ghost votes = self@.highlight_votes;
        let ghost pred = has_selections(votes);
        let mut results: Vec<crate::model::HighlightResult> = Vec::new();
        let mut i: usize = 0;
        while i < self.highlight_categories.len()
            invariant
                i <= self.highlight_categories.len(),
                cats == self@.highlight_categories,
                votes == self@.highlight_votes,
                pred == has_selections(votes),
                results.deep_view().len() == cats.subrange(0, i as int).filter(pred).len(),
                forall|j: int| 0 <= j < results.deep_view().len() ==> highlight_outcome(#[trigger] results.deep_view()[j], cats.subrange(0, i as int).filter(pred)[j], votes),
            decreases self.highlight_categories.len() - i,
        {
            proof {
                cats.subrange(0, i as int).lemma_filter_push(cats[i as int], pred);
                assert(cats.subrange(0, i as int).push(cats[i as int]) =~= cats.subrange(0, i + 1));
                assert(cats[i as int] == self.highlight_categories[i as int].deep_view());
            }
            match category_outcome(&self.highlight_categories[i], &self.highlight_votes) {
                Some(res) => {
                    let ghost before = results;
                    results.push(res);
                    proof {
                        lemma_vec_push_deep(before, results, res);
                    }
                },
                None => {},
            }
            i = i + 1;
        }
        assert(cats.subrange(0, cats.len() as int) =~= cats);
        let mut copies: Vec<crate::model::HighlightResult> = Vec::new();
        let mut j: usize = 0;
        while j < results.len()
            invariant
                j <= results.len(),
                copies.deep_view() =~= results.deep_view().subrange(0, j as int),
            decreases results.len() - j,
        {
            let c = crate::model::HighlightResult {
                category_id: results[j].category_id.clone(),
                label: results[j].label.clone(),
                emoji: results[j].emoji.clone(),
                winner_player_ids: crate::room::clone_ids(&results[j].winner_player_ids),
                votes: results[j].votes,
            };
            let ghost before = copies;
            copies.push(c);
            proof {
                lemma_vec_push_deep(before, copies, c);
            }
            j = j + 1;
        }
        assert(results.deep_view().subrange(0, results.len() as int) =~= results.deep_view());
        let ghost hist = self.historical_highlights.deep_view();
        self.historical_highlights.append(&mut copies);
        assert(self.historical_highlights.deep_view() =~= hist + results.deep_view());
        self.highlight_results = results;
        self.truth_or_dare_phase = Some(TruthOrDarePhase::HighlightResults);
        self.changed(now);
        Ok(())
    }
}

} // verus!
