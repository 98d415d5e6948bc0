//! Truth or Dare prompts: which prompts a player may be given, and the record of what
//! each player has already had.
use crate::entries::{
    drop_key, first_index, find_key, lemma_first_index_range, without_key, Keyed,
};
use crate::ids::choose_one;
use crate::model::{
    ChallengeView, ErrorCode, GameError, PlayerChallenge, Room, RoomView, TruthOrDarePlayerState,
    UsedPrompt,
};
use crate::room::{lemma_vec_push_deep, lemma_vec_update_deep};
use crate::text::{decimal_text, str_equal, usize_to_text};
use vstd::prelude::*;

verus! {

/// Some player's current turn has prompt `p`.
pub open spec fn prompt_in_use(cs: Seq<(u128, ChallengeView)>, p: Seq<char>) -> bool {
    exists|i: int| 0 <= i < cs.len() && (#[trigger] cs[i]).1.prompt == p
}

/// `player` has already been given prompt `p`.
pub open spec fn prompt_used_by(used: Seq<(u128, Seq<char>)>, player: u128, p: Seq<char>) -> bool {
    exists|i: int| 0 <= i < used.len() && #[trigger] used[i] == (player, p)
}

/// The positions `0..n`.
pub open spec fn positions(n: nat) -> Seq<usize> {
    Seq::new(n, |k: int| k as usize)
}

pub open spec fn fresh_for(
    pool: Seq<Seq<char>>,
    cs: Seq<(u128, ChallengeView)>,
    used: Seq<(u128, Seq<char>)>,
    player: u128,
) -> spec_fn(usize) -> bool {
    |k: usize| !prompt_in_use(cs, pool[k as int]) && !prompt_used_by(used, player, pool[k as int])
}

pub open spec fn free_in(pool: Seq<Seq<char>>, cs: Seq<(u128, ChallengeView)>) -> spec_fn(usize) -> bool {
    |k: usize| !prompt_in_use(cs, pool[k as int])
}

/// The prompts a player may be given: those nobody currently holds and the player has not
/// had; failing that, those nobody currently holds; failing that, any.
pub open spec fn prompt_candidates(
    pool: Seq<Seq<char>>,
    cs: Seq<(u128, ChallengeView)>,
    used: Seq<(u128, Seq<char>)>,
    player: u128,
) -> Seq<usize> {
    let fresh = positions(pool.len()).filter(fresh_for(pool, cs, used, player));
    let free = positions(pool.len()).filter(free_in(pool, cs));
    if fresh.len() > 0 {
        fresh
    } else if free.len() > 0 {
        free
    } else {
        positions(pool.len())
    }
}

/// The prompt pool of a choice: truths for `"truth"`, dares otherwise.
pub open spec fn pool_of(r: RoomView, choice: Seq<char>) -> Seq<Seq<char>> {
    if choice == "truth"@ {
        r.truth_prompts
    } else {
        r.dare_prompts
    }
}

/// The prompt history of a choice.
pub open spec fn history_of(r: RoomView, choice: Seq<char>) -> Seq<(u128, Seq<char>)> {
    if choice == "truth"@ {
        r.used_truth_prompts
    } else {
        r.used_dare_prompts
    }
}

/// The prompts `player` may be given for `choice`.
pub open spec fn candidates_for(r: RoomView, player: u128, choice: Seq<char>) -> Seq<usize> {
    prompt_candidates(pool_of(r, choice), r.challenges, history_of(r, choice), player)
}

/// How many prompts `player` has had from this history.
pub open spec fn own_count(used: Seq<(u128, Seq<char>)>, player: u128) -> nat {
    used.filter(owned_by(player)).len()
}

pub open spec fn owned_by(player: u128) -> spec_fn((u128, Seq<char>)) -> bool {
    |e: (u128, Seq<char>)| e.0 == player
}

/// The history after `player` is given `prompt`: once the player has had as many prompts
/// as the pool holds, their history starts over; the prompt is then recorded.
pub open spec fn history_after(
    used: Seq<(u128, Seq<char>)>,
    player: u128,
    pool_len: nat,
    prompt: Seq<char>,
) -> Seq<(u128, Seq<char>)> {
    let base = if own_count(used, player) >= pool_len {
        without_key::<UsedPrompt>(used, player)
    } else {
        used
    };
    if prompt_used_by(base, player, prompt) {
        base
    } else {
        base.push((player, prompt))
    }
}

/// The room after `player` is given prompt `k` of `choice`'s pool (the history updated).
pub open spec fn prompt_recorded(r: RoomView, player: u128, choice: Seq<char>, k: int) -> RoomView {
    let pool = pool_of(r, choice);
    if choice == "truth"@ {
        RoomView {
            used_truth_prompts: history_after(r.used_truth_prompts, player, pool.len(), pool[k]),
            ..r
        }
    } else {
        RoomView {
            used_dare_prompts: history_after(r.used_dare_prompts, player, pool.len(), pool[k]),
            ..r
        }
    }
}

/// The turn a player starts with prompt `k` of `choice`'s pool.
pub open spec fn assigned_challenge(r: RoomView, choice: Seq<char>, k: int) -> ChallengeView {
    ChallengeView {
        choice,
        prompt_id: choice + "-prompt-"@ + decimal_text(k as nat),
        prompt: pool_of(r, choice)[k],
        completed: false,
        skipped: false,
    }
}

/// `cs` with `player`'s turn set to `c` (`insert`).
pub open spec fn challenge_put(cs: Seq<(u128, ChallengeView)>, player: u128, c: ChallengeView) -> Seq<
    (u128, ChallengeView),
> {
    let i = first_index::<PlayerChallenge>(cs, player);
    if i >= 0 {
        cs.update(i, (player, c))
    } else {
        cs.push((player, c))
    }
}

impl Room {
    /// Whether some player's current turn has prompt `p`.
    fn prompt_taken(&self, p: &str) -> (r: bool)
        ensures
            r == prompt_in_use(self@.challenges, p@),
    {
        let mut i: usize = 0;
        while i < self.truth_or_dare_states.len()
            invariant
                i <= self.truth_or_dare_states.len(),
                forall|k: int| 0 <= k < i ==> (#[trigger] self@.challenges[k]).1.prompt != p@,
            decreases self.truth_or_dare_states.len() - i,
        {
            assert(self@.challenges[i as int] == self.truth_or_dare_states[i as int].deep_view());
            if str_equal(self.truth_or_dare_states[i].state.prompt.as_str(), p) {
                return true;
            }
            i = i + 1;
        }
        false
    }

    fn had_prompt(used: &Vec<UsedPrompt>, player: u128, p: &str) -> (r: bool)
        ensures
            r == prompt_used_by(used.deep_view(), player, p@),
    {
        let mut i: usize = 0;
        while i < used.len()
            invariant
                i <= used.len(),
                forall|k: int| 0 <= k < i ==> #[trigger] used.deep_view()[k] != (player, p@),
            decreases used.len() - i,
        {
            assert(used.deep_view()[i as int] == used[i as int].deep_view());
            if used[i].player_id == player && str_equal(used[i].prompt.as_str(), p) {
                return true;
            }
            i = i + 1;
        }
        false
    }

    fn own_prompt_count(used: &Vec<UsedPrompt>, player: u128) -> (n: usize)
        ensures
            n == own_count(used.deep_view(), player),
    {
        let ghost u = used.deep_view();
        let ghost pred = owned_by(player);
        let mut n: usize = 0;
        let mut i: usize = 0;
        while i < used.len()
            invariant
                i <= used.len(),
                u == used.deep_view(),
                pred == owned_by(player),
                n == u.subrange(0, i as int).filter(pred).len(),
                n <= i,
            decreases used.len() - i,
        {
            proof {
                u.subrange(0, i as int).lemma_filter_push(u[i as int], pred);
                assert(u.subrange(0, i as int).push(u[i as int]) =~= u.subrange(0, i + 1));
                assert(u[i as int] == used[i as int].deep_view());
            }
            if used[i].player_id == player {
                n = n + 1;
            }
            i = i + 1;
        }
        assert(u.subrange(0, used.len() as int) =~= u);
        n
    }

    /// The prompts `player` may be given for `choice`.
    pub fn candidate_prompts(&self, player: u128, choice: &str) -> (c: Vec<usize>)
        ensures
            c@ == candidates_for(self@, player, choice@),
    {
        let truth = str_equal(choice, "truth");
        let pool = if truth {
            &self.truth_prompts
        } else {
            &self.dare_prompts
        };
        let used = if truth {
            &self.used_truth_prompts
        } else {
            &self.used_dare_prompts
        };
        let ghost pv = pool.deep_view();
        let ghost uv = used.deep_view();
        let ghost cs = self@.challenges;
        let ghost fresh_pred = fresh_for(pv, cs, uv, player);
        let ghost free_pred = free_in(pv, cs);
        let ghost all = positions(pv.len());
        let mut fresh: Vec<usize> = Vec::new();
        let mut free: Vec<usize> = Vec::new();
        let mut every: Vec<usize> = Vec::new();
        let mut k: usize = 0;
        while k < pool.len()
            invariant
                k <= pool.len(),
                pv == pool.deep_view(),
                uv == used.deep_view(),
                cs == self@.challenges,
                fresh_pred == fresh_for(pv, cs, uv, player),
                free_pred == free_in(pv, cs),
                all == positions(pv.len()),
                fresh@ =~= all.subrange(0, k as int).filter(fresh_pred),
                free@ =~= all.subrange(0, k as int).filter(free_pred),
                every@ =~= all.subrange(0, k as int),
            decreases pool.len() - k,
        {
            proof {
                all.subrange(0, k as int).lemma_filter_push(all[k as int], fresh_pred);
                all.subrange(0, k as int).lemma_filter_push(all[k as int], free_pred);
                assert(all.subrange(0, k as int).push(all[k as int]) =~= all.subrange(0, k + 1));
                assert(pv[k as int] == pool[k as int]@);
            }
            let taken = self.prompt_taken(pool[k].as_str());
            let had = Self::had_prompt(used, player, pool[k].as_str());
            if !taken && !had {
                fresh.push(k);
            }
            if !taken {
                free.push(k);
            }
            every.push(k);
            k = k + 1;
        }
        assert(all.subrange(0, pool.len() as int) =~= all);
        if fresh.len() > 0 {
            fresh
        } else if free.len() > 0 {
            free
        } else {
            every
        }
    }

    fn record_prompt_history(used: &mut Vec<UsedPrompt>, player: u128, pool_len: usize, prompt: &str)
        ensures
            final(used).deep_view() == history_after(old(used).deep_view(), player, pool_len as nat, prompt@),
    {
        let n = Self::own_prompt_count(used, player);
        if n >= pool_len {
            drop_key(used, player);
        }
        if !Self::had_prompt(used, player, prompt) {
            let e = UsedPrompt { player_id: player, prompt: prompt.to_owned() };
            let ghost before = *used;
            used.push(e);
            proof {
                lemma_vec_push_deep(before, *used, e);
            }
        }
    }

    /// Gives `player` prompt `k` of `choice`'s pool and records it in their history.
    pub fn give_prompt(&mut self, player: u128, choice: &str, k: usize) -> (s: TruthOrDarePlayerState)
        requires
            k < pool_of(old(self)@, choice@).len(),
        ensures
            s@ == assigned_challenge(old(self)@, choice@, k as int),
            final(self)@ == prompt_recorded(old(self)@, player, choice@, k as int),
    {
        let truth = str_equal(choice, "truth");
        let prompt = if truth {
            self.truth_prompts[k].clone()
        } else {
            self.dare_prompts[k].clone()
        };
        proof {
            if truth {
                assert(self.truth_prompts.deep_view()[k as int] == self.truth_prompts[k as int]@);
            } else {
                assert(self.dare_prompts.deep_view()[k as int] == self.dare_prompts[k as int]@);
            }
        }
        if truth {
            let n = self.truth_prompts.len();
            Self::record_prompt_history(&mut self.used_truth_prompts, player, n, prompt.as_str());
        } else {
            let n = self.dare_prompts.len();
            Self::record_prompt_history(&mut self.used_dare_prompts, player, n, prompt.as_str());
        }
        let mut prompt_id = choice.to_owned();
        prompt_id.append("-prompt-");
        let digits = usize_to_text(k);
        prompt_id.append(digits.as_str());
        TruthOrDarePlayerState {
            choice: choice.to_owned(),
            prompt_id,
            prompt,
            completed: false,
            skipped: false,
        }
    }

    /// Gives `player` a random prompt of `choice`'s pool among the candidates; refused only
    /// when the pool is empty.
    pub fn assign_truth_or_dare_prompt(&mut self, player: u128, choice: &str) -> (r: Result<
        TruthOrDarePlayerState,
        GameError,
    >)
        ensures
            r.is_err() <==> pool_of(old(self)@, choice@).len() == 0,
            r.is_err() ==> r.unwrap_err()@ == (
                ErrorCode::InternalError,
                "No prompts are available for that choice."@,
            ) && final(self)@ == old(self)@,
            r.is_ok() ==> exists|k: usize|
                #![trigger candidates_for(old(self)@, player, choice@).contains(k)]
                candidates_for(old(self)@, player, choice@).contains(k) && k < pool_of(old(self)@, choice@).len()
                    && r.unwrap()@ == assigned_challenge(old(self)@, choice@, k as int)
                    && final(self)@ == prompt_recorded(old(self)@, player, choice@, k as int),
    {
        let truth = str_equal(choice, "truth");
        let len = if truth {
            self.truth_prompts.len()
        } else {
            self.dare_prompts.len()
        };
        if len == 0 {
            return Err(GameError::new(ErrorCode::InternalError, "No prompts are available for that choice."));
        }
        let candidates = self.candidate_prompts(player, choice);
        proof {
            let pv = pool_of(self@, choice@);
            let all = positions(pv.len());
            assert(all.len() > 0);
            assert(candidates@.len() > 0);
            assert forall|x: usize| candidates@.contains(x) implies x < len by {
                let j = choose|j: int| 0 <= j < candidates@.len() && candidates@[j] == x;
                let fresh = all.filter(fresh_for(pv, self@.challenges, history_of(self@, choice@), player));
                let free = all.filter(free_in(pv, self@.challenges));
                if fresh.len() > 0 {
                    all.lemma_filter_contains_rev(fresh_for(pv, self@.challenges, history_of(self@, choice@), player), x);
                } else if free.len() > 0 {
                    all.lemma_filter_contains_rev(free_in(pv, self@.challenges), x);
                }
            }
        }
        let k = match choose_one(&candidates) {
            Some(k) => k,
            None => {
                return Err(GameError::new(ErrorCode::InternalError, "No prompts are available for that choice."));
            },
        };
        let state = self.give_prompt(player, choice, k);
        Ok(state)
    }

    /// Sets `player`'s turn (`insert`).
    pub fn put_challenge(&mut self, player: u128, state: TruthOrDarePlayerState)
        ensures
            final(self)@ == (RoomView {
                challenges: challenge_put(old(self)@.challenges, player, state@),
                ..old(self)@
            }),
    {
        let ghost before = self.truth_or_dare_states;
        proof {
            lemma_first_index_range::<PlayerChallenge>(self@.challenges, player);
        }
        match find_key(&self.truth_or_dare_states, player) {
            Some(i) => {
                self.truth_or_dare_states[i].state = state;
                proof {
                    lemma_vec_update_deep(before, self.truth_or_dare_states, i as int);
                }
            },
            None => {
                let c = PlayerChallenge { player_id: player, state };
                self.truth_or_dare_states.push(c);
                proof {
                    lemma_vec_push_deep(before, self.truth_or_dare_states, c);
                }
            },
        }
    }
}

} // verus!
