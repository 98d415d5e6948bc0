//! Properties of the rules as a whole: what every operation keeps, and how operations
//! relate to one another.
use crate::catalog::GameExperience;
use crate::departure::{answer_differs, departed, departure_ends_spotlight};
use crate::entries::{has_key, lemma_without_key, without_key, Keyed};
use crate::ids::uuid_text;
use crate::invariants::{lemma_answers_bounded, room_wf};
use crate::lifecycle::{expired_out, left, room_expired};
use crate::manager::{
    answer_locked, cleaned_up, created_with, every_code_held, creation, has_room, kept_open, manager_wf, open_at, reaction_outcome,
    reaction_why, rerolled, room_after, room_key, room_of, swept, only_room_changed, unless_missing,
};
use crate::model::{HighlightVoteView, Player, PlayerAnswer, PlayerView, PlayerChallenge, PlayerTally, RoomView, MAX_PLAYERS};
use crate::play::{answer_refusal, scored, tally_add, vote_points};
use crate::results::{names_player, score_of, votes_for};
use crate::ids::uuid_parse;
use crate::text::parse_usize_spec;
use crate::room::{is_member, joined, join_refusal, member_index, player_ids, player_signed_in, touched};
use crate::snapshot::{snapshot_fits, vote_by, SnapshotView};
use crate::entries::{first_index, lemma_first_index, lemma_first_index_range};
use crate::prompts::{
    assigned_challenge, candidates_for, challenge_put, fresh_for, free_in, history_of, pool_of, positions,
    prompt_in_use, prompt_recorded,
};
use crate::spotlight::{challenge_of, set_insert, 
    complete_refusal, highlights_revealed, reaction_added, reaction_seen, reroll_refusal, skip_refusal,
    spotlight_holder, done_filter, done_players, highlight_categories_for, highlight_voting_prepared,
};
use crate::model::ChallengeView;
use vstd::prelude::*;

verus! {

/// Every room of a manager has at most twelve players and no more answers than players.
pub proof fn law_room_capacity(m: crate::manager::ManagerView, k: Seq<char>)
    requires
        manager_wf(m),
        m.rooms.dom().contains(k),
    ensures
        m.rooms[k].players.len() <= MAX_PLAYERS,
        m.rooms[k].answers.len() <= m.rooms[k].players.len(),
{
    assert(room_wf(m.rooms[k]));
    lemma_answers_bounded(m.rooms[k]);
}

/// A room code, in any letter case and with surrounding space, names at most one room: a
/// room held whose code is that code's key is the room the code names.
pub proof fn law_code_names_one_room(m: crate::manager::ManagerView, code: Seq<char>, k: Seq<char>)
    requires
        manager_wf(m),
        m.rooms.dom().contains(k),
        m.rooms[k].code == room_key(code),
    ensures
        has_room(m, code),
        room_of(m, code) == m.rooms[k],
{
}

/// While no room is held, creating a room is never refused for want of a free code.
pub proof fn law_first_room_finds_a_code(
    before: crate::manager::ManagerView,
    after: crate::manager::ManagerView,
    game_id: Seq<char>,
    rounds: Option<u8>,
    theme: Option<Seq<char>>,
    nickname: Seq<char>,
    r: Result<(String, String), crate::model::GameError>,
)
    requires
        creation(before, after, game_id, rounds, theme, nickname, r),
        before.rooms.dom() == Set::<Seq<char>>::empty(),
    ensures
        r is Err ==> r->Err_0.code != crate::model::ErrorCode::InternalError,
{
    if r is Err && r->Err_0.code == crate::model::ErrorCode::InternalError {
        let gi = crate::manager::chosen_game(before.games, game_id);
        if gi >= 0 && crate::nickname::nickname_ok(crate::text::trim_spec(nickname)) {
            let g = before.games[gi];
            let n = crate::manager::rounds_for(
                match rounds {
                    Some(k) => k,
                    None => g.default_rounds,
                },
                g.questions.len(),
            );
            let queue = choose|queue: Seq<crate::catalog::QuestionView>|
                #[trigger] created_with(before, after, gi, n, crate::manager::theme_for(theme), nickname, queue, r);
            assert(every_code_held(before.rooms));
            let code = seq!['A', 'A', 'A', 'A', 'A', 'A'];
            assert(crate::codes::is_room_code(code));
            assert(before.rooms.dom().contains(code));
        }
    }
}

/// A generated room code is its own key: the room opened under it answers to it.
pub proof fn law_generated_code_is_its_key(code: Seq<char>)
    requires
        code.len() == crate::codes::ROOM_CODE_LEN,
        forall|i: int| 0 <= i < code.len() ==> crate::codes::unambiguous_code_char(#[trigger] code[i]),
    ensures
        room_key(code) == code,
{
    assert(crate::codes::unambiguous_code_char(code[0]));
    assert(crate::codes::unambiguous_code_char(code.last()));
    assert(crate::text::trim_start_spec(code) == code);
    assert(crate::text::trim_end_spec(code) == code);
    assert(crate::text::ascii_upper(code) =~= code);
}

/// Games that are not competitive award no points: scores stay as they were and the
/// round gives no points.
pub proof fn law_only_competitive_games_score(r: RoomView)
    requires
        r.experience != GameExperience::Competitive,
    ensures
        scored(r).scores == r.scores,
        scored(r).current_round_points.len() == 0,
{
}

/// A join that is not refused adds the newcomer as a member, one more player.
pub proof fn law_join_adds_member(r: RoomView, nickname: Seq<char>, id: u128, token: Seq<char>, now: u64)
    requires
        join_refusal(r, nickname).is_none(),
    ensures
        is_member(joined(r, nickname, id, token, now), id),
        joined(r, nickname, id, token, now).players.len() == r.players.len() + 1,
        joined(r, nickname, id, token, now).players.len() <= MAX_PLAYERS,
{
    let s = joined(r, nickname, id, token, now);
    assert(<Player as Keyed>::key_of(s.players[r.players.len() as int]) == id);
}

/// When a member leaves, they are no longer a member (player ids being distinct); when the
/// host leaves and someone remains, the first remaining player becomes the host.
pub proof fn law_leave_removes_member(r: RoomView, id: u128, token: Seq<char>, now: u64)
    requires
        is_member(r, id),
        forall|a: int, b: int| 0 <= a < b < r.players.len() ==> (#[trigger] r.players[a]).id != (#[trigger] r.players[b]).id,
    ensures
        !is_member(left(r, id, token, now), id),
        left(r, id, token, now).players.len() + 1 == r.players.len(),
        r.host_player_id == id && left(r, id, token, now).players.len() > 0 ==> {
            let s = left(r, id, token, now);
            s.host_player_id == s.players[0].id && s.host_token == token && is_member(s, s.host_player_id)
        },
{
    let s = left(r, id, token, now);
    let i = member_index(r, id);
    crate::entries::lemma_first_index_range::<Player>(r.players, id);
    assert(s.players == r.players.remove(i));
    if is_member(s, id) {
        let k = choose|k: int| 0 <= k < s.players.len() && <Player as Keyed>::key_of(#[trigger] s.players[k]) == id;
        if k < i {
            assert(s.players[k] == r.players[k]);
            assert(r.players[k].id != r.players[i].id);
        } else {
            assert(s.players[k] == r.players[k + 1]);
            assert(r.players[i].id != r.players[k + 1].id);
        }
    }
    if r.host_player_id == id && s.players.len() > 0 {
        assert(<Player as Keyed>::key_of(s.players[0]) == s.players[0].id);
    }
}

/// Once a player's answer is locked, another answer from them in the same round is refused.
pub proof fn law_answer_locks(r: RoomView, player: u128, round: u8, answer: Seq<char>, again: Seq<char>, now: u64, t: RoomView)
    requires
        answer_refusal(r, player, round, answer).is_none(),
        answer_locked(r, player, answer, now, t),
    ensures
        answer_refusal(t, player, round, again).is_some(),
{
    assert(<PlayerAnswer as Keyed>::key_of(t.answers[r.answers.len() as int]) == player);
    assert(has_key::<PlayerAnswer>(t.answers, player));
}

/// The free reroll is used once: after a reroll, the same player's next reroll is refused;
/// while they still hold the Spotlight, as a reroll already used.
pub proof fn law_reroll_once(r: RoomView, player: u128, round: u8, now: u64, t: RoomView)
    requires
        rerolled(r, player, now, t),
    ensures
        reroll_refusal(t, player, round).is_some(),
        crate::spotlight::spotlight_actor_refusal(t, player, round).is_none() ==> reroll_refusal(t, player, round)
            == Some((crate::model::ErrorCode::InvalidPhase, "Your free reroll has already been used."@)),
{
    assert(t.rerolls_used.contains(player)) by {
        let u = r.rerolls_used;
        if !u.contains(player) {
            assert(u.push(player)[u.len() as int] == player);
        }
    }
}

/// The free reroll is used once, as the server answers it: after a player's reroll in the
/// room under `code` succeeded, the room is still there and that player's next reroll in it
/// is refused; while they still hold the Spotlight, as a reroll already used.
pub proof fn law_manager_reroll_once(
    before: crate::manager::ManagerView,
    after: crate::manager::ManagerView,
    code: Seq<char>,
    player: u128,
    now: u64,
    round: u8,
)
    requires
        has_room(before, code),
        only_room_changed(before, after, code),
        rerolled(room_of(before, code), player, now, room_after(before, after, code)),
    ensures
        has_room(after, code),
        unless_missing(after, code, reroll_refusal(room_of(after, code), player, round)).is_some(),
        crate::spotlight::spotlight_actor_refusal(room_of(after, code), player, round).is_none() ==> unless_missing(
            after,
            code,
            reroll_refusal(room_of(after, code), player, round),
        ) == Some((crate::model::ErrorCode::InvalidPhase, "Your free reroll has already been used."@)),
{
    law_reroll_once(room_of(before, code), player, round, now, room_of(after, code));
}

/// A reroll keeps the player's choice and starts their turn over with a prompt that no
/// player held, so a different one, whenever the pool has a prompt that no player holds.
pub proof fn law_reroll_changes_prompt(r: RoomView, player: u128, now: u64, t: RoomView, free: int)
    requires
        rerolled(r, player, now, t),
        challenge_of(r.challenges, player).is_some(),
        pool_of(r, challenge_of(r.challenges, player).unwrap().choice).len() <= usize::MAX,
        0 <= free < pool_of(r, challenge_of(r.challenges, player).unwrap().choice).len(),
        !prompt_in_use(r.challenges, pool_of(r, challenge_of(r.challenges, player).unwrap().choice)[free]),
    ensures
        challenge_of(t.challenges, player).is_some(),
        challenge_of(t.challenges, player).unwrap().choice == challenge_of(r.challenges, player).unwrap().choice,
        challenge_of(t.challenges, player).unwrap().prompt != challenge_of(r.challenges, player).unwrap().prompt,
        !challenge_of(t.challenges, player).unwrap().completed,
        !challenge_of(t.challenges, player).unwrap().skipped,
        t.rerolls_used.contains(player),
{
    let c0 = challenge_of(r.challenges, player).unwrap();
    let choice = c0.choice;
    let pool = pool_of(r, choice);
    let cands = candidates_for(r, player, choice);
    let k = choose|k: usize|
        #![trigger candidates_for(r, player, choice).contains(k)]
        candidates_for(r, player, choice).contains(k) && t == touched(
            RoomView {
                challenges: challenge_put(r.challenges, player, assigned_challenge(r, choice, k as int)),
                rerolls_used: set_insert(r.rerolls_used, player),
                ..prompt_recorded(r, player, choice, k as int)
            },
            now,
        );
    let c1 = assigned_challenge(r, choice, k as int);
    let cs = r.challenges;
    lemma_first_index_range::<PlayerChallenge>(cs, player);
    let i = first_index::<PlayerChallenge>(cs, player);
    assert(i >= 0);
    let cs2 = cs.update(i, (player, c1));
    assert(t.challenges == cs2);
    lemma_first_index::<PlayerChallenge>(cs2, player, i);
    assert(challenge_of(t.challenges, player) == Some(c1));
    // The candidates avoid every prompt in use, since some prompt is free.
    let ps = positions(pool.len());
    let fresh = ps.filter(fresh_for(pool, cs, history_of(r, choice), player));
    let frees = ps.filter(free_in(pool, cs));
    assert(ps[free] == free as usize);
    ps.lemma_filter_contains(free_in(pool, cs), free);
    assert(frees.len() > 0);
    let idx = choose|idx: int| 0 <= idx < cands.len() && cands[idx] == k;
    if fresh.len() > 0 {
        ps.lemma_filter_pred(fresh_for(pool, cs, history_of(r, choice), player), idx);
    } else {
        ps.lemma_filter_pred(free_in(pool, cs), idx);
    }
    assert(!prompt_in_use(cs, pool[k as int]));
    assert(cs[i].1 == c0);
    assert(prompt_in_use(cs, c0.prompt));
    assert(t.rerolls_used.contains(player)) by {
        let u = r.rerolls_used;
        if !u.contains(player) {
            assert(u.push(player)[u.len() as int] == player);
        }
    }
}

/// A reaction id already seen is accepted again and changes nothing: sending the same
/// reaction twice adds it once.
pub proof fn law_reaction_once(r: RoomView, player: u128, emoji: Seq<char>, id: u128, now: u64, round: u8, later: u64)
    ensures
        reaction_seen(touched(reaction_added(r, player, emoji, id), now), id),
        reaction_outcome(touched(reaction_added(r, player, emoji, id), now), player, emoji, id, later)
            == touched(reaction_added(r, player, emoji, id), now),
        crate::spotlight::reaction_refusal(touched(reaction_added(r, player, emoji, id), now), player, round, emoji).is_none()
            ==> reaction_why(touched(reaction_added(r, player, emoji, id), now), player, round, emoji, id).is_none(),
{
    let s = touched(reaction_added(r, player, emoji, id), now);
    assert(s.reactions[r.reactions.len() as int].id == id);
}

/// What everyone may see holds nothing private: no choice, prompt, answer or vote of any
/// player.
pub proof fn law_public_view_is_private(r: RoomView, s: SnapshotView)
    requires
        snapshot_fits(r, None, s),
    ensures
        s.viewer_player_id.is_none(),
        s.viewer_answer.is_none(),
        s.viewer_has_answered.is_none(),
        s.viewer_truth_or_dare_choice.is_none(),
        s.viewer_truth_or_dare_prompt.is_none(),
        s.viewer_truth_or_dare_prompt_id.is_none(),
        s.viewer_highlight_votes.len() == 0,
{
}

/// Highlight votes stay private: the votes a viewer's snapshot lists are that viewer's own.
pub proof fn law_highlight_votes_private(r: RoomView, viewer: u128, s: SnapshotView, k: int)
    requires
        snapshot_fits(r, Some(viewer), s),
        0 <= k < s.viewer_highlight_votes.len(),
    ensures
        exists|i: int|
            0 <= i < r.highlight_votes.len() && (#[trigger] r.highlight_votes[i]).voter_id == viewer
                && s.viewer_highlight_votes[k] == (r.highlight_votes[i].category_id, r.highlight_votes[i].selected_id),
{
    let own = r.highlight_votes.filter(vote_by(viewer));
    assert(s.viewer_highlight_votes == crate::snapshot::viewer_votes(r, Some(viewer)));
    assert(s.viewer_highlight_votes.len() == own.len());
    let v = own[k];
    r.highlight_votes.lemma_filter_pred(vote_by(viewer), k);
    assert(own.contains(v));
    r.highlight_votes.lemma_filter_contains_rev(vote_by(viewer), v);
    let i = choose|i: int| 0 <= i < r.highlight_votes.len() && r.highlight_votes[i] == v;
    assert(r.highlight_votes[i].voter_id == viewer);
}

/// A member who departs is gone from what the round keeps of them: their answer, their
/// turn, their place in the Spotlight order, their score, and every highlight vote cast by
/// or for them.
pub proof fn law_departure_clears_player(r: RoomView, id: u128)
    requires
        is_member(r, id),
    ensures
        !has_key::<PlayerAnswer>(departed(r, id).answers, id),
        !has_key::<PlayerChallenge>(departed(r, id).challenges, id),
        !departed(r, id).spotlight_order.contains(id),
        !has_key::<PlayerTally>(departed(r, id).scores, id),
        forall|i: int| 0 <= i < departed(r, id).highlight_votes.len() ==> (#[trigger] departed(r, id).highlight_votes[i]).voter_id
            != id && departed(r, id).highlight_votes[i].selected_id != id,
{
    let d = departed(r, id);
    let kept = without_key::<PlayerAnswer>(r.answers, id);
    lemma_without_key::<PlayerAnswer>(r.answers, id);
    lemma_without_key::<PlayerChallenge>(r.challenges, id);
    lemma_without_key::<u128>(r.spotlight_order, id);
    lemma_without_key::<PlayerTally>(r.scores, id);
    assert forall|i: int| 0 <= i < d.answers.len() implies <PlayerAnswer as Keyed>::key_of(#[trigger] d.answers[i]) != id by {
        let a = d.answers[i];
        assert(d.answers.contains(a));
        kept.lemma_filter_contains_rev(answer_differs(uuid_text(id)), a);
        let j = choose|j: int| 0 <= j < kept.len() && kept[j] == a;
        assert(<PlayerAnswer as Keyed>::key_of(kept[j]) != id);
    }
    if d.spotlight_order.contains(id) {
        let j = choose|j: int| 0 <= j < d.spotlight_order.len() && d.spotlight_order[j] == id;
        assert(<u128 as Keyed>::key_of(d.spotlight_order[j]) != id);
    }
    if !departure_ends_spotlight(r, id) {
        assert forall|i: int| 0 <= i < d.highlight_votes.len() implies (#[trigger] d.highlight_votes[i]).voter_id != id
            && d.highlight_votes[i].selected_id != id by {
            r.highlight_votes.lemma_filter_pred(|v: HighlightVoteView| v.voter_id != id && v.selected_id != id, i);
        }
    }
}

/// A room's snapshot for a viewer is determined: two snapshots that fit the same room and
/// viewer are equal, results and leaderboard order included.
pub proof fn law_snapshot_determined(r: RoomView, viewer: Option<u128>, s1: SnapshotView, s2: SnapshotView)
    requires
        snapshot_fits(r, viewer, s1),
        snapshot_fits(r, viewer, s2),
    ensures
        s1 == s2,
{
    if s1.results.is_some() {
        crate::order::lemma_results_unique(crate::results::result_lines(r), s1.results.unwrap(), s2.results.unwrap());
    }
    crate::results::lemma_leaderboard_unique(crate::results::leaderboard_lines(r), s1.leaderboard, s2.leaderboard);
}

/// Two lists of entries with the same keys, position by position, give each key the same
/// first position.
proof fn lemma_first_index_same_keys(a: Seq<PlayerView>, b: Seq<PlayerView>, id: u128)
    requires
        a.len() == b.len(),
        forall|i: int| 0 <= i < a.len() ==> (#[trigger] a[i]).id == b[i].id,
    ensures
        first_index::<Player>(a, id) == first_index::<Player>(b, id),
        crate::entries::has_key::<Player>(a, id) == crate::entries::has_key::<Player>(b, id),
    decreases a.len(),
{
    lemma_first_index_range::<Player>(a, id);
    lemma_first_index_range::<Player>(b, id);
    if a.len() > 0 {
        assert forall|i: int| 0 <= i < a.drop_first().len() implies (#[trigger] a.drop_first()[i]).id == b.drop_first()[i].id by {
            assert(a.drop_first()[i] == a[i + 1]);
            assert(b.drop_first()[i] == b[i + 1]);
        }
        lemma_first_index_same_keys(a.drop_first(), b.drop_first(), id);
        assert(<Player as Keyed>::key_of(a[0]) == <Player as Keyed>::key_of(b[0]));
    }
}

/// Filters that agree position by position keep as many items.
proof fn lemma_filter_len_same(a: Seq<PlayerView>, b: Seq<PlayerView>, p: spec_fn(PlayerView) -> bool)
    requires
        a.len() == b.len(),
        forall|i: int| 0 <= i < a.len() ==> p(#[trigger] a[i]) == p(b[i]),
    ensures
        a.filter(p).len() == b.filter(p).len(),
    decreases a.len(),
{
    reveal(Seq::filter);
    if a.len() > 0 {
        assert forall|i: int| 0 <= i < a.drop_last().len() implies p(#[trigger] a.drop_last()[i]) == p(b.drop_last()[i]) by {
            assert(a.drop_last()[i] == a[i]);
            assert(b.drop_last()[i] == b[i]);
        }
        lemma_filter_len_same(a.drop_last(), b.drop_last(), p);
        assert(p(a.last()) == p(b.last()));
    }
}

/// Snapshots read no token: two rooms that differ only in the host token and the players'
/// session tokens give each viewer the same snapshot.
pub proof fn law_snapshot_ignores_tokens(r1: RoomView, r2: RoomView, viewer: Option<u128>, s1: SnapshotView, s2: SnapshotView)
    requires
        r2.players.len() == r1.players.len(),
        forall|i: int| 0 <= i < r1.players.len() ==> #[trigger] r2.players[i] == (PlayerView {
            session_token: r2.players[i].session_token,
            ..r1.players[i]
        }),
        r2 == (RoomView { host_token: r2.host_token, players: r2.players, ..r1 }),
        snapshot_fits(r1, viewer, s1),
        snapshot_fits(r2, viewer, s2),
    ensures
        s1 == s2,
{
    assert forall|i: int| 0 <= i < r1.players.len() implies (#[trigger] r1.players[i]).id == r2.players[i].id by {
        assert(r2.players[i].id == r1.players[i].id);
    }
    assert forall|id: u128| #[trigger] first_index::<Player>(r1.players, id) == first_index::<Player>(r2.players, id)
        && is_member(r1, id) == is_member(r2, id) by {
        lemma_first_index_same_keys(r1.players, r2.players, id);
    }
    assert forall|id: u128| #[trigger] crate::snapshot::nickname_of(r1, id) == crate::snapshot::nickname_of(r2, id) by {
        lemma_first_index_same_keys(r1.players, r2.players, id);
        crate::entries::lemma_first_index_range::<Player>(r1.players, id);
    }
    assert(crate::results::result_lines(r1) =~= crate::results::result_lines(r2));
    assert(crate::results::leaderboard_lines(r1) =~= crate::results::leaderboard_lines(r2)) by {
        assert forall|id: u128| #[trigger] crate::results::score_of(r1.scores, id) == crate::results::score_of(r2.scores, id) by {}
    }
    assert(crate::snapshot::point_of_member(r1) =~= crate::snapshot::point_of_member(r2));
    assert(crate::snapshot::round_points_of(r1) =~= crate::snapshot::round_points_of(r2));
    assert(crate::snapshot::ready_for_reveal(r1) =~= crate::snapshot::ready_for_reveal(r2));
    lemma_filter_len_same(r1.players, r2.players, crate::snapshot::ready_for_reveal(r1));
    assert(r1.players.map_values(|p: PlayerView| crate::snapshot::public_player(r1, p)) =~= r2.players.map_values(
        |p: PlayerView| crate::snapshot::public_player(r2, p),
    ));
    assert(crate::snapshot::snapshot_of(r1, viewer, s2.results, s2.leaderboard) == crate::snapshot::snapshot_of(
        r2,
        viewer,
        s2.results,
        s2.leaderboard,
    ));
    assert(snapshot_fits(r1, viewer, s2));
    law_snapshot_determined(r1, viewer, s1, s2);
}

/// A viewer sees their own Truth or Dare prompt only while they hold the Spotlight.
pub proof fn law_prompt_shown_only_in_spotlight(r: RoomView, viewer: u128, s: SnapshotView)
    requires
        snapshot_fits(r, Some(viewer), s),
        crate::departure::spotlight_player(r) != Some(viewer),
    ensures
        s.viewer_truth_or_dare_prompt.is_none(),
        s.viewer_truth_or_dare_prompt_id.is_none(),
{
}

/// After a clean-up, no room left is over at that time.
pub proof fn law_cleanup_leaves_open_rooms(
    before: Map<Seq<char>, RoomView>,
    after: Map<Seq<char>, RoomView>,
    now: u64,
    k: Seq<char>,
)
    requires
        cleaned_up(before, after, now),
        after.dom().contains(k),
    ensures
        !room_expired(after[k], now),
{
    let cleaned = choose|cleaned: Map<Seq<char>, RoomView>|
        #[trigger] kept_open(cleaned, after, now) && cleaned.dom() == before.dom() && forall|k: Seq<char>|
            #[trigger] before.dom().contains(k) ==> swept(before[k], cleaned[k], now);
    assert(open_at(now)(cleaned[k]));
}

/// Signing in again keeps the roster: the same players, in the same order, with the same
/// ids and nicknames.
pub proof fn law_reconnect_keeps_roster(r: RoomView, id: u128, connection: u128, now: u64)
    requires
        is_member(r, id),
    ensures
        player_ids(player_signed_in(r, id, connection, now).players) == player_ids(r.players),
        forall|k: int| 0 <= k < r.players.len() ==> (#[trigger] player_signed_in(r, id, connection, now).players[k]).nickname
            == r.players[k].nickname,
{
    let i = member_index(r, id);
    crate::entries::lemma_first_index_range::<Player>(r.players, id);
    crate::invariants::lemma_ids_update(r.players, i, player_signed_in(r, id, connection, now).players[i]);
}

/// Only the player in the Spotlight may complete, skip or reroll the prompt; while the
/// Spotlight is open, anyone else is refused as unauthorized.
pub proof fn law_only_spotlight_player_acts(r: RoomView, player: u128, round: u8)
    requires
        spotlight_holder(r) != Some(player),
    ensures
        complete_refusal(r, player, round).is_some(),
        skip_refusal(r, player, round).is_some(),
        reroll_refusal(r, player, round).is_some(),
        crate::play::is_truth_or_dare(r) && r.phase == crate::model::GamePhase::Playing && r.truth_or_dare_phase
            == Some(crate::model::TruthOrDarePhase::Spotlight) && r.current_round == round ==> reroll_refusal(r, player, round)
            == Some((crate::model::ErrorCode::Unauthorized, "Only the Spotlight player can do that."@)) && skip_refusal(
            r,
            player,
            round,
        ) == Some((crate::model::ErrorCode::Unauthorized, "Only the Spotlight player can do that."@)),
{
}

/// Highlights never change the scores.
pub proof fn law_highlights_do_not_score(r: RoomView, results: Seq<crate::model::HighlightResultView>)
    ensures
        highlights_revealed(r, results).scores == r.scores,
        highlights_revealed(r, results).current_round_points == r.current_round_points,
{
}

/// When the host's grace period runs out and someone remains, the host role passes to the
/// first remaining player (the longest in the room), with a new host token.
pub proof fn law_expired_host_passes_on(r: RoomView, token: Seq<char>, now: u64)
    requires
        is_member(r, r.host_player_id),
        r.players.len() > 1,
    ensures
        expired_out(r, r.host_player_id, token, now).host_player_id == expired_out(r, r.host_player_id, token, now).players[0].id,
        expired_out(r, r.host_player_id, token, now).host_token == token,
        expired_out(r, r.host_player_id, token, now).players.len() + 1 == r.players.len(),
{
    crate::entries::lemma_first_index_range::<Player>(r.players, r.host_player_id);
}


/// Adding `d` to the tally of `x` changes the score of `x` alone, by `d`.
proof fn lemma_score_after_add(s: Seq<(u128, u32)>, x: u128, d: u32, id: u128)
    ensures
        score_of(tally_add(s, x, d), id) == (if x == id {
            score_of(s, id).wrapping_add(d)
        } else {
            score_of(s, id)
        }),
{
    lemma_first_index_range::<PlayerTally>(s, x);
    lemma_first_index_range::<PlayerTally>(s, id);
    let i = first_index::<PlayerTally>(s, x);
    let j = first_index::<PlayerTally>(s, id);
    let t = tally_add(s, x, d);
    if i >= 0 {
        assert forall|k: int| 0 <= k < t.len() implies #[trigger] t[k].0 == s[k].0 by {}
        if j >= 0 {
            lemma_first_index::<PlayerTally>(t, id, j);
        } else {
            lemma_first_index::<PlayerTally>(t, id, t.len() as int);
        }
    } else {
        assert forall|k: int| 0 <= k < s.len() implies #[trigger] t[k].0 == s[k].0 by {}
        if x == id {
            lemma_first_index::<PlayerTally>(t, id, s.len() as int);
        } else if j >= 0 {
            lemma_first_index::<PlayerTally>(t, id, j);
        } else {
            lemma_first_index::<PlayerTally>(t, id, t.len() as int);
        }
    }
}

/// Counting the votes one by one adds 100 to a player's score for each vote naming them.
proof fn lemma_vote_points(s: Seq<(u128, u32)>, answers: Seq<(u128, Seq<char>)>, id: u128)
    requires
        score_of(s, id) + 100 * answers.len() <= u32::MAX,
    ensures
        score_of(vote_points(s, answers), id) == score_of(s, id) + 100 * votes_for(answers, id),
        votes_for(answers, id) <= answers.len(),
    decreases answers.len(),
{
    if answers.len() == 0 {
        assert(answers.filter(names_player(id)) =~= Seq::<(u128, Seq<char>)>::empty());
    } else {
        let init = answers.drop_last();
        let last = answers.last();
        lemma_vote_points(s, init, id);
        assert(init.push(last) =~= answers);
        init.lemma_filter_push(last, names_player(id));
        let before = vote_points(s, init);
        match uuid_parse(last.1) {
            Some(selected) => {
                lemma_score_after_add(before, selected, 100, id);
            },
            None => {},
        }
    }
}

/// Scoring a competitive player-vote round gives each player 100 points for every vote
/// that names them, and nothing for the votes they cast: their score rises by that much
/// and their points for the round are exactly that.
pub proof fn law_votes_score_the_player_named(r: RoomView, id: u128)
    requires
        r.experience == GameExperience::Competitive,
        r.response_mode == crate::catalog::ResponseMode::PlayerVote,
        score_of(r.scores, id) + 100 * r.answers.len() <= u32::MAX,
    ensures
        score_of(scored(r).scores, id) == score_of(r.scores, id) + 100 * votes_for(r.answers, id),
        score_of(scored(r).current_round_points, id) == 100 * votes_for(r.answers, id),
{
    lemma_vote_points(r.scores, r.answers, id);
    lemma_vote_points(Seq::empty(), r.answers, id);
    assert(score_of(Seq::<(u128, u32)>::empty(), id) == 0) by {
        lemma_first_index_range::<PlayerTally>(Seq::<(u128, u32)>::empty(), id);
    }
}


/// A Truth or Dare turn that was completed (not skipped) with the choice `choice`.
pub open spec fn completed_turn(choice: Seq<char>) -> spec_fn((u128, ChallengeView)) -> bool {
    |e: (u128, ChallengeView)| e.1.completed && !e.1.skipped && e.1.choice == choice
}

/// The players listed for completed turns of `choice` are exactly those who completed such a
/// turn, one for each such turn.
proof fn lemma_done_players(cs: Seq<(u128, ChallengeView)>, choice: Seq<char>, p: u128)
    ensures
        done_players(cs, Some(choice)).contains(p) <==> exists|j: int|
            0 <= j < cs.len() && cs[j].0 == p && #[trigger] completed_turn(choice)(cs[j]),
        done_players(cs, Some(choice)).len() == cs.filter(completed_turn(choice)).len(),
{
    assert(done_filter(Some(choice)) =~= completed_turn(choice));
    let f = cs.filter(completed_turn(choice));
    let d = done_players(cs, Some(choice));
    assert(d =~= f.map_values(|e: (u128, ChallengeView)| e.0));
    if d.contains(p) {
        let idx = choose|idx: int| 0 <= idx < d.len() && d[idx] == p;
        cs.lemma_filter_pred(completed_turn(choice), idx);
        assert(f.contains(f[idx]));
        cs.lemma_filter_contains_rev(completed_turn(choice), f[idx]);
        let j = choose|j: int| 0 <= j < cs.len() && cs[j] == f[idx];
        assert(cs[j].0 == p && completed_turn(choice)(cs[j]));
    }
    if exists|j: int| 0 <= j < cs.len() && cs[j].0 == p && #[trigger] completed_turn(choice)(cs[j]) {
        let j = choose|j: int| 0 <= j < cs.len() && cs[j].0 == p && #[trigger] completed_turn(choice)(cs[j]);
        cs.lemma_filter_contains(completed_turn(choice), j);
        let idx = choose|idx: int| 0 <= idx < f.len() && f[idx] == cs[j];
        assert(d[idx] == p);
    }
}

/// A Truth or Dare turn that was completed (not skipped), whatever the choice.
pub open spec fn completed_any() -> spec_fn((u128, ChallengeView)) -> bool {
    |e: (u128, ChallengeView)| e.1.completed && !e.1.skipped
}

/// The players listed for completed turns of any choice are exactly those who completed a
/// turn, one for each such turn.
proof fn lemma_done_any(cs: Seq<(u128, ChallengeView)>, p: u128)
    ensures
        done_players(cs, None).contains(p) <==> exists|j: int|
            0 <= j < cs.len() && cs[j].0 == p && #[trigger] completed_any()(cs[j]),
        done_players(cs, None).len() == cs.filter(completed_any()).len(),
{
    assert(done_filter(None) =~= completed_any());
    let f = cs.filter(completed_any());
    let d = done_players(cs, None);
    assert(d =~= f.map_values(|e: (u128, ChallengeView)| e.0));
    if d.contains(p) {
        let idx = choose|idx: int| 0 <= idx < d.len() && d[idx] == p;
        cs.lemma_filter_pred(completed_any(), idx);
        assert(f.contains(f[idx]));
        cs.lemma_filter_contains_rev(completed_any(), f[idx]);
        let j = choose|j: int| 0 <= j < cs.len() && cs[j] == f[idx];
        assert(cs[j].0 == p && completed_any()(cs[j]));
    }
    if exists|j: int| 0 <= j < cs.len() && cs[j].0 == p && #[trigger] completed_any()(cs[j]) {
        let j = choose|j: int| 0 <= j < cs.len() && cs[j].0 == p && #[trigger] completed_any()(cs[j]);
        cs.lemma_filter_contains(completed_any(), j);
        let idx = choose|idx: int| 0 <= idx < f.len() && f[idx] == cs[j];
        assert(d[idx] == p);
    }
}

/// The three highlight category ids differ.
proof fn lemma_category_ids_differ()
    ensures
        "most-daring"@ != "best-truth"@,
        "most-daring"@ != "crowd-favourite"@,
        "best-truth"@ != "crowd-favourite"@,
{
    reveal_strlit("most-daring");
    reveal_strlit("best-truth");
    reveal_strlit("crowd-favourite");
    assert("most-daring"@.len() == 11);
    assert("best-truth"@.len() == 10);
    assert("crowd-favourite"@.len() == 15);
}

/// Each highlight category offered is Most Daring with the players of completed dares (only
/// when there are two), Best Truth with those of completed truths (likewise), or Crowd
/// Favourite.
proof fn lemma_category_kinds(cs: Seq<(u128, ChallengeView)>, k: int)
    requires
        0 <= k < highlight_categories_for(cs).len(),
    ensures
        ({
            let c = highlight_categories_for(cs)[k];
            ||| c.id == "most-daring"@ && c.eligible == done_players(cs, Some("dare"@)) && done_players(cs, Some("dare"@)).len() >= 2
            ||| c.id == "best-truth"@ && c.eligible == done_players(cs, Some("truth"@)) && done_players(cs, Some("truth"@)).len() >= 2
            ||| c.id == "crowd-favourite"@ && c.eligible == done_players(cs, None)
        }),
{
    let dares = done_players(cs, Some("dare"@));
    let truths = done_players(cs, Some("truth"@));
    let all = done_players(cs, None);
    let first = if dares.len() >= 2 {
        seq![crate::spotlight::category("most-daring"@, "Most Daring"@, "🔥"@, dares)]
    } else {
        Seq::empty()
    };
    let second = first + if truths.len() >= 2 {
        seq![crate::spotlight::category("best-truth"@, "Best Truth"@, "💬"@, truths)]
    } else {
        Seq::empty()
    };
    let third = if all.len() >= 2 && second.len() < 3 {
        seq![crate::spotlight::category("crowd-favourite"@, "Crowd Favourite"@, "👏"@, all)]
    } else {
        Seq::empty()
    };
    let cats = highlight_categories_for(cs);
    assert(cats == second + third);
    if k < first.len() {
        assert(cats[k] == first[k]);
    } else if k < second.len() {
        assert(cats[k] == second[k]);
        assert(second[k] == (second.subrange(first.len() as int, second.len() as int))[k - first.len()]);
    } else {
        assert(cats[k] == third[k - second.len()]);
    }
}

/// When the Spotlight turns end, Most Daring lists exactly the players who completed a dare,
/// Best Truth exactly those who completed a truth, and Crowd Favourite those who completed
/// any turn.
pub proof fn law_highlight_eligibility_follows_turns(r: RoomView, k: int, p: u128)
    requires
        0 <= k < highlight_voting_prepared(r).highlight_categories.len(),
    ensures
        highlight_voting_prepared(r).highlight_categories[k].id == "most-daring"@ ==> (
        highlight_voting_prepared(r).highlight_categories[k].eligible.contains(p) <==> exists|j: int|
            0 <= j < r.challenges.len() && r.challenges[j].0 == p && #[trigger] completed_turn("dare"@)(r.challenges[j])),
        highlight_voting_prepared(r).highlight_categories[k].id == "best-truth"@ ==> (
        highlight_voting_prepared(r).highlight_categories[k].eligible.contains(p) <==> exists|j: int|
            0 <= j < r.challenges.len() && r.challenges[j].0 == p && #[trigger] completed_turn("truth"@)(r.challenges[j])),
        highlight_voting_prepared(r).highlight_categories[k].id == "crowd-favourite"@ ==> (
        highlight_voting_prepared(r).highlight_categories[k].eligible.contains(p) <==> exists|j: int|
            0 <= j < r.challenges.len() && r.challenges[j].0 == p && #[trigger] completed_any()(r.challenges[j])),
{
    lemma_done_players(r.challenges, "dare"@, p);
    lemma_done_players(r.challenges, "truth"@, p);
    lemma_done_any(r.challenges, p);
    lemma_category_kinds(r.challenges, k);
    lemma_category_ids_differ();
    assert(highlight_voting_prepared(r).highlight_categories[k] == highlight_categories_for(r.challenges)[k]);
}

/// Most Daring is offered exactly when at least two dares were completed, and Best Truth
/// exactly when at least two truths were.
pub proof fn law_highlight_categories_offered(r: RoomView)
    ensures
        (exists|k: int| 0 <= k < highlight_voting_prepared(r).highlight_categories.len()
            && (#[trigger] highlight_voting_prepared(r).highlight_categories[k]).id == "most-daring"@)
            <==> r.challenges.filter(completed_turn("dare"@)).len() >= 2,
        (exists|k: int| 0 <= k < highlight_voting_prepared(r).highlight_categories.len()
            && (#[trigger] highlight_voting_prepared(r).highlight_categories[k]).id == "best-truth"@)
            <==> r.challenges.filter(completed_turn("truth"@)).len() >= 2,
{
    lemma_category_ids_differ();
    lemma_done_players(r.challenges, "dare"@, 0);
    lemma_done_players(r.challenges, "truth"@, 0);
    let cats = highlight_voting_prepared(r).highlight_categories;
    assert(cats == highlight_categories_for(r.challenges));
    assert forall|k: int| 0 <= k < cats.len() implies ({
        let c = #[trigger] cats[k];
        ||| c.id == "most-daring"@ && done_players(r.challenges, Some("dare"@)).len() >= 2
        ||| c.id == "best-truth"@ && done_players(r.challenges, Some("truth"@)).len() >= 2
        ||| c.id == "crowd-favourite"@
    }) by {
        lemma_category_kinds(r.challenges, k);
    }
    if r.challenges.filter(completed_turn("dare"@)).len() >= 2 {
        assert(cats[0].id == "most-daring"@);
    }
    if r.challenges.filter(completed_turn("truth"@)).len() >= 2 {
        if r.challenges.filter(completed_turn("dare"@)).len() >= 2 {
            assert(cats[1].id == "best-truth"@);
        } else {
            assert(cats[0].id == "best-truth"@);
        }
    }
}


/// Accepting a reaction while a player holds the Spotlight credits that player, and no one
/// else, with one more reaction.
pub proof fn law_reaction_credits_spotlight_player(r: RoomView, player: u128, emoji: Seq<char>, id: u128, q: u128)
    requires
        r.spotlight_index < r.spotlight_order.len(),
        score_of(r.reaction_totals, r.spotlight_order[r.spotlight_index as int]) < u32::MAX,
    ensures
        score_of(reaction_added(r, player, emoji, id).reaction_totals, r.spotlight_order[r.spotlight_index as int])
            == score_of(r.reaction_totals, r.spotlight_order[r.spotlight_index as int]) + 1,
        q != r.spotlight_order[r.spotlight_index as int] ==> score_of(reaction_added(r, player, emoji, id).reaction_totals, q)
            == score_of(r.reaction_totals, q),
{
    let sp = r.spotlight_order[r.spotlight_index as int];
    lemma_score_after_add(r.reaction_totals, sp, 1, sp);
    lemma_score_after_add(r.reaction_totals, sp, 1, q);
}

/// When some prompt of the pool for `choice` is neither held by anyone nor already given to
/// `player`, every prompt `player` may be given is such a prompt: nobody holds it and the
/// player has not had it.
pub proof fn law_unhad_prompts_come_first(r: RoomView, player: u128, choice: Seq<char>, free: int, k: usize)
    requires
        pool_of(r, choice).len() <= usize::MAX,
        0 <= free < pool_of(r, choice).len(),
        forall|i: int| 0 <= i < r.challenges.len() ==> (#[trigger] r.challenges[i]).1.prompt != pool_of(r, choice)[free],
        forall|i: int| 0 <= i < history_of(r, choice).len() ==> #[trigger] history_of(r, choice)[i] != (
            player,
            pool_of(r, choice)[free],
        ),
        candidates_for(r, player, choice).contains(k),
    ensures
        k < pool_of(r, choice).len(),
        forall|i: int| 0 <= i < r.challenges.len() ==> (#[trigger] r.challenges[i]).1.prompt != pool_of(r, choice)[k as int],
        forall|i: int| 0 <= i < history_of(r, choice).len() ==> #[trigger] history_of(r, choice)[i] != (
            player,
            pool_of(r, choice)[k as int],
        ),
{
    let pool = pool_of(r, choice);
    let used = history_of(r, choice);
    let ps = positions(pool.len());
    let pred = fresh_for(pool, r.challenges, used, player);
    let fresh = ps.filter(pred);
    assert(ps[free] == free as usize);
    assert(!prompt_in_use(r.challenges, pool[free]));
    assert(!crate::prompts::prompt_used_by(used, player, pool[free]));
    assert(pred(ps[free]));
    ps.lemma_filter_contains(pred, free);
    assert(fresh.len() > 0);
    assert(candidates_for(r, player, choice) == fresh);
    let idx = choose|idx: int| 0 <= idx < fresh.len() && fresh[idx] == k;
    ps.lemma_filter_pred(pred, idx);
    assert(fresh.contains(k));
    ps.lemma_filter_contains_rev(pred, k);
    assert(!prompt_in_use(r.challenges, pool[k as int]));
    assert(!crate::prompts::prompt_used_by(used, player, pool[k as int]));
}

/// The snapshot names the player in the Spotlight by that player's own nickname: whenever it
/// gives a Spotlight player id, the name beside it is the nickname of the first member with
/// that id, and there is no name when no member has it.
pub proof fn law_spotlight_name_is_the_holders(r: RoomView, viewer: Option<u128>, s: SnapshotView, id: u128, i: int)
    requires
        snapshot_fits(r, viewer, s),
        s.spotlight_player_id == Some(id),
    ensures
        0 <= i < r.players.len() && r.players[i].id == id && (forall|j: int| 0 <= j < i ==> (#[trigger] r.players[j]).id != id)
            ==> s.spotlight_player_name == Some(r.players[i].nickname),
        (forall|j: int| 0 <= j < r.players.len() ==> (#[trigger] r.players[j]).id != id) ==> s.spotlight_player_name.is_none(),
{
    if 0 <= i < r.players.len() && r.players[i].id == id && (forall|j: int| 0 <= j < i ==> (#[trigger] r.players[j]).id != id) {
        lemma_first_index::<Player>(r.players, id, i);
    }
    if forall|j: int| 0 <= j < r.players.len() ==> (#[trigger] r.players[j]).id != id {
        lemma_first_index::<Player>(r.players, id, r.players.len() as int);
    }
}


/// Setting the tally of `x` to `v` changes the score of `x` alone, to `v`.
proof fn lemma_score_after_put(s: Seq<(u128, u32)>, x: u128, v: u32, id: u128)
    ensures
        score_of(crate::play::tally_put(s, x, v), id) == (if x == id {
            v
        } else {
            score_of(s, id)
        }),
{
    lemma_first_index_range::<PlayerTally>(s, x);
    lemma_first_index_range::<PlayerTally>(s, id);
    let i = first_index::<PlayerTally>(s, x);
    let j = first_index::<PlayerTally>(s, id);
    let t = crate::play::tally_put(s, x, v);
    if i >= 0 {
        assert forall|k: int| 0 <= k < t.len() implies #[trigger] t[k].0 == s[k].0 by {}
        if j >= 0 {
            lemma_first_index::<PlayerTally>(t, id, j);
        } else {
            lemma_first_index::<PlayerTally>(t, id, t.len() as int);
        }
    } else {
        assert forall|k: int| 0 <= k < s.len() implies #[trigger] t[k].0 == s[k].0 by {}
        if x == id {
            lemma_first_index::<PlayerTally>(t, id, s.len() as int);
        } else if j >= 0 {
            lemma_first_index::<PlayerTally>(t, id, j);
        } else {
            lemma_first_index::<PlayerTally>(t, id, t.len() as int);
        }
    }
}

/// An answer by `id` that picks option `correct`.
pub open spec fn right_answer_by(id: u128, correct: Option<usize>) -> spec_fn((u128, Seq<char>)) -> bool {
    |a: (u128, Seq<char>)| a.0 == id && parse_usize_spec(a.1) == correct
}

/// Counting quiz answers one by one adds 100 to a player's score for each of their answers
/// that picks the correct option; their round points are 100 if one does, else none.
proof fn lemma_quiz_points(s: Seq<(u128, u32)>, answers: Seq<(u128, Seq<char>)>, correct: Option<usize>, id: u128)
    requires
        score_of(s, id) + 100 * answers.len() <= u32::MAX,
    ensures
        score_of(crate::play::quiz_scores(s, answers, correct), id) == score_of(s, id) + 100 * answers.filter(
            right_answer_by(id, correct),
        ).len(),
        score_of(crate::play::quiz_round_points(s, answers, correct), id) == if answers.filter(
            right_answer_by(id, correct),
        ).len() > 0 {
            100
        } else {
            score_of(s, id)
        },
        answers.filter(right_answer_by(id, correct)).len() <= answers.len(),
    decreases answers.len(),
{
    if answers.len() == 0 {
        assert(answers.filter(right_answer_by(id, correct)) =~= Seq::<(u128, Seq<char>)>::empty());
    } else {
        let init = answers.drop_last();
        let last = answers.last();
        lemma_quiz_points(s, init, correct, id);
        assert(init.push(last) =~= answers);
        init.lemma_filter_push(last, right_answer_by(id, correct));
        if parse_usize_spec(last.1) == correct {
            lemma_score_after_add(crate::play::quiz_scores(s, init, correct), last.0, 100, id);
            lemma_score_after_put(crate::play::quiz_round_points(s, init, correct), last.0, 100, id);
        }
    }
}

/// Scoring a competitive quiz round gives a player 100 points for their answer when it picks
/// the question's correct option, and nothing otherwise; their points for the round are 100
/// exactly when they answered correctly.
pub proof fn law_quiz_scores_correct_answers(r: RoomView, id: u128)
    requires
        r.experience == GameExperience::Competitive,
        r.response_mode == crate::catalog::ResponseMode::Quiz,
        score_of(r.scores, id) + 100 * r.answers.len() <= u32::MAX,
    ensures
        score_of(scored(r).scores, id) == score_of(r.scores, id) + 100 * r.answers.filter(
            right_answer_by(id, crate::play::correct_option(r)),
        ).len(),
        score_of(scored(r).current_round_points, id) == if r.answers.filter(
            right_answer_by(id, crate::play::correct_option(r)),
        ).len() > 0 {
            100u32
        } else {
            0u32
        },
{
    assert(score_of(Seq::<(u128, u32)>::empty(), id) == 0) by {
        lemma_first_index_range::<PlayerTally>(Seq::<(u128, u32)>::empty(), id);
    }
    lemma_quiz_points(r.scores, r.answers, crate::play::correct_option(r), id);
    lemma_quiz_points(Seq::empty(), r.answers, crate::play::correct_option(r), id);
}


/// The snapshot shows the Spotlight player's own turn: whenever it gives a Spotlight player
/// id, its choice and prompt are those of the first turn record of that player, and there
/// are none when that player has no turn yet.
pub proof fn law_spotlight_turn_is_the_holders(r: RoomView, viewer: Option<u128>, s: SnapshotView, id: u128, i: int)
    requires
        snapshot_fits(r, viewer, s),
        s.spotlight_player_id == Some(id),
    ensures
        0 <= i < r.challenges.len() && r.challenges[i].0 == id && (forall|j: int| 0 <= j < i ==> (#[trigger] r.challenges[j]).0 != id)
            ==> s.spotlight_choice == Some(r.challenges[i].1.choice) && s.spotlight_prompt == Some(r.challenges[i].1.prompt),
        (forall|j: int| 0 <= j < r.challenges.len() ==> (#[trigger] r.challenges[j]).0 != id) ==> s.spotlight_choice.is_none()
            && s.spotlight_prompt.is_none(),
{
    if 0 <= i < r.challenges.len() && r.challenges[i].0 == id && (forall|j: int| 0 <= j < i ==> (#[trigger] r.challenges[j]).0 != id) {
        lemma_first_index::<PlayerChallenge>(r.challenges, id, i);
    }
    if forall|j: int| 0 <= j < r.challenges.len() ==> (#[trigger] r.challenges[j]).0 != id {
        lemma_first_index::<PlayerChallenge>(r.challenges, id, r.challenges.len() as int);
    }
}

} // verus!
