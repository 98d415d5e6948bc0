//! The rooms of a server and the game catalog they are played from.
//!
//! A request names a room by its code (surrounding space and letter case do not matter),
//! reads the clock, and hands the rest to the room's own rules. Every other room, the
//! catalog and the question history stay as they were.
use crate::catalog::{priority_sync_from_strings, GameDefinition, GameSummary, GameView, Question, QuestionView};
use crate::codes::{
    code_bytes, code_char, code_from_bytes, draw_room_codes, generate_room_code, generate_token, is_room_code, lemma_room_code_bytes,
    room_code_from_bytes, token_from_bytes, unambiguous_code_char, ROOM_CODE_LEN, TOKEN_BYTES,
};
use crate::ids::{new_uuid, now_ms, timestamp_ms};
use crate::invariants::{
    lemma_answers_bounded, lemma_ids_update, lemma_wf_departed, lemma_wf_join, lemma_wf_no_answers,
    lemma_wf_answer, lemma_wf_play, lemma_wf_same_members, room_wf,
};
use crate::departure::departed;
use crate::lifecycle::{
    choosing_next, configured, expired_ids, expired_out, left, normalize_theme, normalized_theme,
    notice_of, room_expired, ENDED_ROOM_GRACE_MS,
};
use crate::model::{GamePhase, PlayerView, RoundSummaryView, TruthOrDarePhase, MAX_ROUNDS};
use crate::play::{
    advanced, choice_locked, is_truth_or_dare, normalized_choice, results_revealed, round_opened,
    spotlight_opened, start_refusal, summary_records, truth_or_dare_round_over,
};
use crate::prompts::{assigned_challenge, candidates_for, challenge_put, prompt_recorded};
use crate::play::{answer_refusal, next_round_refusal, reveal_refusal};
use crate::spotlight::{
    challenge_of, complete_refusal, highlight_gate, highlight_outcomes, highlight_vote_refusal,
    highlights_revealed, host_spotlight_refusal, next_spotlight_refusal, reaction_added,
    reaction_refusal, reaction_seen, reactions_by, reroll_refusal, reveal_highlights_refusal,
    no_prompt, set_insert, skip_refusal, spotlight_holder, spotlight_moved, turn_closed,
    voting_closed, MAX_REACTIONS_PER_TURN,
};
use crate::lifecycle::{host_kick_refusal, kick_refusal};
use crate::entries::without_key;
use crate::selection::{draw_questions, drawn_from, history_after};
use crate::ids::{uuid_text, uuid_to_text};
use crate::model::{HighlightVoteView, PlayerTally};
use crate::model::{AuthenticatedRole, ErrorCode, GameError, Player, Refusal, Room, RoomView};
use crate::room::{
    connection_index, host_only, host_signed_in, host_signed_out, host_token_refusal, is_acting_host,
    is_member,
    join_refusal, joined, lemma_connection_index_range, lemma_vec_update_deep, member_index,
    next_version, player_ids, player_signed_in, player_signed_out, time_after, touched,
    DISCONNECT_GRACE_MS,
};
use crate::snapshot::{snapshot_fits, RoomSnapshot};
use crate::registry::{new_table, rooms_held, table_has, table_keys, table_len, table_put, table_snapshot, table_take};
use dashmap::DashMap;
use crate::text::{ascii_upper, str_equal, to_ascii_uppercase, trim, trim_spec};
use crate::nickname::{nickname_ok, validate_nickname};
use vstd::prelude::*;

verus! {

/// The questions recently drawn for one game, oldest first.
#[derive(Debug)]
pub struct RecentQuestions {
    pub game_id: String,
    pub prompts: Vec<String>,
}

impl DeepView for RecentQuestions {
    type V = (Seq<char>, Seq<Seq<char>>);

    open spec fn deep_view(&self) -> (Seq<char>, Seq<Seq<char>>) {
        (self.game_id@, self.prompts.deep_view())
    }
}

/// A copy of the question histories.
fn clone_recent(v: &Vec<RecentQuestions>) -> (r: Vec<RecentQuestions>)
    ensures
        r.deep_view() == v.deep_view(),
{
    let mut r: Vec<RecentQuestions> = Vec::new();
    let mut i: usize = 0;
    while i < v.len()
        invariant
            i <= v.len(),
            r.deep_view() =~= v.deep_view().subrange(0, i as int),
        decreases v.len() - i,
    {
        let e = RecentQuestions { game_id: v[i].game_id.clone(), prompts: crate::catalog::clone_strings(&v[i].prompts) };
        let ghost before = r;
        r.push(e);
        proof {
            assert(r.deep_view() =~= before.deep_view().push(e.deep_view()));
            assert(v.deep_view().subrange(0, i + 1) =~= v.deep_view().subrange(0, i as int).push(v.deep_view()[i as int]));
        }
        i = i + 1;
    }
    assert(v.deep_view().subrange(0, v.len() as int) =~= v.deep_view());
    r
}

/// All rooms of the server, the catalog, and the recently drawn questions per game.
pub struct RoomManager {
    rooms: DashMap<String, Room>,
    games: Vec<GameDefinition>,
    recent_questions: Vec<RecentQuestions>,
}

/// What a manager holds, as plain values: each room under its code.
pub struct ManagerView {
    pub rooms: Map<Seq<char>, RoomView>,
    pub games: Seq<GameView>,
    pub recent: Seq<(Seq<char>, Seq<Seq<char>>)>,
}

impl View for RoomManager {
    type V = ManagerView;

    closed spec fn view(&self) -> ManagerView {
        ManagerView {
            rooms: rooms_held(self.rooms),
            games: self.games.deep_view(),
            recent: self.recent_questions.deep_view(),
        }
    }
}

/// What a manager keeps true: finitely many rooms, each held under its own code and well
/// formed; the catalog has at least one game, each with at least one question; and each
/// game has at most one question history.
pub open spec fn manager_wf(m: ManagerView) -> bool {
    &&& m.rooms.dom().finite()
    &&& forall|k: Seq<char>| #[trigger] m.rooms.dom().contains(k) ==> m.rooms[k].code == k && room_wf(m.rooms[k])
    &&& m.games.len() > 0
    &&& forall|i: int| 0 <= i < m.games.len() ==> (#[trigger] m.games[i]).questions.len() > 0
        && m.games[i].questions.len() <= usize::MAX / 4
    &&& forall|i: int, j: int|
        0 <= i < j < m.recent.len() ==> (#[trigger] m.recent[i]).0 != (#[trigger] m.recent[j]).0
}

/// The code a request's room code stands for: trimmed and in upper case.
pub open spec fn room_key(code: Seq<char>) -> Seq<char> {
    ascii_upper(trim_spec(code))
}

/// Whether a room answers to `code`.
pub open spec fn has_room(m: ManagerView, code: Seq<char>) -> bool {
    m.rooms.dom().contains(room_key(code))
}

/// The room that answers to `code`.
pub open spec fn room_of(m: ManagerView, code: Seq<char>) -> RoomView {
    m.rooms[room_key(code)]
}

/// The manager with the room that answers to `code` replaced by `r`.
pub open spec fn with_room(m: ManagerView, code: Seq<char>, r: RoomView) -> ManagerView {
    ManagerView { rooms: m.rooms.insert(room_key(code), r), ..m }
}

/// `after` differs from `before` at most in the room that answers to `code`.
pub open spec fn only_room_changed(before: ManagerView, after: ManagerView, code: Seq<char>) -> bool {
    after == with_room(before, code, after.rooms[room_key(code)])
}

/// The room that answered to `code` in `before`, as it is in `after`.
pub open spec fn room_after(before: ManagerView, after: ManagerView, code: Seq<char>) -> RoomView {
    after.rooms[room_key(code)]
}

/// Putting back a room under the same code, still well formed, keeps a manager well formed.
proof fn lemma_put_back(m: ManagerView, code: Seq<char>, r: RoomView)
    requires
        manager_wf(m),
        has_room(m, code),
        r.code == room_of(m, code).code,
        room_wf(r),
    ensures
        manager_wf(with_room(m, code, r)),
{
    let n = with_room(m, code, r);
    assert(n.rooms.dom() =~= m.rooms.dom());
}

/// The room that answers to `code` in a well-formed manager is well formed.
proof fn lemma_room_at(m: ManagerView, code: Seq<char>)
    requires
        manager_wf(m),
        has_room(m, code),
    ensures
        room_wf(room_of(m, code)),
        room_of(m, code).code == room_key(code),
{
}

impl RoomManager {
    /// The manager's invariant.
    pub open spec fn wf(&self) -> bool {
        manager_wf(self@)
    }

    /// Takes out the room held under `key`.
    fn take_room(&mut self, key: &String) -> (room: Room)
        requires
            rooms_held(old(self).rooms).dom().contains(key@),
        ensures
            final(self)@.rooms == old(self)@.rooms.remove(key@),
            room@ == old(self)@.rooms[key@],
            final(self).games == old(self).games,
            final(self).recent_questions == old(self).recent_questions,
    {
        match table_take(&mut self.rooms, key.as_str()) {
            Some(room) => room,
            None => vstd::pervasive::unreached(),
        }
    }

    /// Puts `room` back under `key`, in place of the room that was taken out there.
    fn put_room(&mut self, key: String, room: Room, Ghost(before): Ghost<RoomManager>, Ghost(code): Ghost<Seq<char>>)
        requires
            before.wf(),
            has_room(before@, code),
            key@ == room_key(code),
            old(self)@.rooms == before@.rooms.remove(key@),
            old(self).games == before.games,
            old(self).recent_questions == before.recent_questions,
            room@.code == room_of(before@, code).code,
            room_wf(room@),
        ensures
            final(self)@ == with_room(before@, code, room@),
            final(self).wf(),
    {
        let ghost r = room@;
        table_put(&mut self.rooms, key, room);
        proof {
            assert(self@.rooms =~= before@.rooms.insert(room_key(code), r));
            lemma_put_back(before@, code, r);
        }
    }

    /// A manager playing only Priority Sync with the given prompts.
    pub fn new(questions: Vec<String>) -> (m: RoomManager)
        requires
            questions.len() > 0,
            questions.len() <= usize::MAX / 4,
        ensures
            m.wf(),
            m@.rooms.dom() == Set::<Seq<char>>::empty(),
            m@.recent.len() == 0,
            m@.games.len() == 1,
            m@.games[0].id == "priority-sync"@,
            m@.games[0].questions.len() == questions.len(),
    {
        let game = priority_sync_from_strings(questions);
        let ghost g = game;
        let games = vec![game];
        proof {
            assert(games@[0] == g);
            assert(g.questions.deep_view().len() == g.questions.len());
            assert(games.deep_view()[0] == g@);
        }
        RoomManager::with_catalog(games)
    }

    /// A manager playing the given catalog.
    pub fn with_catalog(games: Vec<GameDefinition>) -> (m: RoomManager)
        requires
            games.len() > 0,
            forall|i: int| 0 <= i < games.len() ==> (#[trigger] games@[i]).questions.len() > 0
                && games@[i].questions.len() <= usize::MAX / 4,
        ensures
            m.wf(),
            m@.rooms.dom() == Set::<Seq<char>>::empty(),
            m@.recent.len() == 0,
            m@.games == games.deep_view(),
    {
        let m = RoomManager { rooms: new_table(), games, recent_questions: Vec::new() };
        proof {
            assert(m@.rooms.dom() =~= Set::<Seq<char>>::empty());
            assert(m@.recent =~= Seq::<(Seq<char>, Seq<Seq<char>>)>::empty());
            assert forall|i: int| 0 <= i < m@.games.len() implies (#[trigger] m@.games[i]).questions.len() > 0
                && m@.games[i].questions.len() <= usize::MAX / 4 by {
                assert(m@.games[i] == m.games@[i]@);
            }
        }
        m
    }

    /// A summary of each game of the catalog, in catalog order.
    pub fn game_catalog(&self) -> (r: Vec<GameSummary>)
        ensures
            r.len() == self@.games.len(),
            forall|i: int| 0 <= i < r.len() ==> {
                let g = #[trigger] self@.games[i];
                &&& r@[i].id@ == g.id
                &&& r@[i].title@ == g.title
                &&& r@[i].description@ == g.description
                &&& r@[i].icon@ == g.icon
                &&& r@[i].category@ == g.category
                &&& r@[i].estimated_minutes == g.estimated_minutes
                &&& r@[i].response_mode == g.response_mode
                &&& r@[i].experience == g.experience
                &&& r@[i].default_rounds == g.default_rounds
                &&& r@[i].min_players == g.min_players
                &&& r@[i].question_count == g.questions.len()
            },
    {
        let mut r: Vec<GameSummary> = Vec::new();
        let mut i: usize = 0;
        while i < self.games.len()
            invariant
                i <= self.games.len(),
                r.len() == i,
                forall|k: int| 0 <= k < i ==> {
                    let g = #[trigger] self@.games[k];
                    &&& r@[k].id@ == g.id
                    &&& r@[k].title@ == g.title
                    &&& r@[k].description@ == g.description
                    &&& r@[k].icon@ == g.icon
                    &&& r@[k].category@ == g.category
                    &&& r@[k].estimated_minutes == g.estimated_minutes
                    &&& r@[k].response_mode == g.response_mode
                    &&& r@[k].experience == g.experience
                    &&& r@[k].default_rounds == g.default_rounds
                    &&& r@[k].min_players == g.min_players
                    &&& r@[k].question_count == g.questions.len()
                },
            decreases self.games.len() - i,
        {
            let s = GameSummary::from_definition(&self.games[i]);
            assert(self@.games[i as int] == self.games@[i as int]@);
            r.push(s);
            i = i + 1;
        }
        r
    }

    /// A fresh random room code of six characters, none of them look-alikes.
    pub fn generate_room_code() -> (code: String)
        ensures
            code@.len() == ROOM_CODE_LEN,
            forall|i: int| 0 <= i < code@.len() ==> unambiguous_code_char(#[trigger] code@[i]),
    {
        generate_room_code()
    }

    /// Checks a nickname: trimmed, it must have 1 to 20 characters and no control character.
    pub fn validate_nickname(nickname: &str) -> (r: Result<String, GameError>)
        ensures
            r.is_ok() <==> crate::nickname::nickname_ok(trim_spec(nickname@)),
            r.is_ok() ==> r.unwrap()@ == trim_spec(nickname@),
            r.is_err() ==> r.unwrap_err()@ == (
                ErrorCode::InvalidNickname,
                "Nickname must be 1 to 20 characters and contain no control characters."@,
            ),
    {
        crate::nickname::validate_nickname(nickname)
    }

    /// The key of the room that answers to `code`, if one does.
    fn find_room(&self, code: &str) -> (r: Option<String>)
        requires
            self.wf(),
        ensures
            r.is_some() <==> has_room(self@, code@),
            r.is_some() ==> r.unwrap()@ == room_key(code@),
    {
        let trimmed = trim(code);
        let key = to_ascii_uppercase(trimmed.as_str());
        if table_has(&self.rooms, key.as_str()) {
            Some(key)
        } else {
            None
        }
    }

    /// The number of rooms.
    pub fn room_count(&self) -> (n: usize)
        ensures
            n == self@.rooms.len(),
    {
        table_len(&self.rooms)
    }
}


/// The refusal a request meets: an unknown room first, then `why` for the room.
pub open spec fn unless_missing(m: ManagerView, code: Seq<char>, why: Refusal) -> Refusal {
    if has_room(m, code) {
        why
    } else {
        Some(no_room())
    }
}

/// The refusal of a request for a room that does not exist.
pub open spec fn no_room() -> (ErrorCode, Seq<char>) {
    (ErrorCode::RoomNotFound, "The room could not be found."@)
}

/// Only the current host, by player id, may go on to `why`.
pub open spec fn host_first(r: RoomView, id: u128, why: Refusal) -> Refusal {
    if !is_acting_host(r, id) {
        Some(host_only())
    } else {
        why
    }
}

/// Only the host token, with the host connected, may go on to `why`.
pub open spec fn token_first(r: RoomView, token: Seq<char>, why: Refusal) -> Refusal {
    if host_token_refusal(r, token).is_some() {
        host_token_refusal(r, token)
    } else {
        why
    }
}

/// A request refused with `why` changes nothing; an accepted one changes only the room
/// that answers to `code`.
pub open spec fn settled<T>(
    before: ManagerView,
    after: ManagerView,
    code: Seq<char>,
    r: Result<T, GameError>,
    why: Refusal,
) -> bool {
    match r {
        Err(e) => why == Some(e@) && after == before,
        Ok(_) => why.is_none() && only_room_changed(before, after, code),
    }
}

fn room_not_found() -> (e: GameError)
    ensures
        e@ == no_room(),
{
    GameError::new(ErrorCode::RoomNotFound, "The room could not be found.")
}

impl RoomManager {
    /// The room that answers to `code` as everyone may see it.
    pub fn public_snapshot(&self, code: &str) -> (r: Result<RoomSnapshot, GameError>)
        requires
            self.wf(),
        ensures
            r.is_ok() <==> has_room(self@, code@),
            r.is_err() ==> r.unwrap_err()@ == no_room(),
            r.is_ok() ==> snapshot_fits(room_of(self@, code@), None, r.unwrap().deep_view()),
    {
        self.snapshot_for(code, None)
    }

    /// The room that answers to `code` as player `player_id` sees it.
    pub fn snapshot_for_player(&self, code: &str, player_id: u128) -> (r: Result<RoomSnapshot, GameError>)
        requires
            self.wf(),
        ensures
            r.is_ok() <==> has_room(self@, code@),
            r.is_err() ==> r.unwrap_err()@ == no_room(),
            r.is_ok() ==> snapshot_fits(room_of(self@, code@), Some(player_id), r.unwrap().deep_view()),
    {
        self.snapshot_for(code, Some(player_id))
    }

    /// The room that answers to `code` as the player acting under `role` sees it.
    pub fn snapshot_for_role(&self, code: &str, role: &AuthenticatedRole) -> (r: Result<RoomSnapshot, GameError>)
        requires
            self.wf(),
        ensures
            r.is_ok() <==> has_room(self@, code@),
            r.is_err() ==> r.unwrap_err()@ == no_room(),
            r.is_ok() ==> snapshot_fits(room_of(self@, code@), Some(role.actor()), r.unwrap().deep_view()),
    {
        self.snapshot_for(code, Some(role.actor_id()))
    }

    fn snapshot_for(&self, code: &str, viewer: Option<u128>) -> (r: Result<RoomSnapshot, GameError>)
        requires
            self.wf(),
        ensures
            r.is_ok() <==> has_room(self@, code@),
            r.is_err() ==> r.unwrap_err()@ == no_room(),
            r.is_ok() ==> snapshot_fits(room_of(self@, code@), viewer, r.unwrap().deep_view()),
    {
        let key = match self.find_room(code) {
            Some(k) => k,
            None => {
                return Err(room_not_found());
            },
        };
        proof {
            assert forall|k: Seq<char>| #[trigger] self@.rooms.dom().contains(k) implies self@.rooms[k].answers.len()
                <= u32::MAX by {
                lemma_answers_bounded(self@.rooms[k]);
            }
        }
        match table_snapshot(&self.rooms, key.as_str(), viewer) {
            Some(s) => Ok(s),
            None => vstd::pervasive::unreached(),
        }
    }

    /// Signs the host in to the room that answers to `code`, through `connection_id`, and
    /// returns the room as the host sees it.
    pub fn authenticate_host(&mut self, code: &str, token: &str, connection_id: u128) -> (r: Result<
        RoomSnapshot,
        GameError,
    >)
        requires
            old(self).wf(),
        ensures
            final(self).wf(),
            settled(old(self)@, final(self)@, code@, r, unless_missing(old(self)@, code@,
                if room_of(old(self)@, code@).host_token == token@ {
                    None
                } else {
                    Some((ErrorCode::InvalidToken, "Invalid host token."@))
                })),
            r.is_ok() ==> exists|now: u64| room_after(old(self)@, final(self)@, code@)
                == host_signed_in(room_of(old(self)@, code@), connection_id, now),
            r.is_ok() ==> snapshot_fits(
                room_after(old(self)@, final(self)@, code@),
                Some(room_of(old(self)@, code@).host_player_id),
                r.unwrap().deep_view(),
            ),
    {
        let key = match self.find_room(code) {
            Some(k) => k,
            None => {
                return Err(room_not_found());
            },
        };
        let ghost before = *self;
        let now = now_ms();
        let mut room = self.take_room(&key);
        let res = room.authenticate_host(token, connection_id, now);
        proof {
            lemma_room_at(before@, code@);
            let r0 = room_of(before@, code@);
            if res.is_ok() {
                crate::entries::lemma_first_index_range::<Player>(r0.players, r0.host_player_id);
                if member_index(r0, r0.host_player_id) >= 0 {
                    lemma_ids_update(r0.players, member_index(r0, r0.host_player_id),
                        room@.players[member_index(r0, r0.host_player_id)]);
                }
                lemma_wf_same_members(r0, room@);
            }
        }
        let snapshot = if res.is_ok() {
            proof {
                lemma_answers_bounded(room@);
            }
            let host = room.host_player_id;
            Some(room.snapshot(Some(host)))
        } else {
            None
        };
        self.put_room(key, room, Ghost(before), Ghost(code@));
        match res {
            Err(e) => {
                assert(self@.rooms =~= before@.rooms);
                Err(e)
            },
            Ok(()) => Ok(snapshot.unwrap()),
        }
    }
}


/// `t` is a token as [`generate_token`] makes them: 64 lower-case hexadecimal digits.
pub open spec fn is_token(t: Seq<char>) -> bool {
    exists|bytes: Seq<u8>| bytes.len() == TOKEN_BYTES && t == token_from_bytes(bytes)
}

/// Why a player's sign-in is refused, if it is: not a member, then a wrong session token.
pub open spec fn player_sign_in_refusal(r: RoomView, id: u128, token: Seq<char>) -> Refusal {
    if !is_member(r, id) {
        Some((ErrorCode::InvalidPlayer, "Player is not in this room."@))
    } else if r.players[member_index(r, id)].session_token != token {
        Some((ErrorCode::InvalidToken, "Invalid player session token."@))
    } else {
        None
    }
}

/// Why leaving is refused, if it is: only a member can leave.
pub open spec fn leave_refusal(r: RoomView, id: u128) -> Refusal {
    if is_member(r, id) {
        None
    } else {
        Some((ErrorCode::InvalidPlayer, "Player is not in this room."@))
    }
}

/// Why choosing the next game is refused, if it is.
pub open spec fn choose_refusal(r: RoomView, id: u128) -> Refusal {
    host_first(r, id, if r.phase != GamePhase::Finished {
        Some((ErrorCode::InvalidPhase, "Finish the current game first."@))
    } else {
        None
    })
}

/// The room after the host ends the match at `now`.
pub open spec fn game_ended(r: RoomView, now: u64) -> RoomView {
    touched(RoomView { phase: GamePhase::Finished, ..r }, now)
}

/// The room after the host closes it at `now`.
pub open spec fn room_ended(r: RoomView, now: u64) -> RoomView {
    touched(
        RoomView {
            phase: GamePhase::Closed,
            notice: Some(
                notice_of(
                    next_version(r.version),
                    "The host ended the room. Thanks for playing!"@,
                    "room_ended"@,
                ),
            ),
            expires_at: time_after(now, ENDED_ROOM_GRACE_MS),
            ..r
        },
        now,
    )
}

/// `t` is the room `r` after `player` locks `answer` at `now`: the answer as given in most
/// games; in Truth or Dare the normalized choice, with one of the candidate prompts.
pub open spec fn answer_locked(r: RoomView, player: u128, answer: Seq<char>, now: u64, t: RoomView) -> bool {
    if is_truth_or_dare(r) {
        exists|k: usize|
            #![trigger candidates_for(r, player, normalized_choice(answer)).contains(k)]
            candidates_for(r, player, normalized_choice(answer)).contains(k) && t == touched(
                choice_locked(r, player, normalized_choice(answer), k as int),
                now,
            )
    } else {
        t == touched(RoomView { answers: r.answers.push((player, answer)), ..r }, now)
    }
}

/// A vote's refusal: a second vote is `AlreadyVoted`, with the message of an answer's.
pub open spec fn as_vote(why: Refusal) -> Refusal {
    match why {
        Some((ErrorCode::AlreadyAnswered, m)) => Some((ErrorCode::AlreadyVoted, m)),
        _ => why,
    }
}

/// `t` is the room `r` after its results are revealed at `now`: in Truth or Dare the
/// Spotlight opens with every player in some order; otherwise scores are applied and the
/// round is recorded.
pub open spec fn results_shown(r: RoomView, now: u64, t: RoomView) -> bool {
    if is_truth_or_dare(r) {
        t.spotlight_order.to_multiset() == player_ids(r.players).to_multiset() && t
            == spotlight_opened(r, t.spotlight_order, now)
    } else {
        t.round_history.len() == r.round_history.len() + 1 && summary_records(
            t.round_history.last(),
            r,
        ) && t == results_revealed(r, t.round_history.last(), now)
    }
}

/// `t` is the room `r` after moving on from a round at `now`; a finished Truth or Dare
/// round is recorded first.
pub open spec fn round_moved_on(r: RoomView, now: u64, t: RoomView) -> bool {
    if truth_or_dare_round_over(r) {
        exists|s: RoundSummaryView|
            summary_records(s, r) && #[trigger] touched(
                advanced(RoomView { round_history: r.round_history.push(s), ..r }),
                now,
            ) == t
    } else {
        t == touched(advanced(r), now)
    }
}

impl RoomManager {
    /// Signs player `player_id` in to the room that answers to `code`, through
    /// `connection_id`, and returns the room as that player sees it.
    pub fn authenticate_player(&mut self, code: &str, player_id: u128, token: &str, connection_id: u128) -> (r:
        Result<RoomSnapshot, GameError>)
        requires
            old(self).wf(),
        ensures
            final(self).wf(),
            settled(old(self)@, final(self)@, code@, r, unless_missing(old(self)@, code@,
                player_sign_in_refusal(room_of(old(self)@, code@), player_id, token@))),
            r.is_ok() ==> exists|now: u64| room_after(old(self)@, final(self)@, code@)
                == player_signed_in(room_of(old(self)@, code@), player_id, connection_id, now),
            r.is_ok() ==> snapshot_fits(room_after(old(self)@, final(self)@, code@), Some(player_id), r.unwrap().deep_view()),
    {
        let key = match self.find_room(code) {
            Some(k) => k,
            None => {
                return Err(room_not_found());
            },
        };
        let ghost before = *self;
        let now = now_ms();
        let mut room = self.take_room(&key);
        let res = room.authenticate_player(player_id, token, connection_id, now);
        proof {
            lemma_room_at(before@, code@);
            let r0 = room_of(before@, code@);
            if res.is_ok() {
                crate::entries::lemma_first_index_range::<Player>(r0.players, player_id);
                lemma_ids_update(r0.players, member_index(r0, player_id), room@.players[member_index(r0, player_id)]);
                lemma_wf_same_members(r0, room@);
            }
        }
        let snapshot = if res.is_ok() {
            proof {
                lemma_answers_bounded(room@);
            }
            Some(room.snapshot(Some(player_id)))
        } else {
            None
        };
        self.put_room(key, room, Ghost(before), Ghost(code@));
        match res {
            Err(e) => {
                assert(self@.rooms =~= before@.rooms);
                Err(e)
            },
            Ok(()) => Ok(snapshot.unwrap()),
        }
    }

    /// Records that the host's connection `connection_id` to the room that answers to
    /// `code` has closed; nothing happens for an unknown room or another connection.
    pub fn disconnect_host(&mut self, code: &str, connection_id: u128)
        requires
            old(self).wf(),
        ensures
            final(self).wf(),
            !has_room(old(self)@, code@) ==> final(self)@ == old(self)@,
            has_room(old(self)@, code@) ==> only_room_changed(old(self)@, final(self)@, code@)
                && exists|now: u64| room_after(old(self)@, final(self)@, code@)
                == host_signed_out(room_of(old(self)@, code@), connection_id, now),
    {
        let key = match self.find_room(code) {
            Some(k) => k,
            None => {
                return;
            },
        };
        let ghost before = *self;
        let now = now_ms();
        let mut room = self.take_room(&key);
        room.disconnect_host(connection_id, now);
        proof {
            lemma_room_at(before@, code@);
            let r0 = room_of(before@, code@);
            crate::entries::lemma_first_index_range::<Player>(r0.players, r0.host_player_id);
            if r0.host_connection_id == Some(connection_id) && member_index(r0, r0.host_player_id) >= 0 {
                lemma_ids_update(r0.players, member_index(r0, r0.host_player_id), room@.players[member_index(r0, r0.host_player_id)]);
            }
            lemma_wf_same_members(r0, room@);
        }
        self.put_room(key, room, Ghost(before), Ghost(code@));
    }

    /// Records that player `player_id`'s connection `connection_id` to the room that answers
    /// to `code` has closed; nothing happens for an unknown room or a stale connection.
    pub fn disconnect_player(&mut self, code: &str, player_id: u128, connection_id: u128)
        requires
            old(self).wf(),
        ensures
            final(self).wf(),
            !has_room(old(self)@, code@) ==> final(self)@ == old(self)@,
            has_room(old(self)@, code@) ==> only_room_changed(old(self)@, final(self)@, code@)
                && exists|now: u64| room_after(old(self)@, final(self)@, code@)
                == player_signed_out(room_of(old(self)@, code@), player_id, connection_id, now),
    {
        let key = match self.find_room(code) {
            Some(k) => k,
            None => {
                return;
            },
        };
        let ghost before = *self;
        let now = now_ms();
        let mut room = self.take_room(&key);
        room.disconnect_player(player_id, connection_id, now);
        proof {
            lemma_room_at(before@, code@);
            let r0 = room_of(before@, code@);
            let k = connection_index(r0.players, player_id, connection_id);
            lemma_connection_index_range(r0.players, player_id, connection_id);
            if k >= 0 {
                lemma_ids_update(r0.players, k, room@.players[k]);
            }
            lemma_wf_same_members(r0, room@);
        }
        self.put_room(key, room, Ghost(before), Ghost(code@));
    }

    /// Adds a player to the room that answers to `code` under a fresh id and session token.
    pub fn join_room(&mut self, code: &str, nickname: &str) -> (r: Result<(u128, String), GameError>)
        requires
            old(self).wf(),
        ensures
            final(self).wf(),
            settled(old(self)@, final(self)@, code@, r, unless_missing(old(self)@, code@,
                join_refusal(room_of(old(self)@, code@), nickname@))),
            r.is_ok() ==> is_token(r.unwrap().1@),
            r.is_ok() ==> exists|now: u64| room_after(old(self)@, final(self)@, code@)
                == joined(room_of(old(self)@, code@), nickname@, r.unwrap().0, r.unwrap().1@, now),
    {
        let key = match self.find_room(code) {
            Some(k) => k,
            None => {
                return Err(room_not_found());
            },
        };
        let ghost before = *self;
        let now = now_ms();
        let player_id = new_uuid();
        let token = generate_token();
        let kept = token.clone();
        let mut room = self.take_room(&key);
        let res = room.join(nickname, player_id, token, now);
        proof {
            lemma_room_at(before@, code@);
            let r0 = room_of(before@, code@);
            if res.is_ok() {
                lemma_wf_join(r0, room@, room@.players[r0.players.len() as int]);
            }
        }
        self.put_room(key, room, Ghost(before), Ghost(code@));
        match res {
            Err(e) => {
                assert(self@.rooms =~= before@.rooms);
                Err(e)
            },
            Ok(()) => {
                let out: Result<(u128, String), GameError> = Ok((player_id, kept));
                assert(room_after(before@, self@, code@) == joined(room_of(before@, code@), nickname@, out.unwrap().0, out.unwrap().1@, now));
                out
            },
        }
    }

    /// Member `player_id` leaves the room that answers to `code`.
    pub fn leave_room(&mut self, code: &str, player_id: u128) -> (r: Result<(), GameError>)
        requires
            old(self).wf(),
        ensures
            final(self).wf(),
            settled(old(self)@, final(self)@, code@, r, unless_missing(old(self)@, code@,
                leave_refusal(room_of(old(self)@, code@), player_id))),
            r.is_ok() ==> exists|now: u64, token: Seq<char>| is_token(token) && room_after(old(self)@, final(self)@, code@)
                == left(room_of(old(self)@, code@), player_id, token, now),
    {
        let key = match self.find_room(code) {
            Some(k) => k,
            None => {
                return Err(room_not_found());
            },
        };
        let ghost before = *self;
        let now = now_ms();
        let token = generate_token();
        let mut room = self.take_room(&key);
        let res = room.leave(player_id, token, now);
        proof {
            lemma_room_at(before@, code@);
            let r0 = room_of(before@, code@);
            if res.is_ok() {
                lemma_wf_departed(r0, player_id);
                lemma_wf_play(departed(r0, player_id), room@);
            }
        }
        self.put_room(key, room, Ghost(before), Ghost(code@));
        if res.is_err() {
            assert(self@.rooms =~= before@.rooms);
        }
        res
    }

    /// After a finished match, the host of the room that answers to `code` starts choosing
    /// the next game.
    pub fn choose_another_game(&mut self, code: &str, player_id: u128) -> (r: Result<(), GameError>)
        requires
            old(self).wf(),
        ensures
            final(self).wf(),
            settled(old(self)@, final(self)@, code@, r, unless_missing(old(self)@, code@,
                choose_refusal(room_of(old(self)@, code@), player_id))),
            r.is_ok() ==> exists|now: u64| room_after(old(self)@, final(self)@, code@)
                == touched(choosing_next(room_of(old(self)@, code@)), now),
    {
        let key = match self.find_room(code) {
            Some(k) => k,
            None => {
                return Err(room_not_found());
            },
        };
        let ghost before = *self;
        let now = now_ms();
        let mut room = self.take_room(&key);
        let res = room.choose_another_game(player_id, now);
        proof {
            lemma_room_at(before@, code@);
            if res.is_ok() {
                lemma_wf_no_answers(room@);
            }
        }
        self.put_room(key, room, Ghost(before), Ghost(code@));
        if res.is_err() {
            assert(self@.rooms =~= before@.rooms);
        }
        res
    }

    /// The host closes the room that answers to `code` for everyone.
    pub fn end_room_by_player(&mut self, code: &str, player_id: u128) -> (r: Result<(), GameError>)
        requires
            old(self).wf(),
        ensures
            final(self).wf(),
            settled(old(self)@, final(self)@, code@, r, unless_missing(old(self)@, code@,
                host_first(room_of(old(self)@, code@), player_id, None))),
            r.is_ok() ==> exists|now: u64| room_after(old(self)@, final(self)@, code@)
                == room_ended(room_of(old(self)@, code@), now),
    {
        let key = match self.find_room(code) {
            Some(k) => k,
            None => {
                return Err(room_not_found());
            },
        };
        let ghost before = *self;
        let now = now_ms();
        let mut room = self.take_room(&key);
        let res = room.end_room_by_player(player_id, now);
        proof {
            lemma_room_at(before@, code@);
            lemma_wf_play(room_of(before@, code@), room@);
        }
        self.put_room(key, room, Ghost(before), Ghost(code@));
        if res.is_err() {
            assert(self@.rooms =~= before@.rooms);
        } else {
            assert(room_after(before@, self@, code@) == room_ended(room_of(before@, code@), now));
        }
        res
    }

    /// The host, by player id, starts the match in the room that answers to `code`.
    pub fn start_game_by_player(&mut self, code: &str, player_id: u128) -> (r: Result<(), GameError>)
        requires
            old(self).wf(),
        ensures
            final(self).wf(),
            settled(old(self)@, final(self)@, code@, r, unless_missing(old(self)@, code@,
                host_first(room_of(old(self)@, code@), player_id, start_refusal(room_of(old(self)@, code@))))),
            r.is_ok() ==> exists|now: u64| room_after(old(self)@, final(self)@, code@)
                == touched(round_opened(room_of(old(self)@, code@), 1), now),
    {
        let key = match self.find_room(code) {
            Some(k) => k,
            None => {
                return Err(room_not_found());
            },
        };
        let ghost before = *self;
        let now = now_ms();
        let mut room = self.take_room(&key);
        let res = match room.authorize_player_host(player_id) {
            Err(e) => Err(e),
            Ok(()) => room.start_game_locked(now),
        };
        proof {
            lemma_room_at(before@, code@);
            if res.is_ok() {
                lemma_wf_no_answers(room@);
            }
        }
        self.put_room(key, room, Ghost(before), Ghost(code@));
        if res.is_err() {
            assert(self@.rooms =~= before@.rooms);
        }
        res
    }

    /// The host, with the host token, starts the match in the room that answers to `code`.
    pub fn start_game(&mut self, code: &str, token: &str) -> (r: Result<(), GameError>)
        requires
            old(self).wf(),
        ensures
            final(self).wf(),
            settled(old(self)@, final(self)@, code@, r, unless_missing(old(self)@, code@,
                token_first(room_of(old(self)@, code@), token@, start_refusal(room_of(old(self)@, code@))))),
            r.is_ok() ==> exists|now: u64| room_after(old(self)@, final(self)@, code@)
                == touched(round_opened(room_of(old(self)@, code@), 1), now),
    {
        let key = match self.find_room(code) {
            Some(k) => k,
            None => {
                return Err(room_not_found());
            },
        };
        let ghost before = *self;
        let now = now_ms();
        let mut room = self.take_room(&key);
        let res = match room.authorize_host(token) {
            Err(e) => Err(e),
            Ok(()) => room.start_game_locked(now),
        };
        proof {
            lemma_room_at(before@, code@);
            if res.is_ok() {
                lemma_wf_no_answers(room@);
            }
        }
        self.put_room(key, room, Ghost(before), Ghost(code@));
        if res.is_err() {
            assert(self@.rooms =~= before@.rooms);
        }
        res
    }

    /// The host, with the host token, ends the match in the room that answers to `code`.
    pub fn end_game(&mut self, code: &str, token: &str) -> (r: Result<(), GameError>)
        requires
            old(self).wf(),
        ensures
            final(self).wf(),
            settled(old(self)@, final(self)@, code@, r, unless_missing(old(self)@, code@,
                token_first(room_of(old(self)@, code@), token@, None))),
            r.is_ok() ==> exists|now: u64| room_after(old(self)@, final(self)@, code@)
                == game_ended(room_of(old(self)@, code@), now),
    {
        let key = match self.find_room(code) {
            Some(k) => k,
            None => {
                return Err(room_not_found());
            },
        };
        let ghost before = *self;
        let now = now_ms();
        let mut room = self.take_room(&key);
        let res = room.end_game(token, now);
        proof {
            lemma_room_at(before@, code@);
            lemma_wf_play(room_of(before@, code@), room@);
        }
        self.put_room(key, room, Ghost(before), Ghost(code@));
        if res.is_err() {
            assert(self@.rooms =~= before@.rooms);
        } else {
            assert(room_after(before@, self@, code@) == game_ended(room_of(before@, code@), now));
        }
        res
    }
}


/// What a reaction request does when it is not refused: a reaction already seen is
/// accepted and changes nothing; a new one is added at `now`.
pub open spec fn reaction_outcome(r: RoomView, player: u128, emoji: Seq<char>, id: u128, now: u64) -> RoomView {
    if reaction_seen(r, id) {
        r
    } else {
        touched(reaction_added(r, player, emoji, id), now)
    }
}

/// Why a reaction is refused, if it is: closed reactions or an unknown emoji first; a
/// reaction already seen is accepted again; beyond five per player and turn it is refused.
pub open spec fn reaction_why(r: RoomView, player: u128, round: u8, emoji: Seq<char>, id: u128) -> Refusal {
    if reaction_refusal(r, player, round, emoji).is_some() {
        reaction_refusal(r, player, round, emoji)
    } else if reaction_seen(r, id) {
        None
    } else if reactions_by(r, player, r.spotlight_index) >= MAX_REACTIONS_PER_TURN {
        Some((ErrorCode::InvalidPhase, "Take a moment before reacting again."@))
    } else {
        None
    }
}

/// Why the host's skip of the Spotlight turn is refused, if it is.
pub open spec fn force_skip_refusal(r: RoomView, host: u128, round: u8) -> Refusal {
    if host_spotlight_refusal(r, host, round).is_some() {
        host_spotlight_refusal(r, host, round)
    } else if challenge_of(r.challenges, spotlight_holder(r).unwrap()).is_none() {
        Some(no_prompt())
    } else {
        None
    }
}

/// `t` is the room `r` after `player` rerolls their prompt at `now`: one of the candidate
/// prompts of the same choice replaces it, and the free reroll is used up.
pub open spec fn rerolled(r: RoomView, player: u128, now: u64, t: RoomView) -> bool {
    exists|k: usize|
        #![trigger candidates_for(r, player, challenge_of(r.challenges, player).unwrap().choice).contains(k)]
        candidates_for(r, player, challenge_of(r.challenges, player).unwrap().choice).contains(k)
        && t == touched(
            RoomView {
                challenges: challenge_put(
                    r.challenges,
                    player,
                    assigned_challenge(r, challenge_of(r.challenges, player).unwrap().choice, k as int),
                ),
                rerolls_used: set_insert(r.rerolls_used, player),
                ..prompt_recorded(r, player, challenge_of(r.challenges, player).unwrap().choice, k as int)
            },
            now,
        )
}

/// `t` is the room `r` after the highlights are revealed at `now`.
pub open spec fn highlights_shown(r: RoomView, now: u64, t: RoomView) -> bool {
    highlight_outcomes(t.highlight_results, r.highlight_categories, r.highlight_votes) && t
        == touched(highlights_revealed(r, t.highlight_results), now)
}

/// The room with a highlight vote by `voter` for `selected` in a category.
pub open spec fn vote_added(r: RoomView, category_id: Seq<char>, voter: u128, selected: u128) -> RoomView {
    RoomView {
        highlight_votes: r.highlight_votes.push(
            HighlightVoteView { category_id, voter_id: voter, selected_id: selected },
        ),
        ..r
    }
}

/// The room with `id` among the players who skip highlight voting.
pub open spec fn skip_added(r: RoomView, id: u128) -> RoomView {
    RoomView { highlight_skips: set_insert(r.highlight_skips, id), ..r }
}

/// The room after the host token removes `id` from the lobby at `now`.
pub open spec fn kicked_out(r: RoomView, id: u128, now: u64) -> RoomView {
    touched(
        RoomView {
            players: without_key::<Player>(r.players, id),
            scores: without_key::<PlayerTally>(r.scores, id),
            ..r
        },
        now,
    )
}

/// The room after the host removes member `id` at `now`.
pub open spec fn removed_by_host(r: RoomView, id: u128, now: u64) -> RoomView {
    touched(
        RoomView {
            notice: Some(
                notice_of(
                    next_version(r.version),
                    r.players[member_index(r, id)].nickname + " was removed from the party."@,
                    "player_left"@,
                ),
            ),
            ..departed(r, id)
        },
        now,
    )
}

impl RoomManager {
    /// Locks `player_id`'s answer for round `round` in the room that answers to `code`.
    pub fn submit_answer(&mut self, code: &str, player_id: u128, round: u8, answer: &str) -> (r: Result<(), GameError>)
        requires
            old(self).wf(),
        ensures
            final(self).wf(),
            settled(old(self)@, final(self)@, code@, r, unless_missing(old(self)@, code@,
                answer_refusal(room_of(old(self)@, code@), player_id, round, answer@))),
            r.is_ok() ==> exists|now: u64| #[trigger] answer_locked(room_of(old(self)@, code@), player_id, answer@, now,
                room_after(old(self)@, final(self)@, code@)),
    {
        let key = match self.find_room(code) {
            Some(k) => k,
            None => {
                return Err(room_not_found());
            },
        };
        let ghost before = *self;
        let now = now_ms();
        let mut room = self.take_room(&key);
        let res = room.submit_answer(player_id, round, answer, now);
        proof {
            lemma_room_at(before@, code@);
            let r0 = room_of(before@, code@);
            if res.is_ok() {
                if is_truth_or_dare(r0) {
                    let c = normalized_choice(answer@);
                    let k = choose|k: usize| #![trigger candidates_for(r0, player_id, c).contains(k)]
                        candidates_for(r0, player_id, c).contains(k) && room@ == touched(choice_locked(r0, player_id, c, k as int), now);
                    lemma_wf_answer(r0, room@, player_id, c);
                } else {
                    lemma_wf_answer(r0, room@, player_id, answer@);
                }
                assert(answer_locked(r0, player_id, answer@, now, room@));
            }
        }
        self.put_room(key, room, Ghost(before), Ghost(code@));
        if res.is_err() {
            assert(self@.rooms =~= before@.rooms);
        }
        res
    }

    /// Locks `player_id`'s vote for `selected_player_id` in round `round`; a second vote is
    /// refused as already voted.
    pub fn submit_vote(&mut self, code: &str, player_id: u128, round: u8, selected_player_id: u128) -> (r: Result<(), GameError>)
        requires
            old(self).wf(),
        ensures
            final(self).wf(),
            settled(old(self)@, final(self)@, code@, r, as_vote(unless_missing(old(self)@, code@,
                answer_refusal(room_of(old(self)@, code@), player_id, round, uuid_text(selected_player_id))))),
            r.is_ok() ==> exists|now: u64| #[trigger] answer_locked(room_of(old(self)@, code@), player_id,
                uuid_text(selected_player_id), now, room_after(old(self)@, final(self)@, code@)),
    {
        let text = uuid_to_text(selected_player_id);
        match self.submit_answer(code, player_id, round, text.as_str()) {
            Ok(()) => Ok(()),
            Err(e) => {
                if e.code == ErrorCode::AlreadyAnswered {
                    Err(GameError { code: ErrorCode::AlreadyVoted, message: e.message })
                } else {
                    Err(e)
                }
            },
        }
    }

    /// Reveals the round's results in the room that answers to `code`, with the host token.
    pub fn reveal_results(&mut self, code: &str, token: &str) -> (r: Result<(), GameError>)
        requires
            old(self).wf(),
        ensures
            final(self).wf(),
            settled(old(self)@, final(self)@, code@, r, unless_missing(old(self)@, code@,
                token_first(room_of(old(self)@, code@), token@, reveal_refusal(room_of(old(self)@, code@))))),
            r.is_ok() ==> exists|now: u64| #[trigger] results_shown(room_of(old(self)@, code@), now,
                room_after(old(self)@, final(self)@, code@)),
    {
        self.reveal_with(code, Some(token), 0)
    }

    /// Reveals the round's results in the room that answers to `code`, by the host's player id.
    pub fn reveal_results_by_player(&mut self, code: &str, player_id: u128) -> (r: Result<(), GameError>)
        requires
            old(self).wf(),
        ensures
            final(self).wf(),
            settled(old(self)@, final(self)@, code@, r, unless_missing(old(self)@, code@,
                host_first(room_of(old(self)@, code@), player_id, reveal_refusal(room_of(old(self)@, code@))))),
            r.is_ok() ==> exists|now: u64| #[trigger] results_shown(room_of(old(self)@, code@), now,
                room_after(old(self)@, final(self)@, code@)),
    {
        self.reveal_with(code, None, player_id)
    }

    fn reveal_with(&mut self, code: &str, token: Option<&str>, player_id: u128) -> (r: Result<(), GameError>)
        requires
            old(self).wf(),
        ensures
            final(self).wf(),
            settled(old(self)@, final(self)@, code@, r, unless_missing(old(self)@, code@,
                match token {
                    Some(t) => token_first(room_of(old(self)@, code@), t@, reveal_refusal(room_of(old(self)@, code@))),
                    None => host_first(room_of(old(self)@, code@), player_id, reveal_refusal(room_of(old(self)@, code@))),
                })),
            r.is_ok() ==> exists|now: u64| #[trigger] results_shown(room_of(old(self)@, code@), now,
                room_after(old(self)@, final(self)@, code@)),
    {
        let key = match self.find_room(code) {
            Some(k) => k,
            None => {
                return Err(room_not_found());
            },
        };
        let ghost before = *self;
        let now = now_ms();
        let mut room = self.take_room(&key);
        proof {
            lemma_room_at(before@, code@);
            lemma_answers_bounded(room@);
        }
        let allowed = match token {
            Some(t) => room.authorize_host(t),
            None => room.authorize_player_host(player_id),
        };
        let res = match allowed {
            Err(e) => Err(e),
            Ok(()) => room.reveal_results_locked(now),
        };
        proof {
            lemma_room_at(before@, code@);
            let r0 = room_of(before@, code@);
            lemma_wf_play(r0, room@);
            if res.is_ok() {
                assert(results_shown(r0, now, room@));
            }
        }
        self.put_room(key, room, Ghost(before), Ghost(code@));
        if res.is_err() {
            assert(self@.rooms =~= before@.rooms);
        }
        res
    }

    /// The Spotlight player completes their prompt.
    pub fn mark_completed(&mut self, code: &str, player_id: u128, round: u8) -> (r: Result<(), GameError>)
        requires
            old(self).wf(),
        ensures
            final(self).wf(),
            settled(old(self)@, final(self)@, code@, r, unless_missing(old(self)@, code@,
                complete_refusal(room_of(old(self)@, code@), player_id, round))),
            r.is_ok() ==> exists|now: u64| room_after(old(self)@, final(self)@, code@)
                == touched(turn_closed(room_of(old(self)@, code@), player_id, false), now),
    {
        let key = match self.find_room(code) {
            Some(k) => k,
            None => {
                return Err(room_not_found());
            },
        };
        let ghost before = *self;
        let now = now_ms();
        let mut room = self.take_room(&key);
        let res = room.mark_completed(player_id, round, now);
        proof {
            lemma_room_at(before@, code@);
            lemma_wf_play(room_of(before@, code@), room@);
        }
        self.put_room(key, room, Ghost(before), Ghost(code@));
        if res.is_err() {
            assert(self@.rooms =~= before@.rooms);
        }
        res
    }

    /// The Spotlight player swaps their prompt for another, once per match.
    pub fn reroll_spotlight(&mut self, code: &str, player_id: u128, round: u8) -> (r: Result<(), GameError>)
        requires
            old(self).wf(),
        ensures
            final(self).wf(),
            settled(old(self)@, final(self)@, code@, r, unless_missing(old(self)@, code@,
                reroll_refusal(room_of(old(self)@, code@), player_id, round))),
            r.is_ok() ==> exists|now: u64| #[trigger] rerolled(room_of(old(self)@, code@), player_id, now,
                room_after(old(self)@, final(self)@, code@)),
    {
        let key = match self.find_room(code) {
            Some(k) => k,
            None => {
                return Err(room_not_found());
            },
        };
        let ghost before = *self;
        let now = now_ms();
        let mut room = self.take_room(&key);
        let res = room.reroll_spotlight(player_id, round, now);
        proof {
            lemma_room_at(before@, code@);
            let r0 = room_of(before@, code@);
            lemma_wf_play(r0, room@);
            if res.is_ok() {
                assert(rerolled(r0, player_id, now, room@));
            }
        }
        self.put_room(key, room, Ghost(before), Ghost(code@));
        if res.is_err() {
            assert(self@.rooms =~= before@.rooms);
        }
        res
    }

    /// The Spotlight player skips their prompt.
    pub fn skip_spotlight(&mut self, code: &str, player_id: u128, round: u8) -> (r: Result<(), GameError>)
        requires
            old(self).wf(),
        ensures
            final(self).wf(),
            settled(old(self)@, final(self)@, code@, r, unless_missing(old(self)@, code@,
                skip_refusal(room_of(old(self)@, code@), player_id, round))),
            r.is_ok() ==> exists|now: u64| room_after(old(self)@, final(self)@, code@)
                == touched(turn_closed(room_of(old(self)@, code@), player_id, true), now),
    {
        let key = match self.find_room(code) {
            Some(k) => k,
            None => {
                return Err(room_not_found());
            },
        };
        let ghost before = *self;
        let now = now_ms();
        let mut room = self.take_room(&key);
        let res = room.skip_spotlight(player_id, round, now);
        proof {
            lemma_room_at(before@, code@);
            lemma_wf_play(room_of(before@, code@), room@);
        }
        self.put_room(key, room, Ghost(before), Ghost(code@));
        if res.is_err() {
            assert(self@.rooms =~= before@.rooms);
        }
        res
    }

    /// The host moves the Spotlight to the next player, or on to highlight voting.
    pub fn next_spotlight(&mut self, code: &str, host_id: u128, round: u8) -> (r: Result<(), GameError>)
        requires
            old(self).wf(),
        ensures
            final(self).wf(),
            settled(old(self)@, final(self)@, code@, r, unless_missing(old(self)@, code@,
                next_spotlight_refusal(room_of(old(self)@, code@), host_id, round))),
            r.is_ok() ==> exists|now: u64| room_after(old(self)@, final(self)@, code@)
                == touched(spotlight_moved(room_of(old(self)@, code@)), now),
    {
        let key = match self.find_room(code) {
            Some(k) => k,
            None => {
                return Err(room_not_found());
            },
        };
        let ghost before = *self;
        let now = now_ms();
        let mut room = self.take_room(&key);
        let res = room.next_spotlight(host_id, round, now);
        proof {
            lemma_room_at(before@, code@);
            lemma_wf_play(room_of(before@, code@), room@);
        }
        self.put_room(key, room, Ghost(before), Ghost(code@));
        if res.is_err() {
            assert(self@.rooms =~= before@.rooms);
        }
        res
    }

    /// A member reacts to the Spotlight turn; a reaction id already seen is accepted again
    /// without adding anything.
    pub fn send_reaction(&mut self, code: &str, player_id: u128, round: u8, emoji: &str, reaction_id: u128) -> (r:
        Result<(), GameError>)
        requires
            old(self).wf(),
        ensures
            final(self).wf(),
            settled(old(self)@, final(self)@, code@, r, unless_missing(old(self)@, code@,
                reaction_why(room_of(old(self)@, code@), player_id, round, emoji@, reaction_id))),
            r.is_ok() ==> exists|now: u64| room_after(old(self)@, final(self)@, code@)
                == reaction_outcome(room_of(old(self)@, code@), player_id, emoji@, reaction_id, now),
    {
        let key = match self.find_room(code) {
            Some(k) => k,
            None => {
                return Err(room_not_found());
            },
        };
        let ghost before = *self;
        let now = now_ms();
        let mut room = self.take_room(&key);
        let res = room.send_reaction(player_id, round, emoji, reaction_id, now);
        proof {
            lemma_room_at(before@, code@);
            let r0 = room_of(before@, code@);
            lemma_wf_play(r0, room@);
            if res.is_ok() {
                assert(room@ == reaction_outcome(r0, player_id, emoji@, reaction_id, now));
            }
        }
        self.put_room(key, room, Ghost(before), Ghost(code@));
        if res.is_err() {
            assert(self@.rooms =~= before@.rooms);
        }
        res
    }

    /// The host skips the turn of the player in the Spotlight.
    pub fn force_skip_spotlight(&mut self, code: &str, host_id: u128, round: u8) -> (r: Result<(), GameError>)
        requires
            old(self).wf(),
        ensures
            final(self).wf(),
            settled(old(self)@, final(self)@, code@, r, unless_missing(old(self)@, code@,
                force_skip_refusal(room_of(old(self)@, code@), host_id, round))),
            r.is_ok() ==> exists|now: u64| room_after(old(self)@, final(self)@, code@)
                == touched(turn_closed(room_of(old(self)@, code@), spotlight_holder(room_of(old(self)@, code@)).unwrap(), true), now),
    {
        let key = match self.find_room(code) {
            Some(k) => k,
            None => {
                return Err(room_not_found());
            },
        };
        let ghost before = *self;
        let now = now_ms();
        let mut room = self.take_room(&key);
        let res = room.force_skip_spotlight(host_id, round, now);
        proof {
            lemma_room_at(before@, code@);
            lemma_wf_play(room_of(before@, code@), room@);
        }
        self.put_room(key, room, Ghost(before), Ghost(code@));
        if res.is_err() {
            assert(self@.rooms =~= before@.rooms);
        }
        res
    }

    /// A member votes for another player in a highlight category.
    pub fn submit_highlight_vote(
        &mut self,
        code: &str,
        player_id: u128,
        round: u8,
        category_id: &str,
        selected_player_id: u128,
    ) -> (r: Result<(), GameError>)
        requires
            old(self).wf(),
        ensures
            final(self).wf(),
            settled(old(self)@, final(self)@, code@, r, unless_missing(old(self)@, code@,
                highlight_vote_refusal(room_of(old(self)@, code@), player_id, round, category_id@, selected_player_id))),
            r.is_ok() ==> exists|now: u64| room_after(old(self)@, final(self)@, code@)
                == touched(vote_added(room_of(old(self)@, code@), category_id@, player_id, selected_player_id), now),
    {
        let key = match self.find_room(code) {
            Some(k) => k,
            None => {
                return Err(room_not_found());
            },
        };
        let ghost before = *self;
        let now = now_ms();
        let mut room = self.take_room(&key);
        let res = room.submit_highlight_vote(player_id, round, category_id, selected_player_id, now);
        proof {
            lemma_room_at(before@, code@);
            lemma_wf_play(room_of(before@, code@), room@);
        }
        self.put_room(key, room, Ghost(before), Ghost(code@));
        if res.is_err() {
            assert(self@.rooms =~= before@.rooms);
        }
        res
    }

    /// A member skips highlight voting.
    pub fn skip_highlight_voting(&mut self, code: &str, player_id: u128, round: u8) -> (r: Result<(), GameError>)
        requires
            old(self).wf(),
        ensures
            final(self).wf(),
            settled(old(self)@, final(self)@, code@, r, unless_missing(old(self)@, code@,
                if highlight_gate(room_of(old(self)@, code@), player_id, round) {
                    Some(voting_closed())
                } else {
                    None
                })),
            r.is_ok() ==> exists|now: u64| room_after(old(self)@, final(self)@, code@)
                == touched(skip_added(room_of(old(self)@, code@), player_id), now),
    {
        let key = match self.find_room(code) {
            Some(k) => k,
            None => {
                return Err(room_not_found());
            },
        };
        let ghost before = *self;
        let now = now_ms();
        let mut room = self.take_room(&key);
        let res = room.skip_highlight_voting(player_id, round, now);
        proof {
            lemma_room_at(before@, code@);
            lemma_wf_play(room_of(before@, code@), room@);
        }
        self.put_room(key, room, Ghost(before), Ghost(code@));
        if res.is_err() {
            assert(self@.rooms =~= before@.rooms);
        }
        res
    }

    /// The host reveals the highlight winners.
    pub fn reveal_highlights(&mut self, code: &str, host_id: u128, round: u8) -> (r: Result<(), GameError>)
        requires
            old(self).wf(),
        ensures
            final(self).wf(),
            settled(old(self)@, final(self)@, code@, r, unless_missing(old(self)@, code@,
                reveal_highlights_refusal(room_of(old(self)@, code@), host_id, round))),
            r.is_ok() ==> exists|now: u64| #[trigger] highlights_shown(room_of(old(self)@, code@), now,
                room_after(old(self)@, final(self)@, code@)),
    {
        let key = match self.find_room(code) {
            Some(k) => k,
            None => {
                return Err(room_not_found());
            },
        };
        let ghost before = *self;
        let now = now_ms();
        let mut room = self.take_room(&key);
        let res = room.reveal_highlights(host_id, round, now);
        proof {
            lemma_room_at(before@, code@);
            let r0 = room_of(before@, code@);
            lemma_wf_play(r0, room@);
            if res.is_ok() {
                assert(highlights_shown(r0, now, room@));
            }
        }
        self.put_room(key, room, Ghost(before), Ghost(code@));
        if res.is_err() {
            assert(self@.rooms =~= before@.rooms);
        }
        res
    }

    /// Moves on from the round, with the host token.
    pub fn next_round(&mut self, code: &str, token: &str) -> (r: Result<(), GameError>)
        requires
            old(self).wf(),
        ensures
            final(self).wf(),
            settled(old(self)@, final(self)@, code@, r, unless_missing(old(self)@, code@,
                token_first(room_of(old(self)@, code@), token@, next_round_refusal(room_of(old(self)@, code@))))),
            r.is_ok() ==> exists|now: u64| #[trigger] round_moved_on(room_of(old(self)@, code@), now,
                room_after(old(self)@, final(self)@, code@)),
    {
        self.next_round_with(code, Some(token), 0)
    }

    /// Moves on from the round, by the host's player id.
    pub fn next_round_by_player(&mut self, code: &str, player_id: u128) -> (r: Result<(), GameError>)
        requires
            old(self).wf(),
        ensures
            final(self).wf(),
            settled(old(self)@, final(self)@, code@, r, unless_missing(old(self)@, code@,
                host_first(room_of(old(self)@, code@), player_id, next_round_refusal(room_of(old(self)@, code@))))),
            r.is_ok() ==> exists|now: u64| #[trigger] round_moved_on(room_of(old(self)@, code@), now,
                room_after(old(self)@, final(self)@, code@)),
    {
        self.next_round_with(code, None, player_id)
    }

    fn next_round_with(&mut self, code: &str, token: Option<&str>, player_id: u128) -> (r: Result<(), GameError>)
        requires
            old(self).wf(),
        ensures
            final(self).wf(),
            settled(old(self)@, final(self)@, code@, r, unless_missing(old(self)@, code@,
                match token {
                    Some(t) => token_first(room_of(old(self)@, code@), t@, next_round_refusal(room_of(old(self)@, code@))),
                    None => host_first(room_of(old(self)@, code@), player_id, next_round_refusal(room_of(old(self)@, code@))),
                })),
            r.is_ok() ==> exists|now: u64| #[trigger] round_moved_on(room_of(old(self)@, code@), now,
                room_after(old(self)@, final(self)@, code@)),
    {
        let key = match self.find_room(code) {
            Some(k) => k,
            None => {
                return Err(room_not_found());
            },
        };
        let ghost before = *self;
        let now = now_ms();
        let mut room = self.take_room(&key);
        proof {
            lemma_room_at(before@, code@);
            lemma_answers_bounded(room@);
        }
        let allowed = match token {
            Some(t) => room.authorize_host(t),
            None => room.authorize_player_host(player_id),
        };
        let res = match allowed {
            Err(e) => Err(e),
            Ok(()) => room.next_round_locked(now),
        };
        proof {
            lemma_room_at(before@, code@);
            let r0 = room_of(before@, code@);
            if room@.answers.len() == 0 {
                lemma_wf_no_answers(room@);
            } else {
                lemma_wf_play(r0, room@);
            }
            if res.is_ok() {
                assert(round_moved_on(r0, now, room@));
            }
        }
        self.put_room(key, room, Ghost(before), Ghost(code@));
        if res.is_err() {
            assert(self@.rooms =~= before@.rooms);
        }
        res
    }

    /// The host, with the host token, removes a player from the lobby.
    pub fn kick_player(&mut self, code: &str, token: &str, player_id: u128) -> (r: Result<(), GameError>)
        requires
            old(self).wf(),
        ensures
            final(self).wf(),
            settled(old(self)@, final(self)@, code@, r, unless_missing(old(self)@, code@,
                kick_refusal(room_of(old(self)@, code@), token@, player_id))),
            r.is_ok() ==> exists|now: u64| room_after(old(self)@, final(self)@, code@)
                == kicked_out(room_of(old(self)@, code@), player_id, now),
    {
        let key = match self.find_room(code) {
            Some(k) => k,
            None => {
                return Err(room_not_found());
            },
        };
        let ghost before = *self;
        let now = now_ms();
        let mut room = self.take_room(&key);
        let res = room.kick_player(token, player_id, now);
        proof {
            lemma_room_at(before@, code@);
            let r0 = room_of(before@, code@);
            if res.is_ok() {
                r0.players.lemma_filter_len(crate::entries::key_differs::<Player>(player_id));
                lemma_wf_no_answers(room@);
                assert(room@ == kicked_out(r0, player_id, now));
            }
        }
        self.put_room(key, room, Ghost(before), Ghost(code@));
        if res.is_err() {
            assert(self@.rooms =~= before@.rooms);
        }
        res
    }

    /// The host, by player id, removes a member at any stage.
    pub fn kick_player_by_player(&mut self, code: &str, host_id: u128, player_id: u128) -> (r: Result<(), GameError>)
        requires
            old(self).wf(),
        ensures
            final(self).wf(),
            settled(old(self)@, final(self)@, code@, r, unless_missing(old(self)@, code@,
                host_kick_refusal(room_of(old(self)@, code@), host_id, player_id))),
            r.is_ok() ==> exists|now: u64| room_after(old(self)@, final(self)@, code@)
                == removed_by_host(room_of(old(self)@, code@), player_id, now),
    {
        let key = match self.find_room(code) {
            Some(k) => k,
            None => {
                return Err(room_not_found());
            },
        };
        let ghost before = *self;
        let now = now_ms();
        let mut room = self.take_room(&key);
        let res = room.kick_player_by_player(host_id, player_id, now);
        proof {
            lemma_room_at(before@, code@);
            let r0 = room_of(before@, code@);
            if res.is_ok() {
                lemma_wf_departed(r0, player_id);
                lemma_wf_play(departed(r0, player_id), room@);
                assert(room@ == removed_by_host(r0, player_id, now));
            }
        }
        self.put_room(key, room, Ghost(before), Ghost(code@));
        if res.is_err() {
            assert(self@.rooms =~= before@.rooms);
        }
        res
    }
}


/// Whether `game_id` has a question history.
pub open spec fn has_recent(recent: Seq<(Seq<char>, Seq<Seq<char>>)>, id: Seq<char>) -> bool {
    exists|i: int| 0 <= i < recent.len() && (#[trigger] recent[i]).0 == id
}

/// The position of game `id`'s question history.
pub open spec fn recent_slot(recent: Seq<(Seq<char>, Seq<Seq<char>>)>, id: Seq<char>) -> int {
    choose|i: int| 0 <= i < recent.len() && (#[trigger] recent[i]).0 == id
}

/// The prompts recently drawn for game `id`, oldest first.
pub open spec fn recent_of(recent: Seq<(Seq<char>, Seq<Seq<char>>)>, id: Seq<char>) -> Seq<Seq<char>> {
    if has_recent(recent, id) {
        recent[recent_slot(recent, id)].1
    } else {
        Seq::empty()
    }
}

/// The histories with game `id`'s replaced by `h` (added when it had none).
pub open spec fn recent_set(recent: Seq<(Seq<char>, Seq<Seq<char>>)>, id: Seq<char>, h: Seq<Seq<char>>) -> Seq<
    (Seq<char>, Seq<Seq<char>>),
> {
    if has_recent(recent, id) {
        recent.update(recent_slot(recent, id), (id, h))
    } else {
        recent.push((id, h))
    }
}

/// `i` is the first game of the catalog with id `id`.
pub open spec fn is_first_game(games: Seq<GameView>, id: Seq<char>, i: int) -> bool {
    &&& 0 <= i < games.len()
    &&& games[i].id == id
    &&& forall|j: int| 0 <= j < i ==> (#[trigger] games[j]).id != id
}

/// The position of the first game with id `id`, or -1.
pub open spec fn game_index(games: Seq<GameView>, id: Seq<char>) -> int {
    if exists|i: int| is_first_game(games, id, i) {
        choose|i: int| is_first_game(games, id, i)
    } else {
        -1
    }
}

/// The game a new room plays: the one with id `id`; for `priority-sync`, the first game
/// of the catalog when none has that id; -1 when there is none.
pub open spec fn chosen_game(games: Seq<GameView>, id: Seq<char>) -> int {
    if game_index(games, id) >= 0 {
        game_index(games, id)
    } else if id == "priority-sync"@ {
        0
    } else {
        -1
    }
}

/// The number of rounds for a request: between 1 and 10, and no more than the game's
/// questions (counted modulo 256, as a `u8` holds them).
pub open spec fn rounds_for(requested: u8, questions: nat) -> u8 {
    let clamped: u8 = if requested < 1 {
        1
    } else if requested > MAX_ROUNDS {
        MAX_ROUNDS
    } else {
        requested
    };
    let cap: u8 = if questions > 255 {
        255
    } else {
        questions as u8
    };
    if clamped < cap {
        clamped
    } else {
        cap
    }
}

/// The theme for an optional request.
pub open spec fn theme_for(requested: Option<Seq<char>>) -> Seq<char> {
    match requested {
        Some(t) => normalized_theme(t),
        None => "neon-night"@,
    }
}

/// `p` is a prefix of `s`.
pub open spec fn starts_with(s: Seq<char>, p: Seq<char>) -> bool {
    p.len() <= s.len() && s.subrange(0, p.len() as int) == p
}

/// All answer options of the questions, in order.
pub open spec fn option_texts(qs: Seq<QuestionView>) -> Seq<Seq<char>>
    decreases qs.len(),
{
    if qs.len() == 0 {
        Seq::empty()
    } else {
        option_texts(qs.drop_last()) + qs.last().options
    }
}

/// The truth prompts among options: those written `Truth: …`, without the tag.
pub open spec fn truths_in(opts: Seq<Seq<char>>) -> Seq<Seq<char>>
    decreases opts.len(),
{
    if opts.len() == 0 {
        Seq::empty()
    } else {
        let rest = truths_in(opts.drop_last());
        let o = opts.last();
        if starts_with(o, "Truth: "@) {
            rest.push(o.subrange(7, o.len() as int))
        } else {
            rest
        }
    }
}

/// The dare prompts among options: those written `Dare: …` (and not `Truth: …`), without the tag.
pub open spec fn dares_in(opts: Seq<Seq<char>>) -> Seq<Seq<char>>
    decreases opts.len(),
{
    if opts.len() == 0 {
        Seq::empty()
    } else {
        let rest = dares_in(opts.drop_last());
        let o = opts.last();
        if !starts_with(o, "Truth: "@) && starts_with(o, "Dare: "@) {
            rest.push(o.subrange(6, o.len() as int))
        } else {
            rest
        }
    }
}

/// The Truth or Dare prompt pools of a game: none unless it is Truth or Dare.
pub open spec fn truth_pool(g: GameView) -> Seq<Seq<char>> {
    if g.id == "truth-or-dare"@ {
        truths_in(option_texts(g.questions))
    } else {
        Seq::empty()
    }
}

/// See [`truth_pool`].
pub open spec fn dare_pool(g: GameView) -> Seq<Seq<char>> {
    if g.id == "truth-or-dare"@ {
        dares_in(option_texts(g.questions))
    } else {
        Seq::empty()
    }
}

/// A room just opened for game `g`: only the host, not yet connected, in the lobby with
/// every score at 0, and kept for the grace period unless someone connects.
pub open spec fn opened_room(
    id: u128,
    code: Seq<char>,
    host_token: Seq<char>,
    host_id: u128,
    nickname: Seq<char>,
    session_token: Seq<char>,
    g: GameView,
    rounds: u8,
    theme: Seq<char>,
    queue: Seq<QuestionView>,
    created_at: i64,
    now: u64,
) -> RoomView {
    RoomView {
        id,
        code,
        host_token,
        host_player_id: host_id,
        host_connected: false,
        host_connection_id: None,
        host_last_seen: now,
        players: seq![
            PlayerView {
                id: host_id,
                nickname,
                session_token,
                connected: false,
                last_seen: now,
                connection_id: None,
            },
        ],
        game_id: g.id,
        game_title: g.title,
        response_mode: g.response_mode,
        experience: g.experience,
        theme,
        phase: GamePhase::Lobby,
        question_queue: queue,
        current_question: None,
        current_round: 0,
        max_rounds: rounds,
        answers: Seq::empty(),
        scores: seq![(host_id, 0u32)],
        current_round_points: Seq::empty(),
        active_player_id: None,
        completions: Seq::empty(),
        challenges: Seq::empty(),
        truth_or_dare_revealed: false,
        truth_or_dare_phase: if g.id == "truth-or-dare"@ {
            Some(TruthOrDarePhase::Choosing)
        } else {
            None
        },
        spotlight_order: Seq::empty(),
        spotlight_index: 0,
        rerolls_used: Seq::empty(),
        reactions: Seq::empty(),
        highlight_categories: Seq::empty(),
        highlight_votes: Seq::empty(),
        highlight_skips: Seq::empty(),
        highlight_results: Seq::empty(),
        historical_highlights: Seq::empty(),
        reaction_totals: Seq::empty(),
        truth_prompts: truth_pool(g),
        dare_prompts: dare_pool(g),
        used_truth_prompts: Seq::empty(),
        used_dare_prompts: Seq::empty(),
        round_history: Seq::empty(),
        created_at,
        last_activity: now,
        expires_at: time_after(now, DISCONNECT_GRACE_MS),
        version: 1,
        notice: None,
    }
}

/// `after` is `before` with a room opened for game `gi` under the fresh `code`, with host
/// token `token`, the question `queue` drawn for it and the game's history updated.
pub open spec fn opened(
    before: ManagerView,
    after: ManagerView,
    gi: int,
    rounds: u8,
    theme: Seq<char>,
    nickname: Seq<char>,
    queue: Seq<QuestionView>,
    code: Seq<char>,
    token: Seq<char>,
) -> bool {
    let g = before.games[gi];
    &&& after.games == before.games
    &&& after.recent == recent_set(before.recent, g.id, history_after(g.questions, recent_of(before.recent, g.id), rounds as nat, queue))
    &&& !before.rooms.dom().contains(code)
    &&& code.len() == ROOM_CODE_LEN
    &&& forall|i: int| 0 <= i < code.len() ==> unambiguous_code_char(#[trigger] code[i])
    &&& is_token(token)
    &&& exists|id: u128, host: u128, session: Seq<char>, created_at: i64, now: u64|
        #![trigger opened_room(id, code, token, host, trim_spec(nickname), session, g, rounds, theme, queue, created_at, now)]
        is_token(session) && after.rooms == before.rooms.insert(code, opened_room(id, code, token, host, trim_spec(nickname), session, g, rounds, theme, queue, created_at, now))
}

/// The number of random room codes drawn for a new room, which opens under the first of
/// them that no room holds. There are about a billion codes, so only when nearly every
/// code is in use are all of them held; the codes are then searched in alphabet order.
pub const CODES_DRAWN: usize = 64;

fn first_game(games: &Vec<GameDefinition>, id: &str) -> (r: Option<usize>)
    ensures
        r.is_some() <==> game_index(games.deep_view(), id@) >= 0,
        r.is_some() ==> r.unwrap() as int == game_index(games.deep_view(), id@),
{
    let ghost gs = games.deep_view();
    let mut i: usize = 0;
    while i < games.len()
        invariant
            i <= games.len(),
            gs == games.deep_view(),
            forall|j: int| 0 <= j < i ==> (#[trigger] gs[j]).id != id@,
        decreases games.len() - i,
    {
        assert(gs[i as int] == games@[i as int]@);
        if str_equal(games[i].id.as_str(), id) {
            proof {
                assert(is_first_game(gs, id@, i as int));
                let k = choose|k: int| is_first_game(gs, id@, k);
                if k < i {
                    assert(gs[k].id != id@);
                } else if k > i {
                    assert(gs[i as int].id != id@);
                }
            }
            return Some(i);
        }
        i = i + 1;
    }
    proof {
        if exists|k: int| is_first_game(gs, id@, k) {
            let k = choose|k: int| is_first_game(gs, id@, k);
            assert(gs[k].id != id@);
        }
    }
    None
}

/// `s` without the prefix `tag`, when `s` starts with it.
fn strip_tag(s: &str, tag: &str) -> (r: Option<String>)
    ensures
        r.is_some() <==> starts_with(s@, tag@),
        r.is_some() ==> r.unwrap()@ == s@.subrange(tag@.len() as int, s@.len() as int),
{
    let n = tag.unicode_len();
    let len = s.unicode_len();
    if n > len {
        return None;
    }
    let head = s.substring_char(0, n);
    if !str_equal(head, tag) {
        return None;
    }
    Some(s.substring_char(n, len).to_owned())
}

/// The Truth or Dare prompt pools of a game (see [`truth_pool`]).
pub fn truth_or_dare_pools(game: &GameDefinition) -> (r: (Vec<String>, Vec<String>))
    ensures
        r.0.deep_view() == truth_pool(game@),
        r.1.deep_view() == dare_pool(game@),
{
    let mut truths: Vec<String> = Vec::new();
    let mut dares: Vec<String> = Vec::new();
    if !str_equal(game.id.as_str(), "truth-or-dare") {
        assert(truths.deep_view() =~= Seq::<Seq<char>>::empty());
        assert(dares.deep_view() =~= Seq::<Seq<char>>::empty());
        return (truths, dares);
    }
    let ghost qs = game.questions.deep_view();
    let mut i: usize = 0;
    while i < game.questions.len()
        invariant
            i <= game.questions.len(),
            qs == game.questions.deep_view(),
            truths.deep_view() == truths_in(option_texts(qs.subrange(0, i as int))),
            dares.deep_view() == dares_in(option_texts(qs.subrange(0, i as int))),
        decreases game.questions.len() - i,
    {
        let opts = &game.questions[i].options;
        let ghost base = option_texts(qs.subrange(0, i as int));
        assert(qs.subrange(0, i + 1).drop_last() =~= qs.subrange(0, i as int));
        assert(qs.subrange(0, i + 1).last() == qs[i as int]);
        assert(qs[i as int].options == opts.deep_view());
        let mut k: usize = 0;
        while k < opts.len()
            invariant
                k <= opts.len(),
                truths.deep_view() == truths_in(base + opts.deep_view().subrange(0, k as int)),
                dares.deep_view() == dares_in(base + opts.deep_view().subrange(0, k as int)),
            decreases opts.len() - k,
        {
            let o = opts[k].as_str();
            let ghost prefix = base + opts.deep_view().subrange(0, k as int);
            let ghost next = base + opts.deep_view().subrange(0, k + 1);
            assert(next.drop_last() =~= prefix);
            assert(next.last() == o@);
            match strip_tag(o, "Truth: ") {
                Some(p) => {
                    proof {
                        reveal_strlit("Truth: ");
                    }
                    let ghost before = truths.deep_view();
                    truths.push(p);
                    assert(truths.deep_view() =~= before.push(p@));
                },
                None => {
                    match strip_tag(o, "Dare: ") {
                        Some(p) => {
                            proof {
                                reveal_strlit("Dare: ");
                            }
                            let ghost before = dares.deep_view();
                            dares.push(p);
                            assert(dares.deep_view() =~= before.push(p@));
                        },
                        None => {},
                    }
                },
            }
            k = k + 1;
        }
        assert(base + opts.deep_view().subrange(0, opts.len() as int) =~= option_texts(qs.subrange(0, i + 1)));
        i = i + 1;
    }
    assert(qs.subrange(0, game.questions.len() as int) =~= qs);
    (truths, dares)
}

impl RoomManager {
    /// The position of game `id`'s question history.
    fn find_recent(&self, id: &str) -> (r: Option<usize>)
        requires
            self.wf(),
        ensures
            r.is_some() <==> has_recent(self@.recent, id@),
            r.is_some() ==> r.unwrap() as int == recent_slot(self@.recent, id@) && r.unwrap() < self.recent_questions.len(),
    {
        let mut i: usize = 0;
        while i < self.recent_questions.len()
            invariant
                self.wf(),
                i <= self.recent_questions.len(),
                forall|k: int| 0 <= k < i ==> (#[trigger] self@.recent[k]).0 != id@,
            decreases self.recent_questions.len() - i,
        {
            assert(self@.recent[i as int] == self.recent_questions@[i as int].deep_view());
            if str_equal(self.recent_questions[i].game_id.as_str(), id) {
                proof {
                    let j = recent_slot(self@.recent, id@);
                    if j != i {
                        if j < i {
                            assert(self@.recent[j].0 != id@);
                        } else {
                            assert(self@.recent[i as int].0 != self@.recent[j].0);
                        }
                    }
                }
                return Some(i);
            }
            i = i + 1;
        }
        None
    }

    /// Draws `count` questions of game `gi` and records them in its history.
    fn draw_for_game(&mut self, gi: usize, count: usize) -> (queue: Vec<Question>)
        requires
            old(self).wf(),
            gi < old(self).games.len(),
        ensures
            final(self).wf(),
            final(self)@.rooms == old(self)@.rooms,
            final(self)@.games == old(self)@.games,
            drawn_from(old(self)@.games[gi as int].questions, recent_of(old(self)@.recent, old(self)@.games[gi as int].id),
                count as nat, queue.deep_view()),
            final(self)@.recent == recent_set(old(self)@.recent, old(self)@.games[gi as int].id, history_after(
                old(self)@.games[gi as int].questions,
                recent_of(old(self)@.recent, old(self)@.games[gi as int].id),
                count as nat,
                queue.deep_view(),
            )),
    {
        let ghost before = *self;
        let ghost g = self@.games[gi as int];
        assert(g == self.games@[gi as int]@);
        let k = match self.find_recent(self.games[gi].id.as_str()) {
            Some(k) => k,
            None => {
                let entry = RecentQuestions { game_id: self.games[gi].id.clone(), prompts: Vec::new() };
                assert(entry.prompts.deep_view() =~= Seq::<Seq<char>>::empty());
                self.recent_questions.push(entry);
                self.recent_questions.len() - 1
            },
        };
        let ghost mid = self.recent_questions;
        assert(mid@[k as int].deep_view().0 == g.id);
        assert(mid@[k as int].deep_view().1 == recent_of(before@.recent, g.id)) by {
            if !has_recent(before@.recent, g.id) {
                assert(mid@[k as int] == self.recent_questions@.last());
            }
        }
        let mut entry = self.recent_questions.remove(k);
        let queue = draw_questions(&self.games[gi].questions, &mut entry.prompts, count);
        let ghost e = entry;
        self.recent_questions.insert(k, entry);
        proof {
            let h = history_after(g.questions, recent_of(before@.recent, g.id), count as nat, queue.deep_view());
            assert(e.deep_view() == (g.id, h));
            if has_recent(before@.recent, g.id) {
                assert(self.recent_questions@ =~= before.recent_questions@.update(k as int, e));
                assert(self@.recent =~= before@.recent.update(k as int, (g.id, h)));
            } else {
                assert(self.recent_questions@ =~= mid@.update(k as int, e));
                assert(self@.recent =~= before@.recent.push((g.id, h)));
            }
            assert(self@.rooms == before@.rooms);
            assert forall|a: int, b: int| 0 <= a < b < self@.recent.len() implies (#[trigger] self@.recent[a]).0
                != (#[trigger] self@.recent[b]).0 by {
                if a != k && b != k && b < before@.recent.len() {
                    assert(self@.recent[a] == before@.recent[a] && self@.recent[b] == before@.recent[b]);
                } else if a == k || b == k {
                    if has_recent(before@.recent, g.id) {
                        let other = if a == k { b } else { a };
                        assert(self@.recent[other] == before@.recent[other]);
                        assert(before@.recent[k as int].0 == g.id);
                        if other < k {
                            assert(before@.recent[other].0 != before@.recent[k as int].0);
                        } else {
                            assert(before@.recent[k as int].0 != before@.recent[other].0);
                        }
                    } else {
                        let other = if a == k { b } else { a };
                        assert(self@.recent[other] == before@.recent[other]);
                    }
                }
            }
        }
        queue
    }

    /// The first room code, in alphabet order, that starts with the characters `prefix`
    /// picks and that no room holds.
    fn free_code_from(&self, prefix: Vec<u8>) -> (r: Option<String>)
        requires
            prefix.len() <= ROOM_CODE_LEN,
            forall|i: int| 0 <= i < prefix.len() ==> prefix@[i] < 32,
        ensures
            r.is_some() ==> is_room_code(r.unwrap()@) && !self@.rooms.dom().contains(r.unwrap()@),
            r.is_none() ==> forall|rest: Seq<u8>|
                rest.len() + prefix.len() == ROOM_CODE_LEN && (forall|i: int| 0 <= i < rest.len() ==> rest[i] < 32)
                    ==> #[trigger] self@.rooms.dom().contains(code_from_bytes(prefix@ + rest)),
        decreases ROOM_CODE_LEN - prefix.len(),
    {
        if prefix.len() == ROOM_CODE_LEN {
            let code = room_code_from_bytes(&prefix);
            proof {
                assert forall|i: int| 0 <= i < code@.len() implies unambiguous_code_char(#[trigger] code@[i]) by {
                    assert(code@[i] == code_char((prefix@[i] % 32) as nat));
                }
            }
            if self.code_taken(code.as_str()) {
                proof {
                    assert forall|rest: Seq<u8>|
                        rest.len() + prefix.len() == ROOM_CODE_LEN && (forall|i: int| 0 <= i < rest.len() ==> rest[i] < 32)
                            implies #[trigger] self@.rooms.dom().contains(code_from_bytes(prefix@ + rest)) by {
                        assert(prefix@ + rest =~= prefix@);
                    }
                }
                None
            } else {
                Some(code)
            }
        } else {
            let mut d: u8 = 0;
            while d < 32
                invariant
                    d <= 32,
                    prefix.len() < ROOM_CODE_LEN,
                    forall|i: int| 0 <= i < prefix.len() ==> prefix@[i] < 32,
                    forall|e: u8, rest: Seq<u8>|
                        e < d && rest.len() + prefix.len() + 1 == ROOM_CODE_LEN && (forall|i: int| 0 <= i < rest.len() ==> rest[i] < 32)
                            ==> #[trigger] self@.rooms.dom().contains(code_from_bytes(prefix@.push(e) + rest)),
                decreases 32 - d,
            {
                let mut next: Vec<u8> = Vec::new();
                let mut k: usize = 0;
                while k < prefix.len()
                    invariant
                        k <= prefix.len(),
                        next@ == prefix@.subrange(0, k as int),
                    decreases prefix.len() - k,
                {
                    next.push(prefix[k]);
                    proof {
                        assert(prefix@.subrange(0, k + 1) =~= prefix@.subrange(0, k as int).push(prefix@[k as int]));
                    }
                    k = k + 1;
                }
                next.push(d);
                proof {
                    assert(prefix@.subrange(0, prefix.len() as int) =~= prefix@);
                }
                match self.free_code_from(next) {
                    Some(c) => {
                        return Some(c);
                    },
                    None => {},
                }
                d = d + 1;
            }
            proof {
                assert forall|rest: Seq<u8>|
                    rest.len() + prefix.len() == ROOM_CODE_LEN && (forall|i: int| 0 <= i < rest.len() ==> rest[i] < 32)
                        implies #[trigger] self@.rooms.dom().contains(code_from_bytes(prefix@ + rest)) by {
                    let e = rest[0];
                    let tail = rest.drop_first();
                    assert(prefix@ + rest =~= prefix@.push(e) + tail);
                    assert(self@.rooms.dom().contains(code_from_bytes(prefix@.push(e) + tail)));
                }
            }
            None
        }
    }

    /// A room code that no room holds, if there is one: the first in alphabet order.
    fn first_free_code(&self) -> (r: Option<String>)
        ensures
            r.is_some() ==> is_room_code(r.unwrap()@) && !self@.rooms.dom().contains(r.unwrap()@),
            r.is_none() ==> every_code_held(self@.rooms),
    {
        let r = self.free_code_from(Vec::new());
        proof {
            if r.is_none() {
                assert forall|c: Seq<char>| #[trigger] is_room_code(c) implies self@.rooms.dom().contains(c) by {
                    lemma_room_code_bytes(c);
                    let b = code_bytes(c);
                    assert(Seq::<u8>::empty() + b =~= b);
                    assert(self@.rooms.dom().contains(code_from_bytes(Seq::<u8>::empty() + b)));
                }
            }
        }
        r
    }

    /// The place of the first of the codes `drawn` that no room holds, if any does not.
    pub fn first_unheld(&self, drawn: &Vec<String>) -> (r: Option<usize>)
        ensures
            match r {
                Some(i) => i < drawn.len() && !self@.rooms.dom().contains(drawn@[i as int]@) && forall|j: int|
                    0 <= j < i ==> self@.rooms.dom().contains(#[trigger] drawn@[j]@),
                None => forall|j: int| 0 <= j < drawn.len() ==> self@.rooms.dom().contains(#[trigger] drawn@[j]@),
            },
    {
        let mut i: usize = 0;
        while i < drawn.len()
            invariant
                i <= drawn.len(),
                forall|j: int| 0 <= j < i ==> self@.rooms.dom().contains(#[trigger] drawn@[j]@),
            decreases drawn.len() - i,
        {
            if !self.code_taken(drawn[i].as_str()) {
                return Some(i);
            }
            i = i + 1;
        }
        None
    }

    /// Whether a room is held under exactly the code `code`.
    fn code_taken(&self, code: &str) -> (r: bool)
        ensures
            r == self@.rooms.dom().contains(code@),
    {
        table_has(&self.rooms, code)
    }
}


/// The view of an optional string.
pub open spec fn opt_view(t: Option<&str>) -> Option<Seq<char>> {
    match t {
        Some(s) => Some(s@),
        None => None,
    }
}

/// Creating a room drew `queue` for game `gi` and either opened the room (returning its
/// code and host token) or, every room code being held, changed nothing.
pub open spec fn created_with(
    before: ManagerView,
    after: ManagerView,
    gi: int,
    rounds: u8,
    theme: Seq<char>,
    nickname: Seq<char>,
    queue: Seq<QuestionView>,
    r: Result<(String, String), GameError>,
) -> bool {
    let g = before.games[gi];
    &&& drawn_from(g.questions, recent_of(before.recent, g.id), rounds as nat, queue)
    &&& match r {
        Ok(v) => opened(before, after, gi, rounds, theme, nickname, queue, v.0@, v.1@),
        Err(e) => e@ == (ErrorCode::InternalError, "No room code is free right now."@) && every_code_held(before.rooms)
            && after == before,
    }
}

/// Every room code is held by a room.
pub open spec fn every_code_held(rooms: Map<Seq<char>, RoomView>) -> bool {
    forall|c: Seq<char>| #[trigger] is_room_code(c) ==> rooms.dom().contains(c)
}

/// The refusal of a request for a game the catalog does not have.
pub open spec fn no_game() -> (ErrorCode, Seq<char>) {
    (ErrorCode::GameNotFound, "That game is unavailable."@)
}

/// What creating a room does: an unknown game or a bad host nickname is refused and
/// changes nothing; otherwise questions are drawn (and recorded) and a room opens under a
/// fresh code, unless every room code is held, which is refused and changes nothing.
pub open spec fn creation(
    before: ManagerView,
    after: ManagerView,
    game_id: Seq<char>,
    requested_rounds: Option<u8>,
    requested_theme: Option<Seq<char>>,
    nickname: Seq<char>,
    r: Result<(String, String), GameError>,
) -> bool {
    let gi = chosen_game(before.games, game_id);
    let g = before.games[gi];
    let rounds = rounds_for(
        match requested_rounds {
            Some(n) => n,
            None => g.default_rounds,
        },
        g.questions.len(),
    );
    if gi < 0 {
        r.is_err() && r.unwrap_err()@ == no_game() && after == before
    } else if !nickname_ok(trim_spec(nickname)) {
        r.is_err() && r.unwrap_err()@ == (
            ErrorCode::InvalidNickname,
            "Nickname must be 1 to 20 characters and contain no control characters."@,
        ) && after == before
    } else {
        some_draw_created(before, after, gi, rounds, theme_for(requested_theme), nickname, r)
    }
}

/// Some draw of questions led to `r` as [`created_with`] says.
pub open spec fn some_draw_created(
    before: ManagerView,
    after: ManagerView,
    gi: int,
    rounds: u8,
    theme: Seq<char>,
    nickname: Seq<char>,
    r: Result<(String, String), GameError>,
) -> bool {
    exists|queue: Seq<QuestionView>| #[trigger] created_with(before, after, gi, rounds, theme, nickname, queue, r)
}

/// Why configuring the next match is refused, if it is.
pub open spec fn configure_refusal(r: RoomView, player: u128) -> Refusal {
    host_first(r, player, if r.phase == GamePhase::Choosing || r.phase == GamePhase::Finished {
        None
    } else {
        Some((ErrorCode::InvalidPhase, "The party is not choosing a game."@))
    })
}

/// What configuring the next match does: an unknown game is refused and changes nothing;
/// otherwise questions are drawn (and recorded), and then the room must be found and the
/// request allowed, and the room is set up for the game.
pub open spec fn configuration(
    before: ManagerView,
    after: ManagerView,
    code: Seq<char>,
    player: u128,
    game_id: Seq<char>,
    requested_rounds: u8,
    theme: Seq<char>,
    r: Result<(), GameError>,
) -> bool {
    let gi = game_index(before.games, game_id);
    let g = before.games[gi];
    let rounds = rounds_for(requested_rounds, g.questions.len());
    if gi < 0 {
        r.is_err() && r.unwrap_err()@ == no_game() && after == before
    } else {
        exists|queue: Seq<QuestionView>|
            #[trigger] drawn_from(g.questions, recent_of(before.recent, g.id), rounds as nat, queue) && {
                let mid = ManagerView {
                    recent: recent_set(before.recent, g.id, history_after(g.questions, recent_of(before.recent, g.id), rounds as nat, queue)),
                    ..before
                };
                &&& settled(mid, after, code, r, unless_missing(before, code, configure_refusal(room_of(before, code), player)))
                &&& r.is_ok() ==> exists|now: u64| room_after(before, after, code) == touched(
                    configured(room_of(before, code), g, rounds, theme, queue, truth_pool(g), dare_pool(g)),
                    now,
                )
            }
    }
}

impl RoomManager {
    /// Opens a room for Priority Sync with the default settings and host nickname.
    pub fn create_room(&mut self) -> (r: Result<(String, String), GameError>)
        requires
            old(self).wf(),
        ensures
            final(self).wf(),
            creation(old(self)@, final(self)@, "priority-sync"@, None, None, "Afreen"@, r),
    {
        self.create_room_with_host_options("priority-sync", None, None, "Afreen")
    }

    /// Opens a room for game `game_id`, with `requested_rounds` rounds if given.
    pub fn create_room_for_game(&mut self, game_id: &str, requested_rounds: Option<u8>) -> (r: Result<
        (String, String),
        GameError,
    >)
        requires
            old(self).wf(),
        ensures
            final(self).wf(),
            creation(old(self)@, final(self)@, game_id@, requested_rounds, None, "Afreen"@, r),
    {
        self.create_room_with_host_options(game_id, requested_rounds, None, "Afreen")
    }

    /// Opens a room for game `game_id` with optional rounds and theme.
    pub fn create_room_with_options(
        &mut self,
        game_id: &str,
        requested_rounds: Option<u8>,
        requested_theme: Option<&str>,
    ) -> (r: Result<(String, String), GameError>)
        requires
            old(self).wf(),
        ensures
            final(self).wf(),
            creation(old(self)@, final(self)@, game_id@, requested_rounds, opt_view(requested_theme), "Afreen"@, r),
    {
        self.create_room_with_host_options(game_id, requested_rounds, requested_theme, "Afreen")
    }

    /// Opens a room for game `game_id` with optional rounds and theme, hosted by
    /// `host_nickname`, and returns its code and host token.
    pub fn create_room_with_host_options(
        &mut self,
        game_id: &str,
        requested_rounds: Option<u8>,
        requested_theme: Option<&str>,
        host_nickname: &str,
    ) -> (r: Result<(String, String), GameError>)
        requires
            old(self).wf(),
        ensures
            final(self).wf(),
            creation(old(self)@, final(self)@, game_id@, requested_rounds, opt_view(requested_theme), host_nickname@, r),
    {
        proof {
            reveal_strlit("Afreen");
        }
        let ghost before = *self;
        let gi = match first_game(&self.games, game_id) {
            Some(i) => i,
            None => {
                if str_equal(game_id, "priority-sync") {
                    0
                } else {
                    return Err(GameError::new(ErrorCode::GameNotFound, "That game is unavailable."));
                }
            },
        };
        assert(self@.games[gi as int] == self.games@[gi as int]@);
        let requested = match requested_rounds {
            Some(n) => n,
            None => self.games[gi].default_rounds,
        };
        let clamped: u8 = if requested < 1 {
            1
        } else if requested > MAX_ROUNDS {
            MAX_ROUNDS
        } else {
            requested
        };
        let cap: u8 = if self.games[gi].questions.len() > 255 {
            255
        } else {
            self.games[gi].questions.len() as u8
        };
        let rounds = if clamped < cap {
            clamped
        } else {
            cap
        };
        let nickname = match validate_nickname(host_nickname) {
            Ok(n) => n,
            Err(e) => {
                return Err(e);
            },
        };
        let saved = clone_recent(&self.recent_questions);
        let queue = self.draw_for_game(gi, rounds as usize);
        let ghost mid = *self;
        let ghost qv = queue.deep_view();
        let (truths, dares) = truth_or_dare_pools(&self.games[gi]);
        let theme = match requested_theme {
            Some(t) => normalize_theme(t),
            None => String::from_str("neon-night"),
        };
        let drawn = draw_room_codes(CODES_DRAWN);
        let found = match self.first_unheld(&drawn) {
            Some(i) => Some(drawn[i].clone()),
            None => self.first_free_code(),
        };
        if let Some(code) = found {
            let host_token = generate_token();
            let host_id = new_uuid();
            let session_token = generate_token();
            let room_id = new_uuid();
            let created_at = timestamp_ms();
            let now = now_ms();
            let g = &self.games[gi];
            assert(self@.games[gi as int] == g@);
            let host = Player {
                id: host_id,
                nickname,
                session_token,
                connected: false,
                last_seen: now,
                connection_id: None,
            };
            let ghost hv = host@;
            let room = Room {
                id: room_id,
                code: code.clone(),
                host_token: host_token.clone(),
                host_player_id: host_id,
                host_connected: false,
                host_connection_id: None,
                host_last_seen: now,
                players: vec![host],
                game_id: g.id.clone(),
                game_title: g.title.clone(),
                response_mode: g.response_mode,
                experience: g.experience,
                theme,
                phase: GamePhase::Lobby,
                question_queue: queue,
                current_question: None,
                current_round: 0,
                max_rounds: rounds,
                answers: Vec::new(),
                scores: vec![PlayerTally { player_id: host_id, value: 0 }],
                current_round_points: Vec::new(),
                active_player_id: None,
                completions: Vec::new(),
                truth_or_dare_states: Vec::new(),
                truth_or_dare_revealed: false,
                truth_or_dare_phase: if str_equal(g.id.as_str(), "truth-or-dare") {
                    Some(TruthOrDarePhase::Choosing)
                } else {
                    None
                },
                spotlight_order: Vec::new(),
                spotlight_index: 0,
                rerolls_used: Vec::new(),
                reactions: Vec::new(),
                highlight_categories: Vec::new(),
                highlight_votes: Vec::new(),
                highlight_skips: Vec::new(),
                highlight_results: Vec::new(),
                historical_highlights: Vec::new(),
                reaction_totals: Vec::new(),
                truth_prompts: truths,
                dare_prompts: dares,
                used_truth_prompts: Vec::new(),
                used_dare_prompts: Vec::new(),
                round_history: Vec::new(),
                created_at,
                last_activity: now,
                expires_at: now.saturating_add(DISCONNECT_GRACE_MS),
                version: 1,
                notice: None,
            };
            proof {
                let gv = self@.games[gi as int];
                assert(room.players.deep_view() =~= seq![hv]);
                assert(room.scores.deep_view() =~= seq![(host_id, 0u32)]);
                assert(room.answers.deep_view() =~= Seq::<(u128, Seq<char>)>::empty());
                assert(room.current_round_points.deep_view() =~= Seq::<(u128, u32)>::empty());
                assert(room.truth_or_dare_states.deep_view() =~= Seq::<(u128, crate::model::ChallengeView)>::empty());
                assert(room.reactions.deep_view() =~= Seq::<crate::model::ReactionView>::empty());
                assert(room.highlight_categories.deep_view() =~= Seq::<crate::model::CategoryView>::empty());
                assert(room.highlight_votes.deep_view() =~= Seq::<HighlightVoteView>::empty());
                assert(room.highlight_results.deep_view() =~= Seq::<crate::model::HighlightResultView>::empty());
                assert(room.historical_highlights.deep_view() =~= Seq::<crate::model::HighlightResultView>::empty());
                assert(room.reaction_totals.deep_view() =~= Seq::<(u128, u32)>::empty());
                assert(room.used_truth_prompts.deep_view() =~= Seq::<(u128, Seq<char>)>::empty());
                assert(room.used_dare_prompts.deep_view() =~= Seq::<(u128, Seq<char>)>::empty());
                assert(room.round_history.deep_view() =~= Seq::<RoundSummaryView>::empty());
                assert(room@ == opened_room(room_id, code@, host_token@, host_id, trim_spec(host_nickname@),
                    hv.session_token, gv, rounds, theme_for(opt_view(requested_theme)), qv, created_at, now));
                lemma_wf_no_answers(room@);
            }
            let ghost rv = room@;
            table_put(&mut self.rooms, code.clone(), room);
            proof {
                let n = self@;
                assert(n.rooms == mid@.rooms.insert(code@, rv));
                assert forall|k: Seq<char>| #[trigger] n.rooms.dom().contains(k) implies n.rooms[k].code == k
                    && room_wf(n.rooms[k]) by {
                    if k != code@ {
                        assert(mid@.rooms.dom().contains(k));
                    }
                }
            }
            let out: Result<(String, String), GameError> = Ok((code, host_token));
            proof {
                assert(opened(before@, self@, gi as int, rounds, theme_for(opt_view(requested_theme)), host_nickname@, qv,
                    out.unwrap().0@, out.unwrap().1@));
                assert(created_with(before@, self@, gi as int, rounds, theme_for(opt_view(requested_theme)), host_nickname@, qv, out));
                assert(some_draw_created(before@, self@, gi as int, rounds, theme_for(opt_view(requested_theme)), host_nickname@, out));
                assert(creation(before@, self@, game_id@, requested_rounds, opt_view(requested_theme), host_nickname@, out));
            }
            return out;
        }
        self.recent_questions = saved;
        let out: Result<(String, String), GameError> = Err(
            GameError::new(ErrorCode::InternalError, "No room code is free right now."),
        );
        proof {
            assert(self@.rooms == before@.rooms);
            assert(self@.games == before@.games);
            assert(self@.recent == before@.recent);
            assert(created_with(before@, self@, gi as int, rounds, theme_for(opt_view(requested_theme)), host_nickname@, qv, out));
        }
        out
    }

    /// The host sets up the next match of game `game_id` while the party is choosing or the
    /// match has finished. The questions are drawn, and recorded, before the room is found.
    pub fn configure_game(
        &mut self,
        code: &str,
        player_id: u128,
        game_id: &str,
        requested_rounds: u8,
        requested_theme: &str,
    ) -> (r: Result<(), GameError>)
        requires
            old(self).wf(),
        ensures
            final(self).wf(),
            configuration(old(self)@, final(self)@, code@, player_id, game_id@, requested_rounds, requested_theme@, r),
    {
        let ghost before = *self;
        let gi = match first_game(&self.games, game_id) {
            Some(i) => i,
            None => {
                return Err(GameError::new(ErrorCode::GameNotFound, "That game is unavailable."));
            },
        };
        assert(self@.games[gi as int] == self.games@[gi as int]@);
        let clamped: u8 = if requested_rounds < 1 {
            1
        } else if requested_rounds > MAX_ROUNDS {
            MAX_ROUNDS
        } else {
            requested_rounds
        };
        let cap: u8 = if self.games[gi].questions.len() > 255 {
            255
        } else {
            self.games[gi].questions.len() as u8
        };
        let rounds = if clamped < cap {
            clamped
        } else {
            cap
        };
        let queue = self.draw_for_game(gi, rounds as usize);
        let ghost qv = queue.deep_view();
        let ghost mid = *self;
        let (truths, dares) = truth_or_dare_pools(&self.games[gi]);
        let key = match self.find_room(code) {
            Some(k) => k,
            None => {
                return Err(room_not_found());
            },
        };
        let now = now_ms();
        let mut room = self.take_room(&key);
        let res = room.configure_game(player_id, &self.games[gi], rounds, requested_theme, queue, truths, dares, now);
        proof {
            lemma_room_at(mid@, code@);
            if res.is_ok() {
                lemma_wf_no_answers(room@);
            }
        }
        self.put_room(key, room, Ghost(mid), Ghost(code@));
        if res.is_err() {
            assert(self@.rooms =~= mid@.rooms);
        }
        res
    }
}


/// Room `r` after the members `ids` expire in turn, each removal stamped with the next of
/// `stamps` (a clock reading) and, where it hands the host role on, using the next of
/// `tokens` as the new host token.
pub open spec fn expire_all(r: RoomView, ids: Seq<u128>, tokens: Seq<Seq<char>>, stamps: Seq<u64>) -> RoomView
    decreases ids.len(),
{
    if ids.len() == 0 {
        r
    } else {
        let prev = expire_all(r, ids.drop_last(), tokens.drop_last(), stamps.drop_last());
        if is_member(prev, ids.last()) {
            expired_out(prev, ids.last(), tokens.last(), stamps.last())
        } else {
            prev
        }
    }
}

/// `after` is room `before` once the players expired at `now` are removed, with fresh host
/// tokens and each change stamped with the clock as it is read.
pub open spec fn swept(before: RoomView, after: RoomView, now: u64) -> bool {
    exists|tokens: Seq<Seq<char>>, stamps: Seq<u64>|
        #![trigger expire_all(before, expired_ids(before, now), tokens, stamps)]
        tokens.len() == expired_ids(before, now).len() && stamps.len() == expired_ids(before, now).len()
        && (forall|i: int| 0 <= i < tokens.len() ==> is_token(#[trigger] tokens[i]))
        && after == expire_all(before, expired_ids(before, now), tokens, stamps)
}

/// Whether a room is still open at `now`.
pub open spec fn open_at(now: u64) -> spec_fn(RoomView) -> bool {
    |r: RoomView| !room_expired(r, now)
}

/// `kept` is what stays of the rooms `cleaned` at `now`: those still open, under their codes.
pub open spec fn kept_open(cleaned: Map<Seq<char>, RoomView>, kept: Map<Seq<char>, RoomView>, now: u64) -> bool {
    &&& forall|k: Seq<char>| #[trigger] kept.dom().contains(k) <==> cleaned.dom().contains(k) && open_at(now)(cleaned[k])
    &&& forall|k: Seq<char>| #[trigger] kept.dom().contains(k) ==> kept[k] == cleaned[k]
}

/// `after` is what a clean-up at `now` leaves of the rooms `before`: each room swept of its
/// expired players, and only those still open then.
pub open spec fn cleaned_up(before: Map<Seq<char>, RoomView>, after: Map<Seq<char>, RoomView>, now: u64) -> bool {
    exists|cleaned: Map<Seq<char>, RoomView>|
        #[trigger] kept_open(cleaned, after, now) && cleaned.dom() == before.dom() && forall|k: Seq<char>|
            #[trigger] before.dom().contains(k) ==> swept(before[k], cleaned[k], now)
}

/// Removing an expired member keeps a room well formed, under the same code.
proof fn lemma_wf_expired_out(r: RoomView, id: u128, token: Seq<char>, now: u64)
    requires
        room_wf(r),
        is_member(r, id),
    ensures
        room_wf(expired_out(r, id, token, now)),
        expired_out(r, id, token, now).code == r.code,
{
    lemma_wf_departed(r, id);
    lemma_wf_play(departed(r, id), expired_out(r, id, token, now));
}

impl RoomManager {
    /// Removes, in every room, the players whose connection has been gone for the grace
    /// period at `now` (the host role passing to the first remaining player; each change
    /// stamped with the server clock as it is read), then closes the rooms that are over at
    /// `now`.
    pub fn cleanup_at(&mut self, now: u64)
        requires
            old(self).wf(),
        ensures
            final(self).wf(),
            final(self)@.games == old(self)@.games,
            final(self)@.recent == old(self)@.recent,
            cleaned_up(old(self)@.rooms, final(self)@.rooms, now),
    {
        let ghost before = *self;
        let ghost orig = self@.rooms;
        let keys = table_keys(&self.rooms);
        let ghost mut cleaned: Map<Seq<char>, RoomView> = Map::empty();
        let ghost mut done: Set<Seq<char>> = Set::empty();
        let mut t: usize = 0;
        while t < keys.len()
            invariant
                t <= keys.len(),
                manager_wf(before@),
                orig == before@.rooms,
                forall|i: int, j: int| 0 <= i < j < keys.len() ==> (#[trigger] keys@[i])@ != (#[trigger] keys@[j])@,
                forall|k: Seq<char>| #[trigger] orig.dom().contains(k) <==> exists|i: int|
                    0 <= i < keys.len() && (#[trigger] keys@[i])@ == k,
                forall|k: Seq<char>| #[trigger] done.contains(k) <==> exists|i: int| 0 <= i < t && (#[trigger] keys@[i])@ == k,
                cleaned.dom() == done,
                forall|k: Seq<char>| #[trigger] done.contains(k) ==> swept(orig[k], cleaned[k], now)
                    && cleaned[k].code == k && room_wf(cleaned[k]),
                forall|k: Seq<char>| #[trigger] self@.rooms.dom().contains(k) <==> (orig.dom().contains(k)
                    && !done.contains(k)) || (done.contains(k) && open_at(now)(cleaned[k])),
                forall|k: Seq<char>| #[trigger] self@.rooms.dom().contains(k) ==> self@.rooms[k] == (if done.contains(k) {
                    cleaned[k]
                } else {
                    orig[k]
                }),
                self@.rooms.dom().finite(),
                self.games == before.games,
                self.recent_questions == before.recent_questions,
            decreases keys.len() - t,
        {
            let ghost k = keys@[t as int]@;
            proof {
                assert(orig.dom().contains(k));
                if done.contains(k) {
                    let i = choose|i: int| 0 <= i < t && (#[trigger] keys@[i])@ == k;
                    assert(keys@[i]@ != keys@[t as int]@);
                }
                assert(self@.rooms.dom().contains(k));
            }
            let ghost at_start = self@.rooms;
            let mut room = match table_take(&mut self.rooms, keys[t].as_str()) {
                Some(r) => r,
                None => vstd::pervasive::unreached(),
            };
            assert(room@ == orig[k]);
            assert(room_wf(orig[k]));
            let ids = room.expired_players(now);
            let ghost r0 = room@;
            let ghost mut tokens: Seq<Seq<char>> = Seq::empty();
            let ghost mut stamps: Seq<u64> = Seq::empty();
            let mut e: usize = 0;
            while e < ids.len()
                invariant
                    e <= ids.len(),
                    ids@ == expired_ids(r0, now),
                    tokens.len() == e,
                    stamps.len() == e,
                    forall|i: int| 0 <= i < e ==> is_token(#[trigger] tokens[i]),
                    room@ == expire_all(r0, ids@.subrange(0, e as int), tokens, stamps),
                    room_wf(room@),
                    room@.code == r0.code,
                decreases ids.len() - e,
            {
                let token = generate_token();
                let ghost tv = token@;
                let ghost prev = room@;
                let stamp = now_ms();
                let removed = room.expire_player(ids[e], token, stamp);
                proof {
                    if removed {
                        lemma_wf_expired_out(prev, ids@[e as int], tv, stamp);
                    }
                    let sub = ids@.subrange(0, e + 1);
                    assert(sub.drop_last() =~= ids@.subrange(0, e as int));
                    assert(tokens.push(tv).drop_last() =~= tokens);
                    assert(stamps.push(stamp).drop_last() =~= stamps);
                    tokens = tokens.push(tv);
                    stamps = stamps.push(stamp);
                }
                e = e + 1;
            }
            proof {
                assert(ids@.subrange(0, ids.len() as int) =~= ids@);
                assert(swept(r0, room@, now));
            }
            let ghost rv = room@;
            let ghost taken = self@.rooms;
            if !room.is_expired(now) {
                table_put(&mut self.rooms, keys[t].clone(), room);
            }
            proof {
                assert(taken == at_start.remove(k));
                if open_at(now)(rv) {
                    assert(self@.rooms == taken.insert(k, rv));
                } else {
                    assert(self@.rooms == taken);
                }
                let old_done = done;
                cleaned = cleaned.insert(k, rv);
                done = done.insert(k);
                assert forall|k2: Seq<char>| #[trigger] done.contains(k2) <==> exists|i: int| 0 <= i < t + 1
                    && (#[trigger] keys@[i])@ == k2 by {
                    if done.contains(k2) && k2 != k {
                        assert(old_done.contains(k2));
                    }
                    if exists|i: int| 0 <= i < t + 1 && (#[trigger] keys@[i])@ == k2 {
                        let i = choose|i: int| 0 <= i < t + 1 && (#[trigger] keys@[i])@ == k2;
                        if i < t {
                            assert(old_done.contains(k2));
                        }
                    }
                }
                assert(cleaned.dom() =~= done);
            }
            t = t + 1;
        }
        proof {
            assert forall|k: Seq<char>| #[trigger] orig.dom().contains(k) implies done.contains(k) by {
                let i = choose|i: int| 0 <= i < keys.len() && (#[trigger] keys@[i])@ == k;
                assert(keys@[i]@ == k);
            }
            assert(cleaned.dom() =~= orig.dom());
            assert(kept_open(cleaned, self@.rooms, now));
            assert forall|k: Seq<char>| #[trigger] self@.rooms.dom().contains(k) implies self@.rooms[k].code == k
                && room_wf(self@.rooms[k]) by {
                assert(done.contains(k));
            }
            assert(cleaned_up(orig, self@.rooms, now));
            assert(self@.games == before@.games);
            assert(self@.recent == before@.recent);
        }
    }

    /// Removes expired players and closed rooms as of the server clock.
    pub fn cleanup_once(&mut self)
        requires
            old(self).wf(),
        ensures
            final(self).wf(),
            final(self)@.games == old(self)@.games,
            final(self)@.recent == old(self)@.recent,
            exists|now: u64| #[trigger] cleaned_up(old(self)@.rooms, final(self)@.rooms, now),
    {
        let now = now_ms();
        self.cleanup_at(now);
    }
}

} // verus!
