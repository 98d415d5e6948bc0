//! A room's life: leaving, removal of players, ending, choosing and configuring the next
//! game, and expiry of disconnected players.
use crate::catalog::{clone_questions, clone_strings, GameDefinition, GameView, Question, QuestionView};
use crate::departure::{departed, departure_ends_spotlight};
use crate::entries::{drop_key, find_key, first_index, has_key, lemma_first_index_range, without_key, Keyed};
use crate::model::{
    ErrorCode, GameError, GamePhase, NoticeView, Player, PlayerTally, PlayerView, Refusal, Room,
    RoomNotice, RoomView, TruthOrDarePhase,
};
use crate::room::{
    host_only, host_token_refusal, is_acting_host, player_ids, is_member, lemma_ids_deep, lemma_vec_push_deep, member_index,
    next_version, tally_set, time_after, touched, DISCONNECT_GRACE_MS,
};
use crate::text::str_equal;
use vstd::prelude::*;

verus! {

/// How long an ended room is kept so that everyone sees it ended: 10 seconds.
pub const ENDED_ROOM_GRACE_MS: u64 = 10_000;

pub open spec fn notice_of(id: u64, message: Seq<char>, kind: Seq<char>) -> NoticeView {
    NoticeView { id, message, kind }
}

fn make_notice(id: u64, message: String, kind: &str) -> (n: RoomNotice)
    ensures
        n@ == notice_of(id, message@, kind@),
{
    RoomNotice { id, message, kind: kind.to_owned() }
}

fn joined_text(parts: &Vec<&str>) -> (s: String)
    ensures
        s@ == parts@.map_values(|p: &str| p@).fold_left(Seq::<char>::empty(), |acc: Seq<char>, x: Seq<char>| acc + x),
{
    let mut s = String::new();
    let mut i: usize = 0;
    let ghost views = parts@.map_values(|p: &str| p@);
    let ghost f = |acc: Seq<char>, x: Seq<char>| acc + x;
    while i < parts.len()
        invariant
            i <= parts.len(),
            views == parts@.map_values(|p: &str| p@),
            f == (|acc: Seq<char>, x: Seq<char>| acc + x),
            s@ == views.subrange(0, i as int).fold_left(Seq::<char>::empty(), f),
        decreases parts.len() - i,
    {
        s.append(parts[i]);
        proof {
            assert(views.subrange(0, i + 1).drop_last() =~= views.subrange(0, i as int));
        }
        i = i + 1;
    }
    assert(views.subrange(0, parts.len() as int) =~= views);
    s
}

/// The notice when a player leaves: the room ends when nobody is left; the host's
/// departure hands the room to the first remaining player; otherwise the player has left.
pub open spec fn leave_notice(id: u64, nickname: Seq<char>, d: RoomView, was_host: bool) -> NoticeView {
    if d.players.len() == 0 {
        notice_of(id, "The room has ended."@, "room_ended"@)
    } else if was_host {
        notice_of(
            id,
            nickname + " left. "@ + d.players[0].nickname + " is now the host."@,
            "host_transferred"@,
        )
    } else {
        notice_of(id, nickname + " left the game."@, "player_left"@)
    }
}

/// The room after member `id` leaves: the room closes when empty; when the host leaves,
/// the first remaining player becomes host with a new host token and takes over the
/// player's connection state.
pub open spec fn left(r: RoomView, id: u128, token: Seq<char>, now: u64) -> RoomView {
    let d = departed(r, id);
    let nickname = r.players[member_index(r, id)].nickname;
    let was_host = r.host_player_id == id;
    let notice = Some(leave_notice(next_version(r.version), nickname, d, was_host));
    touched(
        if d.players.len() == 0 {
            RoomView { phase: GamePhase::Closed, notice, ..d }
        } else if was_host {
            RoomView {
                host_player_id: d.players[0].id,
                host_token: token,
                host_connected: d.players[0].connected,
                host_connection_id: d.players[0].connection_id,
                notice,
                ..d
            }
        } else {
            RoomView { notice, ..d }
        },
        now,
    )
}

/// Why removing a player with the host token is refused, if it is.
pub open spec fn kick_refusal(r: RoomView, token: Seq<char>, id: u128) -> Refusal {
    if host_token_refusal(r, token).is_some() {
        host_token_refusal(r, token)
    } else if id == r.host_player_id {
        Some((ErrorCode::Unauthorized, "The host cannot remove themselves."@))
    } else if r.phase != GamePhase::Lobby {
        Some((ErrorCode::InvalidPhase, "Players can only be removed in the lobby."@))
    } else if !is_member(r, id) {
        Some((ErrorCode::InvalidPlayer, "Player was not found."@))
    } else {
        None
    }
}

/// Why removing a player by the host's player id is refused, if it is.
pub open spec fn host_kick_refusal(r: RoomView, host: u128, id: u128) -> Refusal {
    if !is_acting_host(r, host) {
        Some(host_only())
    } else if id == r.host_player_id {
        Some((ErrorCode::Unauthorized, "The host cannot remove themselves."@))
    } else if !is_member(r, id) {
        Some((ErrorCode::InvalidPlayer, "Player was not found."@))
    } else {
        None
    }
}

/// The room with the match state cleared while the host chooses the next game.
pub open spec fn choosing_next(r: RoomView) -> RoomView {
    RoomView {
        phase: GamePhase::Choosing,
        answers: Seq::empty(),
        completions: Seq::empty(),
        challenges: Seq::empty(),
        truth_or_dare_revealed: false,
        truth_or_dare_phase: None,
        spotlight_order: Seq::empty(),
        reactions: Seq::empty(),
        highlight_categories: Seq::empty(),
        highlight_votes: Seq::empty(),
        highlight_skips: Seq::empty(),
        highlight_results: Seq::empty(),
        current_round_points: Seq::empty(),
        current_question: None,
        active_player_id: None,
        notice: Some(
            notice_of(
                next_version(r.version),
                "The host is choosing the next game."@,
                "choosing_game"@,
            ),
        ),
        ..r
    }
}

/// The themes a room may use; any other request gets `neon-night`.
pub open spec fn normalized_theme(theme: Seq<char>) -> Seq<char> {
    if theme == "ocean-blue"@ || theme == "sunset-glow"@ || theme == "emerald"@ || theme
        == "purple-galaxy"@ || theme == "sakura"@ {
        theme
    } else {
        "neon-night"@
    }
}

/// Every player with a score of 0.
pub open spec fn zero_scores(players: Seq<PlayerView>) -> Seq<(u128, u32)>
    decreases players.len(),
{
    if players.len() == 0 {
        Seq::empty()
    } else {
        tally_set(zero_scores(players.drop_last()), players.last().id, 0)
    }
}

/// The room set up for a new match of `game` with `rounds` rounds, the question `queue`
/// and the Truth or Dare prompt pools, back in the lobby with every score at 0.
pub open spec fn configured(
    r: RoomView,
    game: GameView,
    rounds: u8,
    theme: Seq<char>,
    queue: Seq<QuestionView>,
    truths: Seq<Seq<char>>,
    dares: Seq<Seq<char>>,
) -> RoomView {
    RoomView {
        game_id: game.id,
        game_title: game.title,
        response_mode: game.response_mode,
        experience: game.experience,
        theme: normalized_theme(theme),
        max_rounds: rounds,
        question_queue: queue,
        current_question: None,
        current_round: 0,
        answers: Seq::empty(),
        completions: Seq::empty(),
        challenges: Seq::empty(),
        truth_or_dare_revealed: false,
        truth_or_dare_phase: if game.id == "truth-or-dare"@ {
            Some(TruthOrDarePhase::Choosing)
        } else {
            None
        },
        spotlight_order: Seq::empty(),
        spotlight_index: 0,
        rerolls_used: Seq::empty(),
        reactions: Seq::empty(),
        highlight_categories: Seq::empty(),
        highlight_votes: Seq::empty(),
        highlight_skips: Seq::empty(),
        highlight_results: Seq::empty(),
        historical_highlights: Seq::empty(),
        reaction_totals: Seq::empty(),
        truth_prompts: truths,
        dare_prompts: dares,
        used_truth_prompts: Seq::empty(),
        used_dare_prompts: Seq::empty(),
        scores: zero_scores(r.players),
        current_round_points: Seq::empty(),
        round_history: Seq::empty(),
        active_player_id: None,
        phase: GamePhase::Lobby,
        notice: Some(notice_of(next_version(r.version), game.title + " is ready!"@, "game_selected"@)),
        ..r
    }
}

/// A player whose connection has been gone for the whole grace period.
pub open spec fn player_expired(p: PlayerView, now: u64) -> bool {
    !p.connected && (if now >= p.last_seen {
        now - p.last_seen
    } else {
        0
    }) >= DISCONNECT_GRACE_MS
}

/// Whether a player's connection has been gone for the grace period at `now`.
pub open spec fn expired_at(now: u64) -> spec_fn(PlayerView) -> bool {
    |p: PlayerView| player_expired(p, now)
}

/// The ids of the players of `r` whose connection has been gone for the grace period at
/// `now`, in roster order.
pub open spec fn expired_ids(r: RoomView, now: u64) -> Seq<u128> {
    player_ids(r.players.filter(expired_at(now)))
}

/// The room after expired member `id` is removed: when the host expires, the first
/// remaining player becomes host with a new host token.
pub open spec fn expired_out(r: RoomView, id: u128, token: Seq<char>, now: u64) -> RoomView {
    let d = departed(r, id);
    let name = r.players[member_index(r, id)].nickname;
    let was_host = r.host_player_id == id;
    let n = next_version(r.version);
    touched(
        if was_host && d.players.len() > 0 {
            RoomView {
                host_player_id: d.players[0].id,
                host_token: token,
                host_connected: d.players[0].connected,
                notice: Some(
                    notice_of(
                        n,
                        name + " disconnected. "@ + d.players[0].nickname + " is now the host."@,
                        "host_transferred"@,
                    ),
                ),
                ..d
            }
        } else {
            RoomView { notice: Some(notice_of(n, name + " left the game."@, "player_left"@)), ..d }
        },
        now,
    )
}

/// A room is over: past its expiry, or idle for the active lifetime.
pub open spec fn room_expired(r: RoomView, now: u64) -> bool {
    now >= r.expires_at || (if now >= r.last_activity {
        now - r.last_activity
    } else {
        0
    }) >= crate::room::ACTIVE_ROOM_LIFETIME_MS
}

impl Room {
    /// Member `player_id` leaves the room.
    pub fn leave(&mut self, player_id: u128, new_host_token: String, now: u64) -> (r: Result<(), GameError>)
        ensures
            r.is_err() <==> !is_member(old(self)@, player_id),
            r.is_err() ==> final(self)@ == old(self)@ && r.unwrap_err()@ == (
                ErrorCode::InvalidPlayer,
                "Player is not in this room."@,
            ),
            r.is_ok() ==> final(self)@ == left(old(self)@, player_id, new_host_token@, now),
    {
        let was_host = self.host_player_id == player_id;
        let nickname = match self.remove_player_state(player_id) {
            Some(n) => n,
            None => {
                return Err(GameError::new(ErrorCode::InvalidPlayer, "Player is not in this room."));
            },
        };
        let id = self.version.wrapping_add(1);
        if self.players.len() == 0 {
            self.phase = GamePhase::Closed;
            self.notice = Some(make_notice(id, String::from_str("The room has ended."), "room_ended"));
        } else if was_host {
            self.host_player_id = self.players[0].id;
            self.host_token = new_host_token;
            self.host_connected = self.players[0].connected;
            self.host_connection_id = self.players[0].connection_id;
            let parts = vec![nickname.as_str(), " left. ", self.players[0].nickname.as_str(), " is now the host."];
            let message = joined_text(&parts);
            proof {
                assert(self@.players[0] == self.players[0].deep_view());
                reveal_with_fuel(Seq::fold_left, 5);
                assert(parts@.map_values(|p: &str| p@).subrange(0, 4) =~= parts@.map_values(|p: &str| p@));
            }
            self.notice = Some(make_notice(id, message, "host_transferred"));
        } else {
            let parts = vec![nickname.as_str(), " left the game."];
            let message = joined_text(&parts);
            proof {
                reveal_with_fuel(Seq::fold_left, 3);
            }
            self.notice = Some(make_notice(id, message, "player_left"));
        }
        self.changed(now);
        Ok(())
    }

    /// The host removes a player from the lobby, using the host token.
    pub fn kick_player(&mut self, token: &str, player_id: u128, now: u64) -> (r: Result<(), GameError>)
        ensures
            r.is_err() <==> kick_refusal(old(self)@, token@, player_id).is_some(),
            r.is_err() ==> final(self)@ == old(self)@ && r.unwrap_err()@ == kick_refusal(old(self)@, token@, player_id).unwrap(),
            r.is_ok() ==> final(self)@ == touched(
                RoomView {
                    players: without_key::<Player>(old(self)@.players, player_id),
                    scores: without_key::<PlayerTally>(old(self)@.scores, player_id),
                    ..old(self)@
                },
                now,
            ),
    {
        match self.authorize_host(token) {
            Err(e) => {
                return Err(e);
            },
            Ok(()) => {},
        }
        if player_id == self.host_player_id {
            return Err(GameError::new(ErrorCode::Unauthorized, "The host cannot remove themselves."));
        }
        if self.phase != GamePhase::Lobby {
            return Err(GameError::new(ErrorCode::InvalidPhase, "Players can only be removed in the lobby."));
        }
        if !self.has_player(player_id) {
            return Err(GameError::new(ErrorCode::InvalidPlayer, "Player was not found."));
        }
        drop_key(&mut self.players, player_id);
        drop_key(&mut self.scores, player_id);
        self.changed(now);
        Ok(())
    }

    /// The host removes a member, identified by the host's player id.
    pub fn kick_player_by_player(&mut self, host_id: u128, player_id: u128, now: u64) -> (r: Result<(), GameError>)
        ensures
            r.is_err() <==> host_kick_refusal(old(self)@, host_id, player_id).is_some(),
            r.is_err() ==> final(self)@ == old(self)@ && r.unwrap_err()@ == host_kick_refusal(old(self)@, host_id, player_id).unwrap(),
            r.is_ok() ==> final(self)@ == touched(
                RoomView {
                    notice: Some(notice_of(
                        next_version(old(self)@.version),
                        old(self)@.players[member_index(old(self)@, player_id)].nickname + " was removed from the party."@,
                        "player_left"@,
                    )),
                    ..departed(old(self)@, player_id)
                },
                now,
            ),
    {
        match self.authorize_player_host(host_id) {
            Err(e) => {
                return Err(e);
            },
            Ok(()) => {},
        }
        if player_id == self.host_player_id {
            return Err(GameError::new(ErrorCode::Unauthorized, "The host cannot remove themselves."));
        }
        let nickname = match self.remove_player_state(player_id) {
            Some(n) => n,
            None => {
                return Err(GameError::new(ErrorCode::InvalidPlayer, "Player was not found."));
            },
        };
        let parts = vec![nickname.as_str(), " was removed from the party."];
        let message = joined_text(&parts);
        proof {
            reveal_with_fuel(Seq::fold_left, 3);
        }
        let id = self.version.wrapping_add(1);
        self.notice = Some(make_notice(id, message, "player_left"));
        self.changed(now);
        Ok(())
    }

    /// The host ends the match, using the host token.
    pub fn end_game(&mut self, token: &str, now: u64) -> (r: Result<(), GameError>)
        ensures
            r.is_err() <==> host_token_refusal(old(self)@, token@).is_some(),
            r.is_err() ==> final(self)@ == old(self)@ && r.unwrap_err()@ == host_token_refusal(old(self)@, token@).unwrap(),
            r.is_ok() ==> final(self)@ == touched(RoomView { phase: GamePhase::Finished, ..old(self)@ }, now),
    {
        match self.authorize_host(token) {
            Err(e) => {
                return Err(e);
            },
            Ok(()) => {},
        }
        self.phase = GamePhase::Finished;
        self.changed(now);
        Ok(())
    }

    /// The host closes the room for everyone.
    pub fn end_room_by_player(&mut self, player_id: u128, now: u64) -> (r: Result<(), GameError>)
        ensures
            r.is_err() <==> !is_acting_host(old(self)@, player_id),
            r.is_err() ==> final(self)@ == old(self)@ && r.unwrap_err()@ == host_only(),
            r.is_ok() ==> final(self)@ == touched(
                RoomView {
                    phase: GamePhase::Closed,
                    notice: Some(notice_of(
                        next_version(old(self)@.version),
                        "The host ended the room. Thanks for playing!"@,
                        "room_ended"@,
                    )),
                    expires_at: time_after(now, ENDED_ROOM_GRACE_MS),
                    ..old(self)@
                },
                now,
            ),
    {
        match self.authorize_player_host(player_id) {
            Err(e) => {
                return Err(e);
            },
            Ok(()) => {},
        }
        self.phase = GamePhase::Closed;
        let id = self.version.wrapping_add(1);
        self.notice = Some(make_notice(id, String::from_str("The host ended the room. Thanks for playing!"), "room_ended"));
        self.expires_at = now.saturating_add(ENDED_ROOM_GRACE_MS);
        self.changed(now);
        Ok(())
    }

    /// After a finished match, the host starts choosing the next game; the roster stays.
    pub fn choose_another_game(&mut self, player_id: u128, now: u64) -> (r: Result<(), GameError>)
        ensures
            r.is_err() <==> !is_acting_host(old(self)@, player_id) || old(self)@.phase != GamePhase::Finished,
            r.is_err() ==> final(self)@ == old(self)@ && r.unwrap_err()@ == (if !is_acting_host(old(self)@, player_id) {
                host_only()
            } else {
                (ErrorCode::InvalidPhase, "Finish the current game first."@)
            }),
            r.is_ok() ==> final(self)@ == touched(choosing_next(old(self)@), now),
    {
        match self.authorize_player_host(player_id) {
            Err(e) => {
                return Err(e);
            },
            Ok(()) => {},
        }
        if self.phase != GamePhase::Finished {
            return Err(GameError::new(ErrorCode::InvalidPhase, "Finish the current game first."));
        }
        self.phase = GamePhase::Choosing;
        self.answers = Vec::new();
        self.completions = Vec::new();
        self.truth_or_dare_states = Vec::new();
        self.truth_or_dare_revealed = false;
        self.truth_or_dare_phase = None;
        self.spotlight_order = Vec::new();
        self.reactions = Vec::new();
        self.highlight_categories = Vec::new();
        self.highlight_votes = Vec::new();
        self.highlight_skips = Vec::new();
        self.highlight_results = Vec::new();
        self.current_round_points = Vec::new();
        self.current_question = None;
        self.active_player_id = None;
        let id = self.version.wrapping_add(1);
        self.notice = Some(make_notice(id, String::from_str("The host is choosing the next game."), "choosing_game"));
        assert(self.answers.deep_view() =~= Seq::empty());
        assert(self.truth_or_dare_states.deep_view() =~= Seq::empty());
        assert(self.reactions.deep_view() =~= Seq::empty());
        assert(self.highlight_categories.deep_view() =~= Seq::empty());
        assert(self.highlight_votes.deep_view() =~= Seq::empty());
        assert(self.highlight_results.deep_view() =~= Seq::empty());
        assert(self.current_round_points.deep_view() =~= Seq::empty());
        self.changed(now);
        Ok(())
    }

    /// Every player with a score of 0.
    fn zeroed_scores(&self) -> (s: Vec<PlayerTally>)
        ensures
            s.deep_view() == zero_scores(self@.players),
    {
        let mut s: Vec<PlayerTally> = Vec::new();
        let mut i: usize = 0;
        while i < self.players.len()
            invariant
                i <= self.players.len(),
                s.deep_view() == zero_scores(self@.players.subrange(0, i as int)),
            decreases self.players.len() - i,
        {
            proof {
                assert(self@.players.subrange(0, i + 1).drop_last() =~= self@.players.subrange(0, i as int));
                assert(self@.players[i as int] == self.players[i as int].deep_view());
                lemma_first_index_range::<PlayerTally>(s.deep_view(), self.players[i as int].id);
            }
            let id = self.players[i].id;
            let ghost before = s;
            match find_key(&s, id) {
                Some(k) => {
                    s[k].value = 0;
                    proof {
                        crate::room::lemma_vec_update_deep(before, s, k as int);
                    }
                },
                None => {
                    let t = PlayerTally { player_id: id, value: 0 };
                    s.push(t);
                    proof {
                        lemma_vec_push_deep(before, s, t);
                    }
                },
            }
            i = i + 1;
        }
        assert(self@.players.subrange(0, self.players.len() as int) =~= self@.players);
        s
    }

    /// The host sets up the next match of `game` (with its question queue and prompt
    /// pools already drawn) while the party is choosing or the match is finished.
    pub fn configure_game(
        &mut self,
        player_id: u128,
        game: &GameDefinition,
        rounds: u8,
        theme: &str,
        queue: Vec<Question>,
        truths: Vec<String>,
        dares: Vec<String>,
        now: u64,
    ) -> (r: Result<(), GameError>)
        ensures
            r.is_err() <==> !is_acting_host(old(self)@, player_id) || !(old(self)@.phase == GamePhase::Choosing
                || old(self)@.phase == GamePhase::Finished),
            r.is_err() ==> final(self)@ == old(self)@ && r.unwrap_err()@ == (if !is_acting_host(old(self)@, player_id) {
                host_only()
            } else {
                (ErrorCode::InvalidPhase, "The party is not choosing a game."@)
            }),
            r.is_ok() ==> final(self)@ == touched(
                configured(old(self)@, game@, rounds, theme@, queue.deep_view(), truths.deep_view(), dares.deep_view()),
                now,
            ),
    {
        match self.authorize_player_host(player_id) {
            Err(e) => {
                return Err(e);
            },
            Ok(()) => {},
        }
        if !(self.phase == GamePhase::Choosing || self.phase == GamePhase::Finished) {
            return Err(GameError::new(ErrorCode::InvalidPhase, "The party is not choosing a game."));
        }
        let ghost r0 = self@;
        self.game_id = game.id.clone();
        self.game_title = game.title.clone();
        self.response_mode = game.response_mode;
        self.experience = game.experience;
        self.theme = normalize_theme(theme);
        self.max_rounds = rounds;
        self.question_queue = queue;
        self.current_question = None;
        self.current_round = 0;
        self.answers = Vec::new();
        self.completions = Vec::new();
        self.truth_or_dare_states = Vec::new();
        self.truth_or_dare_revealed = false;
        self.truth_or_dare_phase = if str_equal(self.game_id.as_str(), "truth-or-dare") {
            Some(TruthOrDarePhase::Choosing)
        } else {
            None
        };
        self.spotlight_order = Vec::new();
        self.spotlight_index = 0;
        self.rerolls_used = Vec::new();
        self.reactions = Vec::new();
        self.highlight_categories = Vec::new();
        self.highlight_votes = Vec::new();
        self.highlight_skips = Vec::new();
        self.highlight_results = Vec::new();
        self.historical_highlights = Vec::new();
        self.reaction_totals = Vec::new();
        self.truth_prompts = truths;
        self.dare_prompts = dares;
        self.used_truth_prompts = Vec::new();
        self.used_dare_prompts = Vec::new();
        self.scores = self.zeroed_scores();
        self.current_round_points = Vec::new();
        self.round_history = Vec::new();
        self.active_player_id = None;
        self.phase = GamePhase::Lobby;
        let id = self.version.wrapping_add(1);
        let mut message = self.game_title.clone();
        message.append(" is ready!");
        self.notice = Some(make_notice(id, message, "game_selected"));
        assert(self.answers.deep_view() =~= Seq::empty());
        assert(self.truth_or_dare_states.deep_view() =~= Seq::empty());
        assert(self.reactions.deep_view() =~= Seq::empty());
        assert(self.highlight_categories.deep_view() =~= Seq::empty());
        assert(self.highlight_votes.deep_view() =~= Seq::empty());
        assert(self.highlight_results.deep_view() =~= Seq::empty());
        assert(self.historical_highlights.deep_view() =~= Seq::empty());
        assert(self.reaction_totals.deep_view() =~= Seq::empty());
        assert(self.used_truth_prompts.deep_view() =~= Seq::empty());
        assert(self.used_dare_prompts.deep_view() =~= Seq::empty());
        assert(self.current_round_points.deep_view() =~= Seq::empty());
        assert(self.round_history.deep_view() =~= Seq::empty());
        self.changed(now);
        Ok(())
    }

    /// Removes expired member `player_id`, handing the room on when the host expires.
    pub fn expire_player(&mut self, player_id: u128, new_host_token: String, now: u64) -> (removed: bool)
        ensures
            removed == is_member(old(self)@, player_id),
            !removed ==> final(self)@ == old(self)@,
            removed ==> final(self)@ == expired_out(old(self)@, player_id, new_host_token@, now),
    {
        let was_host = self.host_player_id == player_id;
        let name = match self.remove_player_state(player_id) {
            Some(n) => n,
            None => {
                return false;
            },
        };
        let id = self.version.wrapping_add(1);
        if was_host && self.players.len() > 0 {
            self.host_player_id = self.players[0].id;
            self.host_token = new_host_token;
            self.host_connected = self.players[0].connected;
            let parts = vec![name.as_str(), " disconnected. ", self.players[0].nickname.as_str(), " is now the host."];
            let message = joined_text(&parts);
            proof {
                assert(self@.players[0] == self.players[0].deep_view());
                reveal_with_fuel(Seq::fold_left, 5);
            }
            self.notice = Some(make_notice(id, message, "host_transferred"));
        } else {
            let parts = vec![name.as_str(), " left the game."];
            let message = joined_text(&parts);
            proof {
                reveal_with_fuel(Seq::fold_left, 3);
            }
            self.notice = Some(make_notice(id, message, "player_left"));
        }
        self.changed(now);
        true
    }

    /// The ids of the players whose connection has been gone for the grace period at
    /// `now`, in roster order.
    pub fn expired_players(&self, now: u64) -> (ids: Vec<u128>)
        ensures
            ids@ == expired_ids(self@, now),
    {
        let ghost ps = self@.players;
        let mut ids: Vec<u128> = Vec::new();
        let mut i: usize = 0;
        while i < self.players.len()
            invariant
                i <= self.players.len(),
                ps == self@.players,
                ids@ == player_ids(ps.subrange(0, i as int).filter(expired_at(now))),
            decreases self.players.len() - i,
        {
            let p = &self.players[i];
            assert(ps[i as int] == p.deep_view());
            proof {
                ps.subrange(0, i as int).lemma_filter_push(ps[i as int], expired_at(now));
                assert(ps.subrange(0, i as int).push(ps[i as int]) =~= ps.subrange(0, i + 1));
            }
            let gone = if now >= p.last_seen {
                now - p.last_seen
            } else {
                0
            };
            if !p.connected && gone >= DISCONNECT_GRACE_MS {
                let ghost before = ids@;
                ids.push(p.id);
                assert(player_ids(ps.subrange(0, i as int).filter(expired_at(now)).push(ps[i as int])) =~= before.push(p.id));
            }
            i = i + 1;
        }
        assert(ps.subrange(0, self.players.len() as int) =~= ps);
        ids
    }

    /// Whether the room is over at `now`.
    pub fn is_expired(&self, now: u64) -> (b: bool)
        ensures
            b == room_expired(self@, now),
    {
        let idle = if now >= self.last_activity {
            now - self.last_activity
        } else {
            0
        };
        now >= self.expires_at || idle >= crate::room::ACTIVE_ROOM_LIFETIME_MS
    }
}

/// The theme a room gets for a requested theme.
pub fn normalize_theme(theme: &str) -> (t: String)
    ensures
        t@ == normalized_theme(theme@),
{
    if str_equal(theme, "ocean-blue") || str_equal(theme, "sunset-glow") || str_equal(theme, "emerald")
        || str_equal(theme, "purple-galaxy") || str_equal(theme, "sakura") {
        theme.to_owned()
    } else {
        String::from_str("neon-night")
    }
}

} // verus!
