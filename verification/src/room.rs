//! The rules that act on one room: membership, connections and authorization.
//!
//! Every change to a room's visible state ends with [`Room::changed`], which raises the version
//! and refreshes the activity time.
use crate::entries::{find_key, first_index, has_key, lemma_first_index_range, Keyed};
use crate::model::{
    ErrorCode, GameError, GamePhase, Player, PlayerTally, PlayerView, Refusal, Room, RoomView,
    MAX_PLAYERS,
};
use crate::nickname::{nickname_ok, unique_nickname, unique_nickname_spec, validate_nickname};
use crate::text::{str_equal, trim_spec};
use vstd::prelude::*;

verus! {

/// How long a disconnected player, or an idle room, is kept: 30 seconds.
pub const DISCONNECT_GRACE_MS: u64 = 30_000;

/// How long a room with a connected player lives after its last activity: two hours.
pub const ACTIVE_ROOM_LIFETIME_MS: u64 = 7_200_000;

/// `a + b`, held at `u64::MAX`.
pub open spec fn time_after(a: u64, b: u64) -> u64 {
    if a + b > u64::MAX {
        u64::MAX
    } else {
        (a + b) as u64
    }
}

/// The next version number (wrapping as unsigned addition does).
pub open spec fn next_version(v: u64) -> u64 {
    if v == u64::MAX {
        0
    } else {
        (v + 1) as u64
    }
}

/// Some player holds a live connection.
pub open spec fn any_connected(players: Seq<PlayerView>) -> bool {
    exists|i: int| 0 <= i < players.len() && (#[trigger] players[i]).connected
}

/// The room after an update: a new version, the activity time set to `now`, and, while
/// someone is connected, the expiry pushed to two hours after `now`.
pub open spec fn touched(r: RoomView, now: u64) -> RoomView {
    RoomView {
        version: next_version(r.version),
        last_activity: now,
        expires_at: if any_connected(r.players) {
            time_after(now, ACTIVE_ROOM_LIFETIME_MS)
        } else {
            r.expires_at
        },
        ..r
    }
}

/// The players of `r`, as ids.
pub open spec fn player_ids(players: Seq<PlayerView>) -> Seq<u128> {
    players.map_values(|p: PlayerView| p.id)
}

/// `id` names a player of the room.
pub open spec fn is_member(r: RoomView, id: u128) -> bool {
    has_key::<Player>(r.players, id)
}

/// The position of player `id` in the room (the first, should there be several), or -1.
pub open spec fn member_index(r: RoomView, id: u128) -> int {
    first_index::<Player>(r.players, id)
}

/// `s` with the value of `id` set to `v`: replaced where `id` has an entry, appended otherwise.
pub open spec fn tally_set(s: Seq<(u128, u32)>, id: u128, v: u32) -> Seq<(u128, u32)> {
    let i = first_index::<PlayerTally>(s, id);
    if i >= 0 {
        s.update(i, (id, v))
    } else {
        s.push((id, v))
    }
}

pub proof fn lemma_vec_push_deep<T: DeepView>(before: Vec<T>, after: Vec<T>, x: T)
    requires
        after@ == before@.push(x),
    ensures
        after.deep_view() == before.deep_view().push(x.deep_view()),
{
    assert(after.deep_view() =~= before.deep_view().push(x.deep_view()));
}

pub proof fn lemma_vec_update_deep<T: DeepView>(before: Vec<T>, after: Vec<T>, i: int)
    requires
        0 <= i < before.len(),
        after@ =~= before@.update(i, after@[i]),
    ensures
        after.deep_view() == before.deep_view().update(i, after@[i].deep_view()),
{
    assert(after.deep_view() =~= before.deep_view().update(i, after@[i].deep_view()));
}

pub proof fn lemma_ids_deep(v: Vec<u128>)
    ensures
        v.deep_view() == v@,
{
    assert(v.deep_view() =~= v@);
}

/// Why a join is refused, if it is: the game has started, the room is full, or the
/// nickname is not acceptable, checked in that order.
pub open spec fn join_refusal(r: RoomView, nickname: Seq<char>) -> Refusal {
    if !(r.phase == GamePhase::Lobby || r.phase == GamePhase::Choosing) {
        Some((ErrorCode::RoomLocked, "The game has already started."@))
    } else if r.players.len() >= MAX_PLAYERS {
        Some((ErrorCode::RoomFull, "The room is full."@))
    } else if !nickname_ok(trim_spec(nickname)) {
        Some(
            (
                ErrorCode::InvalidNickname,
                "Nickname must be 1 to 20 characters and contain no control characters."@,
            ),
        )
    } else {
        None
    }
}

/// The room after player `id` joins with the requested nickname and session token.
pub open spec fn joined(
    r: RoomView,
    nickname: Seq<char>,
    id: u128,
    token: Seq<char>,
    now: u64,
) -> RoomView {
    touched(
        RoomView {
            players: r.players.push(
                PlayerView {
                    id,
                    nickname: unique_nickname_spec(r.players, trim_spec(nickname)),
                    session_token: token,
                    connected: false,
                    last_seen: now,
                    connection_id: None,
                },
            ),
            scores: tally_set(r.scores, id, 0),
            ..r
        },
        now,
    )
}

/// The refusal of a host-only request from anyone but the host.
pub open spec fn host_only() -> (ErrorCode, Seq<char>) {
    (ErrorCode::Unauthorized, "Only the current host can do that."@)
}

/// Who may act as host by player id: the host, while still a member.
pub open spec fn is_acting_host(r: RoomView, id: u128) -> bool {
    r.host_player_id == id && is_member(r, id)
}

/// Why a host-token request is refused, if it is: a wrong token, then a disconnected host.
pub open spec fn host_token_refusal(r: RoomView, token: Seq<char>) -> Refusal {
    if r.host_token != token {
        Some((ErrorCode::Unauthorized, "Host authorization required."@))
    } else if !r.host_connected {
        Some((ErrorCode::HostDisconnected, "Host is disconnected."@))
    } else {
        None
    }
}

/// `players` with the player at `i` marked connected through `connection` at `now`.
pub open spec fn connect_at(players: Seq<PlayerView>, i: int, connection: u128, now: u64) -> Seq<
    PlayerView,
> {
    if 0 <= i < players.len() {
        players.update(
            i,
            PlayerView {
                connected: true,
                connection_id: Some(connection),
                last_seen: now,
                ..players[i]
            },
        )
    } else {
        players
    }
}

/// `players` with the player at `i` marked disconnected at `now`.
pub open spec fn disconnect_at(players: Seq<PlayerView>, i: int, now: u64) -> Seq<PlayerView> {
    if 0 <= i < players.len() {
        players.update(
            i,
            PlayerView { connected: false, connection_id: None, last_seen: now, ..players[i] },
        )
    } else {
        players
    }
}

/// The room after its host signs in through `connection`.
pub open spec fn host_signed_in(r: RoomView, connection: u128, now: u64) -> RoomView {
    touched(
        RoomView {
            host_connected: true,
            host_connection_id: Some(connection),
            host_last_seen: now,
            expires_at: time_after(now, ACTIVE_ROOM_LIFETIME_MS),
            players: connect_at(r.players, member_index(r, r.host_player_id), connection, now),
            ..r
        },
        now,
    )
}

/// The room after player `id` signs in through `connection`.
pub open spec fn player_signed_in(r: RoomView, id: u128, connection: u128, now: u64) -> RoomView {
    let players = connect_at(r.players, member_index(r, id), connection, now);
    touched(
        if r.host_player_id == id {
            RoomView {
                players,
                host_connected: true,
                host_connection_id: Some(connection),
                ..r
            }
        } else {
            RoomView { players, ..r }
        },
        now,
    )
}

/// The room after the host's connection `connection` closes.
pub open spec fn host_signed_out(r: RoomView, connection: u128, now: u64) -> RoomView {
    if r.host_connection_id == Some(connection) {
        touched(
            RoomView {
                host_connected: false,
                host_connection_id: None,
                host_last_seen: now,
                expires_at: time_after(now, DISCONNECT_GRACE_MS),
                players: disconnect_at(r.players, member_index(r, r.host_player_id), now),
                ..r
            },
            now,
        )
    } else {
        r
    }
}

/// The position of player `id` among players whose live connection is `connection`, or -1.
pub open spec fn connection_index(players: Seq<PlayerView>, id: u128, connection: u128) -> int
    decreases players.len(),
{
    if players.len() == 0 {
        -1
    } else if players[0].id == id && players[0].connection_id == Some(connection) {
        0
    } else {
        let k = connection_index(players.drop_first(), id, connection);
        if k < 0 {
            -1
        } else {
            k + 1
        }
    }
}

proof fn lemma_connection_index(players: Seq<PlayerView>, id: u128, connection: u128, i: int)
    requires
        0 <= i <= players.len(),
        forall|k: int|
            0 <= k < i ==> !((#[trigger] players[k]).id == id && players[k].connection_id == Some(
                connection,
            )),
        i < players.len() ==> players[i].id == id && players[i].connection_id == Some(connection),
    ensures
        connection_index(players, id, connection) == (if i < players.len() {
            i
        } else {
            -1
        }),
    decreases i,
{
    if players.len() > 0 && i > 0 {
        assert forall|k: int| 0 <= k < i - 1 implies !((#[trigger] players.drop_first()[k]).id
            == id && players.drop_first()[k].connection_id == Some(connection)) by {
            assert(players.drop_first()[k] == players[k + 1]);
        }
        lemma_connection_index(players.drop_first(), id, connection, i - 1);
    }
}

/// The position of a connection is -1 or a position of the player holding it.
pub proof fn lemma_connection_index_range(players: Seq<PlayerView>, id: u128, connection: u128)
    ensures
        -1 <= connection_index(players, id, connection) < players.len(),
        connection_index(players, id, connection) >= 0 ==> players[connection_index(
            players,
            id,
            connection,
        )].id == id,
    decreases players.len(),
{
    if players.len() > 0 {
        lemma_connection_index_range(players.drop_first(), id, connection);
        let k = connection_index(players.drop_first(), id, connection);
        if k >= 0 {
            assert(players[k + 1] == players.drop_first()[k]);
        }
    }
}

/// The room after player `id`'s connection `connection` closes.
pub open spec fn player_signed_out(r: RoomView, id: u128, connection: u128, now: u64) -> RoomView {
    let i = connection_index(r.players, id, connection);
    if i >= 0 {
        let players = disconnect_at(r.players, i, now);
        touched(
            if r.host_player_id == id {
                RoomView {
                    players,
                    host_connected: false,
                    host_connection_id: None,
                    host_last_seen: now,
                    ..r
                }
            } else {
                RoomView { players, ..r }
            },
            now,
        )
    } else {
        r
    }
}

impl Room {
    /// Marks the room as updated at `now`.
    pub fn changed(&mut self, now: u64)
        ensures
            final(self)@ == touched(old(self)@, now),
    {
        self.version = self.version.wrapping_add(1);
        self.last_activity = now;
        let mut connected = false;
        let mut i: usize = 0;
        while i < self.players.len()
            invariant
                i <= self.players.len(),
                connected == exists|k: int|
                    0 <= k < i && (#[trigger] self.players.deep_view()[k]).connected,
            decreases self.players.len() - i,
        {
            assert(self.players.deep_view()[i as int].connected == self.players@[i as int].connected);
            if self.players[i].connected {
                connected = true;
            }
            i = i + 1;
        }
        if connected {
            self.expires_at = now.saturating_add(ACTIVE_ROOM_LIFETIME_MS);
        }
    }

    /// Whether `id` names a player of this room.
    pub fn has_player(&self, id: u128) -> (r: bool)
        ensures
            r == is_member(self@, id),
    {
        find_key(&self.players, id).is_some()
    }

    /// Allows the request only from the current host, identified by player id.
    pub fn authorize_player_host(&self, player_id: u128) -> (r: Result<(), GameError>)
        ensures
            r.is_ok() <==> is_acting_host(self@, player_id),
            r.is_err() ==> r.unwrap_err()@ == host_only(),
    {
        if self.host_player_id != player_id || !self.has_player(player_id) {
            return Err(GameError::new(ErrorCode::Unauthorized, "Only the current host can do that."));
        }
        Ok(())
    }

    /// Allows the request only with the host token, while the host is connected.
    pub fn authorize_host(&self, token: &str) -> (r: Result<(), GameError>)
        ensures
            r.is_ok() <==> host_token_refusal(self@, token@).is_none(),
            r.is_err() ==> r.unwrap_err()@ == host_token_refusal(self@, token@).unwrap(),
    {
        if !str_equal(self.host_token.as_str(), token) {
            return Err(GameError::new(ErrorCode::Unauthorized, "Host authorization required."));
        }
        if !self.host_connected {
            return Err(GameError::new(ErrorCode::HostDisconnected, "Host is disconnected."));
        }
        Ok(())
    }

    /// Adds player `player_id` under a trimmed, validated, de-duplicated nickname.
    pub fn join(&mut self, nickname: &str, player_id: u128, token: String, now: u64) -> (r: Result<
        (),
        GameError,
    >)
        ensures
            r.is_err() <==> join_refusal(old(self)@, nickname@).is_some(),
            r.is_err() ==> r.unwrap_err()@ == join_refusal(old(self)@, nickname@).unwrap()
                && final(self)@ == old(self)@,
            r.is_ok() ==> final(self)@ == joined(old(self)@, nickname@, player_id, token@, now),
    {
        if !(self.phase == GamePhase::Lobby || self.phase == GamePhase::Choosing) {
            return Err(GameError::new(ErrorCode::RoomLocked, "The game has already started."));
        }
        if self.players.len() >= MAX_PLAYERS {
            return Err(GameError::new(ErrorCode::RoomFull, "The room is full."));
        }
        let valid = match validate_nickname(nickname) {
            Ok(v) => v,
            Err(e) => {
                return Err(e);
            },
        };
        let unique = unique_nickname(&self.players, valid.as_str());
        let ghost before = *self;
        let p = Player {
            id: player_id,
            nickname: unique,
            session_token: token,
            connected: false,
            last_seen: now,
            connection_id: None,
        };
        self.players.push(p);
        proof {
            lemma_vec_push_deep(before.players, self.players, p);
        }
        self.set_tally_score(player_id, 0);
        self.changed(now);
        Ok(())
    }

    /// Sets the score of `id` (`scores.insert(id, value)`).
    pub fn set_tally_score(&mut self, id: u128, value: u32)
        ensures
            final(self)@ == (RoomView { scores: tally_set(old(self)@.scores, id, value), ..old(self)@ }),
    {
        let ghost before = self.scores;
        proof {
            lemma_first_index_range::<PlayerTally>(self.scores.deep_view(), id);
        }
        match find_key(&self.scores, id) {
            Some(i) => {
                self.scores[i].value = value;
                proof {
                    lemma_vec_update_deep(before, self.scores, i as int);
                }
            },
            None => {
                let t = PlayerTally { player_id: id, value };
                self.scores.push(t);
                proof {
                    lemma_vec_push_deep(before, self.scores, t);
                }
            },
        }
    }

    /// Signs the host in through `connection_id` when `token` is the host token.
    pub fn authenticate_host(&mut self, token: &str, connection_id: u128, now: u64) -> (r: Result<
        (),
        GameError,
    >)
        ensures
            r.is_ok() <==> old(self)@.host_token == token@,
            r.is_err() ==> r.unwrap_err()@ == (ErrorCode::InvalidToken, "Invalid host token."@)
                && final(self)@ == old(self)@,
            r.is_ok() ==> final(self)@ == host_signed_in(old(self)@, connection_id, now),
    {
        if !str_equal(self.host_token.as_str(), token) {
            return Err(GameError::new(ErrorCode::InvalidToken, "Invalid host token."));
        }
        self.host_connected = true;
        self.host_connection_id = Some(connection_id);
        self.host_last_seen = now;
        self.expires_at = now.saturating_add(ACTIVE_ROOM_LIFETIME_MS);
        let host_id = self.host_player_id;
        match find_key(&self.players, host_id) {
            Some(i) => {
                let ghost before = self.players;
                self.players[i].connected = true;
                self.players[i].connection_id = Some(connection_id);
                self.players[i].last_seen = now;
                proof {
                    lemma_vec_update_deep(before, self.players, i as int);
                }
            },
            None => {},
        }
        self.changed(now);
        Ok(())
    }

    /// Signs player `player_id` in through `connection_id` when `token` is that player's token.
    pub fn authenticate_player(
        &mut self,
        player_id: u128,
        token: &str,
        connection_id: u128,
        now: u64,
    ) -> (r: Result<(), GameError>)
        ensures
            !is_member(old(self)@, player_id) ==> r.is_err() && r.unwrap_err()@ == (
                ErrorCode::InvalidPlayer,
                "Player is not in this room."@,
            ),
            is_member(old(self)@, player_id) && old(self)@.players[member_index(
                old(self)@,
                player_id,
            )].session_token != token@ ==> r.is_err() && r.unwrap_err()@ == (
                ErrorCode::InvalidToken,
                "Invalid player session token."@,
            ),
            r.is_err() ==> final(self)@ == old(self)@,
            r.is_ok() <==> is_member(old(self)@, player_id) && old(self)@.players[member_index(
                old(self)@,
                player_id,
            )].session_token == token@,
            r.is_ok() ==> is_member(old(self)@, player_id) && old(self)@.players[member_index(
                old(self)@,
                player_id,
            )].session_token == token@ && final(self)@ == player_signed_in(
                old(self)@,
                player_id,
                connection_id,
                now,
            ),
    {
        proof {
            lemma_first_index_range::<Player>(self@.players, player_id);
        }
        let i = match find_key(&self.players, player_id) {
            Some(i) => i,
            None => {
                return Err(GameError::new(ErrorCode::InvalidPlayer, "Player is not in this room."));
            },
        };
        if !str_equal(self.players[i].session_token.as_str(), token) {
            return Err(GameError::new(ErrorCode::InvalidToken, "Invalid player session token."));
        }
        let ghost before = self.players;
        self.players[i].connected = true;
        self.players[i].connection_id = Some(connection_id);
        self.players[i].last_seen = now;
        proof {
            lemma_vec_update_deep(before, self.players, i as int);
        }
        if self.host_player_id == player_id {
            self.host_connected = true;
            self.host_connection_id = Some(connection_id);
        }
        self.changed(now);
        Ok(())
    }

    /// Records that the host's connection `connection_id` has closed; other connections
    /// leave the room as it is.
    pub fn disconnect_host(&mut self, connection_id: u128, now: u64)
        ensures
            final(self)@ == host_signed_out(old(self)@, connection_id, now),
    {
        if self.host_connection_id == Some(connection_id) {
            self.host_connected = false;
            self.host_connection_id = None;
            self.host_last_seen = now;
            self.expires_at = now.saturating_add(DISCONNECT_GRACE_MS);
            let host_id = self.host_player_id;
            match find_key(&self.players, host_id) {
                Some(i) => {
                    let ghost before = self.players;
                    self.players[i].connected = false;
                    self.players[i].connection_id = None;
                    self.players[i].last_seen = now;
                    proof {
                        lemma_vec_update_deep(before, self.players, i as int);
                    }
                },
                None => {},
            }
            self.changed(now);
        }
    }

    /// Records that player `player_id`'s connection `connection_id` has closed; a stale
    /// connection leaves the room as it is.
    pub fn disconnect_player(&mut self, player_id: u128, connection_id: u128, now: u64)
        ensures
            final(self)@ == player_signed_out(old(self)@, player_id, connection_id, now),
    {
        let mut i: usize = 0;
        while i < self.players.len() && !(self.players[i].id == player_id
            && self.players[i].connection_id == Some(connection_id))
            invariant
                i <= self.players.len(),
                forall|k: int|
                    0 <= k < i ==> !((#[trigger] self.players.deep_view()[k]).id == player_id
                        && self.players.deep_view()[k].connection_id == Some(connection_id)),
            decreases self.players.len() - i,
        {
            i = i + 1;
        }
        proof {
            lemma_connection_index(self@.players, player_id, connection_id, i as int);
        }
        if i < self.players.len() {
            let ghost before = self.players;
            self.players[i].connected = false;
            self.players[i].connection_id = None;
            self.players[i].last_seen = now;
            proof {
                lemma_vec_update_deep(before, self.players, i as int);
            }
            if self.host_player_id == player_id {
                self.host_connected = false;
                self.host_connection_id = None;
                self.host_last_seen = now;
            }
            self.changed(now);
        }
    }
}

} // verus!

verus! {

/// A copy of a list of ids.
pub fn clone_ids(v: &Vec<u128>) -> (r: Vec<u128>)
    ensures
        r@ == v@,
{
    let mut r: Vec<u128> = Vec::new();
    let mut i: usize = 0;
    while i < v.len()
        invariant
            i <= v.len(),
            r@ =~= v@.subrange(0, i as int),
        decreases v.len() - i,
    {
        r.push(v[i]);
        i = i + 1;
    }
    assert(v@.subrange(0, v.len() as int) =~= v@);
    r
}

} // verus!
