//! The messages of a live connection: what a client asks and what the server answers, and
//! the rule that turns a request into a room operation.
use crate::manager::{
    as_vote, choose_refusal, configuration, force_skip_refusal, host_first, leave_refusal,
    only_room_changed, player_sign_in_refusal, reaction_why, room_after, room_key, room_of,
    token_first, unless_missing, ManagerView, RoomManager,
};
use crate::model::{AuthenticatedRole, ErrorCode, GameError, Refusal};
use crate::play::answer_refusal;
use crate::spotlight::{
    complete_refusal, highlight_gate, highlight_vote_refusal, next_spotlight_refusal, reroll_refusal,
    reveal_highlights_refusal, skip_refusal, voting_closed,
};
use crate::lifecycle::host_kick_refusal;
use crate::ids::uuid_text;
use crate::room::{host_signed_in, player_signed_in};
use crate::snapshot::{snapshot_fits, RoomSnapshot};
use crate::text::{to_ascii_uppercase, trim};
use vstd::prelude::*;

verus! {

/// A request on a live connection.
#[derive(Debug)]
pub enum ClientEvent {
    AuthenticateHost { room_code: String, host_token: String },
    AuthenticatePlayer { room_code: String, player_id: u128, session_token: String },
    StartGame,
    SubmitAnswer { round: u8, answer: String },
    SubmitVote { round: u8, selected_player_id: u128 },
    MarkCompleted { round: u8 },
    RerollSpotlight { round: u8 },
    SkipSpotlight { round: u8 },
    ForceSkipSpotlight { round: u8 },
    NextSpotlight { round: u8 },
    SendReaction { round: u8, emoji: String, reaction_id: u128 },
    SubmitHighlightVote { round: u8, category_id: String, selected_player_id: u128 },
    SkipHighlightVoting { round: u8 },
    RevealHighlights { round: u8 },
    RevealResults,
    NextRound,
    KickPlayer { player_id: u128 },
    EndGame,
    LeaveRoom,
    ChooseAnotherGame,
    ConfigureGame { game_id: String, rounds: u8, theme: String },
    EndRoom,
    Ping,
}

/// A message from the server on a live connection.
#[derive(Debug)]
pub enum ServerEvent {
    Authenticated { role: String },
    RoomSnapshot { snapshot: Box<RoomSnapshot> },
    Error { code: ErrorCode, message: String },
    Pong,
}

impl ServerEvent {
    /// The message that reports a refused request.
    pub fn from_error(error: GameError) -> (e: ServerEvent)
        ensures
            e == (ServerEvent::Error { code: error.code, message: error.message }),
    {
        ServerEvent::Error { code: error.code, message: error.message }
    }
}

/// The answer to a request: nothing when it was accepted, its error otherwise.
pub open spec fn reply_of(r: Result<(), GameError>) -> Option<ServerEvent> {
    match r {
        Ok(_) => None,
        Err(e) => Some(ServerEvent::Error { code: e.code, message: e.message }),
    }
}

fn reply(r: Result<(), GameError>) -> (e: Option<ServerEvent>)
    ensures
        e == reply_of(r),
{
    match r {
        Ok(()) => None,
        Err(error) => Some(ServerEvent::from_error(error)),
    }
}

/// The error code and message of a reply, if it reports an error.
pub open spec fn reply_error(e: Option<ServerEvent>) -> Refusal {
    match e {
        Some(ServerEvent::Error { code, message }) => Some((code, message@)),
        _ => None,
    }
}

/// A request answered with `e`: an error reply, with the code and message of `why`, changes
/// nothing; no reply means it was accepted, and only the room that answers to `code` changed.
pub open spec fn answered(before: ManagerView, after: ManagerView, code: Seq<char>, e: Option<ServerEvent>, why: Refusal) -> bool {
    match e {
        None => why.is_none() && only_room_changed(before, after, code),
        Some(ServerEvent::Error { code: c, message: m }) => why == Some((c, m@)) && after == before,
        _ => false,
    }
}

/// The player a role acts as.
pub open spec fn actor_of(role: AuthenticatedRole) -> u128 {
    role.actor()
}

/// A request that the connection's role may not make, or may no longer make: it is refused
/// as unauthorized, with `message`, and changes nothing.
pub open spec fn refused_outright(before: ManagerView, after: ManagerView, e: Option<ServerEvent>, message: Seq<char>) -> bool {
    reply_error(e) == Some((ErrorCode::Unauthorized, message)) && after == before
}

/// What a request does on the room that answers to `code`, for a connection signed in as
/// `role`: each request is the room operation of the same name, acting as the role's
/// player (the host's own token for ending the match); a ping is answered with a pong;
/// signing in again, or ending the match as a player, is refused.
pub open spec fn handled(
    before: ManagerView,
    after: ManagerView,
    code: Seq<char>,
    role: AuthenticatedRole,
    event: ClientEvent,
    e: Option<ServerEvent>,
) -> bool {
    let actor = actor_of(role);
    let room = room_of(before, code);
    match event {
        ClientEvent::Ping => e == Some(ServerEvent::Pong) && after == before,
        ClientEvent::StartGame => answered(before, after, code, e, unless_missing(before, code,
            host_first(room, actor, crate::play::start_refusal(room)))),
        ClientEvent::RevealResults => answered(before, after, code, e, unless_missing(before, code,
            host_first(room, actor, crate::play::reveal_refusal(room)))),
        ClientEvent::NextRound => answered(before, after, code, e, unless_missing(before, code,
            host_first(room, actor, crate::play::next_round_refusal(room)))),
        ClientEvent::RerollSpotlight { round } => answered(before, after, code, e, unless_missing(before, code,
            reroll_refusal(room, actor, round))),
        ClientEvent::SkipSpotlight { round } => answered(before, after, code, e, unless_missing(before, code,
            skip_refusal(room, actor, round))),
        ClientEvent::ForceSkipSpotlight { round } => answered(before, after, code, e, unless_missing(before, code,
            force_skip_refusal(room, actor, round))),
        ClientEvent::NextSpotlight { round } => answered(before, after, code, e, unless_missing(before, code,
            next_spotlight_refusal(room, actor, round))),
        ClientEvent::SendReaction { round, emoji, reaction_id } => answered(before, after, code, e, unless_missing(before, code,
            reaction_why(room, actor, round, emoji@, reaction_id))),
        ClientEvent::SubmitHighlightVote { round, category_id, selected_player_id } => answered(before, after, code, e,
            unless_missing(before, code, highlight_vote_refusal(room, actor, round, category_id@, selected_player_id))),
        ClientEvent::SkipHighlightVoting { round } => answered(before, after, code, e, unless_missing(before, code,
            if highlight_gate(room, actor, round) {
                Some(voting_closed())
            } else {
                None
            })),
        ClientEvent::RevealHighlights { round } => answered(before, after, code, e, unless_missing(before, code,
            reveal_highlights_refusal(room, actor, round))),
        ClientEvent::KickPlayer { player_id } => answered(before, after, code, e, unless_missing(before, code,
            host_kick_refusal(room, actor, player_id))),
        ClientEvent::EndGame => match role {
            AuthenticatedRole::Host { host_token, .. } => answered(before, after, code, e, unless_missing(before, code,
                token_first(room, host_token@, None))),
            AuthenticatedRole::Player { .. } => refused_outright(before, after, e, "This role cannot perform that action."@),
        },
        ClientEvent::LeaveRoom => answered(before, after, code, e, unless_missing(before, code,
            leave_refusal(room, actor))),
        ClientEvent::ChooseAnotherGame => answered(before, after, code, e, unless_missing(before, code,
            choose_refusal(room, actor))),
        ClientEvent::ConfigureGame { game_id, rounds, theme } => exists|r: Result<(), GameError>|
            #[trigger] configuration(before, after, code, actor, game_id@, rounds, theme@, r) && e == reply_of(r),
        ClientEvent::EndRoom => answered(before, after, code, e, unless_missing(before, code,
            host_first(room, actor, None))),
        ClientEvent::SubmitAnswer { round, answer } => answered(before, after, code, e, unless_missing(before, code,
            answer_refusal(room, actor, round, answer@))),
        ClientEvent::MarkCompleted { round } => answered(before, after, code, e, unless_missing(before, code,
            complete_refusal(room, actor, round))),
        ClientEvent::SubmitVote { round, selected_player_id } => answered(before, after, code, e, as_vote(unless_missing(
            before,
            code,
            answer_refusal(room, actor, round, uuid_text(selected_player_id)),
        ))),
        ClientEvent::AuthenticateHost { .. } => refused_outright(before, after, e, "Connection is already authenticated."@),
        ClientEvent::AuthenticatePlayer { .. } => refused_outright(before, after, e, "Connection is already authenticated."@),
    }
}

/// Carries out one request of a connection signed in to room `code` as `role`, and returns
/// the reply to send back, if any. What an accepted request changes in the room is what the
/// room operation of the same name states.
pub fn process_event(rooms: &mut RoomManager, code: &str, role: &AuthenticatedRole, event: ClientEvent) -> (e: Option<ServerEvent>)
    requires
        old(rooms).wf(),
    ensures
        final(rooms).wf(),
        handled(old(rooms)@, final(rooms)@, code@, *role, event, e),
{
    let actor = role.actor_id();
    match event {
        ClientEvent::Ping => Some(ServerEvent::Pong),
        ClientEvent::StartGame => reply(rooms.start_game_by_player(code, actor)),
        ClientEvent::RevealResults => reply(rooms.reveal_results_by_player(code, actor)),
        ClientEvent::NextRound => reply(rooms.next_round_by_player(code, actor)),
        ClientEvent::RerollSpotlight { round } => reply(rooms.reroll_spotlight(code, actor, round)),
        ClientEvent::SkipSpotlight { round } => reply(rooms.skip_spotlight(code, actor, round)),
        ClientEvent::ForceSkipSpotlight { round } => reply(rooms.force_skip_spotlight(code, actor, round)),
        ClientEvent::NextSpotlight { round } => reply(rooms.next_spotlight(code, actor, round)),
        ClientEvent::SendReaction { round, emoji, reaction_id } => reply(
            rooms.send_reaction(code, actor, round, emoji.as_str(), reaction_id),
        ),
        ClientEvent::SubmitHighlightVote { round, category_id, selected_player_id } => reply(
            rooms.submit_highlight_vote(code, actor, round, category_id.as_str(), selected_player_id),
        ),
        ClientEvent::SkipHighlightVoting { round } => reply(rooms.skip_highlight_voting(code, actor, round)),
        ClientEvent::RevealHighlights { round } => reply(rooms.reveal_highlights(code, actor, round)),
        ClientEvent::KickPlayer { player_id } => reply(rooms.kick_player_by_player(code, actor, player_id)),
        ClientEvent::EndGame => match role {
            AuthenticatedRole::Host { host_token, .. } => reply(rooms.end_game(code, host_token.as_str())),
            AuthenticatedRole::Player { .. } => Some(
                ServerEvent::from_error(
                    GameError::new(ErrorCode::Unauthorized, "This role cannot perform that action."),
                ),
            ),
        },
        ClientEvent::LeaveRoom => reply(rooms.leave_room(code, actor)),
        ClientEvent::ChooseAnotherGame => reply(rooms.choose_another_game(code, actor)),
        ClientEvent::ConfigureGame { game_id, rounds, theme } => {
            let r = rooms.configure_game(code, actor, game_id.as_str(), rounds, theme.as_str());
            let ghost rv = r;
            let out = reply(r);
            assert(configuration(old(rooms)@, rooms@, code@, actor, game_id@, rounds, theme@, rv));
            out
        },
        ClientEvent::EndRoom => reply(rooms.end_room_by_player(code, actor)),
        ClientEvent::SubmitAnswer { round, answer } => reply(rooms.submit_answer(code, actor, round, answer.as_str())),
        ClientEvent::MarkCompleted { round } => reply(rooms.mark_completed(code, actor, round)),
        ClientEvent::SubmitVote { round, selected_player_id } => reply(
            rooms.submit_vote(code, actor, round, selected_player_id),
        ),
        ClientEvent::AuthenticateHost { .. } | ClientEvent::AuthenticatePlayer { .. } => Some(
            ServerEvent::from_error(
                GameError::new(ErrorCode::Unauthorized, "Connection is already authenticated."),
            ),
        ),
    }
}

/// What a connection's first message leads to: signed in to a room (its code, the role,
/// and the room as that role sees it), or refused with the error to send before closing.
pub open spec fn signed_in(
    before: ManagerView,
    after: ManagerView,
    event: ClientEvent,
    connection: u128,
    r: Result<(String, AuthenticatedRole, RoomSnapshot), ServerEvent>,
) -> bool {
    match event {
        ClientEvent::AuthenticateHost { room_code, host_token } => {
            let key = room_key(room_code@);
            &&& answered_sign_in(before, after, room_code@, r, unless_missing(before, room_code@,
                if room_of(before, room_code@).host_token == host_token@ {
                    None
                } else {
                    Some((ErrorCode::InvalidToken, "Invalid host token."@))
                }))
            &&& r is Ok ==> {
                let v = r->Ok_0;
                &&& v.0@ == key
                &&& v.1 == (AuthenticatedRole::Host { host_token, player_id: room_of(before, room_code@).host_player_id })
                &&& exists|now: u64| room_after(before, after, room_code@)
                    == host_signed_in(room_of(before, room_code@), connection, now)
                &&& snapshot_fits(room_after(before, after, room_code@), Some(room_of(before, room_code@).host_player_id), v.2.deep_view())
            }
        },
        ClientEvent::AuthenticatePlayer { room_code, player_id, session_token } => {
            let key = room_key(room_code@);
            &&& answered_sign_in(before, after, room_code@, r, unless_missing(before, room_code@,
                player_sign_in_refusal(room_of(before, room_code@), player_id, session_token@)))
            &&& r is Ok ==> {
                let v = r->Ok_0;
                &&& v.0@ == key
                &&& v.1 == (AuthenticatedRole::Player { player_id })
                &&& exists|now: u64| room_after(before, after, room_code@)
                    == player_signed_in(room_of(before, room_code@), player_id, connection, now)
                &&& snapshot_fits(room_after(before, after, room_code@), Some(player_id), v.2.deep_view())
            }
        },
        _ => r is Err && (match r {
            Err(ServerEvent::Error { code, message }) => code == ErrorCode::Unauthorized && message@
                == "First message must authenticate."@,
            _ => false,
        }) && after == before,
    }
}

/// A sign-in refused as `why` says changes nothing and reports that error; an accepted
/// one changes only the room signed in to.
pub open spec fn answered_sign_in(
    before: ManagerView,
    after: ManagerView,
    code: Seq<char>,
    r: Result<(String, AuthenticatedRole, RoomSnapshot), ServerEvent>,
    why: Refusal,
) -> bool {
    match r {
        Ok(_) => why.is_none() && only_room_changed(before, after, code),
        Err(ServerEvent::Error { code: c, message: m }) => why == Some((c, m@)) && after == before,
        Err(_) => false,
    }
}

/// Handles the first message of connection `connection`, which must sign in as the host of
/// a room (with its host token) or as one of its players (with the session token).
pub fn authenticate_connection(rooms: &mut RoomManager, event: ClientEvent, connection: u128) -> (r: Result<
    (String, AuthenticatedRole, RoomSnapshot),
    ServerEvent,
>)
    requires
        old(rooms).wf(),
    ensures
        final(rooms).wf(),
        signed_in(old(rooms)@, final(rooms)@, event, connection, r),
{
    match event {
        ClientEvent::AuthenticateHost { room_code, host_token } => {
            let trimmed = trim(room_code.as_str());
            let code = to_ascii_uppercase(trimmed.as_str());
            match rooms.authenticate_host(room_code.as_str(), host_token.as_str(), connection) {
                Ok(snapshot) => {
                    let player_id = snapshot.host_player_id;
                    Ok((code, AuthenticatedRole::Host { host_token, player_id }, snapshot))
                },
                Err(error) => Err(ServerEvent::from_error(error)),
            }
        },
        ClientEvent::AuthenticatePlayer { room_code, player_id, session_token } => {
            let trimmed = trim(room_code.as_str());
            let code = to_ascii_uppercase(trimmed.as_str());
            match rooms.authenticate_player(room_code.as_str(), player_id, session_token.as_str(), connection) {
                Ok(snapshot) => Ok((code, AuthenticatedRole::Player { player_id }, snapshot)),
                Err(error) => Err(ServerEvent::from_error(error)),
            }
        },
        _ => Err(
            ServerEvent::from_error(
                GameError::new(ErrorCode::Unauthorized, "First message must authenticate."),
            ),
        ),
    }
}

/// The name of a role, as the server announces it.
pub fn role_name(role: &AuthenticatedRole) -> (s: String)
    ensures
        s@ == (match role {
            AuthenticatedRole::Host { .. } => "host"@,
            AuthenticatedRole::Player { .. } => "player"@,
        }),
{
    match role {
        AuthenticatedRole::Host { .. } => String::from_str("host"),
        AuthenticatedRole::Player { .. } => String::from_str("player"),
    }
}

/// The HTTP status that reports an error with this code.
pub fn http_status(code: ErrorCode) -> (s: u16)
    ensures
        s == (match code {
            ErrorCode::RoomNotFound | ErrorCode::GameNotFound => 404u16,
            ErrorCode::RoomFull | ErrorCode::RoomLocked => 409u16,
            ErrorCode::InvalidNickname | ErrorCode::InvalidPlayer | ErrorCode::InvalidAnswer
            | ErrorCode::RoundMismatch => 400u16,
            ErrorCode::InvalidToken | ErrorCode::Unauthorized => 401u16,
            _ => 422u16,
        }),
{
    match code {
        ErrorCode::RoomNotFound | ErrorCode::GameNotFound => 404,
        ErrorCode::RoomFull | ErrorCode::RoomLocked => 409,
        ErrorCode::InvalidNickname | ErrorCode::InvalidPlayer | ErrorCode::InvalidAnswer
        | ErrorCode::RoundMismatch => 400,
        ErrorCode::InvalidToken | ErrorCode::Unauthorized => 401,
        _ => 422,
    }
}

} // verus!
