//! What every room keeps true, and the proofs that each rule keeps it.
use crate::departure::{answers_not, departed, departed_core};
use crate::entries::{has_key, keys, without_key, Keyed};
use crate::model::{GamePhase, Player, PlayerAnswer, PlayerView, RoomView, MAX_PLAYERS};
use crate::room::{is_member, member_index, player_ids};
use vstd::prelude::*;

verus! {

/// What every room keeps true: at most twelve players; answers only from members, at most
/// one each; and no answers while in the lobby.
pub open spec fn room_wf(r: RoomView) -> bool {
    &&& r.players.len() <= MAX_PLAYERS
    &&& keys::<PlayerAnswer>(r.answers).no_duplicates()
    &&& forall|i: int| 0 <= i < r.answers.len() ==> is_member(r, (#[trigger] r.answers[i]).0)
    &&& r.phase == GamePhase::Lobby ==> r.answers.len() == 0
}

/// In a well-formed room there are no more answers than players.
pub proof fn lemma_answers_bounded(r: RoomView)
    requires
        room_wf(r),
    ensures
        r.answers.len() <= r.players.len(),
        r.answers.len() <= MAX_PLAYERS,
{
    let ks = keys::<PlayerAnswer>(r.answers);
    let ids = player_ids(r.players);
    ks.unique_seq_to_set();
    ids.lemma_cardinality_of_set();
    assert forall|x: u128| ks.to_set().contains(x) implies ids.to_set().contains(x) by {
        let i = choose|i: int| 0 <= i < ks.len() && ks[i] == x;
        assert(is_member(r, r.answers[i].0));
        let j = choose|j: int| 0 <= j < r.players.len() && <Player as Keyed>::key_of(#[trigger] r.players[j]) == x;
        assert(ids[j] == x);
    }
    vstd::set_lib::lemma_len_subset(ks.to_set(), ids.to_set());
}

/// A room with no answers and at most twelve players is well formed.
pub proof fn lemma_wf_no_answers(s: RoomView)
    requires
        s.players.len() <= MAX_PLAYERS,
        s.answers.len() == 0,
    ensures
        room_wf(s),
{
    assert(keys::<PlayerAnswer>(s.answers) =~= Seq::empty());
}

/// Keeping the members (by id, in order) and the answers keeps a room well formed.
pub proof fn lemma_wf_same_members(r: RoomView, s: RoomView)
    requires
        room_wf(r),
        player_ids(s.players) == player_ids(r.players),
        s.answers == r.answers,
        s.phase == GamePhase::Lobby ==> s.answers.len() == 0,
    ensures
        room_wf(s),
{
    assert(player_ids(s.players).len() == s.players.len());
    assert forall|i: int| 0 <= i < s.answers.len() implies is_member(s, (#[trigger] s.answers[i]).0) by {
        assert(is_member(r, r.answers[i].0));
        let j = choose|j: int| 0 <= j < r.players.len() && <Player as Keyed>::key_of(#[trigger] r.players[j]) == r.answers[i].0;
        assert(player_ids(r.players)[j] == r.players[j].id);
        assert(player_ids(s.players)[j] == s.players[j].id);
        assert(<Player as Keyed>::key_of(s.players[j]) == s.answers[i].0);
    }
}

/// Keeping the players and the answers, and not returning to the lobby, keeps a room well formed.
pub proof fn lemma_wf_play(r: RoomView, s: RoomView)
    requires
        room_wf(r),
        s.players == r.players,
        s.answers == r.answers,
        s.phase == r.phase || s.phase != GamePhase::Lobby,
    ensures
        room_wf(s),
{
}

/// Replacing a player by one with the same id keeps the ids.
pub proof fn lemma_ids_update(players: Seq<PlayerView>, i: int, p: PlayerView)
    requires
        0 <= i < players.len(),
        p.id == players[i].id,
    ensures
        player_ids(players.update(i, p)) == player_ids(players),
{
    assert(player_ids(players.update(i, p)) =~= player_ids(players));
}

/// A join below capacity keeps a room well formed.
pub proof fn lemma_wf_join(r: RoomView, s: RoomView, p: PlayerView)
    requires
        room_wf(r),
        r.players.len() < MAX_PLAYERS,
        s.players == r.players.push(p),
        s.answers == r.answers,
        s.phase == r.phase,
    ensures
        room_wf(s),
{
    assert forall|i: int| 0 <= i < s.answers.len() implies is_member(s, (#[trigger] s.answers[i]).0) by {
        assert(is_member(r, r.answers[i].0));
        let j = choose|j: int| 0 <= j < r.players.len() && <Player as Keyed>::key_of(#[trigger] r.players[j]) == r.answers[i].0;
        assert(s.players[j] == r.players[j]);
    }
}

/// A member's first answer, outside the lobby, keeps a room well formed.
pub proof fn lemma_wf_answer(r: RoomView, s: RoomView, id: u128, text: Seq<char>)
    requires
        room_wf(r),
        is_member(r, id),
        !has_key::<PlayerAnswer>(r.answers, id),
        s.players == r.players,
        s.answers == r.answers.push((id, text)),
        s.phase != GamePhase::Lobby,
    ensures
        room_wf(s),
{
    let ks = keys::<PlayerAnswer>(r.answers);
    assert(keys::<PlayerAnswer>(s.answers) =~= ks.push(id));
    assert(!ks.contains(id)) by {
        if ks.contains(id) {
            let i = choose|i: int| 0 <= i < ks.len() && ks[i] == id;
            assert(<PlayerAnswer as Keyed>::key_of(r.answers[i]) == id);
        }
    }
    assert forall|i: int| 0 <= i < s.answers.len() implies is_member(s, (#[trigger] s.answers[i]).0) by {
        if i < r.answers.len() {
            assert(s.answers[i] == r.answers[i]);
        }
    }
}

/// Keeping only some entries of a list whose keys are distinct keeps them distinct.
pub proof fn lemma_filter_keys_distinct<T: Keyed>(s: Seq<T::V>, pred: spec_fn(T::V) -> bool)
    requires
        keys::<T>(s).no_duplicates(),
    ensures
        keys::<T>(s.filter(pred)).no_duplicates(),
        forall|x: T::V| s.filter(pred).contains(x) ==> s.contains(x),
    decreases s.len(),
{
    broadcast use vstd::seq_lib::group_seq_properties;
    if s.len() > 0 {
        let t = s.drop_last();
        let x = s.last();
        assert(keys::<T>(t) =~= keys::<T>(s).drop_last());
        assert(keys::<T>(t).no_duplicates()) by {
            let ks = keys::<T>(s);
            assert forall|i: int, j: int| 0 <= i < j < keys::<T>(t).len() implies keys::<T>(t)[i]
                != keys::<T>(t)[j] by {
                assert(keys::<T>(t)[i] == ks[i] && keys::<T>(t)[j] == ks[j]);
            }
        }
        lemma_filter_keys_distinct::<T>(t, pred);
        assert(s =~= t.push(x));
        t.lemma_filter_push(x, pred);
        if pred(x) {
            let f = t.filter(pred);
            assert(keys::<T>(s.filter(pred)) =~= keys::<T>(f).push(T::key_of(x)));
            assert forall|i: int| 0 <= i < keys::<T>(f).len() implies keys::<T>(f)[i] != T::key_of(x) by {
                assert(t.contains(f[i]));
                let k = choose|k: int| 0 <= k < t.len() && t[k] == f[i];
                assert(keys::<T>(s)[k] == T::key_of(f[i]));
                assert(keys::<T>(s)[s.len() - 1] == T::key_of(x));
            }
            assert forall|y: T::V| s.filter(pred).contains(y) implies s.contains(y) by {
                if y != x {
                    assert(f.contains(y));
                    assert(t.contains(y));
                    let k = choose|k: int| 0 <= k < t.len() && t[k] == y;
                    assert(s[k] == y);
                }
            }
        } else {
            assert forall|y: T::V| s.filter(pred).contains(y) implies s.contains(y) by {
                assert(t.contains(y));
                let k = choose|k: int| 0 <= k < t.len() && t[k] == y;
                assert(s[k] == y);
            }
        }
    } else {
        assert(s.filter(pred) =~= Seq::<T::V>::empty());
        assert(keys::<T>(s.filter(pred)) =~= Seq::<u128>::empty());
    }
}

/// A member's departure, with or without the Spotlight closing, keeps a room well formed.
pub proof fn lemma_wf_departed(r: RoomView, id: u128)
    requires
        room_wf(r),
        is_member(r, id),
    ensures
        room_wf(departed(r, id)),
        departed(r, id).players == departed_core(r, id).players,
        departed(r, id).answers == departed_core(r, id).answers,
        departed(r, id).phase == r.phase,
        departed(r, id).code == r.code,
        departed(r, id).players.len() + 1 == r.players.len(),
{
    lemma_wf_departed_core(r, id);
    crate::entries::lemma_first_index_range::<Player>(r.players, id);
}

/// A member's departure keeps a room well formed.
pub proof fn lemma_wf_departed_core(r: RoomView, id: u128)
    requires
        room_wf(r),
        is_member(r, id),
    ensures
        room_wf(departed_core(r, id)),
{
    let s = departed_core(r, id);
    let i = member_index(r, id);
    crate::entries::lemma_first_index_range::<Player>(r.players, id);
    let a1 = without_key::<PlayerAnswer>(r.answers, id);
    lemma_filter_keys_distinct::<PlayerAnswer>(r.answers, crate::entries::key_differs::<PlayerAnswer>(id));
    let text = crate::ids::uuid_text(id);
    lemma_filter_keys_distinct::<PlayerAnswer>(a1, crate::departure::answer_differs(text));
    assert(s.answers == answers_not(a1, text));
    assert forall|k: int| 0 <= k < s.answers.len() implies is_member(s, (#[trigger] s.answers[k]).0) by {
        let a = s.answers[k];
        assert(s.answers.contains(a));
        a1.lemma_filter_contains_rev(crate::departure::answer_differs(text), a);
        assert(a1.contains(a));
        r.answers.lemma_filter_contains_rev(crate::entries::key_differs::<PlayerAnswer>(id), a);
        assert(r.answers.contains(a));
        let m = choose|m: int| 0 <= m < a1.len() && a1[m] == a;
        r.answers.lemma_filter_pred(crate::entries::key_differs::<PlayerAnswer>(id), m);
        assert(a.0 != id);
        let n = choose|n: int| 0 <= n < r.answers.len() && r.answers[n] == a;
        assert(is_member(r, r.answers[n].0));
        let j = choose|j: int| 0 <= j < r.players.len() && <Player as Keyed>::key_of(#[trigger] r.players[j]) == a.0;
        assert(j != i);
        if j < i {
            assert(s.players[j] == r.players[j]);
            assert(<Player as Keyed>::key_of(s.players[j]) == a.0);
        } else {
            assert(s.players[j - 1] == r.players[j]);
            assert(<Player as Keyed>::key_of(s.players[j - 1]) == a.0);
        }
    }
}

} // verus!
