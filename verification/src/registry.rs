//! The table of open rooms: a concurrent map from room code to room.
//!
//! The map is `DashMap`; what it holds is named by [`rooms_held`], and each of its methods
//! that the manager calls has a wrapper here that says what the call does to that content.
use crate::model::{Room, RoomView};
use crate::snapshot::{snapshot_fits, RoomSnapshot};
use dashmap::DashMap;
use vstd::prelude::*;

verus! {

#[verifier::external_type_specification]
#[verifier::external_body]
#[verifier::reject_recursive_types(K)]
#[verifier::reject_recursive_types(V)]
#[verifier::reject_recursive_types(S)]
pub struct ExDashMap<K, V, S>(DashMap<K, V, S>);

/// The rooms a table holds, each under its key.
pub uninterp spec fn rooms_held(table: DashMap<String, Room>) -> Map<Seq<char>, RoomView>;

/// Calls `DashMap::new`: a table that holds nothing.
#[verifier::external_body]
pub(crate) fn new_table() -> (table: DashMap<String, Room>)
    ensures
        rooms_held(table).dom() == Set::<Seq<char>>::empty(),
{
    DashMap::new()
}

/// Calls `DashMap::len`: the number of entries held.
#[verifier::external_body]
pub(crate) fn table_len(t: &DashMap<String, Room>) -> (n: usize)
    ensures
        n == rooms_held(*t).len(),
{
    t.len()
}

/// Calls `DashMap::contains_key`: whether an entry is held under `key`.
#[verifier::external_body]
pub(crate) fn table_has(t: &DashMap<String, Room>, key: &str) -> (b: bool)
    ensures
        b == rooms_held(*t).dom().contains(key@),
{
    t.contains_key(key)
}

/// Calls `DashMap::remove`: the entry held under `key` leaves the table, and its room is
/// handed back; the table is unchanged when there is none.
#[verifier::external_body]
pub(crate) fn table_take(t: &mut DashMap<String, Room>, key: &str) -> (r: Option<Room>)
    ensures
        r.is_some() <==> rooms_held(*old(t)).dom().contains(key@),
        r.is_some() ==> r.unwrap()@ == rooms_held(*old(t))[key@],
        rooms_held(*final(t)) == rooms_held(*old(t)).remove(key@),
{
    match t.remove(key) {
        Some((_, room)) => Some(room),
        None => None,
    }
}

/// Calls `DashMap::insert`: `room` is held under `key`, in place of any entry held there.
#[verifier::external_body]
pub(crate) fn table_put(t: &mut DashMap<String, Room>, key: String, room: Room)
    ensures
        rooms_held(*final(t)) == rooms_held(*old(t)).insert(key@, room@),
{
    t.insert(key, room);
}

/// Calls `DashMap::iter` and collects the keys: each key held, once, in the table's own
/// order, which is not stated.
#[verifier::external_body]
pub(crate) fn table_keys(t: &DashMap<String, Room>) -> (keys: Vec<String>)
    ensures
        forall|i: int, j: int| 0 <= i < j < keys.len() ==> (#[trigger] keys@[i])@ != (#[trigger] keys@[j])@,
        forall|k: Seq<char>| #[trigger] rooms_held(*t).dom().contains(k) <==> exists|i: int|
            0 <= i < keys.len() && (#[trigger] keys@[i])@ == k,
{
    t.iter().map(|entry| entry.key().clone()).collect()
}

/// Calls `DashMap::view` with [`Room::snapshot`]: the snapshot, for `viewer`, of the room
/// held under `key`, if there is one.
#[verifier::external_body]
pub(crate) fn table_snapshot(t: &DashMap<String, Room>, key: &str, viewer: Option<u128>) -> (r: Option<
    RoomSnapshot,
>)
    requires
        forall|k: Seq<char>| #[trigger] rooms_held(*t).dom().contains(k) ==> rooms_held(*t)[k].answers.len()
            <= u32::MAX,
    ensures
        r.is_some() <==> rooms_held(*t).dom().contains(key@),
        r.is_some() ==> snapshot_fits(rooms_held(*t)[key@], viewer, r.unwrap().deep_view()),
{
    t.view(key, |_, room| room.snapshot(viewer))
}

} // verus!
