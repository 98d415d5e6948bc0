//! Identifiers, randomness and the clock.
//!
//! Player, room and connection ids are UUIDs held as their 128-bit value. Random draws
//! and clock readings come from outside the library; what follows them is verified.
use crate::text::hex_text;
use rand::seq::SliceRandom;
use rand::RngCore;
use vstd::prelude::*;

verus! {

/// The hyphenated lower-case form of a UUID (`8-4-4-4-12` hexadecimal digits).
pub open spec fn uuid_text(id: u128) -> Seq<char> {
    let h = hex_text(id as nat, 32);
    h.subrange(0, 8) + seq!['-'] + h.subrange(8, 12) + seq!['-'] + h.subrange(12, 16) + seq!['-']
        + h.subrange(16, 20) + seq!['-'] + h.subrange(20, 32)
}

/// What `Uuid::parse_str` accepts and yields, as the 128-bit value.
pub uninterp spec fn uuid_parse(s: Seq<char>) -> Option<u128>;

/// Calls `Uuid::from_u128(id).to_string()`, which writes the hyphenated lower-case form.
#[verifier::external_body]
pub(crate) fn uuid_to_text(id: u128) -> (r: String)
    ensures
        r@ == uuid_text(id),
{
    uuid::Uuid::from_u128(id).to_string()
}

/// Calls `Uuid::parse_str`. The result is named; what the contract adds is that the
/// hyphenated form of a UUID parses back to that UUID.
#[verifier::external_body]
pub(crate) fn parse_uuid(s: &str) -> (r: Option<u128>)
    ensures
        r == uuid_parse(s@),
        forall|id: u128| #[trigger] uuid_text(id) == s@ ==> r == Some(id),
{
    match uuid::Uuid::parse_str(s) {
        Ok(u) => Some(u.as_u128()),
        Err(_) => None,
    }
}

/// Calls `Uuid::new_v4()`: a random UUID. Nothing is promised of its value.
#[verifier::external_body]
pub(crate) fn new_uuid() -> (r: u128) {
    uuid::Uuid::new_v4().as_u128()
}

/// Calls `RngCore::fill_bytes` on the operating system's generator: `n` random bytes.
#[verifier::external_body]
pub(crate) fn random_bytes(n: usize) -> (r: Vec<u8>)
    ensures
        r.len() == n,
{
    let mut bytes = vec![0u8; n];
    rand::rngs::OsRng.fill_bytes(&mut bytes);
    bytes
}

/// Calls `SliceRandom::shuffle` with the operating system's generator. The order is
/// random; the elements are the same.
#[verifier::external_body]
pub(crate) fn shuffle<T>(v: &mut Vec<T>)
    ensures
        final(v)@.to_multiset() == old(v)@.to_multiset(),
        final(v).len() == old(v).len(),
{
    v.shuffle(&mut rand::rngs::OsRng)
}

/// Calls `SliceRandom::choose` with the operating system's generator: one of the
/// candidates, `None` only when there is none.
#[verifier::external_body]
pub(crate) fn choose_one(candidates: &Vec<usize>) -> (r: Option<usize>)
    ensures
        r.is_some() <==> candidates.len() > 0,
        r.is_some() ==> candidates@.contains(r.unwrap()),
{
    candidates.as_slice().choose(&mut rand::rngs::OsRng).copied()
}

/// Calls `chrono::Utc::now().timestamp_millis()`: the wall-clock time in milliseconds
/// since the Unix epoch. Nothing is promised of its value.
#[verifier::external_body]
fn utc_now_millis() -> (r: i64) {
    chrono::Utc::now().timestamp_millis()
}

/// The server clock in milliseconds since the Unix epoch (the clock gives no reading before
/// the epoch; a negative one would count as 0).
pub fn now_ms() -> (r: u64) {
    let t = utc_now_millis();
    if t < 0 {
        0
    } else {
        t as u64
    }
}

/// The creation time stamp of a room, in milliseconds since the Unix epoch.
pub fn timestamp_ms() -> (r: i64) {
    utc_now_millis()
}

} // verus!
