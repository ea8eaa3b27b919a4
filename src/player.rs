//! Players, known by their UUID as a 128-bit number.
use vstd::prelude::*;

verus! {

/// The UUID that `s` spells, as a 128-bit number; `None` where `s` is no UUID.
pub uninterp spec fn uuid_of(s: Seq<char>) -> Option<u128>;

/// Relies on uuid's `Uuid::parse_str`: reads a UUID written as 32 hex digits,
/// hyphenated, braced or as a URN, and fails on anything else; the result
/// depends on the text alone. `Uuid::as_u128` gives its 16 bytes as a
/// big-endian number.
#[verifier::external_body]
fn parse_uuid(s: &str) -> (r: Option<u128>)
    ensures
        r == uuid_of(s@),
{
    uuid::Uuid::parse_str(s).ok().map(|u| u.as_u128())
}

/// The UUID that a player reference spells, where it is one rather than a
/// name.
pub fn player_uuid(s: &str) -> (r: Option<u128>)
    ensures
        r == uuid_of(s@),
{
    parse_uuid(s)
}

/// The index of the first online player with the given UUID.
pub fn find_online(online: &[u128], uuid: u128) -> (r: Option<usize>)
    ensures
        match r {
            Some(i) => i < online@.len() && online@[i as int] == uuid && forall|j: int|
                0 <= j < i ==> online@[j] != uuid,
            None => forall|j: int| 0 <= j < online@.len() ==> online@[j] != uuid,
        },
{
    let mut i: usize = 0;
    while i < online.len()
        invariant
            i <= online@.len(),
            forall|j: int| 0 <= j < i ==> online@[j] != uuid,
        decreases online@.len() - i,
    {
        if online[i] == uuid {
            return Some(i);
        }
        i += 1;
    }
    None
}

} // verus!
