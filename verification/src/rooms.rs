use vstd::prelude::*;
use crate::store::MessageStore;
use crate::store::StoreError;
use crate::store::has_room_pair;

verus! {

/// Relies on uuid::Uuid::new_v4 and its Display implementation: a freshly
/// drawn random identifier rendered in the hyphenated form, which is always
/// 36 characters long. Nothing else can be promised of a random value.
#[verifier::external_body]
fn fresh_room_id() -> (r: String)
    ensures
        r@.len() == 36,
{
    uuid::Uuid::new_v4().to_string()
}

/// Creates a room: draws a fresh identifier and records a room-creation
/// marker for it. On success the returned 36-character id is exactly the one
/// whose marker row — the given name, empty text — was appended to the
/// store; on failure the store is unchanged and the failure is surfaced.
pub fn create_room(store: &mut MessageStore, name: &str) -> (r: Result<String, StoreError>)
    ensures
        r matches Ok(id) ==> id@.len() == 36 && final(store).rows() == old(store).rows().push(
            (id@, name@, Seq::<char>::empty()),
        ),
        r is Err ==> final(store).rows() == old(store).rows(),
        final(store).fresh() == old(store).fresh(),
{
    let id = fresh_room_id();
    match store.add_room(id.clone(), name.to_owned()) {
        Ok(_) => Ok(id),
        Err(e) => Err(e),
    }
}

/// The distinct rooms known to the store, or no rooms at all when the store
/// cannot be read (a listing failure is deliberately not surfaced). No pair
/// is listed twice; for a fresh store every listed pair was appended, and a
/// non-empty listing misses no appended pair.
pub fn list_rooms(store: &MessageStore) -> (r: Vec<(String, String)>)
    ensures
        forall|i: int, j: int|
            0 <= i < j < r@.len() ==> !((#[trigger] r@[i]).0@ == (#[trigger] r@[j]).0@ && r@[i].1@
                == r@[j].1@),
        store.fresh() ==> forall|i: int|
            0 <= i < r@.len() ==> has_room_pair(store.rows(), (#[trigger] r@[i]).0@, r@[i].1@),
        store.fresh() && r@.len() > 0 ==> forall|room_id: Seq<char>, room_name: Seq<char>|
            #[trigger] has_room_pair(store.rows(), room_id, room_name) ==> exists|i: int|
                0 <= i < r@.len() && (#[trigger] r@[i]).0@ == room_id && r@[i].1@ == room_name,
{
    match store.get_rooms() {
        Ok(v) => v,
        Err(_) => Vec::new(),
    }
}

} // verus!
