//! The memo store's decisions: which collection a request goes to, what
//! the collections look like, what point a memo becomes, how a point read
//! back becomes a memo, and which vector an update writes.
//!
//! Every mutation rewrites the whole point. An update reads the point
//! first and writes it afterwards, with no lock between: a delete that
//! lands between the two is undone by the write.
use vstd::prelude::*;
use vstd::string::*;
use crate::error::AppError;
use crate::memo::{Memo, MemoId, MemoView, uuid_text};
use crate::payload::{DecodeFault, Payload, decoded, encoded, memo_to_payload, payload_to_memo};

verus! {

/// Dimension of every stored vector.
pub const VECTOR_SIZE: u64 = 768;

/// The similarity metric of a collection.
#[derive(Clone, Copy, Debug, PartialEq, Eq, Structural)]
pub enum Distance {
    Cosine,
}

/// What a collection is created with.
#[derive(Debug)]
pub struct CollectionSpec {
    pub name: String,
    pub vector_size: u64,
    pub distance: Distance,
}

/// The collection of live memos, or of demo memos.
pub fn collection_name(demo: bool) -> (r: &'static str)
    ensures
        r@ == (if demo {
            "memos_demo"@
        } else {
            "memos"@
        }),
{
    if demo {
        "memos_demo"
    } else {
        "memos"
    }
}

fn collection_spec(name: &str) -> (r: CollectionSpec)
    ensures
        r.name@ == name@,
        r.vector_size == VECTOR_SIZE,
        r.distance == Distance::Cosine,
{
    CollectionSpec { name: String::from_str(name), vector_size: VECTOR_SIZE, distance: Distance::Cosine }
}

/// The collections that must exist before the service starts: live,
/// demo and archive, each of 768-dimensional vectors under cosine
/// similarity.
pub fn managed_collections() -> (r: Vec<CollectionSpec>)
    ensures
        r@.len() == 3,
        r@[0].name@ == "memos"@,
        r@[1].name@ == "memos_demo"@,
        r@[2].name@ == "memos_archive"@,
        forall|i: int|
            0 <= i < 3 ==> (#[trigger] r@[i]).vector_size == VECTOR_SIZE && r@[i].distance
                == Distance::Cosine,
{
    let mut r: Vec<CollectionSpec> = Vec::new();
    r.push(collection_spec("memos"));
    r.push(collection_spec("memos_demo"));
    r.push(collection_spec("memos_archive"));
    r
}

/// Whether the startup check creates a collection: only one that does
/// not exist yet.
pub fn needs_creation(exists: bool) -> (r: bool)
    ensures
        r == !exists,
{
    !exists
}

/// The error for a memo id that no point holds.
pub fn not_found(id: MemoId) -> (r: AppError)
    ensures
        (r matches AppError::NotFound(m) && m@ == "Memo "@ + uuid_text(id.value) + " not found"@),
{
    let mut m = String::from_str("Memo ");
    let t = id.to_text();
    m.append(t.as_str());
    m.append(" not found");
    AppError::NotFound(m)
}

/// A point to write: its key and payload.
#[derive(Debug)]
pub struct PointWrite {
    pub key: String,
    pub payload: Payload,
}

/// The point that stores a memo: keyed by the memo's UUID text, with the
/// memo's encoded payload. Inserting and fully replacing a memo both
/// write this point.
pub fn memo_point(memo: &Memo) -> (r: PointWrite)
    requires
        memo.wf(),
    ensures
        r.key@ == uuid_text(memo.id.value),
        r.payload.model() == encoded(memo@),
        decoded(memo.id, r.payload.model()) == Ok::<MemoView, DecodeFault>(memo@),
{
    PointWrite { key: memo.id.to_text(), payload: memo_to_payload(memo) }
}

/// The memo that a point lookup found: none for an absent point, and a
/// store error for a payload that does not decode.
pub fn memo_from_point(id: MemoId, payload: Option<&Payload>) -> (r: Result<Option<Memo>, AppError>)
    ensures
        match payload {
            None => r matches Ok(None),
            Some(p) => match decoded(id, p.model()) {
                Ok(m) => (r matches Ok(Some(found)) && found@ == m),
                Err(_) => r matches Err(AppError::Qdrant(_)),
            },
        },
{
    match payload {
        None => Ok(None),
        Some(p) => match payload_to_memo(id, p) {
            Ok(m) => Ok(Some(m)),
            Err(e) => Err(e.into_app_error()),
        },
    }
}

/// The vector that an update writes. `stored` is the vector of the point
/// as read before the write, `None` when no point holds the memo; `fresh`
/// is a new embedding, given when the content changed. A missing point
/// fails the update; a fresh vector is written when given, and the stored
/// one is kept otherwise.
pub fn update_vector<V>(id: MemoId, stored: Option<V>, fresh: Option<V>) -> (r: Result<V, AppError>)
    ensures
        match stored {
            None => r matches Err(AppError::NotFound(_)),
            Some(s) => match fresh {
                Some(f) => r == Ok::<V, AppError>(f),
                None => r == Ok::<V, AppError>(s),
            },
        },
{
    match stored {
        None => Err(not_found(id)),
        Some(s) => match fresh {
            Some(f) => Ok(f),
            None => Ok(s),
        },
    }
}

/// The text embedded for storing a memo's content.
pub fn storage_text(text: &str) -> (r: String)
    ensures
        r@ == "passage: "@ + text@,
{
    let mut r = String::from_str("passage: ");
    r.append(text);
    r
}

/// The text embedded for a search query.
pub fn search_text(query: &str) -> (r: String)
    ensures
        r@ == "query: "@ + query@,
{
    let mut r = String::from_str("query: ");
    r.append(query);
    r
}

} // verus!
