//! Mathematical model of the backing store: a map from session identifier to
//! row, and the transition each store operation performs on it. Contracts of
//! the executable store and session operations are stated over these
//! functions, and the library's laws are proved about them.
use vstd::prelude::*;

verus! {

/// Model of one stored session row: its creation time and its key/value
/// document.
#[verifier::ext_equal]
pub struct RowModel {
    pub created_at: u64,
    pub doc: Map<Seq<char>, Seq<char>>,
}

/// The whole backing store, as a map from session identifier to row.
pub type StoreModel = Map<Seq<char>, RowModel>;

/// A fresh row: created at `now`, with an empty document.
pub open spec fn fresh_row(now: u64) -> RowModel {
    RowModel { created_at: now, doc: Map::empty() }
}

/// Inserting a new session row with an empty document.
pub open spec fn model_insert(m: StoreModel, id: Seq<char>, now: u64) -> StoreModel {
    m.insert(id, fresh_row(now))
}

/// Reading one field of one session's document: absent when the row is gone
/// or the key is not set.
pub open spec fn model_get(m: StoreModel, id: Seq<char>, key: Seq<char>) -> Option<Seq<char>> {
    if m.contains_key(id) && m[id].doc.contains_key(key) {
        Some(m[id].doc[key])
    } else {
        None
    }
}

/// Setting one field of one session's document, leaving every other key, every
/// other session, and the creation time untouched.
pub open spec fn model_set(m: StoreModel, id: Seq<char>, key: Seq<char>, value: Seq<char>) -> StoreModel {
    m.insert(id, RowModel { created_at: m[id].created_at, doc: m[id].doc.insert(key, value) })
}

/// Removing one field of one session's document.
pub open spec fn model_unset(m: StoreModel, id: Seq<char>, key: Seq<char>) -> StoreModel {
    m.insert(id, RowModel { created_at: m[id].created_at, doc: m[id].doc.remove(key) })
}

/// Replacing one session's document with an empty one.
pub open spec fn model_clear(m: StoreModel, id: Seq<char>) -> StoreModel {
    m.insert(id, RowModel { created_at: m[id].created_at, doc: Map::empty() })
}

/// Deleting one session's row.
pub open spec fn model_delete(m: StoreModel, id: Seq<char>) -> StoreModel {
    m.remove(id)
}

/// What a sweep leaves behind: exactly the rows created at or after `cutoff`,
/// each unchanged.
pub open spec fn model_swept(m: StoreModel, cutoff: u64) -> StoreModel {
    Map::new(
        |id: Seq<char>| m.contains_key(id) && m[id].created_at >= cutoff,
        |id: Seq<char>| m[id],
    )
}

/// The alphabet session identifiers are drawn from: ASCII letters and digits.
pub open spec fn is_id_char(c: char) -> bool {
    ||| 'a' as u32 <= c as u32 && c as u32 <= 'z' as u32
    ||| 'A' as u32 <= c as u32 && c as u32 <= 'Z' as u32
    ||| '0' as u32 <= c as u32 && c as u32 <= '9' as u32
}

} // verus!
