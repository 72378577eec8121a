//! In-memory backing store: session rows with pairwise distinct identifiers,
//! each holding a creation timestamp and a key/value document. The store
//! provides the capability surface the session layer consumes — existence
//! check, field get/set/unset, whole-document replace, row delete, and expiry
//! sweep — and every operation's contract says exactly what it does to the
//! store's model.
use vstd::prelude::*;
use crate::model::{RowModel, StoreModel, fresh_row, model_insert, model_get, model_set,
    model_unset, model_clear, model_delete, model_swept};

verus! {

/// Why a store mutation was refused.
#[derive(Clone, Copy, Debug, PartialEq, Eq, Structural)]
pub enum SessionError {
    /// The targeted session row does not exist: the session was deleted or
    /// expired under the caller.
    NotFound,
    /// A row with the given identifier already exists.
    IdExists,
}

/// One session row as stored: identifier, creation timestamp, and the
/// document's fields in insertion order.
pub struct StoredRow {
    pub id: String,
    pub created_at: u64,
    pub entries: Vec<(String, String)>,
}

/// The document a sequence of entries denotes: a later entry shadows an
/// earlier one with the same key.
pub open spec fn doc_of(entries: Seq<(String, String)>) -> Map<Seq<char>, Seq<char>>
    decreases entries.len(),
{
    if entries.len() == 0 {
        Map::empty()
    } else {
        doc_of(entries.drop_last()).insert(entries.last().0@, entries.last().1@)
    }
}

/// The value the latest entry with the given key carries, if any.
pub open spec fn doc_lookup(entries: Seq<(String, String)>, key: Seq<char>) -> Option<Seq<char>>
    decreases entries.len(),
{
    if entries.len() == 0 {
        None
    } else if entries.last().0@ == key {
        Some(entries.last().1@)
    } else {
        doc_lookup(entries.drop_last(), key)
    }
}

/// `doc_lookup` reads exactly the document `doc_of` denotes.
proof fn lemma_doc_lookup(entries: Seq<(String, String)>, key: Seq<char>)
    ensures
        doc_of(entries).contains_key(key) <==> doc_lookup(entries, key) is Some,
        doc_lookup(entries, key) is Some ==> doc_of(entries)[key] == doc_lookup(entries, key)->0,
    decreases entries.len(),
{
    if entries.len() > 0 {
        lemma_doc_lookup(entries.drop_last(), key);
    }
}

/// The entries with the given key removed, order of the rest kept.
pub open spec fn entries_without(entries: Seq<(String, String)>, key: Seq<char>) -> Seq<(String, String)>
    decreases entries.len(),
{
    if entries.len() == 0 {
        entries
    } else {
        let rest = entries_without(entries.drop_last(), key);
        if entries.last().0@ == key {
            rest
        } else {
            rest.push(entries.last())
        }
    }
}

/// Removing a key's entries removes exactly that key from the document.
proof fn lemma_entries_without(entries: Seq<(String, String)>, key: Seq<char>)
    ensures
        doc_of(entries_without(entries, key)) == doc_of(entries).remove(key),
    decreases entries.len(),
{
    if entries.len() == 0 {
        assert(doc_of(entries) =~= doc_of(entries).remove(key));
    } else {
        lemma_entries_without(entries.drop_last(), key);
        let rest = entries_without(entries.drop_last(), key);
        if entries.last().0@ == key {
            assert(doc_of(entries.drop_last()).remove(key) =~= doc_of(entries).remove(key));
        } else {
            assert(rest.push(entries.last()).drop_last() =~= rest);
            assert(doc_of(entries.drop_last()).remove(key).insert(entries.last().0@, entries.last().1@)
                =~= doc_of(entries).remove(key));
        }
    }
}

/// Removes every entry with the given key, keeping the rest in order.
#[verifier::loop_isolation(false)]
fn remove_entries(entries: &mut Vec<(String, String)>, key: &str)
    ensures
        final(entries)@ == entries_without(old(entries)@, key@),
{
    let wanted: String = key.to_owned();
    let ghost orig: Seq<(String, String)> = entries@;
    let mut j: usize = 0;
    let ghost mut k: int = 0;
    proof {
        assert(entries@ =~= entries_without(orig.take(0), key@) + orig.skip(0));
    }
    while j < entries.len()
        invariant
            0 <= k <= orig.len(),
            wanted@ == key@,
            entries@ == entries_without(orig.take(k), key@) + orig.skip(k),
            j == entries_without(orig.take(k), key@).len(),
        decreases orig.len() - k,
    {
        proof {
            assert(entries@[j as int] == orig.skip(k)[0]);
            assert(orig.skip(k)[0] == orig[k]);
            assert(orig.take(k + 1).drop_last() =~= orig.take(k));
            assert(orig.take(k + 1).last() == orig[k]);
        }
        if entries[j].0 == wanted {
            let _removed = entries.remove(j);
            proof {
                k = k + 1;
                assert(entries@ =~= entries_without(orig.take(k), key@) + orig.skip(k));
            }
        } else {
            j += 1;
            proof {
                k = k + 1;
                assert(entries@ =~= entries_without(orig.take(k), key@) + orig.skip(k));
            }
        }
    }
    proof {
        assert(orig.skip(k).len() == 0);
        assert(orig.take(k) =~= orig);
        assert(entries@ =~= entries_without(orig, key@));
    }
}

impl StoredRow {
    /// The row this stored row denotes.
    pub open spec fn model(&self) -> RowModel {
        RowModel { created_at: self.created_at, doc: doc_of(self.entries@) }
    }
}

/// Pairwise distinct row identifiers.
pub open spec fn distinct_ids(rows: Seq<StoredRow>) -> bool {
    forall|i: int, j: int| 0 <= i < j < rows.len() ==> rows[i].id@ != rows[j].id@
}

/// The store a sequence of rows denotes; with distinct identifiers no row
/// shadows another.
pub open spec fn rows_map(rows: Seq<StoredRow>) -> StoreModel
    decreases rows.len(),
{
    if rows.len() == 0 {
        Map::empty()
    } else {
        rows_map(rows.drop_last()).insert(rows.last().id@, rows.last().model())
    }
}

/// An identifier is in the denoted store exactly when some row carries it.
proof fn lemma_rows_map_contains(rows: Seq<StoredRow>, id: Seq<char>)
    ensures
        rows_map(rows).contains_key(id) <==> exists|i: int|
            0 <= i < rows.len() && #[trigger] rows[i].id@ == id,
    decreases rows.len(),
{
    if rows.len() > 0 {
        lemma_rows_map_contains(rows.drop_last(), id);
        if rows.last().id@ == id {
            assert(rows[rows.len() - 1].id@ == id);
        } else if rows_map(rows).contains_key(id) {
            let i = choose|i: int| 0 <= i < rows.drop_last().len()
                && #[trigger] rows.drop_last()[i].id@ == id;
            assert(rows[i].id@ == id);
        } else {
            assert forall|i: int| 0 <= i < rows.len() implies #[trigger] rows[i].id@ != id by {
                if i < rows.len() - 1 {
                    assert(rows.drop_last()[i].id@ != id);
                }
            }
        }
    }
}

/// With distinct identifiers, the denoted store maps a row's identifier to
/// that row's model.
proof fn lemma_rows_map_index(rows: Seq<StoredRow>, i: int)
    requires
        distinct_ids(rows),
        0 <= i < rows.len(),
    ensures
        rows_map(rows).contains_key(rows[i].id@),
        rows_map(rows)[rows[i].id@] == rows[i].model(),
    decreases rows.len(),
{
    if i < rows.len() - 1 {
        assert(distinct_ids(rows.drop_last())) by {
            assert forall|p: int, q: int|
                0 <= p < q < rows.drop_last().len() implies rows.drop_last()[p].id@
                != rows.drop_last()[q].id@ by {
                assert(rows[p].id@ != rows[q].id@);
            }
        }
        lemma_rows_map_index(rows.drop_last(), i);
        assert(rows.drop_last()[i] == rows[i]);
        assert(rows[i].id@ != rows.last().id@);
    }
}

/// Distinctness of identifiers survives dropping the last row.
proof fn lemma_distinct_drop_last(rows: Seq<StoredRow>)
    requires
        distinct_ids(rows),
        rows.len() > 0,
    ensures
        distinct_ids(rows.drop_last()),
{
    assert forall|p: int, q: int|
        0 <= p < q < rows.drop_last().len() implies rows.drop_last()[p].id@
        != rows.drop_last()[q].id@ by {
        assert(rows[p].id@ != rows[q].id@);
    }
}

/// Pushing a row denotes inserting its model.
proof fn lemma_rows_map_push(rows: Seq<StoredRow>, row: StoredRow)
    ensures
        rows_map(rows.push(row)) == rows_map(rows).insert(row.id@, row.model()),
{
    assert(rows.push(row).drop_last() =~= rows);
    assert(rows.push(row).last() == row);
}

/// Replacing the row at `i` by one with the same identifier denotes
/// overwriting that identifier's binding.
proof fn lemma_rows_map_update(rows: Seq<StoredRow>, i: int, row: StoredRow)
    requires
        distinct_ids(rows),
        0 <= i < rows.len(),
        row.id@ == rows[i].id@,
    ensures
        rows_map(rows.update(i, row)) == rows_map(rows).insert(row.id@, row.model()),
        distinct_ids(rows.update(i, row)),
    decreases rows.len(),
{
    lemma_distinct_drop_last(rows);
    let u = rows.update(i, row);
    assert forall|p: int, q: int| 0 <= p < q < u.len() implies u[p].id@ != u[q].id@ by {
        assert(rows[p].id@ != rows[q].id@);
    }
    if i == rows.len() - 1 {
        assert(u.drop_last() =~= rows.drop_last());
        assert(u.last() == row);
        assert(rows_map(rows.drop_last()).insert(rows.last().id@, rows.last().model()).insert(
            row.id@,
            row.model(),
        ) =~= rows_map(rows.drop_last()).insert(row.id@, row.model()));
    } else {
        lemma_rows_map_update(rows.drop_last(), i, row);
        assert(rows.drop_last()[i] == rows[i]);
        assert(u.drop_last() =~= rows.drop_last().update(i, row));
        assert(u.last() == rows.last());
        assert(rows[i].id@ != rows.last().id@);
        assert(rows_map(rows.drop_last()).insert(row.id@, row.model()).insert(
            rows.last().id@,
            rows.last().model(),
        ) =~= rows_map(rows.drop_last()).insert(rows.last().id@, rows.last().model()).insert(
            row.id@,
            row.model(),
        ));
    }
}

/// Removing the row at `i` denotes removing its identifier's binding.
proof fn lemma_rows_map_remove_at(rows: Seq<StoredRow>, i: int)
    requires
        distinct_ids(rows),
        0 <= i < rows.len(),
    ensures
        rows_map(rows.remove(i)) == rows_map(rows).remove(rows[i].id@),
        distinct_ids(rows.remove(i)),
    decreases rows.len(),
{
    lemma_distinct_drop_last(rows);
    let id = rows[i].id@;
    assert forall|p: int, q: int|
        0 <= p < q < rows.remove(i).len() implies rows.remove(i)[p].id@ != rows.remove(
        i,
    )[q].id@ by {
        if q < i {
            assert(rows[p].id@ != rows[q].id@);
        } else if p < i {
            assert(rows[p].id@ != rows[q + 1].id@);
        } else {
            assert(rows[p + 1].id@ != rows[q + 1].id@);
        }
    }
    if i == rows.len() - 1 {
        assert(rows.remove(i) =~= rows.drop_last());
        lemma_rows_map_contains(rows.drop_last(), id);
        assert forall|j: int|
            0 <= j < rows.drop_last().len() implies #[trigger] rows.drop_last()[j].id@ != id by {
            assert(rows[j].id@ != rows[rows.len() - 1].id@);
        }
        assert(rows_map(rows).remove(id) =~= rows_map(rows.drop_last()));
    } else {
        lemma_rows_map_remove_at(rows.drop_last(), i);
        assert(rows.drop_last()[i] == rows[i]);
        assert(rows.remove(i).drop_last() =~= rows.drop_last().remove(i));
        assert(rows.remove(i).last() == rows.last());
        assert(rows[i].id@ != rows.last().id@);
        assert(rows_map(rows.drop_last()).remove(id).insert(rows.last().id@, rows.last().model())
            =~= rows_map(rows.drop_last()).insert(rows.last().id@, rows.last().model()).remove(id));
    }
}

/// The rows a sweep with the given cutoff keeps, in order.
pub open spec fn rows_kept(rows: Seq<StoredRow>, cutoff: u64) -> Seq<StoredRow>
    decreases rows.len(),
{
    if rows.len() == 0 {
        rows
    } else {
        let rest = rows_kept(rows.drop_last(), cutoff);
        if rows.last().created_at >= cutoff {
            rest.push(rows.last())
        } else {
            rest
        }
    }
}

/// Keeping the young rows denotes sweeping the store's model.
proof fn lemma_rows_kept(rows: Seq<StoredRow>, cutoff: u64)
    requires
        distinct_ids(rows),
    ensures
        rows_map(rows_kept(rows, cutoff)) == model_swept(rows_map(rows), cutoff),
        distinct_ids(rows_kept(rows, cutoff)),
        forall|x: int|
            0 <= x < rows_kept(rows, cutoff).len() ==> exists|y: int|
                0 <= y < rows.len() && #[trigger] rows_kept(rows, cutoff)[x] == rows[y],
    decreases rows.len(),
{
    if rows.len() == 0 {
        assert(rows_map(rows_kept(rows, cutoff)) =~= model_swept(rows_map(rows), cutoff));
    } else {
        lemma_distinct_drop_last(rows);
        lemma_rows_kept(rows.drop_last(), cutoff);
        let rest = rows_kept(rows.drop_last(), cutoff);
        let last = rows.last();
        assert forall|j: int|
            0 <= j < rows.drop_last().len() implies #[trigger] rows.drop_last()[j].id@
            != last.id@ by {
            assert(rows[j].id@ != rows[rows.len() - 1].id@);
        }
        lemma_rows_map_contains(rows.drop_last(), last.id@);
        assert(!rows_map(rows.drop_last()).contains_key(last.id@));
        assert forall|x: int|
            0 <= x < rest.len() implies #[trigger] rest[x].id@ != last.id@ by {
            let y = choose|y: int|
                0 <= y < rows.drop_last().len() && #[trigger] rest[x] == rows.drop_last()[y];
            assert(rows.drop_last()[y].id@ != last.id@);
        }
        if last.created_at >= cutoff {
            lemma_rows_map_push(rest, last);
            assert(model_swept(rows_map(rows.drop_last()), cutoff).insert(last.id@, last.model())
                =~= model_swept(rows_map(rows.drop_last()).insert(last.id@, last.model()), cutoff));
            assert forall|x: int|
                0 <= x < rest.push(last).len() implies exists|y: int|
                    0 <= y < rows.len() && #[trigger] rest.push(last)[x] == rows[y] by {
                if x < rest.len() {
                    let y = choose|y: int|
                        0 <= y < rows.drop_last().len() && #[trigger] rest[x]
                            == rows.drop_last()[y];
                    assert(rest.push(last)[x] == rows[y]);
                } else {
                    assert(rest.push(last)[x] == rows[rows.len() - 1]);
                }
            }
            assert forall|p: int, q: int|
                0 <= p < q < rest.push(last).len() implies rest.push(last)[p].id@ != rest.push(
                last,
            )[q].id@ by {
                if q < rest.len() {
                } else {
                    assert(rest.push(last)[p].id@ != last.id@);
                }
            }
        } else {
            assert(model_swept(rows_map(rows.drop_last()), cutoff)
                =~= model_swept(rows_map(rows.drop_last()).insert(last.id@, last.model()), cutoff));
            assert forall|x: int|
                0 <= x < rest.len() implies exists|y: int|
                    0 <= y < rows.len() && #[trigger] rest[x] == rows[y] by {
                let y = choose|y: int|
                    0 <= y < rows.drop_last().len() && #[trigger] rest[x] == rows.drop_last()[y];
                assert(rest[x] == rows[y]);
            }
        }
    }
}

/// The in-memory backing store.
pub struct SessionStore {
    rows: Vec<StoredRow>,
}

impl SessionStore {
    /// Well-formed: no two rows share an identifier.
    pub closed spec fn wf(&self) -> bool {
        distinct_ids(self.rows@)
    }

    /// The store as a map from session identifier to row.
    pub closed spec fn model(&self) -> StoreModel {
        rows_map(self.rows@)
    }

    /// An empty store.
    pub fn new() -> (s: SessionStore)
        ensures
            s.wf(),
            s.model() == Map::<Seq<char>, RowModel>::empty(),
    {
        SessionStore { rows: Vec::new() }
    }

    /// The index of the row carrying `id`, if any.
    fn find_row(&self, id: &str) -> (r: Option<usize>)
        ensures
            match r {
                Some(i) => i < self.rows@.len() && self.rows@[i as int].id@ == id@,
                None => forall|j: int| 0 <= j < self.rows@.len() ==> self.rows@[j].id@ != id@,
            },
    {
        let key: String = id.to_owned();
        let mut j: usize = 0;
        while j < self.rows.len()
            invariant
                j <= self.rows@.len(),
                key@ == id@,
                forall|k: int| 0 <= k < j ==> self.rows@[k].id@ != id@,
            decreases self.rows@.len() - j,
        {
            if self.rows[j].id == key {
                return Some(j);
            }
            j += 1;
        }
        None
    }

    /// Is a row with this identifier currently present?
    pub fn row_exists(&self, id: &str) -> (r: bool)
        requires
            self.wf(),
        ensures
            r == self.model().contains_key(id@),
    {
        proof {
            lemma_rows_map_contains(self.rows@, id@);
        }
        match self.find_row(id) {
            Some(i) => {
                proof {
                    assert(self.rows@[i as int].id@ == id@);
                }
                true
            },
            None => false,
        }
    }

    /// Reads one field of one session's document: the value at `key`, or
    /// absent when the row is gone or the key is not set.
    #[verifier::loop_isolation(false)]
    pub fn get_field(&self, id: &str, key: &str) -> (r: Option<String>)
        requires
            self.wf(),
        ensures
            match r {
                Some(v) => model_get(self.model(), id@, key@) == Some(v@),
                None => model_get(self.model(), id@, key@) is None,
            },
    {
        let i = match self.find_row(id) {
            Some(i) => i,
            None => {
                proof {
                    lemma_rows_map_contains(self.rows@, id@);
                }
                return None;
            },
        };
        proof {
            lemma_rows_map_index(self.rows@, i as int);
            lemma_doc_lookup(self.rows@[i as int].entries@, key@);
        }
        let row = &self.rows[i];
        let wanted: String = key.to_owned();
        let ghost entries: Seq<(String, String)> = row.entries@;
        let mut j: usize = row.entries.len();
        proof {
            assert(entries.take(j as int) =~= entries);
        }
        while j > 0
            invariant
                j <= entries.len(),
                entries == row.entries@,
                wanted@ == key@,
                doc_lookup(entries, key@) == doc_lookup(entries.take(j as int), key@),
            decreases j,
        {
            j -= 1;
            proof {
                assert(entries.take(j as int + 1).drop_last() =~= entries.take(j as int));
                assert(entries.take(j as int + 1).last() == entries[j as int]);
            }
            if row.entries[j].0 == wanted {
                return Some(row.entries[j].1.clone());
            }
        }
        None
    }

    /// Creates a new session row with an empty document; refused when the
    /// identifier is already taken.
    pub fn insert_session(&mut self, id: String, created_at: u64) -> (r: Result<(), SessionError>)
        requires
            old(self).wf(),
        ensures
            final(self).wf(),
            r is Ok <==> !old(self).model().contains_key(id@),
            r is Ok ==> final(self).model() == model_insert(old(self).model(), id@, created_at),
            r is Err ==> *final(self) == *old(self) && r == Err::<(), SessionError>(
                SessionError::IdExists,
            ),
    {
        proof {
            lemma_rows_map_contains(self.rows@, id@);
        }
        match self.find_row(id.as_str()) {
            Some(i) => {
                proof {
                    assert(self.rows@[i as int].id@ == id@);
                }
                Err(SessionError::IdExists)
            },
            None => {
                let ghost rows0: Seq<StoredRow> = self.rows@;
                let row = StoredRow { id, created_at, entries: Vec::new() };
                let ghost rowg: StoredRow = row;
                self.rows.push(row);
                proof {
                    lemma_rows_map_push(rows0, rowg);
                    assert(doc_of(rowg.entries@) =~= Map::<Seq<char>, Seq<char>>::empty());
                    assert(rowg.model() =~= fresh_row(created_at));
                    assert forall|p: int, q: int|
                        0 <= p < q < self.rows@.len() implies self.rows@[p].id@
                        != self.rows@[q].id@ by {
                        if q < rows0.len() {
                            assert(rows0[p].id@ != rows0[q].id@);
                        } else {
                            assert(rows0[p].id@ != rowg.id@);
                        }
                    }
                }
                Ok(())
            },
        }
    }

    /// Atomically sets one field of one session's document, leaving every
    /// other key untouched; refused when the row no longer exists.
    pub fn set_field(&mut self, id: &str, key: &str, value: String) -> (r: Result<
        (),
        SessionError,
    >)
        requires
            old(self).wf(),
        ensures
            final(self).wf(),
            r is Ok <==> old(self).model().contains_key(id@),
            r is Ok ==> final(self).model() == model_set(old(self).model(), id@, key@, value@),
            r is Err ==> *final(self) == *old(self) && r == Err::<(), SessionError>(
                SessionError::NotFound,
            ),
    {
        proof {
            lemma_rows_map_contains(self.rows@, id@);
        }
        let i = match self.find_row(id) {
            Some(i) => i,
            None => {
                return Err(SessionError::NotFound);
            },
        };
        proof {
            assert(self.rows@[i as int].id@ == id@);
            lemma_rows_map_index(self.rows@, i as int);
        }
        let ghost rows0: Seq<StoredRow> = self.rows@;
        let mut row = self.rows.remove(i);
        remove_entries(&mut row.entries, key);
        row.entries.push((key.to_owned(), value));
        let ghost rowg: StoredRow = row;
        self.rows.insert(i, row);
        proof {
            assert(self.rows@ =~= rows0.update(i as int, rowg));
            lemma_entries_without(rows0[i as int].entries@, key@);
            let without = entries_without(rows0[i as int].entries@, key@);
            assert(rowg.entries@.drop_last() =~= without);
            assert(doc_of(rowg.entries@) =~= doc_of(rows0[i as int].entries@).insert(key@, value@));
            lemma_rows_map_update(rows0, i as int, rowg);
            assert(self.model() =~= model_set(rows_map(rows0), id@, key@, value@));
        }
        Ok(())
    }

    /// Atomically removes one field of one session's document; removing an
    /// absent key is a no-op, but a missing row is refused.
    pub fn unset_field(&mut self, id: &str, key: &str) -> (r: Result<(), SessionError>)
        requires
            old(self).wf(),
        ensures
            final(self).wf(),
            r is Ok <==> old(self).model().contains_key(id@),
            r is Ok ==> final(self).model() == model_unset(old(self).model(), id@, key@),
            r is Err ==> *final(self) == *old(self) && r == Err::<(), SessionError>(
                SessionError::NotFound,
            ),
    {
        proof {
            lemma_rows_map_contains(self.rows@, id@);
        }
        let i = match self.find_row(id) {
            Some(i) => i,
            None => {
                return Err(SessionError::NotFound);
            },
        };
        proof {
            assert(self.rows@[i as int].id@ == id@);
            lemma_rows_map_index(self.rows@, i as int);
        }
        let ghost rows0: Seq<StoredRow> = self.rows@;
        let mut row = self.rows.remove(i);
        remove_entries(&mut row.entries, key);
        let ghost rowg: StoredRow = row;
        self.rows.insert(i, row);
        proof {
            assert(self.rows@ =~= rows0.update(i as int, rowg));
            lemma_entries_without(rows0[i as int].entries@, key@);
            lemma_rows_map_update(rows0, i as int, rowg);
            assert(self.model() =~= model_unset(rows_map(rows0), id@, key@));
        }
        Ok(())
    }

    /// Atomically replaces one session's document with an empty one; refused
    /// when the row no longer exists.
    pub fn replace_document(&mut self, id: &str) -> (r: Result<(), SessionError>)
        requires
            old(self).wf(),
        ensures
            final(self).wf(),
            r is Ok <==> old(self).model().contains_key(id@),
            r is Ok ==> final(self).model() == model_clear(old(self).model(), id@),
            r is Err ==> *final(self) == *old(self) && r == Err::<(), SessionError>(
                SessionError::NotFound,
            ),
    {
        proof {
            lemma_rows_map_contains(self.rows@, id@);
        }
        let i = match self.find_row(id) {
            Some(i) => i,
            None => {
                return Err(SessionError::NotFound);
            },
        };
        proof {
            assert(self.rows@[i as int].id@ == id@);
            lemma_rows_map_index(self.rows@, i as int);
        }
        let ghost rows0: Seq<StoredRow> = self.rows@;
        let mut row = self.rows.remove(i);
        row.entries = Vec::new();
        let ghost rowg: StoredRow = row;
        self.rows.insert(i, row);
        proof {
            assert(self.rows@ =~= rows0.update(i as int, rowg));
            assert(doc_of(rowg.entries@) =~= Map::<Seq<char>, Seq<char>>::empty());
            lemma_rows_map_update(rows0, i as int, rowg);
            assert(self.model() =~= model_clear(rows_map(rows0), id@));
        }
        Ok(())
    }

    /// Deletes one session's row. Idempotent: deleting an absent row succeeds
    /// silently.
    pub fn delete_row(&mut self, id: &str)
        requires
            old(self).wf(),
        ensures
            final(self).wf(),
            final(self).model() == model_delete(old(self).model(), id@),
    {
        proof {
            lemma_rows_map_contains(self.rows@, id@);
        }
        match self.find_row(id) {
            None => {
                proof {
                    assert(self.model() =~= self.model().remove(id@));
                }
            },
            Some(i) => {
                let ghost rows0: Seq<StoredRow> = self.rows@;
                let _removed = self.rows.remove(i);
                proof {
                    lemma_rows_map_remove_at(rows0, i as int);
                }
            },
        }
    }

    /// Deletes every session created strictly before `cutoff`, leaving the
    /// rest unchanged.
    #[verifier::loop_isolation(false)]
    pub fn delete_rows_older_than(&mut self, cutoff: u64)
        requires
            old(self).wf(),
        ensures
            final(self).wf(),
            final(self).model() == model_swept(old(self).model(), cutoff),
    {
        let ghost orig: Seq<StoredRow> = self.rows@;
        let mut j: usize = 0;
        let ghost mut k: int = 0;
        proof {
            assert(self.rows@ =~= rows_kept(orig.take(0), cutoff) + orig.skip(0));
        }
        while j < self.rows.len()
            invariant
                0 <= k <= orig.len(),
                self.rows@ == rows_kept(orig.take(k), cutoff) + orig.skip(k),
                j == rows_kept(orig.take(k), cutoff).len(),
            decreases orig.len() - k,
        {
            proof {
                assert(self.rows@[j as int] == orig.skip(k)[0]);
                assert(orig.skip(k)[0] == orig[k]);
                assert(orig.take(k + 1).drop_last() =~= orig.take(k));
                assert(orig.take(k + 1).last() == orig[k]);
            }
            if self.rows[j].created_at < cutoff {
                let _removed = self.rows.remove(j);
                proof {
                    k = k + 1;
                    assert(self.rows@ =~= rows_kept(orig.take(k), cutoff) + orig.skip(k));
                }
            } else {
                j += 1;
                proof {
                    k = k + 1;
                    assert(self.rows@ =~= rows_kept(orig.take(k), cutoff) + orig.skip(k));
                }
            }
        }
        proof {
            assert(orig.take(k) =~= orig);
            assert(self.rows@ =~= rows_kept(orig, cutoff));
            lemma_rows_kept(orig, cutoff);
        }
    }
}

} // verus!
