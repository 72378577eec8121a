//! Session lifecycle and document operations: identifier generation, the
//! probabilistic garbage collector, creation, rehydration, and the field
//! operations scoped to one session's identifier. A `Session` binds an
//! identifier; every operation takes the backing store explicitly, so two
//! handles carrying the same identifier always observe the same document.
use vstd::prelude::*;
use crate::model::{model_insert, model_get, model_set, model_unset, model_clear, model_delete,
    model_swept, is_id_char, StoreModel};
use crate::store::{SessionStore, SessionError};
use crate::rng::{random_below, random_alphanumeric};

verus! {

/// Length of a generated session identifier, in characters. A policy
/// constant: long enough that collisions are negligible.
pub const ID_LENGTH: usize = 255;

/// Number of seconds in one day, used to turn a retention window in days into
/// a cutoff timestamp.
pub const SECONDS_PER_DAY: u64 = 86400;

/// The expiry cutoff of a sweep taken at `now`: sessions created strictly
/// before it are expired. Saturates at zero when the retention window reaches
/// back past the epoch.
pub open spec fn gc_cutoff(now: u64, retention_days: u32) -> u64 {
    if now >= retention_days * SECONDS_PER_DAY {
        (now - retention_days * SECONDS_PER_DAY) as u64
    } else {
        0u64
    }
}

/// Computes the expiry cutoff of a sweep taken at `now` with the given
/// retention window.
pub fn compute_cutoff(now: u64, retention_days: u32) -> (r: u64)
    ensures
        r == gc_cutoff(now, retention_days),
{
    assert(retention_days as u64 * SECONDS_PER_DAY <= u32::MAX as u64 * SECONDS_PER_DAY)
        by (nonlinear_arith);
    let horizon: u64 = (retention_days as u64) * SECONDS_PER_DAY;
    if now >= horizon {
        now - horizon
    } else {
        0
    }
}

/// A generated identifier: `ID_LENGTH` characters, all alphanumeric.
pub open spec fn valid_id(id: Seq<char>) -> bool {
    &&& id.len() == ID_LENGTH
    &&& forall|i: int| 0 <= i < id.len() ==> is_id_char(id[i])
}

/// Produces a fresh opaque session identifier: a high-entropy alphanumeric
/// string of `ID_LENGTH` characters, with no dependency on prior output.
pub fn generate_id() -> (r: String)
    ensures
        valid_id(r@),
{
    random_alphanumeric(ID_LENGTH)
}

/// The garbage collector's sampling decision: of the draws in
/// `0..sample_denominator`, exactly the zero draw makes the sweep run, which
/// is one outcome in `sample_denominator`.
pub fn sweep_hit(draw: u32) -> (r: bool)
    ensures
        r == (draw == 0),
{
    draw == 0
}

/// Runs the probabilistic garbage collector once: with probability
/// `1 / sample_denominator` it deletes every session older than
/// `retention_days` days and reports that it ran; otherwise it leaves the
/// store untouched. A denominator of one forces the sweep.
pub fn garbage_collector(
    store: &mut SessionStore,
    now: u64,
    retention_days: u32,
    sample_denominator: u32,
) -> (ran: bool)
    requires
        old(store).wf(),
        sample_denominator >= 1,
    ensures
        final(store).wf(),
        ran ==> final(store).model() == model_swept(old(store).model(), gc_cutoff(now, retention_days)),
        !ran ==> *final(store) == *old(store),
        sample_denominator == 1 ==> ran,
{
    let draw = random_below(sample_denominator);
    if sweep_hit(draw) {
        let cutoff = compute_cutoff(now, retention_days);
        store.delete_rows_older_than(cutoff);
        true
    } else {
        false
    }
}

/// Some identifier of the generated shape is already taken in the store —
/// the only circumstance under which creating a session can fail.
pub open spec fn has_valid_id_key(m: StoreModel) -> bool {
    exists|id: Seq<char>| valid_id(id) && #[trigger] m.contains_key(id)
}

/// What creating a session guarantees, given whether the sampled sweep ran:
/// starting from `pre`, the store first loses its expired rows if the sweep
/// ran, then gains a fresh row under the new session's identifier — an
/// identifier of the generated shape that was free in the store. When the
/// freshly drawn identifier collides with an existing row, nothing is
/// inserted and the collision is reported — so failure is possible only on a
/// store that already holds a key of the generated shape, and on any other
/// store (the empty one above all) creation must succeed.
pub open spec fn created_session(
    pre: StoreModel,
    post: StoreModel,
    r: Result<Session, SessionError>,
    now: u64,
    retention_days: u32,
    ran_sweep: bool,
) -> bool {
    let base = if ran_sweep {
        model_swept(pre, gc_cutoff(now, retention_days))
    } else {
        pre
    };
    match r {
        Ok(s) => {
            &&& valid_id(s@)
            &&& !base.contains_key(s@)
            &&& post == model_insert(base, s@, now)
        },
        Err(e) => {
            &&& post == base
            &&& e == SessionError::IdExists
            &&& has_valid_id_key(base)
        },
    }
}

/// A handle on one session: the opaque identifier it was issued under.
pub struct Session {
    id: String,
}

impl View for Session {
    type V = Seq<char>;

    /// A session handle is its identifier.
    closed spec fn view(&self) -> Seq<char> {
        self.id@
    }
}

impl Session {
    /// Creates a new session: runs the sampled garbage collector, generates a
    /// fresh identifier, and inserts a row created at `now` with an empty
    /// document. The draw and the identifier come from the process-wide
    /// random source, so the contract holds for every outcome of both; the
    /// (astronomically unlikely) identifier collision is reported as an
    /// error, never retried.
    pub fn new(
        store: &mut SessionStore,
        now: u64,
        retention_days: u32,
        sample_denominator: u32,
    ) -> (r: Result<Session, SessionError>)
        requires
            old(store).wf(),
            sample_denominator >= 1,
        ensures
            final(store).wf(),
            created_session(old(store).model(), final(store).model(), r, now, retention_days, true)
                || created_session(old(store).model(), final(store).model(), r, now, retention_days, false),
    {
        let ghost pre: StoreModel = store.model();
        let ran = garbage_collector(store, now, retention_days, sample_denominator);
        let id = generate_id();
        let ghost idv: Seq<char> = id@;
        let ghost base: StoreModel = store.model();
        let r = Self::with_id(store, id, now);
        proof {
            if ran {
                if r is Err {
                    assert(valid_id(idv) && model_swept(
                        pre,
                        gc_cutoff(now, retention_days),
                    ).contains_key(idv));
                    assert(has_valid_id_key(model_swept(pre, gc_cutoff(now, retention_days))));
                }
                assert(created_session(pre, store.model(), r, now, retention_days, true));
            } else {
                if r is Err {
                    assert(valid_id(idv) && pre.contains_key(idv));
                    assert(has_valid_id_key(pre));
                }
                assert(created_session(pre, store.model(), r, now, retention_days, false));
            }
        }
        r
    }

    /// The deterministic tail of `Session::new`: binds a caller-chosen
    /// identifier to a fresh row created at `now`. Split out so that creation
    /// is checkable without consuming entropy; `Session::new` passes it the
    /// freshly generated identifier.
    pub fn with_id(store: &mut SessionStore, id: String, now: u64) -> (r: Result<
        Session,
        SessionError,
    >)
        requires
            old(store).wf(),
        ensures
            final(store).wf(),
            r is Ok <==> !old(store).model().contains_key(id@),
            r matches Ok(s) ==> s@ == id@ && final(store).model() == model_insert(
                old(store).model(),
                id@,
                now,
            ),
            r is Err ==> final(store).model() == old(store).model() && r == Err::<
                Session,
                SessionError,
            >(SessionError::IdExists),
    {
        match store.insert_session(id.clone(), now) {
            Ok(_) => Ok(Session { id }),
            Err(_) => Err(SessionError::IdExists),
        }
    }

    /// Rehydrates a session from a previously issued identifier: an existence
    /// check only, no document is fetched. Absent when no row carries the
    /// identifier.
    pub fn from_id(store: &SessionStore, id: &str) -> (r: Option<Session>)
        requires
            store.wf(),
        ensures
            r is Some <==> store.model().contains_key(id@),
            r matches Some(s) ==> s@ == id@,
    {
        if store.row_exists(id) {
            Some(Session { id: id.to_owned() })
        } else {
            None
        }
    }

    /// The identifier this session was issued under.
    pub fn get_id(&self) -> (r: &str)
        ensures
            r@ == self@,
    {
        self.id.as_str()
    }

    /// Reads the value at `key` in this session's document: absent when the
    /// key is not set or the row no longer exists — a read never fails hard.
    pub fn get(&self, store: &SessionStore, key: &str) -> (r: Option<String>)
        requires
            store.wf(),
        ensures
            match r {
                Some(v) => model_get(store.model(), self@, key@) == Some(v@),
                None => model_get(store.model(), self@, key@) is None,
            },
    {
        store.get_field(self.id.as_str(), key)
    }

    /// Sets the value at `key` in this session's document, disturbing no
    /// other key. Mutating a session whose row was concurrently deleted is a
    /// caller bug and is surfaced as `NotFound`.
    pub fn set(&self, store: &mut SessionStore, key: &str, value: String) -> (r: Result<
        (),
        SessionError,
    >)
        requires
            old(store).wf(),
        ensures
            final(store).wf(),
            r is Ok <==> old(store).model().contains_key(self@),
            r is Ok ==> final(store).model() == model_set(old(store).model(), self@, key@, value@),
            r is Err ==> *final(store) == *old(store) && r == Err::<(), SessionError>(
                SessionError::NotFound,
            ),
    {
        store.set_field(self.id.as_str(), key, value)
    }

    /// Removes `key` from this session's document; removing an absent key is
    /// a no-op. Mutating a deleted session is surfaced as `NotFound`.
    pub fn unset(&self, store: &mut SessionStore, key: &str) -> (r: Result<(), SessionError>)
        requires
            old(store).wf(),
        ensures
            final(store).wf(),
            r is Ok <==> old(store).model().contains_key(self@),
            r is Ok ==> final(store).model() == model_unset(old(store).model(), self@, key@),
            r is Err ==> *final(store) == *old(store) && r == Err::<(), SessionError>(
                SessionError::NotFound,
            ),
    {
        store.unset_field(self.id.as_str(), key)
    }

    /// Replaces this session's document with an empty one, discarding every
    /// key. Mutating a deleted session is surfaced as `NotFound`.
    pub fn clear(&self, store: &mut SessionStore) -> (r: Result<(), SessionError>)
        requires
            old(store).wf(),
        ensures
            final(store).wf(),
            r is Ok <==> old(store).model().contains_key(self@),
            r is Ok ==> final(store).model() == model_clear(old(store).model(), self@),
            r is Err ==> *final(store) == *old(store) && r == Err::<(), SessionError>(
                SessionError::NotFound,
            ),
    {
        store.replace_document(self.id.as_str())
    }

    /// Deletes this session's row entirely. Idempotent: deleting an already
    /// deleted session succeeds silently.
    pub fn delete(&self, store: &mut SessionStore)
        requires
            old(store).wf(),
        ensures
            final(store).wf(),
            final(store).model() == model_delete(old(store).model(), self@),
    {
        store.delete_row(self.id.as_str())
    }
}

} // verus!
