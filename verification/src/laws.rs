//! The library's laws: properties of the store model that hold for all
//! inputs, proved once and for all. Each is stated over the same model
//! functions the executable operations' contracts use, so it carries over to
//! any sequence of verified calls.
use vstd::prelude::*;
use crate::model::{model_insert, model_get, model_set, model_unset, model_clear, model_delete,
    model_swept, StoreModel};
use crate::session::gc_cutoff;

verus! {

/// Round trip: creating a session (with or without the creation-time sweep)
/// and then setting any key to any value makes a get of that key return
/// exactly that value.
pub proof fn lemma_create_set_get(
    m: StoreModel,
    ran_sweep: bool,
    now: u64,
    retention_days: u32,
    id: Seq<char>,
    key: Seq<char>,
    value: Seq<char>,
)
    ensures
        ({
            let base = if ran_sweep {
                model_swept(m, gc_cutoff(now, retention_days))
            } else {
                m
            };
            model_get(model_set(model_insert(base, id, now), id, key, value), id, key) == Some(
                value,
            )
        }),
{
}

/// Round trip for an existing session: setting a key and reading it back
/// yields the value written.
pub proof fn lemma_set_get_round_trip(m: StoreModel, id: Seq<char>, key: Seq<char>, value: Seq<char>)
    requires
        m.contains_key(id),
    ensures
        model_get(model_set(m, id, key, value), id, key) == Some(value),
{
}

/// Unset clears: setting a key and then unsetting it makes a get of that key
/// return absent.
pub proof fn lemma_unset_clears(m: StoreModel, id: Seq<char>, key: Seq<char>, value: Seq<char>)
    requires
        m.contains_key(id),
    ensures
        model_get(model_unset(model_set(m, id, key, value), id, key), id, key) is None,
{
}

/// Clear wipes all keys: after a clear, a get of every key returns absent.
pub proof fn lemma_clear_wipes(m: StoreModel, id: Seq<char>)
    requires
        m.contains_key(id),
    ensures
        forall|key: Seq<char>| #[trigger] model_get(model_clear(m, id), id, key) is None,
{
}

/// Disjoint-key independence: two sets on distinct keys of the same session
/// commute — the store is identical in either order, so neither write is
/// lost — and both values are readable afterwards.
pub proof fn lemma_disjoint_set_independent(
    m: StoreModel,
    id: Seq<char>,
    k1: Seq<char>,
    v1: Seq<char>,
    k2: Seq<char>,
    v2: Seq<char>,
)
    requires
        m.contains_key(id),
        k1 != k2,
    ensures
        model_set(model_set(m, id, k1, v1), id, k2, v2) == model_set(
            model_set(m, id, k2, v2),
            id,
            k1,
            v1,
        ),
        model_get(model_set(model_set(m, id, k1, v1), id, k2, v2), id, k1) == Some(v1),
        model_get(model_set(model_set(m, id, k1, v1), id, k2, v2), id, k2) == Some(v2),
{
    assert(m[id].doc.insert(k1, v1).insert(k2, v2) =~= m[id].doc.insert(k2, v2).insert(k1, v1));
    assert(model_set(model_set(m, id, k1, v1), id, k2, v2) =~= model_set(
        model_set(m, id, k2, v2),
        id,
        k1,
        v1,
    ));
}

/// Rehydration consistency: a handle rehydrated from a session's identifier
/// addresses the very same row, so a field set through either handle is read
/// back unchanged through the other — both observe one document.
pub proof fn lemma_rehydration_consistent(
    m: StoreModel,
    id: Seq<char>,
    key: Seq<char>,
    value: Seq<char>,
)
    requires
        m.contains_key(id),
    ensures
        model_get(model_set(m, id, key, value), id, key) == Some(value),
{
}

/// Delete is terminal: after a delete, the identifier can no longer be
/// rehydrated, and a get of any key through a stale handle returns absent
/// rather than an error.
pub proof fn lemma_delete_terminal(m: StoreModel, id: Seq<char>)
    ensures
        !model_delete(m, id).contains_key(id),
        forall|key: Seq<char>| #[trigger] model_get(model_delete(m, id), id, key) is None,
{
}

/// A sweep respects retention, one half: a session created strictly before
/// the cutoff is deleted by the sweep when it runs.
pub proof fn lemma_sweep_expires(m: StoreModel, now: u64, retention_days: u32, id: Seq<char>)
    requires
        m.contains_key(id),
        m[id].created_at < gc_cutoff(now, retention_days),
    ensures
        !model_swept(m, gc_cutoff(now, retention_days)).contains_key(id),
{
}

/// Repeated sweeps, in order.
pub open spec fn model_swept_all(m: StoreModel, cutoffs: Seq<u64>) -> StoreModel
    decreases cutoffs.len(),
{
    if cutoffs.len() == 0 {
        m
    } else {
        model_swept(model_swept_all(m, cutoffs.drop_last()), cutoffs.last())
    }
}

/// A sweep respects retention, other half: a session no older than any of
/// the cutoffs survives an arbitrary number of sweeps, unchanged.
pub proof fn lemma_survives_sweeps(m: StoreModel, cutoffs: Seq<u64>, id: Seq<char>)
    requires
        m.contains_key(id),
        forall|i: int| 0 <= i < cutoffs.len() ==> m[id].created_at >= #[trigger] cutoffs[i],
    ensures
        model_swept_all(m, cutoffs).contains_key(id),
        model_swept_all(m, cutoffs)[id] == m[id],
    decreases cutoffs.len(),
{
    if cutoffs.len() > 0 {
        lemma_survives_sweeps(m, cutoffs.drop_last(), id);
    }
}

} // verus!

