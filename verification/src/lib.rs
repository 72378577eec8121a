//! A verified session store core: opaque high-entropy session identifiers, a
//! per-session key/value document mutated field by field, and a probabilistic
//! time-based garbage collector. The backing store is modelled in memory as a
//! map from identifier to row; every operation's effect on that map is stated
//! in its contract and proved.
use vstd::prelude::*;

mod model;
mod rng;
mod store;
mod session;
mod laws;

pub use laws::{lemma_create_set_get, lemma_set_get_round_trip, lemma_unset_clears,
    lemma_clear_wipes, lemma_disjoint_set_independent, lemma_rehydration_consistent,
    lemma_delete_terminal, lemma_sweep_expires, lemma_survives_sweeps, model_swept_all};
pub use model::{RowModel, StoreModel, fresh_row, model_insert, model_get, model_set, model_unset,
    model_clear, model_delete, model_swept, is_id_char};
pub use store::{SessionStore, SessionError};
pub use session::{Session, garbage_collector, generate_id, gc_cutoff, compute_cutoff,
    created_session, valid_id, sweep_hit, ID_LENGTH, SECONDS_PER_DAY};
