use session_store::{garbage_collector, Session, SessionError, SessionStore, ID_LENGTH};

const DAY: u64 = 86400;

#[test]
fn session_test() {
    let mut store = SessionStore::new();
    let session = Session::new(&mut store, 100 * DAY, 30, 100).unwrap();
    let id = session.get_id().to_string();
    session.set(&mut store, "no", "on".to_string()).unwrap();
    session.clear(&mut store).unwrap();
    assert_eq!(session.get(&store, "no"), None);
    let other_session = Session::from_id(&store, &id).unwrap();
    other_session.set(&mut store, "on", "no".to_string()).unwrap();
    assert_eq!(session.get(&store, "on"), other_session.get(&store, "on"));
    assert_eq!(session.get(&store, "on").unwrap(), "no");
    session.unset(&mut store, "on").unwrap();
    assert_eq!(session.get(&store, "on"), None);
    session.delete(&mut store);
    if let Some(_) = Session::from_id(&store, &id) {
        panic!("Delete failed!");
    }
}

#[test]
fn round_trip_set_get() {
    let mut store = SessionStore::new();
    let session = Session::new(&mut store, 100 * DAY, 30, 1).unwrap();
    session.set(&mut store, "greeting", "hello".to_string()).unwrap();
    assert_eq!(session.get(&store, "greeting").unwrap(), "hello");
    session.set(&mut store, "greeting", "goodbye".to_string()).unwrap();
    assert_eq!(session.get(&store, "greeting").unwrap(), "goodbye");
}

#[test]
fn unset_clears_key() {
    let mut store = SessionStore::new();
    let session = Session::with_id(&mut store, "sid".to_string(), 0).unwrap();
    session.set(&mut store, "k", "v".to_string()).unwrap();
    assert_eq!(session.get(&store, "k").unwrap(), "v");
    session.unset(&mut store, "k").unwrap();
    assert_eq!(session.get(&store, "k"), None);
    // Unsetting an absent key is a no-op, not an error.
    session.unset(&mut store, "k").unwrap();
    assert_eq!(session.get(&store, "k"), None);
}

#[test]
fn clear_wipes_all_keys() {
    let mut store = SessionStore::new();
    let session = Session::with_id(&mut store, "sid".to_string(), 0).unwrap();
    session.set(&mut store, "first", "1".to_string()).unwrap();
    session.set(&mut store, "second", "2".to_string()).unwrap();
    session.clear(&mut store).unwrap();
    assert_eq!(session.get(&store, "first"), None);
    assert_eq!(session.get(&store, "second"), None);
    // The session itself survives a clear.
    assert!(Session::from_id(&store, session.get_id()).is_some());
}

#[test]
fn disjoint_keys_independent() {
    let mut store = SessionStore::new();
    let session = Session::with_id(&mut store, "sid".to_string(), 0).unwrap();
    session.set(&mut store, "k1", "v1".to_string()).unwrap();
    session.set(&mut store, "k2", "v2".to_string()).unwrap();
    assert_eq!(session.get(&store, "k1").unwrap(), "v1");
    assert_eq!(session.get(&store, "k2").unwrap(), "v2");

    let mut other = SessionStore::new();
    let again = Session::with_id(&mut other, "sid".to_string(), 0).unwrap();
    again.set(&mut other, "k2", "v2".to_string()).unwrap();
    again.set(&mut other, "k1", "v1".to_string()).unwrap();
    assert_eq!(again.get(&other, "k1").unwrap(), "v1");
    assert_eq!(again.get(&other, "k2").unwrap(), "v2");
}

#[test]
fn rehydration_consistency() {
    let mut store = SessionStore::new();
    let first = Session::new(&mut store, 100 * DAY, 30, 100).unwrap();
    let second = Session::from_id(&store, first.get_id()).unwrap();
    second.set(&mut store, "shared", "value".to_string()).unwrap();
    assert_eq!(first.get(&store, "shared").unwrap(), "value");
    // An identifier never issued does not rehydrate.
    assert!(Session::from_id(&store, "unknown").is_none());
}

#[test]
fn delete_is_terminal() {
    let mut store = SessionStore::new();
    let session = Session::with_id(&mut store, "sid".to_string(), 0).unwrap();
    session.set(&mut store, "k", "v".to_string()).unwrap();
    session.delete(&mut store);
    assert!(Session::from_id(&store, "sid").is_none());
    // A stale handle reads absent, not an error.
    assert_eq!(session.get(&store, "k"), None);
    // Deleting again succeeds silently.
    session.delete(&mut store);
}

#[test]
fn mutating_deleted_session_is_not_found() {
    let mut store = SessionStore::new();
    let session = Session::with_id(&mut store, "sid".to_string(), 0).unwrap();
    session.delete(&mut store);
    assert_eq!(
        session.set(&mut store, "k", "v".to_string()),
        Err(SessionError::NotFound)
    );
    assert_eq!(session.unset(&mut store, "k"), Err(SessionError::NotFound));
    assert_eq!(session.clear(&mut store), Err(SessionError::NotFound));
}

#[test]
fn duplicate_identifier_is_refused() {
    let mut store = SessionStore::new();
    let first = Session::with_id(&mut store, "sid".to_string(), 0).unwrap();
    let second = Session::with_id(&mut store, "sid".to_string(), 5);
    assert!(matches!(second, Err(SessionError::IdExists)));
    // The collision left the first session untouched.
    first.set(&mut store, "k", "v".to_string()).unwrap();
    assert_eq!(first.get(&store, "k").unwrap(), "v");
}

#[test]
fn generated_identifier_shape() {
    let id = session_store::generate_id();
    assert_eq!(id.chars().count(), ID_LENGTH);
    assert!(id.chars().all(|c| c.is_ascii_alphanumeric()));
    let other = session_store::generate_id();
    // Two draws of 255 alphanumeric characters never collide in practice.
    assert_ne!(id, other);
}

#[test]
fn gc_respects_retention() {
    let mut store = SessionStore::new();
    let old = Session::with_id(&mut store, "old".to_string(), 0).unwrap();
    let young = Session::with_id(&mut store, "young".to_string(), 99 * DAY).unwrap();
    // A denominator of one forces the sweep: created at 0, cutoff 70 days.
    let ran = garbage_collector(&mut store, 100 * DAY, 30, 1);
    assert!(ran);
    assert!(Session::from_id(&store, old.get_id()).is_none());
    assert!(Session::from_id(&store, young.get_id()).is_some());
    // The young session survives arbitrarily many further sweeps at this cutoff.
    for _ in 0..50 {
        garbage_collector(&mut store, 100 * DAY, 30, 1);
        assert!(Session::from_id(&store, young.get_id()).is_some());
    }
    // A session exactly at the cutoff is young: strictly-older rows expire.
    let edge = Session::with_id(&mut store, "edge".to_string(), 70 * DAY).unwrap();
    garbage_collector(&mut store, 100 * DAY, 30, 1);
    assert!(Session::from_id(&store, edge.get_id()).is_some());
}

#[test]
fn gc_sweeps_on_creation() {
    let mut store = SessionStore::new();
    Session::with_id(&mut store, "stale".to_string(), 0).unwrap();
    // Creation with denominator one must sweep before inserting.
    let fresh = Session::new(&mut store, 100 * DAY, 30, 1).unwrap();
    assert!(Session::from_id(&store, "stale").is_none());
    assert!(Session::from_id(&store, fresh.get_id()).is_some());
}

#[test]
fn gc_sampling_frequency() {
    let mut store = SessionStore::new();
    let denominator: u32 = 4;
    let trials: u32 = 20000;
    let mut ran_count: u32 = 0;
    for _ in 0..trials {
        if garbage_collector(&mut store, 0, 0, denominator) {
            ran_count += 1;
        }
    }
    let freq = ran_count as f64 / trials as f64;
    let expected = 1.0 / denominator as f64;
    assert!(
        (freq - expected).abs() < 0.05,
        "sweep frequency {} too far from {}",
        freq,
        expected
    );
}

#[test]
fn cutoff_formula() {
    assert_eq!(session_store::compute_cutoff(100 * DAY, 30), 70 * DAY);
    assert_eq!(session_store::compute_cutoff(30 * DAY, 30), 0);
    // The cutoff saturates at zero instead of reaching past the epoch.
    assert_eq!(session_store::compute_cutoff(10, 30), 0);
    assert_eq!(session_store::compute_cutoff(5, 0), 5);
}

#[test]
fn sweep_decision() {
    assert!(session_store::sweep_hit(0));
    assert!(!session_store::sweep_hit(1));
    assert!(!session_store::sweep_hit(7));
}
