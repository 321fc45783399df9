//! The booking store and the booking service: claim, release, ownership,
//! the "nobody" sentinel, and garbage collection.

use srcom_book::BookingError;
use srcom_book::book_run;
use srcom_book::store::BookingStore;
use srcom_book::unbook_run;

fn claimants(store: &BookingStore) -> Vec<(String, String)> {
    let mut v = store.get_bookings();
    v.sort();
    v
}

#[test]
fn new_store_is_empty() {
    let store = BookingStore::new();
    assert_eq!(store.get_bookings(), vec![]);
    assert_eq!(store.claim_for("r1"), None);
}

#[test]
fn book_then_read() {
    let mut store = BookingStore::new();
    store.book_run("r1", "alice");
    assert_eq!(store.claim_for("r1"), Some("alice".to_string()));
    assert_eq!(store.claim_for("r2"), None);
    assert_eq!(claimants(&store), vec![("r1".to_string(), "alice".to_string())]);
}

#[test]
fn reclaim_overwrites_last_writer_wins() {
    let mut store = BookingStore::new();
    store.book_run("r1", "alice");
    store.book_run("r1", "bob");
    assert_eq!(store.claim_for("r1"), Some("bob".to_string()));
    assert_eq!(claimants(&store).len(), 1);

    let mut store2 = BookingStore::new();
    store2.book_run("r1", "bob");
    store2.book_run("r1", "alice");
    assert_eq!(store2.claim_for("r1"), Some("alice".to_string()));
}

#[test]
fn claim_then_release_round_trip() {
    let mut store = BookingStore::new();
    assert_eq!(book_run(&mut store, "r1", "alice"), Ok(()));
    assert_eq!(unbook_run(&mut store, "r1", "alice"), Ok(()));
    assert_eq!(store.claim_for("r1"), None);
    assert_eq!(store.get_bookings(), vec![]);
}

#[test]
fn release_by_non_claimant_fails_and_keeps_claim() {
    let mut store = BookingStore::new();
    assert_eq!(book_run(&mut store, "r1", "alice"), Ok(()));
    assert_eq!(unbook_run(&mut store, "r1", "bob"), Err(BookingError::Ownership));
    assert_eq!(store.claim_for("r1"), Some("alice".to_string()));
}

#[test]
fn release_of_unclaimed_run_fails() {
    let mut store = BookingStore::new();
    assert_eq!(unbook_run(&mut store, "r1", "alice"), Err(BookingError::Ownership));
    assert_eq!(store.get_bookings(), vec![]);
}

#[test]
fn nobody_sentinel_releases_regardless_of_claimant() {
    let mut store = BookingStore::new();
    assert_eq!(book_run(&mut store, "r1", "alice"), Ok(()));
    // "nobody" is not stored as a claimant: it releases alice's claim even
    // though the caller is not alice.
    assert_eq!(book_run(&mut store, "r1", "nobody"), Ok(()));
    assert_eq!(store.claim_for("r1"), None);
    assert_eq!(store.get_bookings(), vec![]);
}

#[test]
fn nobody_sentinel_on_unclaimed_run_fails() {
    let mut store = BookingStore::new();
    assert_eq!(book_run(&mut store, "r1", "nobody"), Err(BookingError::Ownership));
    assert_eq!(store.claim_for("r1"), None);
}

#[test]
fn cleanup_deletes_exactly_the_stale_claims() {
    let mut store = BookingStore::new();
    store.book_run("r1", "alice");
    store.book_run("r2", "bob");
    store.book_run("r3", "carol");
    let live = vec!["r2".to_string()];
    store.cleanup(&live);
    assert_eq!(claimants(&store), vec![("r2".to_string(), "bob".to_string())]);
}

#[test]
fn cleanup_with_no_live_runs_empties_the_store() {
    let mut store = BookingStore::new();
    store.book_run("r1", "alice");
    store.book_run("r2", "bob");
    store.cleanup(&vec![]);
    assert_eq!(store.get_bookings(), vec![]);
}

#[test]
fn cleanup_twice_is_a_no_op() {
    let mut store = BookingStore::new();
    store.book_run("r1", "alice");
    store.book_run("r2", "bob");
    let live = vec!["r1".to_string()];
    store.cleanup(&live);
    let after_first = claimants(&store);
    store.cleanup(&live);
    assert_eq!(claimants(&store), after_first);
    assert_eq!(after_first, vec![("r1".to_string(), "alice".to_string())]);
}

#[test]
fn cleanup_keeps_claims_for_repeated_live_ids() {
    let mut store = BookingStore::new();
    store.book_run("r1", "alice");
    let live = vec!["r1".to_string(), "r1".to_string()];
    store.cleanup(&live);
    assert_eq!(claimants(&store), vec![("r1".to_string(), "alice".to_string())]);
}
