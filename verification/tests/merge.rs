//! The reconciler's read-path merge and its stale-claim computations.

use srcom_book::PendingRun;
use srcom_book::merge_pendings;
use srcom_book::merge_run_list;
use srcom_book::reconcile::collect_live_ids;
use srcom_book::reconcile::compute_stale_ids;
use srcom_book::reconcile::filter_still_pending;
use srcom_book::store::BookingStore;

fn run(id: &str) -> PendingRun {
    PendingRun {
        id: id.to_string(),
        weblink: format!("https://example.invalid/runs/{id}"),
        comment: String::new(),
        category: None,
        player_name: "player".to_string(),
        player_location: None,
        player_url: "https://example.invalid/user".to_string(),
        booked_by: None,
        submitted: "2021-01-01T00:00:00Z".to_string(),
        times: "00:01:00".to_string(),
    }
}

#[test]
fn merge_fills_booked_by_and_keeps_order() {
    let mut store = BookingStore::new();
    store.book_run("a", "mod1");
    let live = vec![("game1".to_string(), vec![run("a"), run("b")])];
    let merged = merge_pendings(&store, live);
    assert_eq!(merged.len(), 1);
    assert_eq!(merged[0].0, "game1");
    let runs = &merged[0].1;
    assert_eq!(runs.len(), 2);
    assert_eq!(runs[0].id, "a");
    assert_eq!(runs[0].booked_by, Some("mod1".to_string()));
    assert_eq!(runs[1].id, "b");
    assert_eq!(runs[1].booked_by, None);
}

#[test]
fn merge_keeps_every_other_field() {
    let mut store = BookingStore::new();
    store.book_run("a", "mod1");
    let mut one = run("a");
    one.comment = "hello".to_string();
    one.category = Some("Any%".to_string());
    one.player_location = Some("de".to_string());
    let expected = {
        let mut e = run("a");
        e.comment = "hello".to_string();
        e.category = Some("Any%".to_string());
        e.player_location = Some("de".to_string());
        e.booked_by = Some("mod1".to_string());
        e
    };
    let merged = merge_run_list(&store, vec![one]);
    assert_eq!(merged, vec![expected]);
}

#[test]
fn merge_overwrites_upstream_booked_by() {
    // The reconciler never trusts a booked_by that arrived from outside.
    let store = BookingStore::new();
    let mut one = run("a");
    one.booked_by = Some("upstream-claims-this".to_string());
    let merged = merge_run_list(&store, vec![one]);
    assert_eq!(merged[0].booked_by, None);
}

#[test]
fn merge_keeps_per_leaderboard_grouping() {
    let mut store = BookingStore::new();
    store.book_run("y", "mod2");
    let live = vec![
        ("game1".to_string(), vec![run("x")]),
        ("game2".to_string(), vec![run("y"), run("z")]),
        ("game3".to_string(), vec![]),
    ];
    let merged = merge_pendings(&store, live);
    assert_eq!(merged.len(), 3);
    assert_eq!(merged[0].0, "game1");
    assert_eq!(merged[1].0, "game2");
    assert_eq!(merged[2].0, "game3");
    assert_eq!(merged[0].1[0].booked_by, None);
    assert_eq!(merged[1].1[0].booked_by, Some("mod2".to_string()));
    assert_eq!(merged[1].1[1].booked_by, None);
    assert!(merged[2].1.is_empty());
}

#[test]
fn merge_drops_claims_for_absent_runs() {
    let mut store = BookingStore::new();
    store.book_run("gone", "mod1");
    let live = vec![("game1".to_string(), vec![run("here")])];
    let merged = merge_pendings(&store, live);
    let all_ids: Vec<&str> = merged[0].1.iter().map(|r| r.id.as_str()).collect();
    assert_eq!(all_ids, vec!["here"]);
    assert_eq!(merged[0].1[0].booked_by, None);
}

#[test]
fn merge_of_empty_input_is_empty() {
    let store = BookingStore::new();
    assert_eq!(merge_pendings(&store, vec![]), vec![]);
}

#[test]
fn stale_ids_are_the_set_difference() {
    let stored = vec!["a".to_string(), "b".to_string(), "c".to_string()];
    let live = vec!["b".to_string()];
    let stale = compute_stale_ids(&stored, &live);
    assert_eq!(stale, vec!["a".to_string(), "c".to_string()]);
    // stale and live are disjoint; stored minus stale lies in live.
    for id in &stale {
        assert!(!live.contains(id));
    }
    for id in &stored {
        if !stale.contains(id) {
            assert!(live.contains(id));
        }
    }
}

#[test]
fn stale_ids_empty_when_everything_is_live() {
    let stored = vec!["a".to_string(), "b".to_string()];
    let live = vec!["b".to_string(), "a".to_string(), "x".to_string()];
    assert_eq!(compute_stale_ids(&stored, &live), Vec::<String>::new());
}

#[test]
fn stale_ids_everything_when_nothing_is_live() {
    let stored = vec!["a".to_string(), "b".to_string()];
    assert_eq!(compute_stale_ids(&stored, &vec![]), stored);
}

#[test]
fn filter_still_pending_intersects_with_live_ids() {
    let stored = vec![run("a"), run("b"), run("c")];
    let live = vec![run("c"), run("a")];
    let kept = filter_still_pending(stored, &live);
    let ids: Vec<&str> = kept.iter().map(|r| r.id.as_str()).collect();
    assert_eq!(ids, vec!["a", "c"]);
}

#[test]
fn filter_still_pending_with_no_live_runs_is_empty() {
    let stored = vec![run("a"), run("b")];
    assert_eq!(filter_still_pending(stored, &vec![]), vec![]);
}

#[test]
fn collect_live_ids_flattens_all_leaderboards() {
    let pending = vec![
        ("game1".to_string(), vec![run("a"), run("b")]),
        ("game2".to_string(), vec![run("c")]),
        ("game3".to_string(), vec![]),
    ];
    let mut ids = collect_live_ids(&pending);
    ids.sort();
    assert_eq!(ids, vec!["a".to_string(), "b".to_string(), "c".to_string()]);
}
