//! Normalizing fetched run records and profiles.

use srcom_book::DecodeError;
use srcom_book::PendingRun;
use srcom_book::auth::check_password;
use srcom_book::AuthError;
use srcom_book::srcom::Names;
use srcom_book::srcom::PlayerRecord;
use srcom_book::srcom::RunRecord;
use srcom_book::srcom::User;
use srcom_book::srcom::UserResource;
use srcom_book::srcom::games;
use srcom_book::srcom::is_tracked_game;
use srcom_book::srcom::runs_from_records;

fn record(id: &str) -> RunRecord {
    RunRecord {
        id: id.to_string(),
        weblink: format!("https://example.invalid/runs/{id}"),
        comment: Some("nice run".to_string()),
        players: vec![PlayerRecord {
            weblink: "https://example.invalid/user/p1".to_string(),
            name: "p1".to_string(),
            country: Some("de".to_string()),
        }],
        category: Some("Any%".to_string()),
        times_primary: "PT1H2M3S".to_string(),
        submitted: "2021-01-01T00:00:00Z".to_string(),
    }
}

#[test]
fn record_normalizes_to_pending_run() {
    let p = PendingRun::try_from(record("r1")).unwrap();
    assert_eq!(p.id, "r1");
    assert_eq!(p.weblink, "https://example.invalid/runs/r1");
    assert_eq!(p.comment, "nice run");
    assert_eq!(p.category, Some("Any%".to_string()));
    assert_eq!(p.player_name, "p1");
    assert_eq!(p.player_location, Some("de".to_string()));
    assert_eq!(p.player_url, "https://example.invalid/user/p1");
    assert_eq!(p.booked_by, None);
    assert_eq!(p.submitted, "2021-01-01T00:00:00Z");
    assert_eq!(p.times, "01:02:03");
}

#[test]
fn missing_comment_becomes_empty_text() {
    let mut rec = record("r1");
    rec.comment = None;
    let p = PendingRun::try_from(rec).unwrap();
    assert_eq!(p.comment, "");
}

#[test]
fn missing_location_is_kept_absent() {
    let mut rec = record("r1");
    rec.players[0].country = None;
    let p = PendingRun::try_from(rec).unwrap();
    assert_eq!(p.player_location, None);
}

#[test]
fn first_player_names_the_run() {
    let mut rec = record("r1");
    rec.players.push(PlayerRecord {
        weblink: "https://example.invalid/user/p2".to_string(),
        name: "p2".to_string(),
        country: None,
    });
    let p = PendingRun::try_from(rec).unwrap();
    assert_eq!(p.player_name, "p1");
}

#[test]
fn record_without_players_is_refused() {
    let mut rec = record("r1");
    rec.players.clear();
    assert_eq!(
        PendingRun::try_from(rec),
        Err(DecodeError::NoPlayers("r1".to_string()))
    );
}

#[test]
fn record_with_bad_duration_is_refused() {
    let mut rec = record("r1");
    rec.times_primary = "one hour".to_string();
    assert_eq!(
        PendingRun::try_from(rec),
        Err(DecodeError::BadDuration("one hour".to_string()))
    );
}

#[test]
fn batch_decodes_in_order() {
    let runs = runs_from_records(vec![record("r1"), record("r2")]).unwrap();
    assert_eq!(runs.len(), 2);
    assert_eq!(runs[0].id, "r1");
    assert_eq!(runs[1].id, "r2");
}

#[test]
fn batch_aborts_on_first_bad_record() {
    let mut bad = record("r2");
    bad.players.clear();
    let mut also_bad = record("r3");
    also_bad.times_primary = "x".to_string();
    let r = runs_from_records(vec![record("r1"), bad, also_bad]);
    assert_eq!(r, Err(DecodeError::NoPlayers("r2".to_string())));
}

#[test]
fn tracked_leaderboards_are_fixed() {
    let g = games();
    assert_eq!(g.len(), 10);
    assert_eq!(g[0], ("w6jve26j".to_string(), "Dark Souls".to_string()));
    assert_eq!(g[8], ("nd28z0ed".to_string(), "Elden Ring".to_string()));
    for (id, _) in &g {
        assert!(is_tracked_game(id));
    }
    assert!(!is_tracked_game("zzzzzzzz"));
    assert!(!is_tracked_game(""));
}

#[test]
fn profile_yields_its_display_name() {
    let profile = UserResource {
        data: User { names: Names { international: "mod1".to_string() } },
    };
    assert_eq!(profile.get_name(), "mod1");
}

#[test]
fn password_check_accepts_only_the_stored_password() {
    assert_eq!(check_password("hunter2", "hunter2"), Ok(()));
    assert_eq!(check_password("hunter2", "hunter3"), Err(AuthError::WrongPassword));
    assert_eq!(check_password("", ""), Ok(()));
    assert_eq!(check_password("a", ""), Err(AuthError::WrongPassword));
}
