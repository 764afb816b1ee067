use soundcloud_wrapper::lookup::{LookupFailure, LookupResult};
use soundcloud_wrapper::records::{CandidateSeed, LibraryError, MatchStatus};
use soundcloud_wrapper::store::LibraryStore;
use soundcloud_wrapper::worker::{discogs_plan, musicbrainz_plan, JobPlan};

#[test]
fn jobs_without_track_id_are_skipped() {
    let empty = "".to_string();
    let title = "Song".to_string();
    assert!(matches!(
        discogs_plan(&empty, None, Some(&title)),
        JobPlan::Skip
    ));
    assert!(matches!(
        musicbrainz_plan(&empty, None, Some(&title), &Vec::new()),
        JobPlan::Skip
    ));
}

#[test]
fn jobs_without_usable_metadata_fail_without_network() {
    let id = "t1".to_string();
    let blank = "   ".to_string();
    match discogs_plan(&id, Some(&blank), None) {
        JobPlan::FailMissing { query, reason } => {
            assert_eq!(query, "");
            assert_eq!(reason, "missing title or artist");
        }
        _ => panic!("expected an immediate failure"),
    }
}

#[test]
fn jobs_with_metadata_are_looked_up() {
    let id = "t1".to_string();
    let artist = "Band".to_string();
    let title = "Song".to_string();
    match discogs_plan(&id, Some(&artist), Some(&title)) {
        JobPlan::Lookup { query } => assert_eq!(query, "Band Song"),
        _ => panic!("expected a lookup"),
    }
    match musicbrainz_plan(&id, Some(&artist), Some(&title), &Vec::new()) {
        JobPlan::Lookup { query } => {
            assert_eq!(query, "artist:\"Band\" AND recording:\"Song\"")
        }
        _ => panic!("expected a lookup"),
    }
}

#[test]
fn ambiguous_outcome_is_persisted_and_surfaced() {
    let mut store = LibraryStore::new();
    let id = "t1".to_string();
    let q = "q".to_string();
    let outcome = Ok(LookupResult::Ambiguous {
        candidates: vec![CandidateSeed {
            release_id: Some("r1".to_string()),
            score: Some(70),
            raw_payload: "{}".to_string(),
        }],
    });
    let notice = store.apply_discogs_outcome(&id, &q, outcome).unwrap().unwrap();
    assert_eq!(notice.track_id, "t1");
    assert_eq!(notice.query, "q");
    assert_eq!(notice.candidates.len(), 1);
    assert_eq!(store.discogs_matches[0].status, MatchStatus::Ambiguous);
    assert_eq!(store.discogs_candidates.len(), 1);
}

#[test]
fn failed_outcome_records_the_reason() {
    let mut store = LibraryStore::new();
    let id = "t1".to_string();
    let q = "q".to_string();
    let outcome: Result<LookupResult, LookupFailure> =
        Err(LookupFailure::Message("rate limited".to_string()));
    let notice = store.apply_musicbrainz_outcome(&id, &q, outcome).unwrap();
    assert!(notice.is_none());
    assert_eq!(store.musicbrainz_matches[0].status, MatchStatus::Error);
    assert_eq!(
        store.musicbrainz_matches[0].message.as_deref(),
        Some("rate limited")
    );
}

#[test]
fn successful_outcome_records_the_release() {
    let mut store = LibraryStore::new();
    let id = "t1".to_string();
    let q = "q".to_string();
    let outcome = Ok(LookupResult::Success {
        release: CandidateSeed {
            release_id: Some("r1".to_string()),
            score: Some(96),
            raw_payload: "{}".to_string(),
        },
        confidence: 96,
    });
    let notice = store.apply_musicbrainz_outcome(&id, &q, outcome).unwrap();
    assert!(notice.is_none());
    assert_eq!(store.musicbrainz_matches[0].status, MatchStatus::Success);
    assert_eq!(store.musicbrainz_matches[0].confidence, Some(96));
}

#[test]
fn library_error_messages_are_descriptive() {
    let err = LibraryError::Database("locked".to_string());
    assert_eq!(err.message(), "database error: locked");
    assert_eq!(
        LibraryError::AppDataDirUnavailable.message(),
        "unable to resolve application data directory"
    );
    assert_eq!(
        LibraryError::Io("gone".to_string()).message(),
        "filesystem error: gone"
    );
    assert_eq!(
        LibraryError::Serialization("bad json".to_string()).message(),
        "serialization error: bad json"
    );
}
