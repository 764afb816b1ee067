use soundcloud_wrapper::importer::{RekordboxTrack, make_rb_track_id};
use soundcloud_wrapper::records::{
    CandidateSeed, DiscogsCandidateRecord, DiscogsMatchRecord, DiscogsMatchStatus,
    LegacyMatchPayload, LocalAssetRecord, MatchStatus, SoundcloudSourceRecord, StatusFilter,
    TrackRecord,
};
use soundcloud_wrapper::store::{LibraryStore, RekordboxPayload, TrackRow};

fn track_record(id: &str, title: Option<&str>, artist: Option<&str>) -> TrackRecord {
    TrackRecord {
        track_id: id.to_string(),
        title: title.map(|s| s.to_string()),
        artist: artist.map(|s| s.to_string()),
        album: None,
        discogs_release_id: None,
        discogs_confidence: None,
        musicbrainz_release_id: None,
        musicbrainz_confidence: None,
        musicbrainz_payload: None,
    }
}

fn rb_track(id: &str, title: &str, location: Option<&str>) -> RekordboxTrack {
    RekordboxTrack {
        rekordbox_id: id.to_string(),
        track_reference: None,
        title: Some(title.to_string()),
        artist: None,
        album: None,
        location: location.map(|s| s.to_string()),
        normalized_path: None,
        checksum: None,
        duration_ms: None,
        available: location.is_some(),
        cues: Vec::new(),
    }
}

#[test]
fn upsert_twice_keeps_one_row_with_latest_values() {
    let mut store = LibraryStore::new();
    store.upsert_track(track_record("t1", Some("Old"), None)).unwrap();
    store.upsert_track(track_record("t1", Some("New"), Some("Artist"))).unwrap();
    assert_eq!(store.tracks.len(), 1);
    assert_eq!(store.tracks[0].track_id, "t1");
    assert_eq!(store.tracks[0].title.as_deref(), Some("New"));
    assert_eq!(store.tracks[0].artist.as_deref(), Some("Artist"));
}

#[test]
fn record_success_stores_wellformed_match() {
    let mut store = LibraryStore::new();
    let id = "t1".to_string();
    let q = "artist title".to_string();
    let release = CandidateSeed {
        release_id: Some("r9".to_string()),
        score: None,
        raw_payload: "{\"id\":9}".to_string(),
    };
    store.record_discogs_success(&id, &q, release, 91).unwrap();
    assert_eq!(store.discogs_matches.len(), 1);
    let m = &store.discogs_matches[0];
    assert_eq!(m.status, MatchStatus::Success);
    assert_eq!(m.release_id.as_deref(), Some("r9"));
    assert_eq!(m.confidence, Some(91));
    assert_eq!(m.query.as_deref(), Some("artist title"));
    // the single stored candidate scored by the confidence fallback
    assert_eq!(store.discogs_candidates.len(), 1);
    assert_eq!(store.discogs_candidates[0].score, Some(91));
    // the denormalized summary landed on the track row
    assert_eq!(store.tracks[0].discogs_release_id.as_deref(), Some("r9"));
    assert_eq!(store.tracks[0].discogs_confidence, Some(91));
}

#[test]
fn failure_match_has_no_candidates_and_keeps_reason() {
    let mut store = LibraryStore::new();
    let id = "t1".to_string();
    let q = "q".to_string();
    let reason = "rate limited".to_string();
    store.record_discogs_failure(&id, &q, &reason).unwrap();
    let m = &store.discogs_matches[0];
    assert_eq!(m.status, MatchStatus::Error);
    assert_eq!(m.release_id, None);
    assert_eq!(m.confidence, None);
    assert_eq!(m.message.as_deref(), Some("rate limited"));
    assert_eq!(store.discogs_candidates.len(), 0);
}

#[test]
fn record_match_replaces_candidates_wholesale() {
    let mut store = LibraryStore::new();
    let id = "t1".to_string();
    let q = "q".to_string();
    let seeds = vec![
        CandidateSeed {
            release_id: Some("a".to_string()),
            score: Some(70),
            raw_payload: "{}".to_string(),
        },
        CandidateSeed {
            release_id: Some("b".to_string()),
            score: Some(60),
            raw_payload: "{}".to_string(),
        },
    ];
    store.record_discogs_ambiguity(&id, &q, seeds).unwrap();
    assert_eq!(store.discogs_candidates.len(), 2);
    let release = CandidateSeed {
        release_id: Some("c".to_string()),
        score: Some(99),
        raw_payload: "{}".to_string(),
    };
    store.record_discogs_success(&id, &q, release, 99).unwrap();
    // the old pair is gone; exactly the new set remains, never a mixture
    assert_eq!(store.discogs_candidates.len(), 1);
    assert_eq!(store.discogs_candidates[0].release_id.as_deref(), Some("c"));
}

#[test]
fn ambiguity_drops_candidates_without_release_id() {
    let mut store = LibraryStore::new();
    let id = "t1".to_string();
    let q = "q".to_string();
    let seeds = vec![
        CandidateSeed {
            release_id: None,
            score: Some(70),
            raw_payload: "{}".to_string(),
        },
        CandidateSeed {
            release_id: Some("b".to_string()),
            score: Some(60),
            raw_payload: "{}".to_string(),
        },
    ];
    store.record_discogs_ambiguity(&id, &q, seeds).unwrap();
    assert_eq!(store.discogs_candidates.len(), 1);
    assert_eq!(store.discogs_candidates[0].release_id.as_deref(), Some("b"));
    let m = &store.discogs_matches[0];
    assert_eq!(m.status, MatchStatus::Ambiguous);
    assert_eq!(m.release_id, None);
    assert_eq!(m.confidence, None);
}

#[test]
fn record_match_direct_requires_filtering_by_track() {
    let mut store = LibraryStore::new();
    let record = DiscogsMatchRecord {
        track_id: "t1".to_string(),
        release_id: None,
        confidence: None,
        status: DiscogsMatchStatus::Ambiguous,
        query: Some("q".to_string()),
        message: None,
        checked_at: None,
    };
    let candidates = vec![
        DiscogsCandidateRecord {
            match_id: "t1".to_string(),
            release_id: Some("x".to_string()),
            score: Some(10),
            raw_payload: "{}".to_string(),
        },
        DiscogsCandidateRecord {
            match_id: "other".to_string(),
            release_id: Some("y".to_string()),
            score: Some(20),
            raw_payload: "{}".to_string(),
        },
    ];
    store.record_discogs_match(record, candidates).unwrap();
    // the foreign-keyed candidate is dropped
    assert_eq!(store.discogs_candidates.len(), 1);
    assert_eq!(store.discogs_candidates[0].match_id, "t1");
}

#[test]
fn sync_soundcloud_track_lands_track_and_source_together() {
    let mut store = LibraryStore::new();
    let source = SoundcloudSourceRecord {
        track_id: "t1".to_string(),
        soundcloud_id: "sc-9".to_string(),
        permalink_url: Some("https://example.invalid/t1".to_string()),
        liked_at: Some("2024-01-01T00:00:00Z".to_string()),
        raw_payload: "{\"likedAt\":\"2024-01-01T00:00:00Z\"}".to_string(),
    };
    store
        .sync_soundcloud_track(track_record("t1", Some("Song"), Some("Band")), source)
        .unwrap();
    assert_eq!(store.tracks.len(), 1);
    assert_eq!(store.soundcloud_sources.len(), 1);
    assert_eq!(store.soundcloud_sources[0].soundcloud_id, "sc-9");
    let lookup = store.load_soundcloud_lookup(&"t1".to_string()).unwrap().unwrap();
    assert_eq!(lookup.title.as_deref(), Some("Song"));
    assert_eq!(lookup.soundcloud_id.as_deref(), Some("sc-9"));
    assert_eq!(
        lookup.permalink_url.as_deref(),
        Some("https://example.invalid/t1")
    );
}

#[test]
fn record_local_asset_with_cues_writes_source_row() {
    let mut store = LibraryStore::new();
    let record = LocalAssetRecord {
        track_id: "t1".to_string(),
        location: "/music/a.mp3".to_string(),
        checksum: Some("abc".to_string()),
        available: true,
        duration_ms: Some(1234),
        rekordbox_cues: Some("[{\"slot\":1}]".to_string()),
    };
    store.record_local_asset(record).unwrap();
    assert_eq!(store.local_assets.len(), 1);
    assert_eq!(store.local_assets[0].location, "/music/a.mp3");
    assert_eq!(store.rekordbox_sources.len(), 1);
    match &store.rekordbox_sources[0].payload {
        RekordboxPayload::CueDocument(doc) => assert_eq!(doc, "[{\"slot\":1}]"),
        RekordboxPayload::LibraryTrack(_) => panic!("expected a cue document"),
    }
}

#[test]
fn list_missing_assets_sorted_ascending() {
    let mut store = LibraryStore::new();
    store.upsert_track(track_record("b", None, None)).unwrap();
    store.upsert_track(track_record("a", None, None)).unwrap();
    store.upsert_track(track_record("c", None, None)).unwrap();
    let asset = LocalAssetRecord {
        track_id: "c".to_string(),
        location: "/x".to_string(),
        checksum: None,
        available: true,
        duration_ms: None,
        rekordbox_cues: None,
    };
    store.record_local_asset(asset).unwrap();
    let missing = store.list_missing_assets().unwrap();
    assert_eq!(missing, vec!["a".to_string(), "b".to_string()]);
}

#[test]
fn stale_rekordbox_tracks_are_removed_and_ids_kept() {
    let mut store = LibraryStore::new();
    let first = vec![
        rb_track("A", "one", Some("/a.mp3")),
        rb_track("B", "two", None),
        rb_track("C", "three", None),
    ];
    store.sync_rekordbox_tracks(first).unwrap();
    assert_eq!(store.rekordbox_mappings.len(), 3);
    assert_eq!(store.tracks.len(), 3);
    let id_a = make_rb_track_id(&"A".to_string());
    assert!(store.tracks.iter().any(|t| t.track_id == id_a));

    let second = vec![rb_track("A", "one", Some("/a.mp3")), rb_track("C", "three", None)];
    store.sync_rekordbox_tracks(second).unwrap();
    assert_eq!(store.rekordbox_mappings.len(), 2);
    assert_eq!(store.tracks.len(), 2);
    let id_b = make_rb_track_id(&"B".to_string());
    assert!(!store.tracks.iter().any(|t| t.track_id == id_b));
    assert!(store.tracks.iter().any(|t| t.track_id == id_a));
    assert!(store
        .rekordbox_mappings
        .iter()
        .any(|m| m.rekordbox_id == "A" && m.track_id == id_a));
}

#[test]
fn sync_rekordbox_twice_is_stable() {
    let mut store = LibraryStore::new();
    let list = || vec![rb_track("A", "one", None), rb_track("B", "two", None)];
    store.sync_rekordbox_tracks(list()).unwrap();
    let mappings_before: Vec<(String, String)> = store
        .rekordbox_mappings
        .iter()
        .map(|m| (m.rekordbox_id.clone(), m.track_id.clone()))
        .collect();
    let track_count = store.tracks.len();
    store.sync_rekordbox_tracks(list()).unwrap();
    let mappings_after: Vec<(String, String)> = store
        .rekordbox_mappings
        .iter()
        .map(|m| (m.rekordbox_id.clone(), m.track_id.clone()))
        .collect();
    assert_eq!(mappings_before, mappings_after);
    assert_eq!(store.tracks.len(), track_count);
}

#[test]
fn list_status_pagination_covers_each_row_once() {
    let mut store = LibraryStore::new();
    store.upsert_track(track_record("t1", Some("one"), None)).unwrap();
    store.upsert_track(track_record("t2", Some("two"), None)).unwrap();
    let mut filter = StatusFilter::default();
    filter.limit = Some(1);
    filter.offset = Some(0);
    let page1 = store.list_library_status(&filter).unwrap();
    filter.offset = Some(1);
    let page2 = store.list_library_status(&filter).unwrap();
    assert_eq!(page1.total, 2);
    assert_eq!(page2.total, 2);
    assert_eq!(page1.rows.len(), 1);
    assert_eq!(page2.rows.len(), 1);
    // most recently updated first, and both rows appear exactly once
    assert_eq!(page1.rows[0].track_id, "t2");
    assert_eq!(page2.rows[0].track_id, "t1");
}

#[test]
fn list_status_filters_unresolved_and_liked() {
    let mut store = LibraryStore::new();
    let source = SoundcloudSourceRecord {
        track_id: "liked".to_string(),
        soundcloud_id: "s1".to_string(),
        permalink_url: None,
        liked_at: Some("2024-05-05".to_string()),
        raw_payload: "{}".to_string(),
    };
    store.link_soundcloud_source(source).unwrap();
    store.upsert_track(track_record("matched", None, None)).unwrap();
    let release = CandidateSeed {
        release_id: Some("r".to_string()),
        score: Some(99),
        raw_payload: "{}".to_string(),
    };
    store
        .record_discogs_success(&"matched".to_string(), &"q".to_string(), release, 99)
        .unwrap();

    let mut filter = StatusFilter::default();
    filter.liked_only = true;
    let liked = store.list_library_status(&filter).unwrap();
    assert_eq!(liked.rows.len(), 1);
    assert_eq!(liked.rows[0].track_id, "liked");
    assert!(liked.rows[0].liked);

    let mut filter = StatusFilter::default();
    filter.unresolved_discogs_only = true;
    let unresolved = store.list_library_status(&filter).unwrap();
    assert_eq!(unresolved.rows.len(), 1);
    assert_eq!(unresolved.rows[0].track_id, "liked");

    let all = store.list_library_status(&StatusFilter::default()).unwrap();
    assert_eq!(all.total, 2);
    let matched_row = all.rows.iter().find(|r| r.track_id == "matched").unwrap();
    assert!(matched_row.matched);
    assert_eq!(matched_row.discogs_status.as_deref(), Some("success"));
    assert_eq!(matched_row.discogs_confidence, Some(99));
}

#[test]
fn list_discogs_candidates_sorted_by_score_descending() {
    let mut store = LibraryStore::new();
    let id = "t1".to_string();
    let q = "q".to_string();
    let seeds = vec![
        CandidateSeed {
            release_id: Some("low".to_string()),
            score: Some(10),
            raw_payload: "{}".to_string(),
        },
        CandidateSeed {
            release_id: Some("none".to_string()),
            score: None,
            raw_payload: "{}".to_string(),
        },
        CandidateSeed {
            release_id: Some("high".to_string()),
            score: Some(80),
            raw_payload: "{}".to_string(),
        },
    ];
    store.record_discogs_ambiguity(&id, &q, seeds).unwrap();
    let listed = store.list_discogs_candidates(&id).unwrap();
    let ids: Vec<&str> = listed.iter().map(|c| c.release_id.as_deref().unwrap()).collect();
    assert_eq!(ids, vec!["high", "low", "none"]);
}

#[test]
fn musicbrainz_legacy_payload_is_migrated_once() {
    let mut store = LibraryStore::new();
    let payload = LegacyMatchPayload {
        status: "success".to_string(),
        query: Some("old query".to_string()),
        message: None,
        release_id: Some("mb-1".to_string()),
        confidence: Some(88),
        release: None,
        candidates: Vec::new(),
    };
    let mut record = track_record("t1", Some("Song"), None);
    record.musicbrainz_payload = Some(payload);
    store.upsert_track(record).unwrap();
    store.apply_migrations().unwrap();
    assert!(store.tracks[0].musicbrainz_payload.is_none());
    assert_eq!(store.musicbrainz_matches.len(), 1);
    let m = &store.musicbrainz_matches[0];
    assert_eq!(m.status, MatchStatus::Success);
    assert_eq!(m.release_id.as_deref(), Some("mb-1"));
    assert_eq!(m.confidence, Some(88));
    assert_eq!(m.query.as_deref(), Some("old query"));
    assert_eq!(store.tracks[0].musicbrainz_release_id.as_deref(), Some("mb-1"));

    // a second run is a no-op
    let clock = store.clock;
    let matches = store.musicbrainz_matches.len();
    store.apply_migrations().unwrap();
    assert_eq!(store.clock, clock);
    assert_eq!(store.musicbrainz_matches.len(), matches);
}

#[test]
fn discogs_legacy_payload_is_migrated_from_loaded_row() {
    let mut store = LibraryStore::new();
    let payload = LegacyMatchPayload {
        status: "ambiguous".to_string(),
        query: Some("q".to_string()),
        message: None,
        release_id: None,
        confidence: Some(50),
        release: None,
        candidates: vec![
            CandidateSeed {
                release_id: Some("c1".to_string()),
                score: Some(40),
                raw_payload: "{}".to_string(),
            },
            CandidateSeed {
                release_id: None,
                score: Some(41),
                raw_payload: "{}".to_string(),
            },
        ],
    };
    // a row as loaded from an older database image
    store.tracks.push(TrackRow {
        track_id: "t1".to_string(),
        title: None,
        artist: None,
        album: None,
        discogs_release_id: None,
        discogs_confidence: None,
        musicbrainz_release_id: None,
        musicbrainz_confidence: None,
        discogs_payload: Some(payload),
        musicbrainz_payload: None,
        updated_at: 0,
    });
    store.clock = 1;
    store.apply_migrations().unwrap();
    assert!(store.tracks[0].discogs_payload.is_none());
    assert_eq!(store.discogs_matches.len(), 1);
    assert_eq!(store.discogs_matches[0].status, MatchStatus::Ambiguous);
    assert_eq!(store.discogs_matches[0].confidence, None);
    assert_eq!(store.discogs_candidates.len(), 1);
    assert_eq!(store.discogs_candidates[0].release_id.as_deref(), Some("c1"));
}

#[test]
fn failure_clears_the_track_summary() {
    let mut store = LibraryStore::new();
    let id = "t1".to_string();
    let q = "q".to_string();
    let release = CandidateSeed {
        release_id: Some("r9".to_string()),
        score: Some(90),
        raw_payload: "{}".to_string(),
    };
    store.record_discogs_success(&id, &q, release, 90).unwrap();
    assert_eq!(store.tracks[0].discogs_release_id.as_deref(), Some("r9"));
    let reason = "gone".to_string();
    store.record_discogs_failure(&id, &q, &reason).unwrap();
    assert_eq!(store.tracks[0].discogs_release_id, None);
    assert_eq!(store.tracks[0].discogs_confidence, None);
}

#[test]
fn musicbrainz_summary_mirrors_the_accepted_release() {
    let mut store = LibraryStore::new();
    let id = "t1".to_string();
    let q = "q".to_string();
    let release = CandidateSeed {
        release_id: Some("mb-7".to_string()),
        score: Some(97),
        raw_payload: "{}".to_string(),
    };
    store.record_musicbrainz_success(&id, &q, release, 97).unwrap();
    assert_eq!(store.tracks[0].musicbrainz_release_id.as_deref(), Some("mb-7"));
    assert_eq!(store.tracks[0].musicbrainz_confidence, Some(97));
    store
        .record_musicbrainz_ambiguity(&id, &q, Vec::new())
        .unwrap();
    assert_eq!(store.tracks[0].musicbrainz_release_id, None);
    assert_eq!(store.tracks[0].musicbrainz_confidence, None);
}

#[test]
fn check_wf_accepts_built_stores_and_rejects_corrupt_images() {
    let mut store = LibraryStore::new();
    store.upsert_track(track_record("a", None, None)).unwrap();
    store.upsert_track(track_record("b", None, None)).unwrap();
    assert!(store.check_wf());
    // a duplicated key, as a hand-edited database could carry
    let mut broken = LibraryStore::new();
    broken.upsert_track(track_record("a", None, None)).unwrap();
    let copy = TrackRow {
        track_id: "a".to_string(),
        title: None,
        artist: None,
        album: None,
        discogs_release_id: None,
        discogs_confidence: None,
        musicbrainz_release_id: None,
        musicbrainz_confidence: None,
        discogs_payload: None,
        musicbrainz_payload: None,
        updated_at: 5,
    };
    broken.tracks.push(copy);
    broken.clock = 10;
    assert!(!broken.check_wf());
    // a stamp at or above the clock
    let mut stale = LibraryStore::new();
    stale.upsert_track(track_record("a", None, None)).unwrap();
    stale.clock = 0;
    assert!(!stale.check_wf());
}

#[test]
fn list_status_respects_missing_assets_filter() {
    let mut store = LibraryStore::new();
    store.upsert_track(track_record("has", None, None)).unwrap();
    store.upsert_track(track_record("lacks", None, None)).unwrap();
    let asset = LocalAssetRecord {
        track_id: "has".to_string(),
        location: "/x".to_string(),
        checksum: None,
        available: true,
        duration_ms: None,
        rekordbox_cues: None,
    };
    store.record_local_asset(asset).unwrap();
    let mut filter = StatusFilter::default();
    filter.missing_assets_only = true;
    let page = store.list_library_status(&filter).unwrap();
    assert_eq!(page.rows.len(), 1);
    assert_eq!(page.rows[0].track_id, "lacks");
    assert!(!page.rows[0].has_local_file);
}
