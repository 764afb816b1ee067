use soundcloud_wrapper::legacy::{interpret_legacy_discogs, interpret_legacy_musicbrainz};
use soundcloud_wrapper::records::{
    CandidateSeed, DiscogsMatchStatus, LegacyMatchPayload, MusicbrainzMatchStatus,
};

fn payload(status: &str) -> LegacyMatchPayload {
    LegacyMatchPayload {
        status: status.to_string(),
        query: Some("q".to_string()),
        message: Some("m".to_string()),
        release_id: None,
        confidence: None,
        release: None,
        candidates: Vec::new(),
    }
}

#[test]
fn legacy_discogs_success_keeps_release_and_confidence() {
    let mut p = payload("success");
    p.confidence = Some(77);
    p.release = Some(CandidateSeed {
        release_id: Some("r1".to_string()),
        score: None,
        raw_payload: "{}".to_string(),
    });
    let (record, candidates) = interpret_legacy_discogs(&"t1".to_string(), p);
    assert!(matches!(record.status, DiscogsMatchStatus::Success));
    assert_eq!(record.release_id.as_deref(), Some("r1"));
    assert_eq!(record.confidence, Some(77));
    assert_eq!(candidates.len(), 1);
    // the candidate's score falls back to the stored confidence
    assert_eq!(candidates[0].score, Some(77));
}

#[test]
fn legacy_discogs_success_without_confidence_reads_as_error() {
    let mut p = payload("success");
    p.release = Some(CandidateSeed {
        release_id: Some("r1".to_string()),
        score: None,
        raw_payload: "{}".to_string(),
    });
    let (record, candidates) = interpret_legacy_discogs(&"t1".to_string(), p);
    assert!(matches!(record.status, DiscogsMatchStatus::Error));
    assert_eq!(record.release_id, None);
    assert_eq!(record.confidence, None);
    assert_eq!(record.message.as_deref(), Some("m"));
    assert!(candidates.is_empty());
}

#[test]
fn legacy_discogs_ambiguity_keeps_id_bearing_candidates() {
    let mut p = payload("ambiguous");
    p.confidence = Some(40);
    p.candidates = vec![
        CandidateSeed {
            release_id: Some("a".to_string()),
            score: Some(40),
            raw_payload: "{}".to_string(),
        },
        CandidateSeed { release_id: None, score: Some(39), raw_payload: "{}".to_string() },
    ];
    let (record, candidates) = interpret_legacy_discogs(&"t1".to_string(), p);
    assert!(matches!(record.status, DiscogsMatchStatus::Ambiguous));
    assert_eq!(record.confidence, None);
    assert_eq!(candidates.len(), 1);
    assert_eq!(candidates[0].release_id.as_deref(), Some("a"));
}

#[test]
fn legacy_musicbrainz_release_score_overrides_confidence() {
    let mut p = payload("success");
    p.confidence = Some(50);
    p.release = Some(CandidateSeed {
        release_id: Some("mb-1".to_string()),
        score: Some(93),
        raw_payload: "{}".to_string(),
    });
    let (record, candidates) = interpret_legacy_musicbrainz(&"t1".to_string(), p);
    assert!(matches!(record.status, MusicbrainzMatchStatus::Success));
    assert_eq!(record.confidence, Some(93));
    assert_eq!(record.release_id.as_deref(), Some("mb-1"));
    assert_eq!(candidates.len(), 1);
    assert_eq!(candidates[0].score, Some(93));
}

#[test]
fn legacy_musicbrainz_top_level_release_id_wins() {
    let mut p = payload("success");
    p.confidence = Some(60);
    p.release_id = Some("top".to_string());
    p.release = Some(CandidateSeed {
        release_id: Some("inner".to_string()),
        score: None,
        raw_payload: "{}".to_string(),
    });
    let (record, _) = interpret_legacy_musicbrainz(&"t1".to_string(), p);
    assert_eq!(record.release_id.as_deref(), Some("top"));
}

#[test]
fn legacy_unknown_status_reads_as_error() {
    let (record, candidates) = interpret_legacy_musicbrainz(&"t1".to_string(), payload("odd"));
    assert!(matches!(record.status, MusicbrainzMatchStatus::Error));
    assert!(candidates.is_empty());
    assert_eq!(record.message.as_deref(), Some("m"));
}
