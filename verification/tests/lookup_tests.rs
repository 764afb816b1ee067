use soundcloud_wrapper::lookup::{
    build_search_query, build_search_term, classify_response, interpret_discogs_search,
    interpret_lookup, CatalogResponse, DiscogsDecision, DiscogsSearchResult, LookupFailure,
    LookupProtocol, LookupResult, LookupStep, ScoredRelease,
};

fn release(id: u64, score: Option<u32>) -> ScoredRelease {
    ScoredRelease {
        release_id: Some(id.to_string()),
        score,
        raw_payload: format!("{{\"id\":{}}}", id),
    }
}

fn expect_success(r: Result<LookupResult, LookupFailure>) -> (String, u32) {
    match r {
        Ok(LookupResult::Success { release, confidence }) => {
            (release.release_id.unwrap(), confidence)
        }
        Ok(LookupResult::Ambiguous { .. }) => panic!("expected a success, got ambiguous"),
        Err(_) => panic!("expected a success, got a failure"),
    }
}

#[test]
fn single_candidate_is_accepted_with_its_score() {
    let (id, conf) = expect_success(interpret_lookup(vec![release(1, Some(90))]));
    assert_eq!(id, "1");
    assert_eq!(conf, 90);
}

#[test]
fn outright_high_score_is_accepted() {
    let (id, conf) = expect_success(interpret_lookup(vec![
        release(1, Some(96)),
        release(2, Some(40)),
    ]));
    assert_eq!(id, "1");
    assert_eq!(conf, 96);
}

#[test]
fn clear_margin_is_accepted() {
    let (id, conf) = expect_success(interpret_lookup(vec![
        release(1, Some(87)),
        release(2, Some(76)),
    ]));
    assert_eq!(id, "1");
    assert_eq!(conf, 87);
}

#[test]
fn close_scores_are_ambiguous() {
    match interpret_lookup(vec![release(1, Some(80)), release(2, Some(78))]) {
        Ok(LookupResult::Ambiguous { candidates }) => {
            assert_eq!(candidates.len(), 2);
            assert_eq!(candidates[0].release_id.as_deref(), Some("1"));
        }
        _ => panic!("expected an ambiguous verdict"),
    }
}

#[test]
fn empty_response_fails_with_no_releases_found() {
    match interpret_lookup(Vec::new()) {
        Err(LookupFailure::Message(m)) => assert_eq!(m, "no releases found"),
        _ => panic!("expected a failure"),
    }
}

#[test]
fn scoreless_single_result_reports_default_ceiling() {
    let (_, conf) = expect_success(interpret_lookup(vec![release(1, None)]));
    assert_eq!(conf, 100);
}

#[test]
fn ambiguity_returns_at_most_five_candidates() {
    let many: Vec<ScoredRelease> = (0..8).map(|i| release(i, Some(50))).collect();
    match interpret_lookup(many) {
        Ok(LookupResult::Ambiguous { candidates }) => assert_eq!(candidates.len(), 5),
        _ => panic!("expected an ambiguous verdict"),
    }
}

#[test]
fn retry_cap_gives_up_after_three_attempts() {
    let mut protocol = LookupProtocol::new();
    let rl = |secs: Option<u64>| CatalogResponse::RateLimited {
        retry_after_secs: secs,
    };
    assert!(matches!(
        protocol.step(rl(Some(2))),
        LookupStep::Retry { delay_ms: 2000 }
    ));
    assert!(matches!(
        protocol.step(rl(None)),
        LookupStep::Retry { delay_ms: 5000 }
    ));
    assert!(matches!(protocol.step(rl(None)), LookupStep::FailRateLimited));
}

#[test]
fn non_retryable_responses_fail_immediately() {
    let mut protocol = LookupProtocol::new();
    assert!(matches!(
        protocol.step(CatalogResponse::Unauthorized),
        LookupStep::FailUnauthorized
    ));
    let mut protocol = LookupProtocol::new();
    assert!(matches!(
        protocol.step(CatalogResponse::NotFound),
        LookupStep::FailNotFound
    ));
    let mut protocol = LookupProtocol::new();
    assert!(matches!(
        protocol.step(CatalogResponse::Unexpected { status: 500 }),
        LookupStep::FailUnexpected { status: 500 }
    ));
}

#[test]
fn search_term_joins_trimmed_parts() {
    let artist = "  The Band  ".to_string();
    let title = "Song".to_string();
    let term = build_search_term(Some(&artist), Some(&title));
    assert_eq!(term, "The Band Song");
    let blank = "   ".to_string();
    let term = build_search_term(Some(&blank), Some(&title));
    assert_eq!(term, "Song");
    let term = build_search_term(None, None);
    assert_eq!(term, "");
}

#[test]
fn search_query_scopes_fields_and_escapes_quotes() {
    let artist = "Say \"Hi\"".to_string();
    let title = "Song".to_string();
    let tags = vec!["genre".to_string(), "Album:Greatest".to_string()];
    let q = build_search_query(Some(&artist), Some(&title), &tags);
    assert_eq!(
        q,
        "artist:\"Say \\\"Hi\\\"\" AND recording:\"Song\" AND release:\"Album:Greatest\""
    );
    let none = build_search_query(None, None, &Vec::new());
    assert_eq!(none, "");
}

fn discogs_result(id: &str, kind: Option<&str>, url: Option<&str>, score: Option<u32>) -> DiscogsSearchResult {
    DiscogsSearchResult {
        release_id: Some(id.to_string()),
        result_type: kind.map(|s| s.to_string()),
        resource_url: url.map(|s| s.to_string()),
        score,
        raw_payload: "{}".to_string(),
    }
}

#[test]
fn discogs_filters_structurally_invalid_results() {
    let results = vec![
        discogs_result("1", Some("master"), Some("u1"), Some(99)),
        discogs_result("2", Some("release"), None, Some(98)),
    ];
    assert!(matches!(
        interpret_discogs_search(results),
        DiscogsDecision::NoReleases
    ));
}

#[test]
fn discogs_fetches_single_valid_release() {
    let results = vec![discogs_result("1", Some("release"), Some("u1"), Some(42))];
    match interpret_discogs_search(results) {
        DiscogsDecision::FetchRelease { url, confidence } => {
            assert_eq!(url, "u1");
            assert_eq!(confidence, 42);
        }
        _ => panic!("expected a fetch decision"),
    }
}

#[test]
fn discogs_margin_rule_decides_between_fetch_and_ambiguous() {
    let confident = vec![
        discogs_result("1", Some("release"), Some("u1"), Some(90)),
        discogs_result("2", Some("release"), Some("u2"), Some(70)),
    ];
    assert!(matches!(
        interpret_discogs_search(confident),
        DiscogsDecision::FetchRelease { .. }
    ));
    let close = vec![
        discogs_result("1", Some("release"), Some("u1"), Some(90)),
        discogs_result("2", Some("release"), Some("u2"), Some(85)),
    ];
    match interpret_discogs_search(close) {
        DiscogsDecision::Ambiguous { candidates } => assert_eq!(candidates.len(), 2),
        _ => panic!("expected an ambiguous decision"),
    }
}

#[test]
fn responses_classify_by_status_code() {
    assert!(matches!(classify_response(200, None), CatalogResponse::Success));
    assert!(matches!(classify_response(204, None), CatalogResponse::Success));
    assert!(matches!(
        classify_response(429, Some(7)),
        CatalogResponse::RateLimited { retry_after_secs: Some(7) }
    ));
    assert!(matches!(
        classify_response(503, None),
        CatalogResponse::RateLimited { retry_after_secs: None }
    ));
    assert!(matches!(classify_response(401, None), CatalogResponse::Unauthorized));
    assert!(matches!(classify_response(403, None), CatalogResponse::Unauthorized));
    assert!(matches!(classify_response(404, None), CatalogResponse::NotFound));
    assert!(matches!(
        classify_response(500, None),
        CatalogResponse::Unexpected { status: 500 }
    ));
}
