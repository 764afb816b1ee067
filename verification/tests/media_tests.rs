use soundcloud_wrapper::media::{
    ArtworkEntry, MediaCache, MediaIntegration, MediaMetadataPayload, MediaUpdate,
    MediaUpdatePayload, PlaybackStatus,
};
use soundcloud_wrapper::ratelimit::RateLimiter;
use soundcloud_wrapper::watcher::{should_reimport, RekordboxState};

#[test]
fn playback_status_parses_known_names() {
    assert_eq!(PlaybackStatus::from_str("playing"), Some(PlaybackStatus::Playing));
    assert_eq!(PlaybackStatus::from_str("paused"), Some(PlaybackStatus::Paused));
    assert_eq!(PlaybackStatus::from_str("stopped"), Some(PlaybackStatus::Stopped));
    assert_eq!(PlaybackStatus::from_str("buffering"), None);
}

#[test]
fn metadata_artwork_falls_back_to_first_entry_source() {
    let payload = MediaMetadataPayload {
        title: Some("T".to_string()),
        artist: None,
        album: None,
        artwork: Some(vec![
            ArtworkEntry { src: None },
            ArtworkEntry { src: Some("https://example.invalid/a.png".to_string()) },
        ]),
        artwork_url: None,
    };
    let meta = payload.into_metadata();
    assert_eq!(meta.title.as_deref(), Some("T"));
    assert_eq!(meta.artwork_url.as_deref(), Some("https://example.invalid/a.png"));
}

#[test]
fn explicit_artwork_url_wins() {
    let payload = MediaMetadataPayload {
        title: None,
        artist: None,
        album: None,
        artwork: Some(vec![ArtworkEntry { src: Some("fallback".to_string()) }]),
        artwork_url: Some("explicit".to_string()),
    };
    assert_eq!(payload.into_metadata().artwork_url.as_deref(), Some("explicit"));
}

#[test]
fn empty_payload_denotes_no_update() {
    let update = MediaUpdate::from_payload(MediaUpdatePayload {
        playback_state: None,
        metadata: None,
    });
    assert!(update.is_none());
}

#[test]
fn state_only_update_keeps_cached_metadata() {
    let mut cache = MediaCache::new();
    let with_meta = MediaUpdate::from_payload(MediaUpdatePayload {
        playback_state: Some("playing".to_string()),
        metadata: Some(MediaMetadataPayload {
            title: Some("T".to_string()),
            artist: None,
            album: None,
            artwork: None,
            artwork_url: None,
        }),
    })
    .unwrap();
    cache.update(with_meta);
    assert_eq!(cache.playback, PlaybackStatus::Playing);
    let state_only = MediaUpdate::from_payload(MediaUpdatePayload {
        playback_state: Some("paused".to_string()),
        metadata: None,
    })
    .unwrap();
    cache.update(state_only);
    assert_eq!(cache.playback, PlaybackStatus::Paused);
    assert_eq!(cache.metadata.as_ref().unwrap().title.as_deref(), Some("T"));
}

#[test]
fn media_sink_accepts_updates() {
    let sink = MediaIntegration::initialize();
    let update = MediaUpdate::from_payload(MediaUpdatePayload {
        playback_state: Some("playing".to_string()),
        metadata: None,
    })
    .unwrap();
    sink.update(&update);
    assert!(!sink.enabled);
}

#[test]
fn rate_limiter_spaces_requests() {
    let mut limiter = RateLimiter::new(1100);
    assert_eq!(limiter.wait_ms(5000), 0);
    limiter.mark(5000);
    assert_eq!(limiter.wait_ms(5400), 700);
    assert_eq!(limiter.wait_ms(6100), 0);
    assert_eq!(limiter.wait_ms(9000), 0);
}

#[test]
fn watcher_reimports_only_on_newer_stamps() {
    assert!(should_reimport(None, 10));
    assert!(should_reimport(Some(5), 10));
    assert!(!should_reimport(Some(10), 10));
    assert!(!should_reimport(Some(12), 10));
}

#[test]
fn reconfiguring_same_path_is_a_noop() {
    let mut state = RekordboxState::new();
    assert!(state.configure("/lib/master.db".to_string()));
    assert!(!state.configure("/lib/master.db".to_string()));
    assert!(state.configure("/lib/other.db".to_string()));
    state.disable();
    assert!(state.watched_path.is_none());
}
