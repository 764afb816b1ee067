use soundcloud_wrapper::importer::{
    content_checksum, cues_for, decode_location, duration_from_frames, make_rb_track_id,
    resolve_location, supports_auto_refresh, CueEntry, FileMetadata, RekordboxCue,
};

#[test]
fn minted_identity_prefixes_the_external_id() {
    assert_eq!(make_rb_track_id(&"123".to_string()), "rekordbox:123");
}

#[test]
fn location_prefers_direct_path() {
    let direct = resolve_location(
        &Some("/direct.mp3".to_string()),
        &Some("/folder".to_string()),
        &Some("name.mp3".to_string()),
    );
    assert_eq!(direct.as_deref(), Some("/direct.mp3"));
}

#[test]
fn location_joins_folder_and_name() {
    let joined = resolve_location(
        &Some("".to_string()),
        &Some("/folder".to_string()),
        &Some("name.mp3".to_string()),
    );
    assert_eq!(joined.as_deref(), Some("/folder/name.mp3"));
    let with_slash = resolve_location(
        &None,
        &Some("/folder/".to_string()),
        &Some("name.mp3".to_string()),
    );
    assert_eq!(with_slash.as_deref(), Some("/folder/name.mp3"));
    let none = resolve_location(&None, &Some("/folder".to_string()), &None);
    assert_eq!(none, None);
}

#[test]
fn plain_locations_decode_to_themselves() {
    let plain = decode_location(&"/music/song.mp3".to_string());
    assert_eq!(plain.as_deref(), Some("/music/song.mp3"));
}

#[test]
fn file_urls_decode_percent_escapes() {
    let decoded = decode_location(&"file:///tmp/a%20b.mp3".to_string());
    assert_eq!(decoded.as_deref(), Some("/tmp/a b.mp3"));
}

#[test]
fn xml_exports_do_not_support_auto_refresh() {
    assert!(!supports_auto_refresh(&"/lib/export.xml".to_string()));
    assert!(!supports_auto_refresh(&"/lib/export.XML".to_string()));
    assert!(supports_auto_refresh(&"/lib/master.db".to_string()));
    assert!(supports_auto_refresh(&"/lib.d/master".to_string()));
    // a bare dot-file carries no extension
    assert!(supports_auto_refresh(&".xml".to_string()));
    assert!(supports_auto_refresh(&"/lib/.xml".to_string()));
    assert!(!supports_auto_refresh(&"/lib/a.tar.xml".to_string()));
}

#[test]
fn checksum_is_the_hex_sha256_of_the_contents() {
    let empty: Vec<u8> = Vec::new();
    assert_eq!(
        content_checksum(&empty),
        "e3b0c44298fc1c149afbf4c8996fb92427ae41e4649b934ca495991b7852b855"
    );
    let abc: Vec<u8> = b"abc".to_vec();
    assert_eq!(
        content_checksum(&abc),
        "ba7816bf8f01cfea414140de5dae2223b00361a396177a9cb410ff61f20015ad"
    );
}

#[test]
fn duration_divides_frames_by_rate() {
    let frames: Vec<u64> = vec![44100, 44100];
    assert_eq!(duration_from_frames(&frames, 44100), Some(2000));
    assert_eq!(duration_from_frames(&frames, 0), None);
    let half: Vec<u64> = vec![22050];
    assert_eq!(duration_from_frames(&half, 44100), Some(500));
}

#[test]
fn cues_attach_to_their_song() {
    let cue = |song: &str, slot: i64| CueEntry {
        song_id: song.to_string(),
        cue: RekordboxCue {
            slot,
            name: Some(format!("cue{}", slot)),
            color: None,
            position_ms: slot * 1000,
            cue_type: None,
        },
    };
    let entries = vec![cue("1", 0), cue("2", 1), cue("1", 2)];
    let for_one = cues_for(&entries, &"1".to_string());
    assert_eq!(for_one.len(), 2);
    assert_eq!(for_one[0].slot, 0);
    assert_eq!(for_one[1].slot, 2);
    assert_eq!(for_one[1].name.as_deref(), Some("cue2"));
    let for_three = cues_for(&entries, &"3".to_string());
    assert!(for_three.is_empty());
}

#[test]
fn missing_metadata_is_unavailable() {
    let m = FileMetadata::missing();
    assert!(m.checksum.is_none());
    assert!(m.duration_ms.is_none());
    assert!(!m.available);
}
