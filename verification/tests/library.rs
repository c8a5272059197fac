use sonora::db::{fts_match_expression, like_pattern, order_clause, provider_filter, search_text};
use sonora::library::{
    artwork_extension, artwork_file_name, clean, extension, is_audio_file, local_track_text,
    AppConfig, ScanSummary,
};

#[test]
fn extension_filter_accepts_supported_containers() {
    assert!(is_audio_file("/m/song.FLAC"));
    assert!(is_audio_file("/m/song.m4a"));
    assert!(!is_audio_file("/m/cover.jpg"));
    assert!(!is_audio_file("/m/no-extension"));
}

#[test]
fn extensions_follow_path_rules() {
    assert_eq!(extension("/m/.hidden").as_deref(), None);
    assert_eq!(extension("/m/a.b.ogg").as_deref(), Some("ogg"));
    assert_eq!(extension("/m/song.").as_deref(), Some(""));
    assert_eq!(extension("/m/dir.mp3/").as_deref(), Some("mp3"));
    assert_eq!(extension("/m/..").as_deref(), None);
    assert!(is_audio_file("track.Opus"));
}

#[test]
fn tag_text_is_cleaned() {
    assert_eq!(clean("  Title\0 ".to_string()), "Title");
    assert_eq!(clean("\0 \0".to_string()), "Unknown");
    let t = local_track_text(
        "/m/a.mp3",
        Some("a".to_string()),
        None,
        Some(" Artist ".to_string()),
        None,
        Some("Unknown".to_string()),
        Some("Rock".to_string()),
    );
    assert_eq!(t.id, "local:///m/a.mp3");
    assert_eq!(t.title, "a");
    assert_eq!(t.artist, "Artist");
    assert_eq!(t.album, "Unknown Album");
    assert_eq!(t.album_artist, None);
    assert_eq!(t.genre.as_deref(), Some("Rock"));
}

#[test]
fn artwork_names_follow_their_content() {
    assert_eq!(artwork_extension(Some("image/png")), "png");
    assert_eq!(artwork_extension(Some("image/jpeg")), "jpg");
    assert_eq!(artwork_extension(None), "jpg");
    let first = artwork_file_name(b"\xFF\xD8\xFFsame", "jpg").unwrap();
    let second = artwork_file_name(b"\xFF\xD8\xFFsame", "jpg").unwrap();
    assert_eq!(first, second);
    assert_ne!(first, artwork_file_name(b"\xFF\xD8\xFFother", "jpg").unwrap());
    assert!(first.ends_with(".jpg"));
    assert_eq!(first.len(), 64 + 4);
    assert!(artwork_file_name(b"", "jpg").is_none());
    assert_eq!(
        artwork_file_name(b"abc", "png").unwrap(),
        "ba7816bf8f01cfea414140de5dae2223b00361a396177a9cb410ff61f20015ad.png"
    );
}

#[test]
fn settings_path_and_updates() {
    assert_eq!(AppConfig::path("/data"), "/data/settings.json");
    assert_eq!(AppConfig::path("/data/"), "/data/settings.json");
    let mut config = AppConfig::new();
    config.set_spotify_client_id("  abc ");
    assert_eq!(config.spotify_client_id.as_deref(), Some("abc"));
    config.set_spotify_client_id("   ");
    assert_eq!(config.spotify_client_id, None);
    config.add_music_folder("/music".to_string());
    config.add_music_folder("/music".to_string());
    assert_eq!(config.music_folders, vec!["/music".to_string()]);
    let summary = ScanSummary { scanned: 2, indexed: 2, removed: 0, duration_ms: 5 };
    assert_eq!(summary.scanned, 2);
}

#[test]
fn index_queries_escape_user_text() {
    assert_eq!(fts_match_expression("daft  punk"), "\"daft\"* \"punk\"*");
    assert_eq!(fts_match_expression("a\"b -c"), "\"a\"\"b\"* \"-c\"*");
    assert_eq!(fts_match_expression("   "), "");
    assert_eq!(like_pattern("50%_off\\"), "%50\\%\\_off\\\\%");
    assert_eq!(order_clause(Some("duration")), "t.duration_ms DESC");
    assert_eq!(order_clause(Some("drop table")), "t.title COLLATE NOCASE ASC");
    assert_eq!(order_clause(None), "t.title COLLATE NOCASE ASC");
    assert_eq!(provider_filter(Some("all")), None);
    assert_eq!(provider_filter(Some("local")), Some("local"));
    assert_eq!(search_text(Some("  q ")).as_deref(), Some("q"));
    assert_eq!(search_text(Some("  ")), None);
}

#[test]
fn scanned_tracks_are_listed_by_id() {
    let ids: Vec<String> = ["local:///b", "local:///a", "local:///ab", "local:///a", "local:///É", "local:///Z"]
        .iter()
        .map(|s| s.to_string())
        .collect();
    let order = sonora::library::order_by_id(&ids);
    let mut expected: Vec<usize> = (0..ids.len()).collect();
    expected.sort_by(|a, b| ids[*a].cmp(&ids[*b]));
    assert_eq!(order, expected);
    assert_eq!(order, vec![5, 1, 3, 2, 0, 4]);
    assert!(sonora::library::order_by_id(&Vec::new()).is_empty());
}
