use sonora::native::{
    canonical_spotify_track_id, handle_player_event, is_current_play_request, normalize_spotify_id,
    spotify_id_from_base62, spotify_id_to_base62, ClockChange, NativeEvent, NativeState, SpotifyUri,
};

#[test]
fn parses_various_spotify_uris() {
    let uri1 = "spotify://track/1jzIJcHCXneHw7ojC6LXiF";
    let uri2 = "spotify:track:1jzIJcHCXneHw7ojC6LXiF";
    let uri3 = "1jzIJcHCXneHw7ojC6LXiF";
    assert_eq!(normalize_spotify_id(uri1).unwrap(), "1jzIJcHCXneHw7ojC6LXiF");
    assert_eq!(normalize_spotify_id(uri2).unwrap(), "1jzIJcHCXneHw7ojC6LXiF");
    assert_eq!(normalize_spotify_id(uri3).unwrap(), "1jzIJcHCXneHw7ojC6LXiF");
}

#[test]
fn parses_web_urls_and_strips_queries() {
    let url1 = "https://open.spotify.com/track/1jzIJcHCXneHw7ojC6LXiF?si=abc123xyz";
    let url2 = "http://spotify.com/track/1jzIJcHCXneHw7ojC6LXiF";
    assert_eq!(normalize_spotify_id(url1).unwrap(), "1jzIJcHCXneHw7ojC6LXiF");
    assert_eq!(normalize_spotify_id(url2).unwrap(), "1jzIJcHCXneHw7ojC6LXiF");
}

#[test]
fn rejects_invalid_spotify_uris() {
    assert!(normalize_spotify_id("").is_err());
    assert!(normalize_spotify_id("   ").is_err());
    assert!(normalize_spotify_id("not-a-valid-track-id").is_err());
    assert!(normalize_spotify_id("spotify:track:invalid!chars").is_err());
}

#[test]
fn normalization_errors_say_why() {
    assert_eq!(normalize_spotify_id(" ").err().as_deref(), Some("Empty Spotify URI or track ID"));
    assert_eq!(normalize_spotify_id("spotify:track:?x").err().as_deref(), Some("Missing Spotify track ID"));
    assert_eq!(
        normalize_spotify_id("abc").err().as_deref(),
        Some("Invalid Spotify track ID 'abc': must be 22-character base62")
    );
    // 22 base62 digits whose value does not fit in 128 bits.
    assert!(normalize_spotify_id("zzzzzzzzzzzzzzzzzzzzzz").is_err());
    assert!(normalize_spotify_id(&format!("1{}", "Z".repeat(21))).is_ok());
    assert!(normalize_spotify_id(&"Z".repeat(22)).is_err());
    assert_eq!(normalize_spotify_id("1jzIJcHCXneHw7ojC6LXiF#frag").unwrap(), "1jzIJcHCXneHw7ojC6LXiF");
}

#[test]
fn stale_play_requests_are_ignored() {
    assert!(!is_current_play_request(None, 1));
    assert!(!is_current_play_request(Some(2), 1));
    assert!(is_current_play_request(Some(7), 7));
}

#[test]
fn player_events_drive_the_reported_state() {
    let st = NativeState::new();
    assert_eq!(st.playback.device_name.as_deref(), Some("Sonora (Native)"));
    assert_eq!(st.playback.volume_percent, Some(100));
    let (st, fx) = handle_player_event(st, NativeEvent::Loading { request: 3 });
    assert!(!fx.emit);
    let (st, fx) = handle_player_event(st, NativeEvent::Playing { request: 3, position_ms: 500 });
    assert!(fx.emit && st.playback.is_playing);
    assert_eq!(fx.clock, ClockChange::Start(500));
    assert_eq!(fx.load_result, Some(true));
    // An event of an older request changes nothing.
    let (st, fx) = handle_player_event(st, NativeEvent::Paused { request: 2, position_ms: 9 });
    assert!(!fx.emit && st.playback.is_playing);
    let (st, fx) = handle_player_event(st, NativeEvent::EndOfTrack { request: 3, track_id: Some("spotify://track/x".to_string()) });
    assert!(!st.playback.is_playing);
    assert_eq!(fx.ended_track.as_deref(), Some("spotify://track/x"));
    let (st, fx) = handle_player_event(st, NativeEvent::VolumeChanged { percent: 40 });
    assert!(fx.emit);
    assert_eq!(st.playback.volume_percent, Some(40));
}

#[test]
fn player_commands_update_progress() {
    let mut st = NativeState::new();
    st.pause(0);
    st.seek(1500);
    assert_eq!(st.playback_state(0).progress_ms, 1500);
    st.start_track("abc");
    assert_eq!(st.playback.track.as_ref().map(|t| t.id.as_str()), Some("spotify://track/abc"));
    st.resume();
    assert_eq!(st.playback_state(250).progress_ms, 250);
    st.pause(100);
    assert_eq!(st.playback.progress_ms, 100);
    st.set_volume_percent(65);
    assert_eq!(st.playback_state(0).volume_percent, Some(65));
    st.stop();
    let state = st.playback_state(0);
    assert!(state.track.is_none());
    assert!(!state.is_playing);
    assert_eq!(state.progress_ms, 0);
}

#[test]
fn canonical_track_id_matches_frontend_uris() {
    let id = spotify_id_from_base62("1jzIJcHCXneHw7ojC6LXiF").unwrap();
    let uri = SpotifyUri::Track { id };
    assert_eq!(
        canonical_spotify_track_id(&uri).as_deref(),
        Some("spotify://track/1jzIJcHCXneHw7ojC6LXiF")
    );
}

#[test]
fn non_track_uris_have_no_canonical_track_id() {
    assert_eq!(canonical_spotify_track_id(&SpotifyUri::Other), None);
}

#[test]
fn base62_ids_round_trip_and_keep_leading_zeros() {
    assert_eq!(spotify_id_to_base62(0), "0000000000000000000000");
    assert_eq!(spotify_id_to_base62(61), "000000000000000000000Z");
    assert_eq!(spotify_id_to_base62(62), "0000000000000000000010");
    assert_eq!(spotify_id_to_base62(u128::MAX), "7N42dgm5tFLK9N8MT7fHC7");
    assert_eq!(spotify_id_from_base62("7N42dgm5tFLK9N8MT7fHC7"), Some(u128::MAX));
    assert_eq!(spotify_id_from_base62("7N42dgm5tFLK9N8MT7fHC8"), None);
    assert_eq!(spotify_id_from_base62("short"), None);
    let id = spotify_id_from_base62("4uLU6hMCjMI75M1A2tKUQC").unwrap();
    assert_eq!(spotify_id_to_base62(id), "4uLU6hMCjMI75M1A2tKUQC");
}

/// The player takes its volume as a fraction; the state holds it in percent.
fn volume_percent(volume: f32) -> u8 {
    (volume.clamp(0.0, 1.0) * 100.0).round() as u8
}

#[test]
fn native_player_lifecycle_and_state() {
    let mut player = NativeState::new();
    let state = player.playback_state(0);
    assert!(!state.is_playing);
    assert_eq!(state.progress_ms, 0);
    assert_eq!(state.device_name.as_deref(), Some("Sonora (Native)"));

    player.pause(0);
    player.seek(1500);
    let state = player.playback_state(0);
    assert_eq!(state.progress_ms, 1500);

    player.set_volume_percent(volume_percent(0.65));
    assert_eq!(player.playback_state(0).volume_percent, Some(65));

    player.set_volume_percent(volume_percent(1.5));
    assert_eq!(player.playback_state(0).volume_percent, Some(100));

    player.set_volume_percent(volume_percent(-0.5));
    assert_eq!(player.playback_state(0).volume_percent, Some(0));

    player.stop();
    let state = player.playback_state(0);
    assert!(state.track.is_none());
    assert!(!state.is_playing);
    assert_eq!(state.progress_ms, 0);
}
