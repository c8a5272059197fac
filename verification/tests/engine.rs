use sonora::engine::{
    container_duration_ms, format_hint, playable_source, position_ms, reported_status,
    PlaybackProgress, PlaybackStatus, Reopen, SourceChoice, Transport, CHUNK_FRAMES,
    EVENT_PROGRESS, EVENT_STATUS,
};

#[test]
fn a_new_engine_is_stopped_with_nothing_loaded() {
    let t: Transport<String> = Transport::new();
    assert_eq!(t.status, PlaybackStatus::Stopped);
    assert!(t.current_track.is_none());
    assert!(t.is_normalizing);
}

#[test]
fn loading_playing_pausing_and_stopping() {
    let mut t: Transport<String> = Transport::new();
    t.load("a".to_string(), 180_000, false, true);
    assert_eq!(t.status, PlaybackStatus::Paused);
    assert!(t.paused && !t.playing);
    t.play();
    assert_eq!(t.status, PlaybackStatus::Playing);
    t.pushed(48_000);
    t.frames_played = 48_000;
    t.pause();
    t.play();
    assert_eq!(position_ms(t.frames_played, t.track_anchor, t.anchor_ms, 48_000, t.duration_ms), 1000);
    t.seek(90_000, true);
    assert_eq!(t.anchor_ms, 90_000);
    assert_eq!(t.frames_played, 0);
    t.stop();
    assert_eq!(t.status, PlaybackStatus::Stopped);
    assert_eq!(t.position_ms, 0);
    assert!(t.current_track.is_none());
}

#[test]
fn an_unreadable_track_stops_the_engine() {
    let mut t: Transport<String> = Transport::new();
    t.load("broken".to_string(), 1000, true, false);
    assert_eq!(t.status, PlaybackStatus::Stopped);
    assert!(t.current_track.is_none());
    assert_eq!(t.duration_ms, 0);
}

#[test]
fn the_next_track_is_queued_only_when_pre_rolled() {
    let mut t: Transport<String> = Transport::new();
    t.set_next(Some("b".to_string()), true);
    assert!(t.next_track.is_none(), "nothing is decoding yet");
    t.load("a".to_string(), 1000, true, true);
    t.set_next(Some("b".to_string()), true);
    assert_eq!(t.next_track.as_deref(), Some("b"));
    assert!(t.is_gapless);
    t.set_normalization(false, Reopen::Failed);
    assert!(!t.is_gapless);
    assert_eq!(t.next_track.as_deref(), Some("b"));
    t.set_normalization(true, Reopen::Ready);
    assert!(t.is_gapless);
    t.pushed(4_800);
    t.advance(2000);
    assert_eq!(t.current_track.as_deref(), Some("b"));
    assert_eq!(t.track_anchor, 4_800);
    assert_eq!(t.duration_ms, 2000);
    t.finish();
    assert!(t.drained && !t.playing);
}

#[test]
fn position_and_status_reporting() {
    assert_eq!(position_ms(96_000, 48_000, 0, 48_000, 10_000), 1000);
    assert_eq!(position_ms(96_000, 0, 500, 48_000, 1_200), 1_200);
    assert_eq!(position_ms(10, 20, 7, 0, 100), 7);
    assert_eq!(reported_status(PlaybackStatus::Playing, true, 10, 10), PlaybackStatus::Stopped);
    assert_eq!(reported_status(PlaybackStatus::Playing, true, 9, 10), PlaybackStatus::Playing);
    assert_eq!(reported_status(PlaybackStatus::Paused, true, 10, 10), PlaybackStatus::Paused);
    let p = PlaybackProgress { position_ms: 1, duration_ms: 2 };
    assert_eq!(p.position_ms + 1, p.duration_ms);
    assert_eq!(EVENT_PROGRESS, "sonora://playback-progress");
    assert_eq!(EVENT_STATUS, "sonora://playback-status");
}

#[test]
fn an_idle_engine_does_not_open_what_is_queued() {
    let mut t: Transport<String> = Transport::new();
    assert!(!t.preroll_owed(&Some("b".to_string())));
    t.load("a".to_string(), 1000, true, true);
    assert!(t.preroll_owed(&Some("b".to_string())));
    assert!(!t.preroll_owed(&None));
}

#[test]
fn a_finished_track_is_announced_once_the_output_has_played_it() {
    let mut t: Transport<String> = Transport::new();
    t.load("a".to_string(), 1000, true, true);
    t.pushed(4_800);
    t.finish();
    assert_eq!(t.pending_ended.as_deref(), Some("a"));
    // The output still holds frames of the track: nothing is announced yet.
    t.played(4_000);
    assert_eq!(t.take_ended(), None);
    assert_eq!(t.pending_ended.as_deref(), Some("a"));
    t.played(800);
    assert_eq!(t.take_ended().as_deref(), Some("a"));
    // Announced once.
    assert_eq!(t.take_ended(), None);
    // Stopping or loading drops an end that was not announced.
    t.load("c".to_string(), 1000, true, true);
    t.pushed(10);
    t.finish();
    t.stop();
    assert!(t.pending_ended.is_none());
}

#[test]
fn queuing_and_normalization_leave_the_playback_alone() {
    let mut t: Transport<String> = Transport::new();
    t.load("a".to_string(), 1000, false, true);
    t.seek(500, true);
    t.set_next(Some("b".to_string()), true);
    assert!(t.paused && !t.playing);
    assert_eq!(t.position_ms, 500);
    assert!(t.is_normalizing);
    t.set_normalization(false, Reopen::Empty);
    assert!(t.paused && t.decoding);
    assert_eq!(t.position_ms, 500);
    assert_eq!(t.duration_ms, 1000);
    assert!(t.next_track.is_none());
}

#[test]
fn a_track_is_read_from_its_file_else_its_stream() {
    let file = playable_source(Some("/m/a.flac".to_string()), true, Some("https://x".to_string()), "t");
    assert_eq!(file, Ok(SourceChoice::File("/m/a.flac".to_string())));
    let stream = playable_source(Some("/m/gone.flac".to_string()), false, Some("https://x".to_string()), "t");
    assert_eq!(stream, Ok(SourceChoice::Stream("https://x".to_string())));
    assert_eq!(
        playable_source(Some("/m/gone.flac".to_string()), false, Some("ftp://x".to_string()), "t"),
        Err("cannot open /m/gone.flac".to_string())
    );
    assert_eq!(playable_source(None, false, None, "t1"), Err("track t1 has no playable source".to_string()));
    assert_eq!(format_hint(Some("/m/a.FLAC"), true).as_deref(), Some("FLAC"));
    assert_eq!(format_hint(Some("/m/noext"), true), None);
    assert_eq!(format_hint(None, true).as_deref(), Some("m4a"));
    assert_eq!(format_hint(None, false), None);
    assert_eq!(container_duration_ms(Some(441_000), 44_100, 7), 10_000);
    assert_eq!(container_duration_ms(Some(0), 44_100, 7), 7);
    assert_eq!(container_duration_ms(None, 44_100, 7), 7);
    assert_eq!(container_duration_ms(Some(5), 0, 7), 5_000);
}

#[test]
fn the_loop_decodes_only_while_playing_with_room_for_a_chunk() {
    let mut t: Transport<String> = Transport::new();
    t.load("a".to_string(), 1000, true, true);
    assert_eq!(CHUNK_FRAMES, 8192);
    assert!(t.should_decode(CHUNK_FRAMES * 2, CHUNK_FRAMES, 2));
    assert!(!t.should_decode(CHUNK_FRAMES * 2 - 1, CHUNK_FRAMES, 2));
    t.pause();
    assert!(!t.should_decode(CHUNK_FRAMES * 2, CHUNK_FRAMES, 2));
}
