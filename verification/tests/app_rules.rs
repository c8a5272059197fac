use sonora::engine::EVENT_TRACK_ENDED;
use sonora::providers::{ProviderKind, ProviderTrack};
use sonora::{
    clean_title, closest_track, configured_spotify_client, no_stream_found, scan_progress_due,
    stream_queries, worker_count, EVENT_LIBRARY_CHANGED, EVENT_MEDIA_KEY, EVENT_SCAN_PROGRESS,
    SCAN_EVENT_INTERVAL_MS,
};
use std::time::Duration;

/// The frontend listens on this exact string; a rename would silently break playback UI.
#[test]
fn track_ended_event_name_is_stable() {
    assert_eq!(EVENT_TRACK_ENDED, "sonora://track-ended");
    assert_eq!(EVENT_SCAN_PROGRESS, "sonora://scan-progress");
    assert_eq!(EVENT_LIBRARY_CHANGED, "sonora://library-changed");
    assert_eq!(EVENT_MEDIA_KEY, "sonora://media-key-event");
}

#[test]
fn scan_events_are_throttled_well_under_the_webview_budget() {
    assert!(Duration::from_millis(SCAN_EVENT_INTERVAL_MS) >= Duration::from_millis(50));
}

#[test]
fn scan_progress_is_reported_at_most_once_per_interval() {
    assert!(scan_progress_due(50, 0));
    assert!(!scan_progress_due(49, 0));
    assert!(!scan_progress_due(10, 20));
}

#[test]
fn worker_pool_leaves_a_core_for_audio() {
    assert_eq!(worker_count(Some(8)), 7);
    assert_eq!(worker_count(Some(1)), 1);
    assert_eq!(worker_count(Some(2)), 1);
    assert_eq!(worker_count(None), 3);
}

fn track(id: &str, duration_ms: u64) -> ProviderTrack {
    ProviderTrack {
        id: id.to_string(),
        provider: ProviderKind::YouTubeMusic,
        title: String::new(),
        artist: String::new(),
        album: String::new(),
        duration_ms,
        artwork_url: None,
    }
}

#[test]
fn stream_search_prefers_the_closest_length() {
    assert_eq!(clean_title("Song (Remix) - Live"), "Song");
    assert_eq!(clean_title("A-B"), "A");
    let (first, second) = stream_queries("Song (Live)", "Band");
    assert_eq!(first, "Band Song");
    assert_eq!(second, "Song (Live) Band");
    let tracks = vec![track("a", 100), track("b", 205), track("c", 195)];
    assert_eq!(closest_track(&tracks, 200), Some(1));
    assert_eq!(closest_track(&tracks, 0), Some(0));
    assert_eq!(closest_track(&[], 10), None);
    assert_eq!(no_stream_found("T", "A"), "No audio stream found for 'T' by 'A'");
    assert!(configured_spotify_client(Some(" ".to_string())).is_err());
    assert_eq!(configured_spotify_client(Some("id".to_string())), Ok("id".to_string()));
}

#[test]
fn scans_start_no_more_workers_than_files() {
    assert_eq!(sonora::scan_workers(7, 3), 3);
    assert_eq!(sonora::scan_workers(7, 100), 7);
    assert_eq!(sonora::scan_workers(0, 100), 1);
    assert_eq!(sonora::scan_workers(4, 0), 1);
}
