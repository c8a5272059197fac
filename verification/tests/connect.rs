use sonora::connect::{
    active_after_end, configured_client_id, effective_client_id, follow_step, judge_poll,
    FollowStep, PollVerdict,
};
use sonora::providers::{ProviderKind, ProviderTrack};
use sonora::spotify::SpotifyPlaybackState;

const TRACK: &str = "spotify://track/4cOdK2wGLETKBW3PvgPWqT";

fn state(track: Option<&str>, is_playing: bool, progress_ms: u64) -> SpotifyPlaybackState {
    SpotifyPlaybackState {
        track: track.map(|id| ProviderTrack {
            id: id.to_string(),
            provider: ProviderKind::Spotify,
            title: String::new(),
            artist: String::new(),
            album: String::new(),
            duration_ms: 200_000,
            artwork_url: None,
        }),
        is_playing,
        progress_ms,
        duration_ms: 200_000,
        volume_percent: None,
        device_name: None,
    }
}

#[test]
fn waits_for_the_device_to_start_the_requested_track() {
    let previous = "spotify://track/0000000000000000000000";
    assert_eq!(judge_poll(TRACK, false, &state(Some(previous), true, 50_000)), PollVerdict::Starting);
    assert_eq!(judge_poll(TRACK, false, &state(Some(TRACK), false, 0)), PollVerdict::Starting);
    assert_eq!(judge_poll(TRACK, false, &state(Some(TRACK), true, 300)), PollVerdict::Playing);
}

#[test]
fn a_pause_mid_track_is_not_the_end() {
    assert_eq!(judge_poll(TRACK, true, &state(Some(TRACK), false, 90_000)), PollVerdict::Playing);
}

#[test]
fn detects_every_way_spotify_reports_a_finished_track() {
    assert_eq!(judge_poll(TRACK, true, &state(Some(TRACK), false, 0)), PollVerdict::Ended);
    assert_eq!(judge_poll(TRACK, true, &state(Some(TRACK), false, 199_500)), PollVerdict::Ended);
    let autoplay = "spotify://track/1111111111111111111111";
    assert_eq!(judge_poll(TRACK, true, &state(Some(autoplay), true, 1_000)), PollVerdict::Ended);
    assert_eq!(judge_poll(TRACK, true, &state(None, false, 0)), PollVerdict::Ended);
}

#[test]
fn the_end_margin_is_two_seconds() {
    assert_eq!(judge_poll(TRACK, true, &state(Some(TRACK), false, 198_000)), PollVerdict::Ended);
    assert_eq!(judge_poll(TRACK, true, &state(Some(TRACK), false, 197_999)), PollVerdict::Playing);
}

#[test]
fn the_follower_gives_up_waiting_after_the_grace_period() {
    assert_eq!(follow_step(PollVerdict::Starting, 15_000), FollowStep::Wait { started: false });
    assert_eq!(follow_step(PollVerdict::Starting, 15_001), FollowStep::Wait { started: true });
    assert_eq!(follow_step(PollVerdict::Playing, 0), FollowStep::Report);
    assert_eq!(follow_step(PollVerdict::Ended, 0), FollowStep::Finish);
}

#[test]
fn client_ids_and_the_active_track() {
    assert_eq!(configured_client_id(Some("  ".to_string())), None);
    assert_eq!(configured_client_id(Some("id".to_string())).as_deref(), Some("id"));
    assert!(effective_client_id(&None).is_err());
    assert_eq!(effective_client_id(&Some("x".to_string())), Ok("x".to_string()));
    assert_eq!(active_after_end(Some(TRACK.to_string()), TRACK), None);
    assert_eq!(active_after_end(Some("other".to_string()), TRACK).as_deref(), Some("other"));
}
