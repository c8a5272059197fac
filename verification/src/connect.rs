//! Spotify Connect: reading what the user's Spotify device reports while it plays a track Sonora
//! started on it.
use vstd::prelude::*;
use crate::text::{is_blank, chars_of, string_of};
use crate::lyrics::{same_str, blank_str};
use crate::spotify::SpotifyPlaybackState;

verus! {

/// Remaining time below which a stopped track counts as finished rather than paused.
pub const END_MARGIN_MS: u64 = 2_000;

/// How long a freshly started track may take to show up as playing on the device.
pub const START_GRACE_MS: u64 = 15_000;

/// What one poll of the device means for the track Sonora started.
#[derive(Debug, Clone, Copy, PartialEq, Eq, Structural)]
pub enum PollVerdict {
    /// Still waiting for the device to start the track.
    Starting,
    Playing,
    Ended,
}

/// The device reports the expected track.
pub open spec fn same_track(expected: Seq<char>, state: SpotifyPlaybackState) -> bool {
    state.track is Some && state.track.unwrap().id@ == expected
}

/// The device has stopped with the track at its start or within the end margin of its end.
pub open spec fn parked(state: SpotifyPlaybackState) -> bool {
    !state.is_playing && (state.progress_ms == 0 || (if state.duration_ms >= state.progress_ms {
        state.duration_ms - state.progress_ms
    } else {
        0
    }) <= END_MARGIN_MS)
}

/// The meaning of a poll: before the track has started, it is playing once the device plays it;
/// after, it has ended when the device moved to another track or parked this one (Spotify leaves
/// a finished track at position 0 or at its end; a pause keeps it somewhere in the middle).
pub open spec fn verdict_spec(expected: Seq<char>, started: bool, state: SpotifyPlaybackState) -> PollVerdict {
    if !started {
        if same_track(expected, state) && state.is_playing {
            PollVerdict::Playing
        } else {
            PollVerdict::Starting
        }
    } else if !same_track(expected, state) || parked(state) {
        PollVerdict::Ended
    } else {
        PollVerdict::Playing
    }
}

/// What one poll of the device means for the track Sonora started.
pub fn judge_poll(expected_track: &str, started: bool, state: &SpotifyPlaybackState) -> (r: PollVerdict)
    ensures
        r == verdict_spec(expected_track@, started, *state),
{
    let same = match &state.track {
        Some(t) => same_str(t.id.as_str(), expected_track),
        None => false,
    };
    if !started {
        return if same && state.is_playing {
            PollVerdict::Playing
        } else {
            PollVerdict::Starting
        };
    }
    let remaining = if state.duration_ms >= state.progress_ms {
        state.duration_ms - state.progress_ms
    } else {
        0
    };
    let is_parked = !state.is_playing && (state.progress_ms == 0 || remaining <= END_MARGIN_MS);
    if !same || is_parked {
        PollVerdict::Ended
    } else {
        PollVerdict::Playing
    }
}

/// Once started, a track that the device still reports playing is never judged ended, and one it
/// no longer reports is always judged ended.
pub proof fn lemma_started_verdicts(expected: Seq<char>, state: SpotifyPlaybackState)
    ensures
        same_track(expected, state) && state.is_playing ==> verdict_spec(expected, true, state)
            == PollVerdict::Playing,
        !same_track(expected, state) ==> verdict_spec(expected, true, state) == PollVerdict::Ended,
        verdict_spec(expected, false, state) != PollVerdict::Ended,
{
}

/// What the follower does after a poll.
#[derive(Debug, Clone, Copy, PartialEq, Eq, Structural)]
pub enum FollowStep {
    /// Keep polling; `started` is whether the track now counts as started.
    Wait { started: bool },
    /// Report the state and keep polling; the track has started.
    Report,
    /// The track has ended: report it and stop following.
    Finish,
}

/// The next step of the follower: a track that has not shown up within the start grace period is
/// treated as started, so that its end can still be seen.
pub fn follow_step(verdict: PollVerdict, elapsed_ms: u64) -> (r: FollowStep)
    ensures
        r == match verdict {
            PollVerdict::Starting => FollowStep::Wait { started: elapsed_ms > START_GRACE_MS },
            PollVerdict::Playing => FollowStep::Report,
            PollVerdict::Ended => FollowStep::Finish,
        },
{
    match verdict {
        PollVerdict::Starting => FollowStep::Wait { started: elapsed_ms > START_GRACE_MS },
        PollVerdict::Playing => FollowStep::Report,
        PollVerdict::Ended => FollowStep::Finish,
    }
}

/// The client id kept from a configured value: none when it is blank.
pub fn configured_client_id(client_id: Option<String>) -> (r: Option<String>)
    ensures
        match client_id {
            Some(c) => if is_blank(c@) {
                r is None
            } else {
                r matches Some(x) && x@ == c@
            },
            None => r is None,
        },
{
    match client_id {
        Some(c) => if blank_str(c.as_str()) {
            None
        } else {
            Some(c)
        },
        None => None,
    }
}

/// The message when no client id is configured.
pub open spec fn missing_client_message() -> Seq<char> {
    "Configure your Spotify Client ID in Settings first."@
}

/// The client id to call the Web API with, or the message asking for one.
pub fn effective_client_id(client_id: &Option<String>) -> (r: Result<String, String>)
    ensures
        match r {
            Ok(c) => client_id is Some && !is_blank(client_id.unwrap()@) && c@ == client_id.unwrap()@,
            Err(e) => (client_id is None || is_blank(client_id.unwrap()@)) && e@ == missing_client_message(),
        },
{
    match client_id {
        Some(c) => if blank_str(c.as_str()) {
            Err(string_of(&chars_of("Configure your Spotify Client ID in Settings first.")))
        } else {
            Ok(string_of(&chars_of(c.as_str())))
        },
        None => Err(string_of(&chars_of("Configure your Spotify Client ID in Settings first."))),
    }
}

/// The track Sonora still owns after the follower of `ended` finished: none when it was that
/// track, else unchanged.
pub fn active_after_end(active: Option<String>, ended: &str) -> (r: Option<String>)
    ensures
        match active {
            Some(a) => if a@ == ended@ {
                r is None
            } else {
                r matches Some(x) && x@ == a@
            },
            None => r is None,
        },
{
    match active {
        Some(a) => if same_str(a.as_str(), ended) {
            None
        } else {
            Some(a)
        },
        None => None,
    }
}

} // verus!
