//! The playback engine's control state: what each transport command does to the reported state,
//! the decoder's flags and the playback timeline, and how position and status are reported.
use vstd::prelude::*;
use crate::text::{chars_of, string_of, push_str, slice_vec};
use crate::library::extension_of;

verus! {

/// Event carrying the playback position.
pub const EVENT_PROGRESS: &'static str = "sonora://playback-progress";
/// Event carrying the playback status.
pub const EVENT_STATUS: &'static str = "sonora://playback-status";
/// Event sent when a track finished playing.
pub const EVENT_TRACK_ENDED: &'static str = "sonora://track-ended";

/// Frames decoded per chunk.
pub const CHUNK_FRAMES: usize = 8192;

/// Whether audio is playing.
#[derive(Debug, Clone, Copy, PartialEq, Eq, Structural)]
pub enum PlaybackStatus {
    Playing,
    Paused,
    Stopped,
}

/// Where playback is in the current track.
#[derive(Debug, Clone, Copy, PartialEq, Eq, Structural)]
pub struct PlaybackProgress {
    pub position_ms: u64,
    pub duration_ms: u64,
}

/// The control state of the engine, over tracks of type `T`.
pub struct Transport<T> {
    /// The reported status.
    pub status: PlaybackStatus,
    /// The track being played, as reported.
    pub current_track: Option<T>,
    /// The track queued to follow it, as reported.
    pub next_track: Option<T>,
    /// Length of the current track.
    pub duration_ms: u64,
    /// Position as last stored (the reported position is computed from the timeline).
    pub position_ms: u64,
    /// The next track is pre-rolled, so the transition will be gapless.
    pub is_gapless: bool,
    /// Loudness normalization is on.
    pub is_normalizing: bool,
    /// A decoder is open for the current track.
    pub decoding: bool,
    /// A decoder for the next track is open and has audio ready.
    pub next_ready: bool,
    /// The decode loop is producing audio.
    pub playing: bool,
    /// The output emits silence and consumes nothing.
    pub paused: bool,
    /// The decoder has run out of audio.
    pub drained: bool,
    /// Frames the output has played since the timeline was last reset.
    pub frames_played: u64,
    /// Value of `frames_played` at which the current track's first frame is heard.
    pub track_anchor: u64,
    /// Position the timeline starts from (after a seek).
    pub anchor_ms: u64,
    /// Frames handed to the output since the timeline was last reset.
    pub pushed_frames: u64,
    /// A track that ran out with nothing pre-rolled after it; its end is announced once the
    /// output has played its last frames.
    pub pending_ended: Option<T>,
}

/// Where a track's audio is read from.
#[derive(Debug, Clone, PartialEq, Eq)]
pub enum SourceChoice {
    /// A local file, by its path.
    File(String),
    /// An HTTP(S) stream, by its URL.
    Stream(String),
}

/// The message when a track's file cannot be opened and it has no stream.
pub open spec fn cannot_open_message(path: Seq<char>) -> Seq<char> {
    "cannot open "@ + path
}

/// The message when a track names neither a file nor a stream.
pub open spec fn no_source_message(track_id: Seq<char>) -> Seq<char> {
    "track "@ + track_id + " has no playable source"@
}

/// Where a track is read from: its file when the path names an existing file; else its stream
/// URL when that starts with `http`; else an error naming the file it has, or saying it has no
/// source. `path_is_file` is whether the track's file path names an existing file.
pub fn playable_source(file_path: Option<String>, path_is_file: bool, stream_url: Option<String>, track_id: &str) -> (r:
    Result<SourceChoice, String>)
    ensures
        match r {
            Ok(SourceChoice::File(p)) => file_path is Some && path_is_file && p@ == file_path.unwrap()@,
            Ok(SourceChoice::Stream(u)) => !(file_path is Some && path_is_file) && stream_url is Some
                && u@ == stream_url.unwrap()@ && u@.len() >= 4 && u@.take(4) == "http"@,
            Err(e) => {
                &&& !(file_path is Some && path_is_file)
                &&& !(stream_url is Some && stream_url.unwrap()@.len() >= 4 && stream_url.unwrap()@.take(4) == "http"@)
                &&& e@ == match file_path {
                    Some(p) => cannot_open_message(p@),
                    None => no_source_message(track_id@),
                }
            },
        },
{
    if let Some(p) = &file_path {
        if path_is_file {
            return Ok(SourceChoice::File(string_of(&chars_of(p.as_str()))));
        }
    }
    if let Some(u) = &stream_url {
        let cs = chars_of(u.as_str());
        let http = chars_of("http");
        proof {
            reveal_strlit("http");
        }
        if cs.len() >= 4 {
            let head = slice_vec(&cs, 0, 4);
            assert(head@ =~= cs@.take(4));
            if crate::text::chars_eq(&head, &http) {
                return Ok(SourceChoice::Stream(string_of(&cs)));
            }
        }
    }
    match file_path {
        Some(p) => {
            let mut m = chars_of("cannot open ");
            push_str(&mut m, p.as_str());
            Err(string_of(&m))
        },
        None => {
            let mut m = chars_of("track ");
            push_str(&mut m, track_id);
            push_str(&mut m, " has no playable source");
            Err(string_of(&m))
        },
    }
}

/// The container hint a decoder is given: the extension of the track's file when it has one;
/// `m4a` for a stream (which has no file); nothing otherwise.
pub fn format_hint(file_path: Option<&str>, has_stream_url: bool) -> (r: Option<String>)
    ensures
        match file_path {
            Some(p) => match r {
                Some(e) => extension_of(p@) == Some(e@),
                None => extension_of(p@) is None,
            },
            None => if has_stream_url {
                r matches Some(e) && e@ == "m4a"@
            } else {
                r is None
            },
        },
{
    match file_path {
        Some(p) => crate::library::extension(p),
        None => if has_stream_url {
            Some(string_of(&chars_of("m4a")))
        } else {
            None
        },
    }
}

/// A track's length: the container's frame count at its sample rate (taken as 1 Hz when 0),
/// when the container states a positive one; else the length the index holds.
pub fn container_duration_ms(n_frames: Option<u64>, src_rate: u32, indexed_ms: u64) -> (r: u64)
    requires
        n_frames matches Some(f) ==> f * 1000 <= u64::MAX,
    ensures
        r == match n_frames {
            Some(f) => if f > 0 {
                (f * 1000 / (if src_rate == 0 {
                    1
                } else {
                    src_rate as int
                })) as u64
            } else {
                indexed_ms
            },
            None => indexed_ms,
        },
{
    match n_frames {
        Some(f) => if f > 0 {
            let rate: u64 = if src_rate == 0 {
                1
            } else {
                src_rate as u64
            };
            f * 1000 / rate
        } else {
            indexed_ms
        },
        None => indexed_ms,
    }
}

/// The two transports report the same thing and have the same timeline.
pub open spec fn same_timeline<T>(a: Transport<T>, b: Transport<T>) -> bool {
    &&& a.frames_played == b.frames_played
    &&& a.track_anchor == b.track_anchor
    &&& a.anchor_ms == b.anchor_ms
    &&& a.pushed_frames == b.pushed_frames
}

/// The timeline starts over from `anchor_ms`.
pub open spec fn timeline_reset<T>(t: Transport<T>, anchor_ms: u64) -> bool {
    t.frames_played == 0 && t.track_anchor == 0 && t.anchor_ms == anchor_ms && t.pushed_frames == 0
}

/// The decoder state is unchanged.
pub open spec fn same_decoder<T>(a: Transport<T>, b: Transport<T>) -> bool {
    &&& a.decoding == b.decoding
    &&& a.next_ready == b.next_ready
}

/// The reported track list is unchanged.
pub open spec fn same_tracks<T>(a: Transport<T>, b: Transport<T>) -> bool {
    &&& a.current_track == b.current_track
    &&& a.next_track == b.next_track
    &&& a.duration_ms == b.duration_ms
    &&& a.is_gapless == b.is_gapless
    &&& a.is_normalizing == b.is_normalizing
}

/// How re-opening the queued track went after a normalization change.
#[derive(Debug, Clone, Copy, PartialEq, Eq, Structural)]
pub enum Reopen {
    /// It could not be opened.
    Failed,
    /// It opened but gave no audio to pre-roll.
    Empty,
    /// It opened and pre-rolled.
    Ready,
}

impl<T> Transport<T> {
    /// An engine with nothing loaded: stopped, normalizing.
    pub fn new() -> (r: Transport<T>)
        ensures
            r.status == PlaybackStatus::Stopped,
            r.current_track is None,
            r.next_track is None,
            r.duration_ms == 0,
            r.position_ms == 0,
            !r.is_gapless,
            r.is_normalizing,
            !r.decoding,
            !r.next_ready,
            !r.playing,
            !r.paused,
            !r.drained,
            timeline_reset(r, 0),
            r.pending_ended is None,
    {
        Transport {
            status: PlaybackStatus::Stopped,
            current_track: None,
            next_track: None,
            duration_ms: 0,
            position_ms: 0,
            is_gapless: false,
            is_normalizing: true,
            decoding: false,
            next_ready: false,
            playing: false,
            paused: false,
            drained: false,
            frames_played: 0,
            track_anchor: 0,
            anchor_ms: 0,
            pushed_frames: 0,
            pending_ended: None,
        }
    }

    /// Loading a track, once the decoder has tried to open it: the timeline starts over; when it
    /// opened, it becomes the current track, playing or paused as asked, with nothing queued;
    /// when it did not, the engine stops with nothing loaded.
    pub fn load(&mut self, track: T, duration_ms: u64, auto_play: bool, opened: bool)
        ensures
            timeline_reset(*final(self), 0),
            final(self).position_ms == 0,
            final(self).next_track is None,
            !final(self).next_ready,
            !final(self).is_gapless,
            final(self).is_normalizing == old(self).is_normalizing,
            final(self).pending_ended is None,
            opened ==> {
                &&& final(self).current_track == Some(track)
                &&& final(self).duration_ms == duration_ms
                &&& final(self).decoding
                &&& final(self).playing == auto_play
                &&& final(self).paused == !auto_play
                &&& !final(self).drained
                &&& final(self).status == if auto_play {
                    PlaybackStatus::Playing
                } else {
                    PlaybackStatus::Paused
                }
            },
            !opened ==> {
                &&& final(self).current_track is None
                &&& final(self).duration_ms == 0
                &&& !final(self).decoding
                &&& !final(self).playing
                &&& final(self).paused == old(self).paused
                &&& final(self).drained == old(self).drained
                &&& final(self).status == PlaybackStatus::Stopped
            },
    {
        self.frames_played = 0;
        self.track_anchor = 0;
        self.anchor_ms = 0;
        self.pushed_frames = 0;
        self.next_track = None;
        self.next_ready = false;
        self.position_ms = 0;
        self.is_gapless = false;
        self.pending_ended = None;
        if opened {
            self.current_track = Some(track);
            self.duration_ms = duration_ms;
            self.decoding = true;
            self.playing = auto_play;
            self.drained = false;
            self.paused = !auto_play;
            self.status = if auto_play {
                PlaybackStatus::Playing
            } else {
                PlaybackStatus::Paused
            };
        } else {
            self.current_track = None;
            self.duration_ms = 0;
            self.decoding = false;
            self.playing = false;
            self.status = PlaybackStatus::Stopped;
        }
    }

    /// Whether queuing `track` owes opening it to pre-roll: only a track queued while a track is
    /// being decoded is opened (an idle engine never opens what is queued).
    pub fn preroll_owed(&self, track: &Option<T>) -> (r: bool)
        ensures
            r == (track is Some && self.decoding),
    {
        track.is_some() && self.decoding
    }

    /// Queuing the track to follow (or clearing the queue). It is only pre-rolled while a track is
    /// being decoded (see [`Transport::preroll_owed`]); `pre_rolled` is whether it opened and gave
    /// audio, and is not looked at otherwise. It stands queued only when pre-rolled, and the
    /// transition is then gapless.
    pub fn set_next(&mut self, track: Option<T>, pre_rolled: bool)
        ensures
            final(self).next_track == if track is Some && old(self).decoding && pre_rolled {
                track
            } else {
                None
            },
            final(self).next_ready == (track is Some && old(self).decoding && pre_rolled),
            final(self).is_gapless == final(self).next_ready,
            final(self).status == old(self).status,
            final(self).current_track == old(self).current_track,
            final(self).duration_ms == old(self).duration_ms,
            final(self).decoding == old(self).decoding,
            final(self).playing == old(self).playing,
            final(self).paused == old(self).paused,
            final(self).drained == old(self).drained,
            final(self).is_normalizing == old(self).is_normalizing,
            final(self).position_ms == old(self).position_ms,
            final(self).pending_ended == old(self).pending_ended,
            same_timeline(*final(self), *old(self)),
    {
        let ready = track.is_some() && self.decoding && pre_rolled;
        self.next_track = if ready {
            track
        } else {
            None
        };
        self.next_ready = ready;
        self.is_gapless = ready;
    }

    /// Whether the audio loop decodes a chunk now: only while playing and while the output ring
    /// has room for a whole chunk of `chunk_frames` frames of `channels` samples; otherwise it
    /// waits.
    pub fn should_decode(&self, free_samples: usize, chunk_frames: usize, channels: usize) -> (r: bool)
        requires
            chunk_frames * channels <= usize::MAX,
        ensures
            r == (self.playing && free_samples >= chunk_frames * channels),
    {
        self.playing && free_samples >= chunk_frames * channels
    }

    /// Playing: the decoder and the output run, and the status is playing.
    pub fn play(&mut self)
        ensures
            final(self).playing,
            !final(self).paused,
            !final(self).drained,
            final(self).status == PlaybackStatus::Playing,
            same_timeline(*final(self), *old(self)),
            same_tracks(*final(self), *old(self)),
            same_decoder(*final(self), *old(self)),
            final(self).position_ms == old(self).position_ms,
            final(self).pending_ended == old(self).pending_ended,
    {
        self.playing = true;
        self.drained = false;
        self.paused = false;
        self.status = PlaybackStatus::Playing;
    }

    /// Pausing: the decoder stops and the output freezes at once, and the status is paused.
    pub fn pause(&mut self)
        ensures
            !final(self).playing,
            final(self).paused,
            final(self).drained == old(self).drained,
            final(self).status == PlaybackStatus::Paused,
            same_timeline(*final(self), *old(self)),
            same_tracks(*final(self), *old(self)),
            same_decoder(*final(self), *old(self)),
            final(self).position_ms == old(self).position_ms,
            final(self).pending_ended == old(self).pending_ended,
    {
        self.playing = false;
        self.paused = true;
        self.status = PlaybackStatus::Paused;
    }

    /// Seeking, once the decoder has tried to (only when a track is being decoded; `seeked` is
    /// whether it succeeded): the timeline starts over from the position; otherwise nothing
    /// changes.
    pub fn seek(&mut self, position_ms: u64, seeked: bool)
        ensures
            old(self).decoding && seeked ==> timeline_reset(*final(self), position_ms)
                && final(self).position_ms == position_ms,
            !(old(self).decoding && seeked) ==> same_timeline(*final(self), *old(self))
                && final(self).position_ms == old(self).position_ms,
            final(self).status == old(self).status,
            final(self).playing == old(self).playing,
            final(self).paused == old(self).paused,
            final(self).drained == old(self).drained,
            final(self).pending_ended == old(self).pending_ended,
            same_tracks(*final(self), *old(self)),
            same_decoder(*final(self), *old(self)),
    {
        if self.decoding && seeked {
            self.frames_played = 0;
            self.track_anchor = 0;
            self.anchor_ms = position_ms;
            self.pushed_frames = 0;
            self.position_ms = position_ms;
        }
    }

    /// Turning normalization on or off. A queued track is opened again to pre-roll it with the new
    /// setting: if that fails it is no longer ready (but still reported queued); if it gives no
    /// audio it is dropped. The transition is gapless only while it is ready.
    pub fn set_normalization(&mut self, enabled: bool, reopen: Reopen)
        ensures
            final(self).is_normalizing == enabled,
            old(self).next_track is Some ==> {
                &&& final(self).next_ready == (reopen == Reopen::Ready)
                &&& final(self).next_track == if reopen == Reopen::Empty {
                    None
                } else {
                    old(self).next_track
                }
            },
            old(self).next_track is None ==> final(self).next_track is None && final(self).next_ready
                == old(self).next_ready,
            final(self).is_gapless == final(self).next_ready,
            final(self).status == old(self).status,
            final(self).current_track == old(self).current_track,
            final(self).duration_ms == old(self).duration_ms,
            final(self).position_ms == old(self).position_ms,
            final(self).playing == old(self).playing,
            final(self).paused == old(self).paused,
            final(self).drained == old(self).drained,
            final(self).decoding == old(self).decoding,
            final(self).pending_ended == old(self).pending_ended,
            same_timeline(*final(self), *old(self)),
    {
        self.is_normalizing = enabled;
        if self.next_track.is_some() {
            match reopen {
                Reopen::Failed => {
                    self.next_ready = false;
                },
                Reopen::Empty => {
                    self.next_ready = false;
                    self.next_track = None;
                },
                Reopen::Ready => {
                    self.next_ready = true;
                },
            }
        }
        self.is_gapless = self.next_ready;
    }

    /// Stopping: everything queued is dropped, the timeline starts over, nothing is loaded.
    pub fn stop(&mut self)
        ensures
            final(self).status == PlaybackStatus::Stopped,
            final(self).position_ms == 0,
            final(self).current_track is None,
            final(self).next_track is None,
            final(self).duration_ms == 0,
            !final(self).is_gapless,
            !final(self).decoding,
            !final(self).next_ready,
            !final(self).playing,
            final(self).paused,
            final(self).drained,
            timeline_reset(*final(self), 0),
            final(self).is_normalizing == old(self).is_normalizing,
            final(self).pending_ended is None,
    {
        self.pending_ended = None;
        self.playing = false;
        self.paused = true;
        self.decoding = false;
        self.next_ready = false;
        self.current_track = None;
        self.next_track = None;
        self.frames_played = 0;
        self.track_anchor = 0;
        self.anchor_ms = 0;
        self.pushed_frames = 0;
        self.drained = true;
        self.status = PlaybackStatus::Stopped;
        self.position_ms = 0;
        self.duration_ms = 0;
        self.is_gapless = false;
    }

    /// The current track ran dry and the pre-rolled one takes its place without a gap: it is
    /// heard from the next frame handed to the output.
    pub fn advance(&mut self, duration_ms: u64)
        requires
            old(self).next_ready,
        ensures
            final(self).current_track == old(self).next_track,
            final(self).next_track is None,
            !final(self).next_ready,
            final(self).decoding,
            final(self).duration_ms == duration_ms,
            final(self).position_ms == 0,
            !final(self).is_gapless,
            final(self).track_anchor == old(self).pushed_frames,
            final(self).anchor_ms == 0,
            final(self).frames_played == old(self).frames_played,
            final(self).pushed_frames == old(self).pushed_frames,
            final(self).status == old(self).status,
            final(self).playing == old(self).playing,
            final(self).paused == old(self).paused,
            final(self).drained == old(self).drained,
            final(self).is_normalizing == old(self).is_normalizing,
            final(self).pending_ended == old(self).pending_ended,
    {
        let mut queued: Option<T> = None;
        std::mem::swap(&mut queued, &mut self.next_track);
        self.current_track = queued;
        self.next_ready = false;
        self.decoding = true;
        self.duration_ms = duration_ms;
        self.position_ms = 0;
        self.is_gapless = false;
        self.track_anchor = self.pushed_frames;
        self.anchor_ms = 0;
    }

    /// `frames` more frames were played by the output.
    pub fn played(&mut self, frames: u64)
        requires
            old(self).frames_played + frames <= u64::MAX,
        ensures
            final(self).frames_played == old(self).frames_played + frames,
            final(self).pushed_frames == old(self).pushed_frames,
            final(self).track_anchor == old(self).track_anchor,
            final(self).anchor_ms == old(self).anchor_ms,
            final(self).status == old(self).status,
            final(self).playing == old(self).playing,
            final(self).paused == old(self).paused,
            final(self).drained == old(self).drained,
            final(self).pending_ended == old(self).pending_ended,
            same_tracks(*final(self), *old(self)),
            same_decoder(*final(self), *old(self)),
    {
        self.frames_played = self.frames_played + frames;
    }

    /// The end of a track that ran out without a gapless follow-up, once it may be announced: only
    /// when the reported status has settled on stopped (the output has played every frame handed
    /// to it). It is announced once: taking it clears it.
    pub fn take_ended(&mut self) -> (r: Option<T>)
        ensures
            reported_status_spec(old(self).status, old(self).drained, old(self).frames_played, old(self).pushed_frames)
                == PlaybackStatus::Stopped ==> r == old(self).pending_ended && final(self).pending_ended is None,
            reported_status_spec(old(self).status, old(self).drained, old(self).frames_played, old(self).pushed_frames)
                != PlaybackStatus::Stopped ==> r is None && final(self).pending_ended == old(self).pending_ended,
            final(self).status == old(self).status,
            final(self).playing == old(self).playing,
            final(self).paused == old(self).paused,
            final(self).drained == old(self).drained,
            final(self).position_ms == old(self).position_ms,
            same_timeline(*final(self), *old(self)),
            same_tracks(*final(self), *old(self)),
            same_decoder(*final(self), *old(self)),
    {
        let settled = reported_status(self.status, self.drained, self.frames_played, self.pushed_frames);
        if settled == PlaybackStatus::Stopped {
            let mut ended: Option<T> = None;
            std::mem::swap(&mut ended, &mut self.pending_ended);
            ended
        } else {
            None
        }
    }

    /// `frames` more frames were handed to the output.
    pub fn pushed(&mut self, frames: u64)
        requires
            old(self).pushed_frames + frames <= u64::MAX,
        ensures
            final(self).pushed_frames == old(self).pushed_frames + frames,
            final(self).frames_played == old(self).frames_played,
            final(self).track_anchor == old(self).track_anchor,
            final(self).anchor_ms == old(self).anchor_ms,
            final(self).status == old(self).status,
            final(self).playing == old(self).playing,
            final(self).paused == old(self).paused,
            final(self).drained == old(self).drained,
            final(self).pending_ended == old(self).pending_ended,
            same_tracks(*final(self), *old(self)),
            same_decoder(*final(self), *old(self)),
    {
        self.pushed_frames = self.pushed_frames + frames;
    }
}

impl<T: Clone> Transport<T> {
    /// The current track ran out with nothing pre-rolled after it: the decoder stops; the status
    /// settles, and the track's end is announced (see [`Transport::take_ended`]), once the output
    /// has caught up.
    pub fn finish(&mut self)
        ensures
            !final(self).playing,
            final(self).drained,
            final(self).status == old(self).status,
            final(self).paused == old(self).paused,
            same_decoder(*final(self), *old(self)),
            final(self).position_ms == old(self).position_ms,
            old(self).current_track is None ==> final(self).pending_ended is None,
            old(self).current_track is Some ==> final(self).pending_ended is Some && cloned::<T>(
                old(self).current_track.unwrap(),
                final(self).pending_ended.unwrap(),
            ),
            same_timeline(*final(self), *old(self)),
            same_tracks(*final(self), *old(self)),
    {
        self.playing = false;
        self.drained = true;
        self.pending_ended = self.current_track.clone();
    }
}

/// Milliseconds a number of frames lasts at a sample rate (at least 1 Hz).
pub open spec fn frames_ms(frames: int, rate: u32) -> int {
    frames * 1000 / (if rate == 0 {
        1
    } else {
        rate as int
    })
}

/// The position heard: the seek anchor plus the time played since the track's first frame, capped
/// at the track's length.
pub open spec fn position_spec(frames_played: u64, track_anchor: u64, anchor_ms: u64, rate: u32, duration_ms: u64) -> int {
    let since = if frames_played >= track_anchor {
        frames_played - track_anchor
    } else {
        0
    };
    let p = anchor_ms + frames_ms(since, rate);
    if p <= duration_ms {
        p
    } else {
        duration_ms as int
    }
}

/// The position heard, from the output's frame count.
pub fn position_ms(frames_played: u64, track_anchor: u64, anchor_ms: u64, rate: u32, duration_ms: u64) -> (r: u64)
    requires
        (if frames_played >= track_anchor {
            frames_played - track_anchor
        } else {
            0
        }) * 1000 <= u64::MAX,
        anchor_ms + frames_ms(
            if frames_played >= track_anchor {
                frames_played - track_anchor
            } else {
                0
            },
            rate,
        ) <= u64::MAX,
    ensures
        r == position_spec(frames_played, track_anchor, anchor_ms, rate, duration_ms),
        r <= duration_ms,
{
    let r: u64 = if rate == 0 {
        1
    } else {
        rate as u64
    };
    let since = if frames_played >= track_anchor {
        frames_played - track_anchor
    } else {
        0
    };
    let elapsed = since * 1000 / r;
    let p = anchor_ms + elapsed;
    if p <= duration_ms {
        p
    } else {
        duration_ms
    }
}

/// The status reported: a playing engine whose decoder ran out settles on stopped only once the
/// output has played everything that was handed to it (the decoder runs seconds ahead of the
/// speakers).
pub open spec fn reported_status_spec(status: PlaybackStatus, drained: bool, frames_played: u64, pushed_total: u64) -> PlaybackStatus {
    if drained && frames_played >= pushed_total && status == PlaybackStatus::Playing {
        PlaybackStatus::Stopped
    } else {
        status
    }
}

/// The status reported for a snapshot.
pub fn reported_status(status: PlaybackStatus, drained: bool, frames_played: u64, pushed_total: u64) -> (r: PlaybackStatus)
    ensures
        r == reported_status_spec(status, drained, frames_played, pushed_total),
{
    if drained && frames_played >= pushed_total && status == PlaybackStatus::Playing {
        PlaybackStatus::Stopped
    } else {
        status
    }
}

/// A pause followed by a play leaves the timeline, and so the position heard, where it was.
pub proof fn lemma_pause_play_keeps_position<T>(a: Transport<T>, b: Transport<T>, c: Transport<T>, rate: u32)
    requires
        same_timeline(b, a),
        same_timeline(c, b),
        same_tracks(b, a),
        same_tracks(c, b),
    ensures
        position_spec(c.frames_played, c.track_anchor, c.anchor_ms, rate, c.duration_ms)
            == position_spec(a.frames_played, a.track_anchor, a.anchor_ms, rate, a.duration_ms),
{
}

/// A track that ran out without a gapless follow-up is not announced as ended while the output
/// still has frames of it to play, and it is announced once everything handed to the output has
/// been played.
pub proof fn lemma_end_waits_for_output(status: PlaybackStatus, played: u64, pushed: u64)
    ensures
        status == PlaybackStatus::Playing && played < pushed ==> reported_status_spec(status, true, played, pushed)
            != PlaybackStatus::Stopped,
        status == PlaybackStatus::Playing && played >= pushed ==> reported_status_spec(status, true, played, pushed)
            == PlaybackStatus::Stopped,
{
}

/// Only a playing status ever settles, and only on stopped.
pub proof fn lemma_status_settles_only_to_stopped(status: PlaybackStatus, drained: bool, played: u64, pushed: u64)
    ensures
        reported_status_spec(status, drained, played, pushed) == status || (status == PlaybackStatus::Playing
            && reported_status_spec(status, drained, played, pushed) == PlaybackStatus::Stopped),
        !drained ==> reported_status_spec(status, drained, played, pushed) == status,
{
}

} // verus!
