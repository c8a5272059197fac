//! Sonora's library core: lyric parsing, script detection and romanization, provider payload
//! parsing, stream matching, playback bookkeeping and the library index's rules.
use vstd::prelude::*;
use crate::text::{chars_of, string_of, push_str, trim, trimmed, is_blank, before_first, slice_vec};
use crate::providers::ProviderTrack;

pub mod text;
pub mod romanize;
pub mod lyrics;
pub mod providers;
pub mod json;
pub mod ytmusic;
pub mod spotify;
pub mod connect;
pub mod native;
pub mod engine;
pub mod library;
pub mod db;
pub mod stream;

verus! {

/// Event carrying a library scan's progress.
pub const EVENT_SCAN_PROGRESS: &'static str = "sonora://scan-progress";
/// Event sent when the library index changed.
pub const EVENT_LIBRARY_CHANGED: &'static str = "sonora://library-changed";
/// Event carrying a media key press.
pub const EVENT_MEDIA_KEY: &'static str = "sonora://media-key-event";

/// Scan progress is reported at most once per this many milliseconds.
pub const SCAN_EVENT_INTERVAL_MS: u64 = 50;

/// Whether a scan progress event is due `now_ms` after the scan started, the last one having
/// gone out at `last_ms`.
pub fn scan_progress_due(now_ms: u64, last_ms: u64) -> (r: bool)
    ensures
        r == (now_ms >= last_ms && now_ms - last_ms >= SCAN_EVENT_INTERVAL_MS),
{
    now_ms >= last_ms && now_ms - last_ms >= SCAN_EVENT_INTERVAL_MS
}

/// Scanner workers for a machine with `parallelism` cores (4 when unknown): one core is left for
/// the audio thread, and there is always at least one worker.
pub fn worker_count(parallelism: Option<usize>) -> (r: usize)
    ensures
        r == match parallelism {
            Some(p) => if p <= 2 {
                1
            } else {
                (p - 1) as usize
            },
            None => 3,
        },
        r >= 1,
        parallelism is Some && parallelism.unwrap() > 1 ==> r < parallelism.unwrap(),
{
    let n = match parallelism {
        Some(p) => p,
        None => 4,
    };
    let less = if n >= 1 {
        n - 1
    } else {
        0
    };
    if less < 1 {
        1
    } else {
        less
    }
}

/// Scanner workers actually started for `files` files when `requested` are asked for: at least
/// one, and never more than there are files (one when there are none).
pub fn scan_workers(requested: usize, files: usize) -> (r: usize)
    ensures
        r == if requested < 1 {
            1
        } else if files < 1 {
            1
        } else if requested < files {
            requested
        } else {
            files
        },
        r >= 1,
{
    let want = if requested < 1 {
        1
    } else {
        requested
    };
    let cap = if files < 1 {
        1
    } else {
        files
    };
    if want < cap {
        want
    } else {
        cap
    }
}

/// The message when no Spotify client id is configured.
pub open spec fn missing_spotify_client() -> Seq<char> {
    "Add your Spotify app's Client ID in Settings first, then connect."@
}

/// The configured Spotify client id, or the message asking for one.
pub fn configured_spotify_client(client_id: Option<String>) -> (r: Result<String, String>)
    ensures
        match r {
            Ok(c) => client_id is Some && !is_blank(client_id.unwrap()@) && c@ == client_id.unwrap()@,
            Err(e) => (client_id is None || is_blank(client_id.unwrap()@)) && e@ == missing_spotify_client(),
        },
{
    match client_id {
        Some(c) => if lyrics::blank_str(c.as_str()) {
            Err(string_of(&chars_of("Add your Spotify app's Client ID in Settings first, then connect.")))
        } else {
            Ok(c)
        },
        None => Err(string_of(&chars_of("Add your Spotify app's Client ID in Settings first, then connect."))),
    }
}

/// A title as searched for a stream: the text before any `(` and then before any `-`, trimmed.
pub open spec fn search_title(title: Seq<char>) -> Seq<char> {
    trim(before_first(before_first(title, seq!['(']), seq!['-']))
}

fn cut_before(s: &Vec<char>, c: char) -> (r: Vec<char>)
    ensures
        r@ == before_first(s@, seq![c]),
{
    let needle: Vec<char> = vec![c];
    assert(needle@ =~= seq![c]);
    match text::find_seq(s, &needle, 0) {
        Some(k) => {
            proof {
                text::lemma_find_from_bounds(s@, needle@, 0);
            }
            let r = slice_vec(s, 0, k);
            assert(r@ =~= s@.take(k as int));
            r
        },
        None => slice_vec(s, 0, s.len()),
    }
}

/// The title searched for a track's stream, without bracketed or dashed suffixes.
pub fn clean_title(title: &str) -> (r: String)
    ensures
        r@ == search_title(title@),
{
    let cs = chars_of(title);
    string_of(&trimmed(&cut_before(&cut_before(&cs, '('), '-')))
}

/// The two searches tried for a track's stream: artist and cleaned title, then the full title and
/// artist.
pub fn stream_queries(title: &str, artist: &str) -> (r: (String, String))
    ensures
        r.0@ == artist@ + " "@ + search_title(title@),
        r.1@ == title@ + " "@ + artist@,
{
    let mut first = chars_of(artist);
    push_str(&mut first, " ");
    push_str(&mut first, clean_title(title).as_str());
    let mut second = chars_of(title);
    push_str(&mut second, " ");
    push_str(&mut second, artist);
    (string_of(&first), string_of(&second))
}

/// How far a track's length is from the target.
pub open spec fn length_gap(t: ProviderTrack, target: u64) -> int {
    if t.duration_ms >= target {
        t.duration_ms - target
    } else {
        target - t.duration_ms
    }
}

/// The track to stream among search results: with a known length, the first of those closest to
/// it; without one, the first.
pub fn closest_track(tracks: &[ProviderTrack], duration_ms: u64) -> (r: Option<usize>)
    ensures
        tracks@.len() == 0 <==> r is None,
        match r {
            Some(i) => {
                &&& i < tracks@.len()
                &&& duration_ms == 0 ==> i == 0
                &&& duration_ms > 0 ==> {
                    &&& forall|j: int| 0 <= j < tracks@.len() ==> length_gap(tracks@[i as int], duration_ms) <= length_gap(#[trigger] tracks@[j], duration_ms)
                    &&& forall|j: int| 0 <= j < i ==> length_gap(tracks@[i as int], duration_ms) < length_gap(#[trigger] tracks@[j], duration_ms)
                }
            },
            None => true,
        },
{
    if tracks.len() == 0 {
        return None;
    }
    if duration_ms == 0 {
        return Some(0);
    }
    let mut best: usize = 0;
    let mut best_gap: u64 = if tracks[0].duration_ms >= duration_ms {
        tracks[0].duration_ms - duration_ms
    } else {
        duration_ms - tracks[0].duration_ms
    };
    let mut i: usize = 1;
    while i < tracks.len()
        invariant
            1 <= i <= tracks@.len(),
            best < i,
            duration_ms > 0,
            best_gap == length_gap(tracks@[best as int], duration_ms),
            forall|j: int| 0 <= j < i ==> best_gap <= length_gap(#[trigger] tracks@[j], duration_ms),
            forall|j: int| 0 <= j < best ==> best_gap < length_gap(#[trigger] tracks@[j], duration_ms),
        decreases tracks@.len() - i,
    {
        let d = tracks[i].duration_ms;
        let gap = if d >= duration_ms {
            d - duration_ms
        } else {
            duration_ms - d
        };
        if gap < best_gap {
            best = i;
            best_gap = gap;
        }
        i = i + 1;
    }
    Some(best)
}

/// The message when a stream search found nothing.
pub fn no_stream_found(title: &str, artist: &str) -> (r: String)
    ensures
        r@ == "No audio stream found for '"@ + title@ + "' by '"@ + artist@ + "'"@,
{
    let mut m = chars_of("No audio stream found for '");
    push_str(&mut m, title);
    push_str(&mut m, "' by '");
    push_str(&mut m, artist);
    push_str(&mut m, "'");
    string_of(&m)
}

/// A media key Sonora listens for.
#[derive(Debug, Clone, Copy, PartialEq, Eq, Structural)]
pub enum MediaKey {
    PlayPause,
    Next,
    Previous,
    /// Any other key.
    Other,
}

/// The action a pressed media key asks the front end for; other keys ask for nothing.
pub fn media_key_action(key: MediaKey) -> (r: Option<&'static str>)
    ensures
        match key {
            MediaKey::PlayPause => r matches Some(a) && a@ == "play_pause"@,
            MediaKey::Next => r matches Some(a) && a@ == "next"@,
            MediaKey::Previous => r matches Some(a) && a@ == "prev"@,
            MediaKey::Other => r is None,
        },
{
    match key {
        MediaKey::PlayPause => Some("play_pause"),
        MediaKey::Next => Some("next"),
        MediaKey::Previous => Some("prev"),
        MediaKey::Other => None,
    }
}

/// The number of tracks the index takes per write.
pub const INDEX_BATCH: usize = 256;

/// The batches a scan's tracks are written to the index in: `[start, end)` ranges of at most
/// [`INDEX_BATCH`] tracks, in order, covering all `count` of them.
pub fn index_batches(count: usize) -> (r: Vec<(usize, usize)>)
    ensures
        forall|k: int| 0 <= k < r@.len() ==> {
            &&& (#[trigger] r@[k]).0 == k * INDEX_BATCH
            &&& r@[k].0 < r@[k].1 <= count
            &&& r@[k].1 - r@[k].0 <= INDEX_BATCH
            &&& (r@[k].1 == count || r@[k].1 - r@[k].0 == INDEX_BATCH)
        },
        r@.len() > 0 ==> r@.last().1 == count,
        count == 0 <==> r@.len() == 0,
{
    let mut out: Vec<(usize, usize)> = Vec::new();
    let mut start: usize = 0;
    while start < count
        invariant
            start <= count,
            start == out@.len() * INDEX_BATCH || start == count,
            forall|k: int| 0 <= k < out@.len() ==> {
                &&& (#[trigger] out@[k]).0 == k * INDEX_BATCH
                &&& out@[k].0 < out@[k].1 <= count
                &&& out@[k].1 - out@[k].0 <= INDEX_BATCH
                &&& (out@[k].1 == count || out@[k].1 - out@[k].0 == INDEX_BATCH)
            },
            out@.len() > 0 ==> out@.last().1 == start,
            out@.len() == 0 ==> start == 0,
        decreases count - start,
    {
        let end = if count - start > INDEX_BATCH {
            start + INDEX_BATCH
        } else {
            count
        };
        out.push((start, end));
        start = end;
    }
    out
}

} // verus!
