//! The in-process Spotify player: track id normalization, and the bookkeeping of what the
//! player's events and the user's commands do to the reported playback state.
use vstd::prelude::*;
use crate::text::{trim, trimmed, chars_of, string_of, push_str, extend_all, slice_vec, find_from, find_seq, lemma_find_from_bounds, before_first};
use crate::providers::{ProviderKind, ProviderTrack};
use crate::spotify::SpotifyPlaybackState;

verus! {

// ---------------------------------------------------------------------------------------------
// Track ids
// ---------------------------------------------------------------------------------------------

/// The value of a base62 digit (`0-9`, `a-z`, `A-Z`).
pub open spec fn base62_digit(c: char) -> int {
    if '0' <= c <= '9' {
        (c as int) - ('0' as int)
    } else if 'a' <= c <= 'z' {
        (c as int) - ('a' as int) + 10
    } else {
        (c as int) - ('A' as int) + 36
    }
}

/// An ASCII letter or digit.
pub open spec fn is_base62(c: char) -> bool {
    ('0' <= c <= '9') || ('a' <= c <= 'z') || ('A' <= c <= 'Z')
}

/// The number some base62 digits stand for.
pub open spec fn base62_value(s: Seq<char>) -> int
    decreases s.len(),
{
    if s.len() == 0 {
        0
    } else {
        base62_value(s.drop_last()) * 62 + base62_digit(s.last())
    }
}

/// A Spotify id: 22 base62 digits whose value fits in 128 bits (what
/// `SpotifyId::from_base62` accepts).
pub open spec fn valid_spotify_id(id: Seq<char>) -> bool {
    &&& id.len() == 22
    &&& forall|i: int| 0 <= i < id.len() ==> is_base62(#[trigger] id[i])
    &&& base62_value(id) < 0x1_0000_0000_0000_0000_0000_0000_0000_0000
}

proof fn lemma_base62_monotone(s: Seq<char>, k: int)
    requires
        0 <= k <= s.len(),
        forall|i: int| 0 <= i < s.len() ==> is_base62(#[trigger] s[i]),
    ensures
        0 <= base62_value(s.take(k)) <= base62_value(s),
    decreases s.len() - k,
{
    if k < s.len() {
        lemma_base62_monotone(s, k + 1);
        assert(s.take(k + 1).drop_last() =~= s.take(k));
        assert(s.take(k + 1).last() == s[k]);
        lemma_base62_nonneg(s.take(k));
    } else {
        assert(s.take(k) =~= s);
        lemma_base62_nonneg(s);
    }
}

proof fn lemma_base62_nonneg(s: Seq<char>)
    requires
        forall|i: int| 0 <= i < s.len() ==> is_base62(#[trigger] s[i]),
    ensures
        base62_value(s) >= 0,
    decreases s.len(),
{
    if s.len() > 0 {
        lemma_base62_nonneg(s.drop_last());
        assert(is_base62(s[s.len() - 1]));
    }
}

fn base62_digit_exec(c: char) -> (r: Option<u128>)
    ensures
        match r {
            Some(d) => is_base62(c) && d == base62_digit(c),
            None => !is_base62(c),
        },
{
    if '0' <= c && c <= '9' {
        Some((c as u32 - '0' as u32) as u128)
    } else if 'a' <= c && c <= 'z' {
        Some((c as u32 - 'a' as u32 + 10) as u128)
    } else if 'A' <= c && c <= 'Z' {
        Some((c as u32 - 'A' as u32 + 36) as u128)
    } else {
        None
    }
}

/// The value of a valid Spotify id; none for an invalid one.
fn base62_id_value(id: &Vec<char>) -> (r: Option<u128>)
    ensures
        match r {
            Some(v) => valid_spotify_id(id@) && v == base62_value(id@),
            None => !valid_spotify_id(id@),
        },
{
    if id.len() != 22 {
        return None;
    }
    let mut value: u128 = 0;
    let mut i: usize = 0;
    while i < 22
        invariant
            i <= 22,
            id@.len() == 22,
            value == base62_value(id@.take(i as int)),
            forall|j: int| 0 <= j < i ==> is_base62(#[trigger] id@[j]),
        decreases 22 - i,
    {
        let d = match base62_digit_exec(id[i]) {
            Some(d) => d,
            None => return None,
        };
        assert(id@.take(i + 1).drop_last() =~= id@.take(i as int));
        assert(id@.take(i + 1).last() == id@[i as int]);
        let m = match value.checked_mul(62) {
            Some(m) => m,
            None => {
                proof {
                    lemma_rest_base62_or_invalid(id@, i as int);
                }
                return None;
            },
        };
        let v = match m.checked_add(d) {
            Some(v) => v,
            None => {
                proof {
                    lemma_rest_base62_or_invalid(id@, i as int);
                }
                return None;
            },
        };
        value = v;
        i = i + 1;
    }
    assert(id@.take(22) =~= id@);
    Some(value)
}

/// Whether `id` is a valid Spotify id.
pub fn is_valid_spotify_id(id: &Vec<char>) -> (r: bool)
    ensures
        r == valid_spotify_id(id@),
{
    base62_id_value(id).is_some()
}

/// When the value read up to `i + 1` digits already overflows, the id is not valid, whatever
/// follows.
proof fn lemma_rest_base62_or_invalid(id: Seq<char>, i: int)
    requires
        0 <= i < id.len(),
        forall|j: int| 0 <= j < i ==> is_base62(#[trigger] id[j]),
        is_base62(id[i]),
        base62_value(id.take(i + 1)) >= 0x1_0000_0000_0000_0000_0000_0000_0000_0000,
    ensures
        !valid_spotify_id(id),
{
    if valid_spotify_id(id) {
        lemma_base62_monotone(id, i + 1);
    }
}

/// The base62 digit character of a value below 62 (`0-9`, `a-z`, `A-Z`).
pub open spec fn base62_char(d: int) -> char {
    if d < 10 {
        (d + 48) as char
    } else if d < 36 {
        (d - 10 + 97) as char
    } else {
        (d - 36 + 65) as char
    }
}

/// The last `k` base62 digits of `n`, most significant first (what `SpotifyId::to_base62` writes
/// with `k` = 22).
pub open spec fn base62_text(n: nat, k: nat) -> Seq<char>
    decreases k,
{
    if k == 0 {
        seq![]
    } else {
        base62_text(n / 62, (k - 1) as nat).push(base62_char((n % 62) as int))
    }
}

/// `62` to the power `k`.
pub open spec fn pow62(k: nat) -> nat
    decreases k,
{
    if k == 0 {
        1
    } else {
        62 * pow62((k - 1) as nat)
    }
}

proof fn lemma_base62_char_digit(d: int)
    requires
        0 <= d < 62,
    ensures
        is_base62(base62_char(d)),
        base62_digit(base62_char(d)) == d,
{
}

proof fn lemma_base62_digit_char(c: char)
    requires
        is_base62(c),
    ensures
        0 <= base62_digit(c) < 62,
        base62_char(base62_digit(c)) == c,
{
}

proof fn lemma_pow62_positive(k: nat)
    ensures
        pow62(k) > 0,
    decreases k,
{
    if k > 0 {
        lemma_pow62_positive((k - 1) as nat);
    }
}

/// The digits of `n` read back give `n` modulo `62^k`, and they are all base62 digits.
proof fn lemma_base62_text_value(n: nat, k: nat)
    ensures
        base62_text(n, k).len() == k,
        forall|i: int| 0 <= i < k ==> is_base62(#[trigger] base62_text(n, k)[i]),
        base62_value(base62_text(n, k)) == n % pow62(k),
    decreases k,
{
    if k > 0 {
        let m = (k - 1) as nat;
        lemma_base62_text_value(n / 62, m);
        lemma_base62_char_digit((n % 62) as int);
        lemma_pow62_positive(m);
        let t = base62_text(n, k);
        assert(t.drop_last() =~= base62_text(n / 62, m));
        vstd::arithmetic::div_mod::lemma_breakdown(n as int, 62, pow62(m) as int);
        assert(base62_value(t) == base62_value(base62_text(n / 62, m)) * 62 + (n % 62));
        let x: int = ((n / 62) % pow62(m)) as int;
        assert(x * 62 == 62 * x) by (nonlinear_arith);
    } else {
        assert(n % 1 == 0) by (nonlinear_arith);
    }
}

/// A text of `k` base62 digits is the `k`-digit text of its own value.
proof fn lemma_base62_value_text(s: Seq<char>)
    requires
        forall|i: int| 0 <= i < s.len() ==> is_base62(#[trigger] s[i]),
    ensures
        0 <= base62_value(s) < pow62(s.len()),
        base62_text(base62_value(s) as nat, s.len()) == s,
    decreases s.len(),
{
    if s.len() > 0 {
        let p = s.drop_last();
        let c = s.last();
        assert forall|i: int| 0 <= i < p.len() implies is_base62(#[trigger] p[i]) by {
            assert(p[i] == s[i]);
        }
        lemma_base62_value_text(p);
        assert(is_base62(s[s.len() - 1]));
        lemma_base62_digit_char(c);
        let v = base62_value(p);
        let d = base62_digit(c);
        let n = base62_value(s);
        assert(n == v * 62 + d);
        assert(n / 62 == v && n % 62 == d) by (nonlinear_arith)
            requires
                n == v * 62 + d,
                0 <= d < 62,
                0 <= v,
        ;
        assert(n < pow62(s.len())) by (nonlinear_arith)
            requires
                n == v * 62 + d,
                0 <= d < 62,
                v < pow62(p.len()),
                pow62(s.len()) == 62 * pow62(p.len()),
        ;
        assert(base62_text(n as nat, s.len()) =~= s);
    }
}

/// `2^128` is below `62^22`, so every 128-bit id has exactly 22 base62 digits.
proof fn lemma_pow62_22()
    ensures
        pow62(22) > 0x1_0000_0000_0000_0000_0000_0000_0000_0000,
{
    reveal_with_fuel(pow62, 23);
    assert(pow62(22) == 2707803647802660400290261537185326956544nat);
}

/// Writing an id in base62 and reading it back gives the id, and the text is a valid id; and a
/// valid id text is exactly the base62 text of its value. Ids and their texts correspond one to
/// one.
pub proof fn lemma_base62_round_trip(id: u128, text: Seq<char>)
    ensures
        valid_spotify_id(base62_text(id as nat, 22)),
        base62_value(base62_text(id as nat, 22)) == id,
        valid_spotify_id(text) ==> base62_text(base62_value(text) as nat, 22) == text,
{
    lemma_pow62_22();
    lemma_base62_text_value(id as nat, 22);
    assert((id as nat) % pow62(22) == id as nat) by (nonlinear_arith)
        requires
            (id as nat) < pow62(22),
    ;
    if valid_spotify_id(text) {
        lemma_base62_value_text(text);
    }
}

fn base62_char_exec(d: u8) -> (r: char)
    requires
        d < 62,
    ensures
        r == base62_char(d as int),
{
    if d < 10 {
        (d + 48) as char
    } else if d < 36 {
        (d - 10 + 97) as char
    } else {
        (d - 36 + 65) as char
    }
}

fn base62_text_exec(n: u128, k: usize) -> (r: Vec<char>)
    ensures
        r@ == base62_text(n as nat, k as nat),
    decreases k,
{
    if k == 0 {
        Vec::new()
    } else {
        let mut r = base62_text_exec(n / 62, k - 1);
        r.push(base62_char_exec((n % 62) as u8));
        r
    }
}

/// An id in its 22-character base62 form (`SpotifyId::to_base62`).
pub fn spotify_id_to_base62(id: u128) -> (r: String)
    ensures
        r@ == base62_text(id as nat, 22),
        valid_spotify_id(r@),
{
    proof {
        lemma_base62_round_trip(id, seq![]);
    }
    string_of(&base62_text_exec(id, 22))
}

/// The 128-bit value of a base62 id text (`SpotifyId::from_base62`); none for a text that is
/// not a valid id.
pub fn spotify_id_from_base62(text: &str) -> (r: Option<u128>)
    ensures
        match r {
            Some(v) => valid_spotify_id(text@) && v == base62_value(text@),
            None => !valid_spotify_id(text@),
        },
{
    base62_id_value(&chars_of(text))
}

/// A Spotify URI as the player reports it: a track with its 128-bit id, or anything else.
#[derive(Debug, Clone, Copy, PartialEq, Eq, Structural)]
pub enum SpotifyUri {
    Track { id: u128 },
    Other,
}

/// The `spotify://track/<id>` form of a track URI, which is how the front end names tracks; none
/// for anything that is not a track.
pub fn canonical_spotify_track_id(uri: &SpotifyUri) -> (r: Option<String>)
    ensures
        match *uri {
            SpotifyUri::Track { id } => r matches Some(s) && s@ == "spotify://track/"@ + base62_text(id as nat, 22),
            SpotifyUri::Other => r is None,
        },
{
    match uri {
        SpotifyUri::Track { id } => {
            let mut out = chars_of("spotify://track/");
            push_str(&mut out, spotify_id_to_base62(*id).as_str());
            Some(string_of(&out))
        },
        SpotifyUri::Other => None,
    }
}

/// What a URI or URL names as the track: the text after `spotify://track/`, `spotify:track:` or
/// the first `/track/`, else the whole (trimmed) text; then cut at `?` and at `#`, and trimmed.
pub open spec fn track_id_part(raw: Seq<char>) -> Seq<char> {
    let p1 = "spotify://track/"@;
    let p2 = "spotify:track:"@;
    let rest = if raw.len() >= p1.len() && raw.take(p1.len() as int) == p1 {
        raw.skip(p1.len() as int)
    } else if raw.len() >= p2.len() && raw.take(p2.len() as int) == p2 {
        raw.skip(p2.len() as int)
    } else {
        match find_from(raw, "/track/"@, 0) {
            Some(i) => raw.skip((i + 7) as int),
            None => raw,
        }
    };
    trim(before_first(before_first(rest, seq!['?']), seq!['#']))
}

/// How a URI normalizes: an error for a blank text, a text with no id, or an id that is not
/// 22 base62 digits; else the id.
pub open spec fn normalized_id(uri: Seq<char>) -> Result<Seq<char>, Seq<char>> {
    let raw = trim(uri);
    if raw.len() == 0 {
        Err("Empty Spotify URI or track ID"@)
    } else {
        let id = track_id_part(raw);
        if id.len() == 0 {
            Err("Missing Spotify track ID"@)
        } else if valid_spotify_id(id) {
            Ok(id)
        } else {
            Err("Invalid Spotify track ID '"@ + id + "': must be 22-character base62"@)
        }
    }
}

fn cut_at(s: &Vec<char>, c: char) -> (r: Vec<char>)
    ensures
        r@ == before_first(s@, seq![c]),
{
    let needle: Vec<char> = vec![c];
    assert(needle@ =~= seq![c]);
    match find_seq(s, &needle, 0) {
        Some(k) => {
            proof {
                lemma_find_from_bounds(s@, needle@, 0);
            }
            let r = slice_vec(s, 0, k);
            assert(r@ =~= s@.take(k as int));
            r
        },
        None => slice_vec(s, 0, s.len()),
    }
}

/// Normalizes the URI and URL forms of a Spotify track to its 22-character base62 id.
pub fn normalize_spotify_id(uri: &str) -> (r: Result<String, String>)
    ensures
        match r {
            Ok(id) => normalized_id(uri@) == Ok::<Seq<char>, Seq<char>>(id@),
            Err(e) => normalized_id(uri@) == Err::<Seq<char>, Seq<char>>(e@),
        },
{
    proof {
        reveal_strlit("spotify://track/");
        reveal_strlit("spotify:track:");
        reveal_strlit("/track/");
    }
    let raw = trimmed(&chars_of(uri));
    if raw.len() == 0 {
        return Err(string_of(&chars_of("Empty Spotify URI or track ID")));
    }
    let p1 = chars_of("spotify://track/");
    let p2 = chars_of("spotify:track:");
    let marker = chars_of("/track/");
    let rest: Vec<char> = match crate::text::strip_prefix(&raw, &p1) {
        Some(r) => r,
        None => match crate::text::strip_prefix(&raw, &p2) {
            Some(r) => r,
            None => match find_seq(&raw, &marker, 0) {
                Some(k) => {
                    proof {
                        lemma_find_from_bounds(raw@, marker@, 0);
                    }
                    let r = slice_vec(&raw, k + 7, raw.len());
                    assert(r@ =~= raw@.skip(k + 7));
                    r
                },
                None => raw.clone(),
            },
        },
    };
    let id = trimmed(&cut_at(&cut_at(&rest, '?'), '#'));
    assert(id@ == track_id_part(raw@));
    if id.len() == 0 {
        return Err(string_of(&chars_of("Missing Spotify track ID")));
    }
    if is_valid_spotify_id(&id) {
        Ok(string_of(&id))
    } else {
        let mut m = chars_of("Invalid Spotify track ID '");
        extend_all(&mut m, &id);
        push_str(&mut m, "': must be 22-character base62");
        Err(string_of(&m))
    }
}

// ---------------------------------------------------------------------------------------------
// Player events
// ---------------------------------------------------------------------------------------------

/// Whether an event belongs to the play request Sonora made last.
pub fn is_current_play_request(current: Option<u64>, event_request: u64) -> (r: bool)
    ensures
        r == (current == Some(event_request)),
{
    match current {
        Some(c) => c == event_request,
        None => false,
    }
}

/// An event of the Spotify player, with the ended track's id already in `spotify://track/<id>`
/// form and the volume already in percent.
pub enum NativeEvent {
    Loading { request: u64 },
    Playing { request: u64, position_ms: u32 },
    Paused { request: u64, position_ms: u32 },
    Stopped { request: u64 },
    EndOfTrack { request: u64, track_id: Option<String> },
    /// A position correction, a position change or a seek.
    Position { request: u64, position_ms: u32 },
    VolumeChanged { percent: u8 },
    Unavailable { request: u64, track_id: Option<String> },
    /// Any other event.
    Other,
}

/// The player's own bookkeeping: the reported state, the play request it follows, and the
/// position the progress clock last started from (while it runs).
pub struct NativeState {
    pub playback: SpotifyPlaybackState,
    pub request: Option<u64>,
    /// The position at which the progress clock was last started, while it runs.
    pub clock_base: Option<u64>,
}

/// What happens to the progress clock.
#[derive(Debug, Clone, Copy, PartialEq, Eq, Structural)]
pub enum ClockChange {
    Keep,
    /// Restart it now from this position.
    Start(u64),
    Stop,
}

/// What an event leads to besides the new state.
pub struct EventEffects {
    /// Whether the new state is reported.
    pub emit: bool,
    /// The track that ended, when one did.
    pub ended_track: Option<String>,
    pub clock: ClockChange,
    /// The answer to a waiting load: started (`Some(true)`) or refused (`Some(false)`).
    pub load_result: Option<bool>,
}

/// The event belongs to another play request than the one followed.
pub open spec fn stale(st: NativeState, request: u64) -> bool {
    st.request != Some(request)
}

/// The track that ended: the event's id, else the id of the track in the state.
pub open spec fn ended_id(st: NativeState, track_id: Option<String>) -> Option<Seq<char>> {
    match track_id {
        Some(t) => Some(t@),
        None => match st.playback.track {
            Some(t) => Some(t.id@),
            None => None,
        },
    }
}

/// The reported state is unchanged but for the listed fields.
pub open spec fn same_but_play(a: SpotifyPlaybackState, b: SpotifyPlaybackState) -> bool {
    &&& a.track == b.track
    &&& a.duration_ms == b.duration_ms
    &&& a.volume_percent == b.volume_percent
    &&& a.device_name == b.device_name
}

/// What an event does: stale events of a play request change nothing and are not reported;
/// `Loading` starts following a request silently; `Playing` follows it, marks playing and restarts
/// the clock; `Paused` and `Stopped` stop it; the end of a track parks progress at the duration;
/// an unavailable track ends it and refuses the waiting load; position events move the progress;
/// a volume change is recorded.
pub open spec fn event_spec(st: NativeState, event: NativeEvent, r: NativeState, fx: EventEffects) -> bool {
    match event {
        NativeEvent::Loading { request } => {
            &&& r.request == Some(request)
            &&& r.playback == st.playback
            &&& r.clock_base == st.clock_base
            &&& !fx.emit && fx.ended_track is None && fx.clock == ClockChange::Keep && fx.load_result is None
        },
        NativeEvent::Playing { request, position_ms } => {
            &&& r.request == Some(request)
            &&& same_but_play(r.playback, st.playback)
            &&& r.playback.is_playing
            &&& r.playback.progress_ms == position_ms as u64
            &&& r.clock_base == Some(position_ms as u64)
            &&& fx.emit && fx.ended_track is None && fx.clock == ClockChange::Start(position_ms as u64)
            &&& fx.load_result == Some(true)
        },
        NativeEvent::Paused { request, position_ms } => if stale(st, request) {
            r == st && !fx.emit && fx.ended_track is None && fx.clock == ClockChange::Keep && fx.load_result is None
        } else {
            &&& r.request == st.request
            &&& same_but_play(r.playback, st.playback)
            &&& !r.playback.is_playing
            &&& r.playback.progress_ms == position_ms as u64
            &&& r.clock_base is None
            &&& fx.emit && fx.ended_track is None && fx.clock == ClockChange::Stop && fx.load_result is None
        },
        NativeEvent::Stopped { request } => if stale(st, request) {
            r == st && !fx.emit && fx.ended_track is None && fx.clock == ClockChange::Keep && fx.load_result is None
        } else {
            &&& r.request == st.request
            &&& same_but_play(r.playback, st.playback)
            &&& !r.playback.is_playing
            &&& r.playback.progress_ms == st.playback.progress_ms
            &&& r.clock_base is None
            &&& fx.emit && fx.ended_track is None && fx.clock == ClockChange::Stop && fx.load_result is None
        },
        NativeEvent::EndOfTrack { request, track_id } => if stale(st, request) {
            r == st && !fx.emit && fx.ended_track is None && fx.clock == ClockChange::Keep && fx.load_result is None
        } else {
            &&& r.request == st.request
            &&& same_but_play(r.playback, st.playback)
            &&& !r.playback.is_playing
            &&& r.playback.progress_ms == st.playback.duration_ms
            &&& r.clock_base is None
            &&& fx.emit && fx.clock == ClockChange::Stop && fx.load_result is None
            &&& match fx.ended_track {
                Some(t) => ended_id(st, track_id) == Some(t@),
                None => ended_id(st, track_id) is None,
            }
        },
        NativeEvent::Position { request, position_ms } => if stale(st, request) {
            r == st && !fx.emit && fx.ended_track is None && fx.clock == ClockChange::Keep && fx.load_result is None
        } else {
            &&& r.request == st.request
            &&& same_but_play(r.playback, st.playback)
            &&& r.playback.is_playing == st.playback.is_playing
            &&& r.playback.progress_ms == position_ms as u64
            &&& r.clock_base == if st.playback.is_playing {
                Some(position_ms as u64)
            } else {
                st.clock_base
            }
            &&& fx.emit && fx.ended_track is None && fx.load_result is None
            &&& fx.clock == if st.playback.is_playing {
                ClockChange::Start(position_ms as u64)
            } else {
                ClockChange::Keep
            }
        },
        NativeEvent::VolumeChanged { percent } => {
            &&& r.request == st.request
            &&& r.clock_base == st.clock_base
            &&& r.playback.volume_percent == Some(percent)
            &&& r.playback.track == st.playback.track
            &&& r.playback.is_playing == st.playback.is_playing
            &&& r.playback.progress_ms == st.playback.progress_ms
            &&& r.playback.duration_ms == st.playback.duration_ms
            &&& r.playback.device_name == st.playback.device_name
            &&& fx.emit && fx.ended_track is None && fx.clock == ClockChange::Keep && fx.load_result is None
        },
        NativeEvent::Unavailable { request, track_id } => if stale(st, request) {
            r == st && !fx.emit && fx.ended_track is None && fx.clock == ClockChange::Keep && fx.load_result is None
        } else {
            &&& r.request == st.request
            &&& same_but_play(r.playback, st.playback)
            &&& !r.playback.is_playing
            &&& r.playback.progress_ms == st.playback.progress_ms
            &&& r.clock_base is None
            &&& fx.emit && fx.clock == ClockChange::Stop && fx.load_result == Some(false)
            &&& match fx.ended_track {
                Some(t) => ended_id(st, track_id) == Some(t@),
                None => ended_id(st, track_id) is None,
            }
        },
        NativeEvent::Other => {
            r == st && fx.emit && fx.ended_track is None && fx.clock == ClockChange::Keep && fx.load_result is None
        },
    }
}

fn ended_track_of(st: &NativeState, track_id: Option<String>) -> (r: Option<String>)
    ensures
        match r {
            Some(t) => ended_id(*st, track_id) == Some(t@),
            None => ended_id(*st, track_id) is None,
        },
{
    match track_id {
        Some(t) => Some(t),
        None => match &st.playback.track {
            Some(t) => Some(string_of(&chars_of(t.id.as_str()))),
            None => None,
        },
    }
}

fn quiet() -> (fx: EventEffects)
    ensures
        !fx.emit && fx.ended_track is None && fx.clock == ClockChange::Keep && fx.load_result is None,
{
    EventEffects { emit: false, ended_track: None, clock: ClockChange::Keep, load_result: None }
}

/// Applies one player event to the player's bookkeeping.
pub fn handle_player_event(st: NativeState, event: NativeEvent) -> (r: (NativeState, EventEffects))
    ensures
        event_spec(st, event, r.0, r.1),
{
    let mut st = st;
    let ghost old_st = st;
    match event {
        NativeEvent::Loading { request } => {
            st.request = Some(request);
            (st, quiet())
        },
        NativeEvent::Playing { request, position_ms } => {
            st.request = Some(request);
            st.playback.is_playing = true;
            st.playback.progress_ms = position_ms as u64;
            st.clock_base = Some(position_ms as u64);
            (st, EventEffects { emit: true, ended_track: None, clock: ClockChange::Start(position_ms as u64), load_result: Some(true) })
        },
        NativeEvent::Paused { request, position_ms } => {
            if !is_current_play_request(st.request, request) {
                return (st, quiet());
            }
            st.playback.is_playing = false;
            st.playback.progress_ms = position_ms as u64;
            st.clock_base = None;
            (st, EventEffects { emit: true, ended_track: None, clock: ClockChange::Stop, load_result: None })
        },
        NativeEvent::Stopped { request } => {
            if !is_current_play_request(st.request, request) {
                return (st, quiet());
            }
            st.playback.is_playing = false;
            st.clock_base = None;
            (st, EventEffects { emit: true, ended_track: None, clock: ClockChange::Stop, load_result: None })
        },
        NativeEvent::EndOfTrack { request, track_id } => {
            if !is_current_play_request(st.request, request) {
                return (st, quiet());
            }
            let ended = ended_track_of(&st, track_id);
            st.playback.is_playing = false;
            st.playback.progress_ms = st.playback.duration_ms;
            st.clock_base = None;
            (st, EventEffects { emit: true, ended_track: ended, clock: ClockChange::Stop, load_result: None })
        },
        NativeEvent::Position { request, position_ms } => {
            if !is_current_play_request(st.request, request) {
                return (st, quiet());
            }
            st.playback.progress_ms = position_ms as u64;
            let clock = if st.playback.is_playing {
                st.clock_base = Some(position_ms as u64);
                ClockChange::Start(position_ms as u64)
            } else {
                ClockChange::Keep
            };
            (st, EventEffects { emit: true, ended_track: None, clock, load_result: None })
        },
        NativeEvent::VolumeChanged { percent } => {
            st.playback.volume_percent = Some(percent);
            (st, EventEffects { emit: true, ended_track: None, clock: ClockChange::Keep, load_result: None })
        },
        NativeEvent::Unavailable { request, track_id } => {
            if !is_current_play_request(st.request, request) {
                return (st, quiet());
            }
            let ended = ended_track_of(&st, track_id);
            st.playback.is_playing = false;
            st.clock_base = None;
            (st, EventEffects { emit: true, ended_track: ended, clock: ClockChange::Stop, load_result: Some(false) })
        },
        NativeEvent::Other => (st, EventEffects { emit: true, ended_track: None, clock: ClockChange::Keep, load_result: None }),
    }
}

/// Events of an older play request never change the state nor get reported.
pub proof fn lemma_stale_events_ignored(st: NativeState, event: NativeEvent, r: NativeState, fx: EventEffects)
    requires
        event_spec(st, event, r, fx),
        match event {
            NativeEvent::Paused { request, .. } => stale(st, request),
            NativeEvent::Stopped { request } => stale(st, request),
            NativeEvent::EndOfTrack { request, .. } => stale(st, request),
            NativeEvent::Position { request, .. } => stale(st, request),
            NativeEvent::Unavailable { request, .. } => stale(st, request),
            _ => false,
        },
    ensures
        r == st,
        !fx.emit,
        fx.ended_track is None,
{
}

// ---------------------------------------------------------------------------------------------
// Commands
// ---------------------------------------------------------------------------------------------

/// The name the player reports for itself as a device.
pub open spec fn native_device_name() -> Seq<char> {
    "Sonora (Native)"@
}

impl NativeState {
    /// A player that has played nothing yet: stopped, at full volume.
    pub fn new() -> (r: NativeState)
        ensures
            r.playback.track is None,
            !r.playback.is_playing,
            r.playback.progress_ms == 0,
            r.playback.duration_ms == 0,
            r.playback.volume_percent == Some(100u8),
            r.playback.device_name matches Some(n) && n@ == native_device_name(),
            r.request is None,
            r.clock_base is None,
    {
        NativeState {
            playback: SpotifyPlaybackState {
                track: None,
                is_playing: false,
                progress_ms: 0,
                duration_ms: 0,
                volume_percent: Some(100),
                device_name: Some(string_of(&chars_of("Sonora (Native)"))),
            },
            request: None,
            clock_base: None,
        }
    }

    /// Starting a track: no request is followed until the player announces one, the track stands
    /// as a placeholder until its metadata arrives, and nothing plays yet.
    pub fn start_track(&mut self, id: &str)
        ensures
            final(self).request is None,
            !final(self).playback.is_playing,
            final(self).playback.progress_ms == 0,
            final(self).clock_base is None,
            final(self).playback.duration_ms == old(self).playback.duration_ms,
            final(self).playback.volume_percent == old(self).playback.volume_percent,
            final(self).playback.device_name == old(self).playback.device_name,
            final(self).playback.track matches Some(t) && {
                &&& t.id@ == "spotify://track/"@ + id@
                &&& t.provider == ProviderKind::Spotify
                &&& t.title@ == "Spotify Track"@
                &&& t.artist@ == "Spotify"@
                &&& t.album@ == Seq::<char>::empty()
                &&& t.duration_ms == 0
                &&& t.artwork_url is None
            },
    {
        self.request = None;
        self.playback.is_playing = false;
        self.playback.progress_ms = 0;
        let mut full = chars_of("spotify://track/");
        push_str(&mut full, id);
        proof {
            reveal_strlit("");
        }
        self.playback.track = Some(ProviderTrack {
            id: string_of(&full),
            provider: ProviderKind::Spotify,
            title: string_of(&chars_of("Spotify Track")),
            artist: string_of(&chars_of("Spotify")),
            album: string_of(&chars_of("")),
            duration_ms: 0,
            artwork_url: None,
        });
        self.clock_base = None;
    }

    /// Pausing: while playing with the clock running, progress moves on by the `elapsed_ms` the
    /// clock has run; then nothing plays and the clock stops.
    pub fn pause(&mut self, elapsed_ms: u64)
        requires
            old(self).clock_base matches Some(b) ==> b + elapsed_ms <= u64::MAX,
        ensures
            final(self).playback.progress_ms == match old(self).clock_base {
                Some(b) => if old(self).playback.is_playing {
                    (b + elapsed_ms) as u64
                } else {
                    old(self).playback.progress_ms
                },
                None => old(self).playback.progress_ms,
            },
            !final(self).playback.is_playing,
            final(self).clock_base is None,
            final(self).request == old(self).request,
            same_but_play(final(self).playback, old(self).playback),
    {
        if self.playback.is_playing {
            match self.clock_base {
                Some(base) => {
                    let current = base + elapsed_ms;
                    let cap = if self.playback.duration_ms >= current {
                        self.playback.duration_ms
                    } else {
                        current
                    };
                    self.playback.progress_ms = if current <= cap {
                        current
                    } else {
                        cap
                    };
                },
                None => {},
            }
        }
        self.playback.is_playing = false;
        self.clock_base = None;
    }

    /// Stopping: the track is cleared and nothing is followed.
    pub fn stop(&mut self)
        ensures
            final(self).request is None,
            final(self).playback.track is None,
            !final(self).playback.is_playing,
            final(self).playback.progress_ms == 0,
            final(self).playback.duration_ms == 0,
            final(self).clock_base is None,
            final(self).playback.volume_percent == old(self).playback.volume_percent,
            final(self).playback.device_name == old(self).playback.device_name,
    {
        self.request = None;
        self.playback.track = None;
        self.playback.is_playing = false;
        self.playback.progress_ms = 0;
        self.playback.duration_ms = 0;
        self.clock_base = None;
    }

    /// Resuming an open session: playing again, with the clock restarted from the progress.
    pub fn resume(&mut self)
        ensures
            final(self).playback.is_playing,
            final(self).clock_base == Some(old(self).playback.progress_ms),
            final(self).playback.progress_ms == old(self).playback.progress_ms,
            final(self).request == old(self).request,
            same_but_play(final(self).playback, old(self).playback),
    {
        self.playback.is_playing = true;
        self.clock_base = Some(self.playback.progress_ms);
    }

    /// Seeking: progress moves to the position; the clock restarts there while playing.
    pub fn seek(&mut self, position_ms: u64)
        ensures
            final(self).playback.progress_ms == position_ms,
            final(self).clock_base == if old(self).playback.is_playing {
                Some(position_ms)
            } else {
                None
            },
            final(self).playback.is_playing == old(self).playback.is_playing,
            final(self).request == old(self).request,
            same_but_play(final(self).playback, old(self).playback),
    {
        self.playback.progress_ms = position_ms;
        self.clock_base = if self.playback.is_playing {
            Some(position_ms)
        } else {
            None
        };
    }

    /// Records the volume, in percent.
    pub fn set_volume_percent(&mut self, percent: u8)
        ensures
            final(self).playback.volume_percent == Some(percent),
            final(self).playback.track == old(self).playback.track,
            final(self).playback.is_playing == old(self).playback.is_playing,
            final(self).playback.progress_ms == old(self).playback.progress_ms,
            final(self).playback.duration_ms == old(self).playback.duration_ms,
            final(self).request == old(self).request,
            final(self).clock_base == old(self).clock_base,
    {
        self.playback.volume_percent = Some(percent);
    }

    /// The state as reported: while playing with the clock running, the progress is where the
    /// clock has got to after `elapsed_ms`, capped at the duration when one is known.
    pub fn playback_state(&self, elapsed_ms: u64) -> (r: SpotifyPlaybackState)
        requires
            self.clock_base matches Some(b) ==> b + elapsed_ms <= u64::MAX,
        ensures
            r.progress_ms == match self.clock_base {
                Some(b) => if self.playback.is_playing {
                    if self.playback.duration_ms > 0 && b + elapsed_ms > self.playback.duration_ms {
                        self.playback.duration_ms
                    } else {
                        (b + elapsed_ms) as u64
                    }
                } else {
                    self.playback.progress_ms
                },
                None => self.playback.progress_ms,
            },
            r.is_playing == self.playback.is_playing,
            r.duration_ms == self.playback.duration_ms,
            r.volume_percent == self.playback.volume_percent,
            r.track == self.playback.track,
            r.device_name == self.playback.device_name,
    {
        let track = match &self.playback.track {
            Some(t) => Some(t.duplicate()),
            None => None,
        };
        let mut state = SpotifyPlaybackState {
            track,
            is_playing: self.playback.is_playing,
            progress_ms: self.playback.progress_ms,
            duration_ms: self.playback.duration_ms,
            volume_percent: self.playback.volume_percent,
            device_name: crate::providers::copy_text(&self.playback.device_name),
        };
        if self.playback.is_playing {
            match self.clock_base {
                Some(base) => {
                    let current = base + elapsed_ms;
                    state.progress_ms = if self.playback.duration_ms > 0 && current > self.playback.duration_ms {
                        self.playback.duration_ms
                    } else {
                        current
                    };
                },
                None => {},
            }
        }
        state
    }
}

impl NativeState {
    /// Records a track's metadata once it arrives: its length (negative lengths read as 0) and,
    /// when a track is shown, its title, album and artists joined with `", "`.
    pub fn apply_metadata(&mut self, name: String, album: String, artists: Vec<String>, duration_ms: i32)
        ensures
            final(self).playback.duration_ms == if duration_ms < 0 {
                0
            } else {
                duration_ms as u64
            },
            match old(self).playback.track {
                Some(t) => final(self).playback.track matches Some(u) && {
                    &&& u.title@ == name@
                    &&& u.album@ == album@
                    &&& u.artist@ == crate::spotify::join_comma(artists@.map_values(|a: String| a@))
                    &&& u.duration_ms == final(self).playback.duration_ms
                    &&& u.id == t.id
                    &&& u.provider == t.provider
                    &&& u.artwork_url == t.artwork_url
                },
                None => final(self).playback.track is None,
            },
            final(self).playback.is_playing == old(self).playback.is_playing,
            final(self).playback.progress_ms == old(self).playback.progress_ms,
            final(self).request == old(self).request,
            final(self).clock_base == old(self).clock_base,
    {
        let d: u64 = if duration_ms < 0 {
            0
        } else {
            duration_ms as u64
        };
        self.playback.duration_ms = d;
        let ghost names = artists@.map_values(|a: String| a@);
        let mut joined: Vec<char> = Vec::new();
        let mut i: usize = 0;
        assert(names.take(0) =~= Seq::<Seq<char>>::empty());
        while i < artists.len()
            invariant
                i <= artists@.len(),
                names == artists@.map_values(|a: String| a@),
                joined@ == crate::spotify::join_comma(names.take(i as int)),
            decreases artists@.len() - i,
        {
            assert(names.take(i + 1).drop_last() =~= names.take(i as int));
            assert(names.take(i + 1).last() == artists@[i as int]@);
            if i > 0 {
                push_str(&mut joined, ", ");
            }
            push_str(&mut joined, artists[i].as_str());
            proof {
                if i == 0 {
                    assert(joined@ =~= names.take(1)[0]);
                }
            }
            i = i + 1;
        }
        assert(names.take(artists@.len() as int) =~= names);
        let current = self.playback.track.take();
        self.playback.track = match current {
            Some(t) => Some(ProviderTrack {
                id: t.id,
                provider: t.provider,
                title: name,
                artist: string_of(&joined),
                album,
                duration_ms: d,
                artwork_url: t.artwork_url,
            }),
            None => None,
        };
    }
}

/// A base62 digit never occurs in `needle` when `needle` starts with a character that is not one.
proof fn lemma_no_match_of_non_base62(id: Seq<char>, needle: Seq<char>)
    requires
        forall|i: int| 0 <= i < id.len() ==> is_base62(#[trigger] id[i]),
        needle.len() > 0,
        !is_base62(needle[0]),
    ensures
        find_from(id, needle, 0) is None,
{
    lemma_find_from_bounds(id, needle, 0);
    if let Some(k) = find_from(id, needle, 0) {
        assert(id.subrange(k as int, (k + needle.len()) as int)[0] == id[k as int]);
    }
}

/// Normalizing a track id that is already normalized gives it back unchanged.
pub proof fn lemma_normalize_idempotent(id: Seq<char>)
    requires
        valid_spotify_id(id),
    ensures
        normalized_id(id) == Ok::<Seq<char>, Seq<char>>(id),
{
    reveal_strlit("spotify://track/");
    reveal_strlit("spotify:track:");
    reveal_strlit("/track/");
    assert(!crate::text::is_ws(id[0]));
    assert(!crate::text::is_ws(id.last()));
    assert(trim(id) == id);
    assert(id.take(16)[7] == id[7]);
    assert("spotify://track/"@[7] == ':');
    assert(id.take(16) != "spotify://track/"@);
    assert(id.take(14)[7] == id[7]);
    assert("spotify:track:"@[7] == ':');
    assert(id.take(14) != "spotify:track:"@);
    lemma_no_match_of_non_base62(id, "/track/"@);
    lemma_no_match_of_non_base62(id, seq!['?']);
    lemma_no_match_of_non_base62(id, seq!['#']);
    assert(track_id_part(id) == id);
}

} // verus!
