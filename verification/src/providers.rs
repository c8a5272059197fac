//! The shapes every music source hands back, so queues and library views never branch on where a
//! track came from.
use vstd::prelude::*;

verus! {

/// Where a track or playlist comes from. The scheme of a kind is also the value stored in the
/// `provider` column of every track row.
#[derive(Debug, Clone, Copy, PartialEq, Eq, Structural)]
pub enum ProviderKind {
    Local,
    Spotify,
    YouTubeMusic,
}

/// The URI scheme of a provider kind.
pub open spec fn scheme_of(kind: ProviderKind) -> Seq<char> {
    match kind {
        ProviderKind::Local => "local"@,
        ProviderKind::Spotify => "spotify"@,
        ProviderKind::YouTubeMusic => "ytmusic"@,
    }
}

impl ProviderKind {
    /// Canonical URI scheme of the kind.
    pub fn scheme(&self) -> (r: &'static str)
        ensures
            r@ == scheme_of(*self),
    {
        match self {
            ProviderKind::Local => "local",
            ProviderKind::Spotify => "spotify",
            ProviderKind::YouTubeMusic => "ytmusic",
        }
    }
}

/// Different kinds have different schemes.
pub proof fn lemma_schemes_distinct(a: ProviderKind, b: ProviderKind)
    ensures
        scheme_of(a) == scheme_of(b) ==> a == b,
{
    reveal_strlit("local");
    reveal_strlit("spotify");
    reveal_strlit("ytmusic");
    assert("local"@.len() == 5);
    assert("spotify"@.len() == 7);
    assert("ytmusic"@.len() == 7);
    assert("spotify"@[0] != "ytmusic"@[0]);
}

/// A track as any provider describes it.
#[derive(Debug, Clone)]
pub struct ProviderTrack {
    pub id: String,
    pub provider: ProviderKind,
    pub title: String,
    pub artist: String,
    pub album: String,
    pub duration_ms: u64,
    pub artwork_url: Option<String>,
}

/// A copy of an optional text, equal to it.
pub fn copy_text(t: &Option<String>) -> (r: Option<String>)
    ensures
        r == *t,
{
    match t {
        Some(s) => Some(s.clone()),
        None => None,
    }
}

impl ProviderTrack {
    /// A copy of the track, equal to it field for field.
    pub fn duplicate(&self) -> (r: ProviderTrack)
        ensures
            r == *self,
    {
        ProviderTrack {
            id: self.id.clone(),
            provider: self.provider,
            title: self.title.clone(),
            artist: self.artist.clone(),
            album: self.album.clone(),
            duration_ms: self.duration_ms,
            artwork_url: copy_text(&self.artwork_url),
        }
    }
}

/// A playlist as any provider describes it.
#[derive(Debug, Clone)]
pub struct ProviderPlaylist {
    pub id: String,
    pub title: String,
    pub description: Option<String>,
    pub artwork_url: Option<String>,
    pub track_count: u32,
    pub provider: ProviderKind,
}

/// Tracks and playlists found by a search.
#[derive(Debug, Clone)]
pub struct SearchResults {
    pub tracks: Vec<ProviderTrack>,
    pub playlists: Vec<ProviderPlaylist>,
}

/// Where the decoder can read a track's audio.
#[derive(Debug, Clone)]
pub struct TrackAudioSource {
    /// Direct, seekable URL that the decoder can read over HTTP.
    pub url: String,
    pub mime_type: Option<String>,
    /// Set when a provider owns playback instead of exposing a stream to the generic decoder.
    pub remote_playback: bool,
}

/// A music source. Searching, streaming and listing playlists are network work done around the
/// library; what a source is stays here.
pub trait MusicProvider {
    /// The kind of source.
    fn provider_id(&self) -> ProviderKind;
}

/// The message given when Spotify audio is asked of the generic decoder.
pub open spec fn spotify_decode_message() -> Seq<char> {
    "Spotify audio is handled by Sonora's native Spotify player"@
}

/// Spotify's Web API serves library metadata; playback of its audio is owned by the Spotify
/// player rather than the generic decoder.
pub fn spotify_cannot_decode_locally() -> (r: &'static str)
    ensures
        r@ == spotify_decode_message(),
{
    "Spotify audio is handled by Sonora's native Spotify player"
}

} // verus!
