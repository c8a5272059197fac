use sonora::providers::{spotify_cannot_decode_locally, ProviderKind};

#[test]
fn provider_schemes_match_the_canonical_uris() {
    assert_eq!(ProviderKind::Local.scheme(), "local");
    assert_eq!(ProviderKind::Spotify.scheme(), "spotify");
    assert_eq!(ProviderKind::YouTubeMusic.scheme(), "ytmusic");
}

#[test]
fn spotify_audio_is_not_decoded_locally() {
    assert_eq!(
        spotify_cannot_decode_locally(),
        "Spotify audio is handled by Sonora's native Spotify player"
    );
}
