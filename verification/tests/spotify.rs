use sonora::json::{Json, JsonNumber};
use sonora::providers::{MusicProvider, ProviderKind};
use sonora::spotify::{begin_login, playlist_track_uri, token_exchange_form, token_refresh_form};
use sonora::spotify::{
    access_token, authorize_url, callback_code, choose_device, code_challenge, issued_tokens,
    page_step, parse_playback_state, parse_playlist, parse_playlist_track, parse_track,
    playback_status, playlist_status, random_urlsafe, redirect_uri_for, refreshed_tokens,
    remote_uri, retry_on_device, search_results, SpotifyProvider, SpotifyTokens, TokenStep,
};
use std::time::{SystemTime, UNIX_EPOCH};

fn now_seconds() -> u64 {
    SystemTime::now().duration_since(UNIX_EPOCH).map(|d| d.as_secs()).unwrap_or(0)
}

fn text(value: &str) -> Json {
    Json::Str(value.to_string())
}

fn num(value: i64) -> Json {
    Json::Number(JsonNumber {
        as_u64: if value >= 0 { Some(value as u64) } else { None },
        as_i64: Some(value),
        thousandths: if value >= 0 { Some(value as u64 * 1000) } else { None },
    })
}

fn obj(pairs: Vec<(&str, Json)>) -> Json {
    let mut entries: Vec<(String, Json)> = pairs.into_iter().map(|(k, v)| (k.to_string(), v)).collect();
    entries.sort_by(|a, b| a.0.cmp(&b.0));
    Json::Object(entries)
}

#[test]
fn pkce_challenge_matches_the_rfc7636_worked_example() {
    // RFC 7636 Appendix B.
    let verifier = "dBjftJeZ4CVP-mB92K27uhbUJU1p1r_wW1gFWFOEjXk";
    assert_eq!(code_challenge(verifier), "E9Melhoa2OwvFrEMTJguCHaoeK1t8URWbuGJSstw-cM");
}

#[test]
fn verifiers_are_unique_and_url_safe() {
    let a = random_urlsafe(64);
    let b = random_urlsafe(64);
    assert_ne!(a, b);
    assert!(!a.contains('+') && !a.contains('/') && !a.contains('='));
    assert!(a.len() >= 43, "RFC 7636 requires at least 43 characters");
}

#[test]
fn parses_a_spotify_track_payload() {
    let value = obj(vec![
        ("id", text("4cOdK2wGLETKBW3PvgPWqT")),
        ("name", text("Starboy")),
        ("duration_ms", num(230453)),
        ("artists", Json::Array(vec![obj(vec![("name", text("The Weeknd"))]), obj(vec![("name", text("Daft Punk"))])])),
        (
            "album",
            obj(vec![
                ("name", text("Starboy")),
                (
                    "images",
                    Json::Array(vec![
                        obj(vec![("url", text("https://i.scdn.co/image/large"))]),
                        obj(vec![("url", text("https://i.scdn.co/image/small"))]),
                    ]),
                ),
            ]),
        ),
    ]);
    let track = parse_track(&value).unwrap();
    assert_eq!(track.id, "spotify://track/4cOdK2wGLETKBW3PvgPWqT");
    assert_eq!(track.artist, "The Weeknd, Daft Punk");
    assert_eq!(track.album, "Starboy");
    assert_eq!(track.duration_ms, 230_453);
    // The smallest artwork in the list is chosen.
    assert_eq!(track.artwork_url.as_deref(), Some("https://i.scdn.co/image/small"));
}

#[test]
fn a_track_without_an_album_still_parses() {
    let value = obj(vec![
        ("id", text("abc")),
        ("name", text("Local File")),
        ("duration_ms", num(1000)),
        ("artists", Json::Array(vec![])),
    ]);
    let track = parse_track(&value).unwrap();
    assert_eq!(track.album, "Unknown Album");
    assert_eq!(track.artist, "Unknown Artist");
}

#[test]
fn parses_current_playlist_items_shape() {
    let playlist = parse_playlist(&obj(vec![
        ("id", text("playlist-id")),
        ("name", text("Mix")),
        ("items", obj(vec![("total", num(3))])),
    ]))
    .unwrap();
    assert_eq!(playlist.track_count, 3);

    let track = parse_playlist_track(&obj(vec![(
        "item",
        obj(vec![
            ("id", text("track-id")),
            ("name", text("Song")),
            ("duration_ms", num(1234)),
            ("artists", Json::Array(vec![obj(vec![("name", text("Artist"))])])),
            ("album", obj(vec![("name", text("Album")), ("images", Json::Array(vec![]))])),
        ]),
    )]))
    .unwrap();
    assert_eq!(track.title, "Song");
}

fn device(pairs: Vec<(&str, Json)>) -> Json {
    obj(pairs)
}

#[test]
fn chooses_a_playable_device_even_when_none_is_active() {
    let devices = vec![
        device(vec![("id", text("tv")), ("name", text("Living Room TV")), ("type", text("TV")), ("is_active", Json::Bool(false))]),
        device(vec![("id", text("locked")), ("name", text("Car")), ("type", text("Automobile")), ("is_restricted", Json::Bool(true))]),
        device(vec![("id", text("mac")), ("name", text("MacBook")), ("type", text("Computer")), ("is_active", Json::Bool(false))]),
    ];
    assert_eq!(choose_device(&devices).as_deref(), Some("mac"));

    let with_active = vec![
        device(vec![("id", text("tv")), ("name", text("Living Room TV")), ("type", text("TV")), ("is_active", Json::Bool(true))]),
        device(vec![("id", text("locked")), ("name", text("Car")), ("type", text("Automobile")), ("is_restricted", Json::Bool(true))]),
        device(vec![("id", text("mac")), ("name", text("MacBook")), ("type", text("Computer")), ("is_active", Json::Bool(false))]),
    ];
    assert_eq!(choose_device(&with_active).as_deref(), Some("tv"));

    assert_eq!(choose_device(&devices[1..2]), None);
    assert_eq!(choose_device(&[]), None);
}

#[test]
fn parses_remote_playback_state_and_clamps_volume() {
    let state = parse_playback_state(&obj(vec![
        ("is_playing", Json::Bool(true)),
        ("progress_ms", num(1200)),
        ("device", obj(vec![("name", text("MacBook")), ("volume_percent", num(140))])),
        (
            "item",
            obj(vec![
                ("id", text("track-id")),
                ("name", text("Song")),
                ("duration_ms", num(5000)),
                ("artists", Json::Array(vec![obj(vec![("name", text("Artist"))])])),
                ("album", obj(vec![("name", text("Album")), ("images", Json::Array(vec![]))])),
            ]),
        ),
    ]));
    assert!(state.is_playing);
    assert_eq!(state.progress_ms, 1200);
    assert_eq!(state.duration_ms, 5000);
    assert_eq!(state.volume_percent, Some(100));
    assert_eq!(state.device_name.as_deref(), Some("MacBook"));
    assert_eq!(state.track.as_ref().map(|track| track.title.as_str()), Some("Song"));
}

#[test]
fn expiry_leaves_a_safety_margin() {
    let fresh = SpotifyTokens {
        access_token: "a".into(),
        refresh_token: "b".into(),
        expires_at: now_seconds() + 3600,
    };
    assert!(!fresh.is_expired());

    // Inside the 60 s margin the token is treated as already stale.
    let nearly = SpotifyTokens { expires_at: now_seconds() + 30, ..fresh.clone() };
    assert!(nearly.is_expired());

    let stale = SpotifyTokens { expires_at: 0, ..fresh };
    assert!(stale.is_expired());
}

#[test]
fn expiry_at_a_given_time() {
    let t = SpotifyTokens { access_token: "a".into(), refresh_token: "b".into(), expires_at: 1_000 };
    assert!(!t.is_expired_at(939));
    assert!(t.is_expired_at(940));
    assert!(t.is_expired_at(5_000));
}

#[test]
fn redirect_uri_depends_on_the_registered_client() {
    assert_eq!(redirect_uri_for("d420a117a32841c2b3474932e49fb54b"), "http://127.0.0.1:8899/login");
    assert_eq!(redirect_uri_for("other"), "http://127.0.0.1:8899/callback");
}

#[test]
fn authorization_callback_is_checked() {
    let ok = callback_code("GET /callback?code=abc%20d&state=s1 HTTP/1.1\r\n", "s1");
    assert_eq!(ok, Ok("abc d".to_string()));
    let denied = callback_code("GET /callback?error=access_denied&state=s1 HTTP/1.1", "s1");
    assert_eq!(denied, Err("Spotify authorization was denied: access_denied".to_string()));
    let forged = callback_code("GET /callback?code=abc&state=other HTTP/1.1", "s1");
    assert_eq!(forged, Err("OAuth state mismatch; the callback did not originate from this request".to_string()));
    let no_code = callback_code("GET /callback?state=s1 HTTP/1.1", "s1");
    assert_eq!(no_code, Err("Spotify did not return an authorization code".to_string()));
    // The last value of a repeated parameter counts.
    assert_eq!(callback_code("GET /cb?state=x&state=s1&code=z HTTP/1.1", "s1"), Ok("z".to_string()));
}

#[test]
fn authorize_url_carries_the_challenge_and_state() {
    let url = authorize_url("client id", "http://127.0.0.1:8899/callback", "CHAL", "st");
    assert!(url.starts_with("https://accounts.spotify.com/authorize?client_id=client%20id&response_type=code&redirect_uri=http%3A%2F%2F127.0.0.1%3A8899%2Fcallback"));
    assert!(url.contains("&code_challenge_method=S256&code_challenge=CHAL&state=st&scope=streaming%20user-read-private"));
}

#[test]
fn token_steps_and_refreshes() {
    let tokens = SpotifyTokens { access_token: "acc".into(), refresh_token: "ref".into(), expires_at: 1_000 };
    assert_eq!(access_token("  ", Some(tokens.clone()), 0).err().as_deref(), Some("Configure your Spotify Client ID in Settings first."));
    assert_eq!(access_token("id", None, 0).err().as_deref(), Some("Not connected to Spotify."));
    assert!(matches!(access_token("id", Some(tokens.clone()), 10), Ok(TokenStep::Ready(t)) if t == "acc"));
    assert!(matches!(access_token("id", Some(tokens), 990), Ok(TokenStep::Refresh(t)) if t == "ref"));
    let kept = refreshed_tokens("old".into(), "new".into(), None, 3600, 100);
    assert_eq!(kept.refresh_token, "old");
    assert_eq!(kept.expires_at, 3700);
    let rotated = refreshed_tokens("old".into(), "new".into(), Some("newer".into()), 10, 0);
    assert_eq!(rotated.refresh_token, "newer");
    assert!(issued_tokens("a".into(), None, 1, 1).is_err());
}

#[test]
fn playback_requests_map_statuses() {
    assert!(playback_status(204).is_ok());
    assert_eq!(
        playback_status(404).err().as_deref(),
        Some("No active Spotify device found. Open Spotify on a device and start it once, then retry.")
    );
    assert_eq!(playback_status(500).err().as_deref(), Some("Spotify playback returned 500"));
    assert_eq!(playlist_status(418).err().as_deref(), Some("Spotify playlist request returned 418"));
    assert!(retry_on_device(404, false));
    assert!(!retry_on_device(404, true));
    assert_eq!(remote_uri("spotify://track/abc"), "spotify:track:abc");
    assert_eq!(remote_uri("spotify:track:abc"), "spotify:track:abc");
}

#[test]
fn pagination_stops_on_short_or_final_pages() {
    assert_eq!(page_step(0, 50, Some(120)), (50, false));
    assert_eq!(page_step(100, 20, Some(120)), (120, true));
    assert_eq!(page_step(0, 50, Some(50)), (50, true));
    assert_eq!(page_step(50, 0, None), (50, true));
}

#[test]
fn provider_methods_read_pages() {
    let provider = SpotifyProvider::new("cid".to_string());
    assert_eq!(provider.client_id, "cid");
    let idle = provider.get_playback_state(None);
    assert!(!idle.is_playing && idle.track.is_none());
    let page = obj(vec![(
        "items",
        Json::Array(vec![
            obj(vec![("track", obj(vec![("id", text("a")), ("name", text("A"))]))]),
            obj(vec![("track", Json::Null)]),
        ]),
    )]);
    let saved = provider.get_saved_tracks(&page);
    assert_eq!(saved.len(), 1);
    assert_eq!(saved[0].id, "spotify://track/a");
    let results = search_results(&obj(vec![(
        "tracks",
        obj(vec![("items", Json::Array(vec![obj(vec![("id", text("t1"))])]))]),
    )]));
    assert_eq!(results.tracks.len(), 1);
    assert!(results.playlists.is_empty());
}

fn playlist_entry(id: &str) -> Json {
    obj(vec![("item", obj(vec![("id", text(id)), ("name", text(id))]))])
}

fn entries_page(ids: Vec<String>, total: i64) -> Json {
    obj(vec![
        ("items", Json::Array(ids.iter().map(|id| playlist_entry(id)).collect())),
        ("total", num(total)),
    ])
}

#[test]
fn playlist_tracks_are_read_until_the_listing_is_done() {
    let provider = SpotifyProvider::new("cid".to_string());
    let first: Vec<String> = (0..50).map(|n| format!("t{n}")).collect();
    let second: Vec<String> = (50..53).map(|n| format!("t{n}")).collect();
    let stray = vec!["never".to_string()];
    let pages = vec![entries_page(first, 53), entries_page(second, 53), entries_page(stray, 53)];
    let tracks = provider.get_playlist_tracks(&pages);
    assert_eq!(tracks.len(), 53);
    assert_eq!(tracks[0].id, "spotify://track/t0");
    assert_eq!(tracks[52].id, "spotify://track/t52");
    assert!(tracks.iter().all(|t| t.id != "spotify://track/never"));

    // A first page that is already short ends the listing.
    let short = vec![entries_page(vec!["x".to_string()], 1), entries_page(vec!["y".to_string()], 1)];
    let tracks = provider.get_playlist_tracks(&short);
    assert_eq!(tracks.len(), 1);
    assert_eq!(tracks[0].title, "x");
    assert!(provider.get_playlist_tracks(&[]).is_empty());
}

#[test]
fn spotify_provider_reports_its_kind() {
    assert_eq!(SpotifyProvider::new("cid".to_string()).provider_id(), ProviderKind::Spotify);
    assert_eq!(sonora::ytmusic::YouTubeMusicProvider::new().provider_id(), ProviderKind::YouTubeMusic);
}

#[test]
fn tracks_are_added_to_playlists_by_their_uri() {
    assert_eq!(
        playlist_track_uri("spotify://track/1jzIJcHCXneHw7ojC6LXiF"),
        Ok("spotify:track:1jzIJcHCXneHw7ojC6LXiF".to_string())
    );
    assert_eq!(playlist_track_uri("  "), Err("Empty Spotify URI or track ID".to_string()));
    assert!(playlist_track_uri("spotify:track:short").is_err());
}

#[test]
fn a_login_sends_the_verifier_whose_challenge_it_showed() {
    let login = begin_login("  client id ").unwrap();
    assert_eq!(login.client_id, "client id");
    assert_eq!(login.redirect_uri, "http://127.0.0.1:8899/callback");
    assert_eq!(login.verifier.len(), 86);
    assert_eq!(login.state.len(), 22);
    let challenge = code_challenge(&login.verifier);
    assert!(login.url.contains(&format!("&code_challenge={challenge}&")));
    let form = token_exchange_form("the-code", &login.redirect_uri, &login.client_id, &login.verifier);
    let pairs: Vec<(&str, &str)> = form.iter().map(|(k, v)| (k.as_str(), v.as_str())).collect();
    assert_eq!(
        pairs,
        vec![
            ("grant_type", "authorization_code"),
            ("code", "the-code"),
            ("redirect_uri", "http://127.0.0.1:8899/callback"),
            ("client_id", "client id"),
            ("code_verifier", login.verifier.as_str()),
        ]
    );
    assert!(begin_login("   ").is_err());
    let refresh = token_refresh_form("r1", " cid ");
    let pairs: Vec<(&str, &str)> = refresh.iter().map(|(k, v)| (k.as_str(), v.as_str())).collect();
    assert_eq!(pairs, vec![("grant_type", "refresh_token"), ("refresh_token", "r1"), ("client_id", "cid")]);
}
