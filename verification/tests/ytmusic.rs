use sonora::json::{renderers, Json, JsonNumber};
use sonora::providers::{ProviderKind, ProviderTrack};
use sonora::ytmusic::{
    best_audio_source, bootstrap_value, core_title, endpoint, names_reference, padded_words,
    parse_duration, parse_playlist, parse_song, parse_ytdlp_search_entry, runs_text,
    search_results_from, select_candidate, video_id_of_track, within_tolerance, words,
    ytdlp_results, ytdlp_stream, TrackReference, YouTubeMusicProvider, duration_is_readable,
    search_response_is_readable,
};

fn text(value: &str) -> Json {
    Json::Str(value.to_string())
}

fn num(value: u64) -> Json {
    Json::Number(JsonNumber { as_u64: Some(value), as_i64: Some(value as i64), thousandths: Some(value * 1000) })
}

fn obj(pairs: Vec<(&str, Json)>) -> Json {
    let mut entries: Vec<(String, Json)> = pairs.into_iter().map(|(k, v)| (k.to_string(), v)).collect();
    entries.sort_by(|a, b| a.0.cmp(&b.0));
    Json::Object(entries)
}

fn runs(parts: &[&str]) -> Json {
    obj(vec![("runs", Json::Array(parts.iter().map(|p| obj(vec![("text", text(p))])).collect()))])
}

fn flex(column_text: &str) -> Json {
    obj(vec![("musicResponsiveListItemFlexColumnRenderer", obj(vec![("text", runs(&[column_text]))]))])
}

#[test]
fn parses_durations_in_both_shapes() {
    assert_eq!(parse_duration("3:45"), 225_000);
    assert_eq!(parse_duration("1:02:03"), 3_723_000);
    assert_eq!(parse_duration("0:07"), 7_000);
    assert_eq!(parse_duration("not a time"), 0);
}

#[test]
fn reads_rotating_web_player_configuration_values() {
    let page = r#"{"INNERTUBE_API_KEY":"key-123","INNERTUBE_CLIENT_VERSION":"1.2.3"}"#;
    assert_eq!(bootstrap_value(page, "INNERTUBE_API_KEY").as_deref(), Some("key-123"));
    assert_eq!(bootstrap_value(page, "INNERTUBE_CLIENT_VERSION").as_deref(), Some("1.2.3"));
}

#[test]
fn joins_split_text_runs() {
    let value = runs(&["YOASO", "BI"]);
    assert_eq!(runs_text(&value).as_deref(), Some("YOASOBI"));

    let blank = runs(&["   "]);
    assert_eq!(runs_text(&blank), None);
}

#[test]
fn finds_renderers_nested_anywhere_in_the_payload() {
    let payload = obj(vec![(
        "contents",
        obj(vec![
            ("a", obj(vec![("musicResponsiveListItemRenderer", obj(vec![("id", num(1))]))])),
            ("b", Json::Array(vec![obj(vec![("c", obj(vec![("musicResponsiveListItemRenderer", obj(vec![("id", num(2))]))]))])])),
        ]),
    )]);
    let found = renderers(&payload, "musicResponsiveListItemRenderer");
    assert_eq!(found.len(), 2);
}

fn song_row() -> Json {
    obj(vec![
        ("flexColumns", Json::Array(vec![flex("Yoru ni Kakeru"), flex("YOASOBI • THE BOOK • 4:21")])),
        (
            "overlay",
            obj(vec![(
                "musicItemThumbnailOverlayRenderer",
                obj(vec![(
                    "content",
                    obj(vec![(
                        "musicPlayButtonRenderer",
                        obj(vec![("playNavigationEndpoint", obj(vec![("watchEndpoint", obj(vec![("videoId", text("x8VYWazR5mE"))]))]))]),
                    )]),
                )]),
            )]),
        ),
        (
            "thumbnail",
            obj(vec![(
                "musicThumbnailRenderer",
                obj(vec![(
                    "thumbnail",
                    obj(vec![(
                        "thumbnails",
                        Json::Array(vec![
                            obj(vec![("url", text("https://lh3.googleusercontent.com/small"))]),
                            obj(vec![("url", text("https://lh3.googleusercontent.com/large"))]),
                        ]),
                    )]),
                )]),
            )]),
        ),
    ])
}

#[test]
fn parses_a_song_row_including_its_video_id() {
    let track = parse_song(&song_row()).unwrap();
    assert_eq!(track.id, "ytmusic://track/x8VYWazR5mE");
    assert_eq!(track.title, "Yoru ni Kakeru");
    assert_eq!(track.artist, "YOASOBI");
    assert_eq!(track.album, "THE BOOK");
    assert_eq!(track.duration_ms, 261_000);
    assert_eq!(track.artwork_url.as_deref(), Some("https://lh3.googleusercontent.com/large"));
}

#[test]
fn parses_a_playlist_row_from_its_browse_endpoint() {
    let renderer = obj(vec![
        ("navigationEndpoint", obj(vec![("browseEndpoint", obj(vec![("browseId", text("VLPL123"))]))])),
        ("title", runs(&["My Mix"])),
    ]);
    let playlist = parse_playlist(&renderer).unwrap();
    assert_eq!(playlist.id, "ytmusic://playlist/VLPL123");
    assert_eq!(playlist.title, "My Mix");
}

#[test]
fn a_row_without_a_video_id_is_skipped() {
    let renderer = obj(vec![("flexColumns", Json::Array(vec![flex("Header")]))]);
    assert!(parse_song(&renderer).is_none());
}

#[test]
fn parses_a_ytdlp_search_entry() {
    let entry = obj(vec![
        ("id", text("5NV6Rdv1a3I")),
        ("title", text("Daft Punk - Get Lucky")),
        ("uploader", text("Daft Punk")),
        ("duration", num(249)),
    ]);
    let track = parse_ytdlp_search_entry(&entry).unwrap();
    assert_eq!(track.id, "ytmusic://track/5NV6Rdv1a3I");
    assert_eq!(track.artist, "Daft Punk");
    assert_eq!(track.duration_ms, 249_000);
    assert!(track.artwork_url.is_some());
}

fn candidate(title: &str, channel: &str, duration_ms: u64) -> ProviderTrack {
    ProviderTrack {
        id: format!("ytmusic://track/{title}"),
        provider: ProviderKind::YouTubeMusic,
        title: title.to_string(),
        artist: channel.to_string(),
        album: String::new(),
        duration_ms,
        artwork_url: None,
    }
}

fn reference<'a>(title: &'a str, artist: &'a str, duration_ms: u64) -> TrackReference<'a> {
    TrackReference { title, artist, duration_ms }
}

#[test]
fn prefers_the_catalogue_song_over_video_uploads() {
    let songs = vec![
        candidate("Kyoto", "Yung Lean", 270_000),
        candidate("Ginseng Strip 2002", "Yung Lean", 154_000),
    ];
    let videos = vec![candidate("Yung Lean ♦ Ginseng Strip 2002 ♦", "Yung Lean", 159_000)];
    let picked = select_candidate(&songs, &videos, &reference("Ginseng Strip 2002", "Yung Lean", 153_000));
    assert_eq!(picked.unwrap().title, "Ginseng Strip 2002");
}

#[test]
fn never_substitutes_an_instrumental_or_live_take_for_the_studio_track() {
    let videos = vec![
        candidate("Yung lean - Ginseng strip 2002 (instrumental)", "Radio Silence", 151_000),
        candidate("Coma Cose - Mancarsi LIVE @ Filagosto Festival 2019", "FilagostoTV", 154_000),
    ];
    assert!(select_candidate(&[], &videos, &reference("Ginseng Strip 2002", "Yung Lean", 153_000)).is_none());
    assert!(select_candidate(&[], &videos, &reference("MANCARSI", "Coma_Cose", 229_000)).is_none());
}

#[test]
fn a_variant_word_in_the_reference_title_is_required_not_rejected() {
    let videos = vec![
        candidate("Live Forever (Acoustic)", "Fan Uploads", 274_000),
        candidate("Oasis - Live Forever", "Oasis - Topic", 276_000),
    ];
    let picked = select_candidate(&[], &videos, &reference("Live Forever", "Oasis", 276_000));
    assert_eq!(picked.unwrap().title, "Oasis - Live Forever");

    let videos = vec![
        candidate("Adele - Someone Like You (Official Music Video)", "Adele", 285_000),
        candidate("Adele - Someone Like You (Live at The Royal Albert Hall)", "Adele", 300_000),
    ];
    let live = reference("Someone Like You - Live at the Royal Albert Hall", "Adele", 297_000);
    assert!(select_candidate(&[], &videos, &live).unwrap().title.contains("Live"));
}

#[test]
fn rejects_a_different_song_of_the_right_length() {
    let videos = vec![candidate("Riblja Čorba - Dva dinara, druže", "Riblja Čorba", 203_000)];
    let fabricated = reference("Zvezda nad Dunavom", "Riblja Čorba", 200_000);
    assert!(select_candidate(&[], &videos, &fabricated).is_none());
}

#[test]
fn a_catalogue_song_of_another_edit_beats_no_match_but_a_video_does_not() {
    let songs = vec![candidate("Applausi Per Fibra", "Fabri Fibra", 242_000)];
    let videos = vec![candidate("Fabri Fibra - Applausi Per Fibra", "Fabri Fibra", 250_000)];
    let platinum = reference("Applausi Per Fibra", "Fabri Fibra", 294_000);
    assert_eq!(select_candidate(&songs, &videos, &platinum).unwrap().duration_ms, 242_000);
    assert!(select_candidate(&[], &videos, &platinum).is_none());
}

#[test]
fn matches_credits_and_suffixes_the_catalogue_formats_differently() {
    let songs = vec![candidate(
        "That's It [from GTAVI: The Album] (feat. Future & Metro Boomin)",
        "Yung Lean & Grand Theft Auto VI",
        162_000,
    )];
    let spotify = reference(
        "That's It (feat. Future & Metro Boomin) [from GTAVI: The Album]",
        "Yung Lean, Grand Theft Auto VI, Metro Boomin, Future",
        161_000,
    );
    assert!(select_candidate(&songs, &[], &spotify).is_some());
    assert_eq!(core_title("Money - Remastered 2011"), "Money");
}

#[test]
fn words_are_lowercased_without_punctuation() {
    assert_eq!(padded_words("Blinding Lights (Live)"), " blinding lights live ");
    assert_eq!(words("Don't Stop!"), vec!["dont".to_string(), "stop".to_string()]);
    assert_eq!(core_title("Song (feat. X) [Live]"), "Song  ");
    assert!(names_reference(&candidate("Song", "Band", 1), &reference("Song", "The Band", 0)));
    assert!(within_tolerance(&candidate("x", "y", 100_000), &reference("x", "y", 110_000)));
    assert!(!within_tolerance(&candidate("x", "y", 100_000), &reference("x", "y", 110_001)));
}

#[test]
fn endpoints_and_stream_choice() {
    assert_eq!(endpoint("search", "K"), "https://music.youtube.com/youtubei/v1/search?key=K&prettyPrint=false");
    assert_eq!(video_id_of_track("ytmusic://track/abc"), "abc");
    let provider = YouTubeMusicProvider::new();
    let songs = vec![candidate("Song", "Band", 200_000)];
    assert_eq!(provider.resolve_stream_for_track(&songs, &[], &reference("Song", "Band", 201_000)), Ok("Song".to_string()));
    assert_eq!(
        provider.resolve_stream_for_track(&[], &[], &reference("T", "A", 0)),
        Err("YouTube Music search failed for 'A T'".to_string())
    );
    assert_eq!(
        provider.resolve_stream_for_track(&songs, &[], &reference("Other", "Band", 0)),
        Err("No confident YouTube match for 'Other' by Band".to_string())
    );
}

#[test]
fn the_loudest_audio_format_is_streamed() {
    let format = |mime: &str, url: &str, rate: u64| obj(vec![("mimeType", text(mime)), ("url", text(url)), ("bitrate", num(rate))]);
    let reply = obj(vec![(
        "streamingData",
        obj(vec![(
            "adaptiveFormats",
            Json::Array(vec![
                format("audio/webm", "u1", 128),
                format("video/mp4", "v", 999),
                format("audio/mp4", "u2", 160),
                format("audio/webm", "u3", 160),
            ]),
        )]),
    )]);
    let src = best_audio_source(&reply).unwrap();
    assert_eq!(src.url, "u3");
    assert_eq!(src.mime_type.as_deref(), Some("audio/webm"));
    assert!(best_audio_source(&obj(vec![])).is_err());
    let provider = YouTubeMusicProvider::new();
    let fallback = provider.resolve_stream(None, Some("WARNING x\nhttps://cdn/a  \n")).unwrap();
    assert_eq!(fallback.url, "https://cdn/a");
    assert!(ytdlp_stream("nothing").is_err());
    assert!(provider.resolve_stream(None, None).is_err());
    // The public player's best format wins over what yt-dlp printed.
    let preferred = provider.resolve_stream(Some(&reply), Some("https://cdn/a\n")).unwrap();
    assert_eq!(preferred.url, "u3");
    assert_eq!(preferred.mime_type.as_deref(), Some("audio/webm"));
    // A reply without an audio format falls back to yt-dlp.
    let video_only = obj(vec![(
        "streamingData",
        obj(vec![("adaptiveFormats", Json::Array(vec![format("video/mp4", "v", 999)]))]),
    )]);
    let fallback = provider.resolve_stream(Some(&video_only), Some("https://cdn/b")).unwrap();
    assert_eq!(fallback.url, "https://cdn/b");
    assert_eq!(fallback.mime_type.as_deref(), Some("audio/mp4"));
    assert!(provider.resolve_stream(Some(&video_only), Some("no url here")).is_err());
}

#[test]
fn search_results_drop_repeated_ids_and_respect_the_limit() {
    let payload = obj(vec![(
        "list",
        Json::Array(vec![
            obj(vec![("musicResponsiveListItemRenderer", song_row())]),
            obj(vec![("musicResponsiveListItemRenderer", song_row())]),
        ]),
    )]);
    let results = search_results_from(&payload, 5).unwrap();
    assert_eq!(results.tracks.len(), 1);
    assert!(search_results_from(&obj(vec![]), 5).is_err());
    let entries = vec![
        obj(vec![("id", text("a")), ("title", text("A"))]),
        obj(vec![("id", text("a")), ("title", text("A again"))]),
        obj(vec![("id", text("b")), ("title", text("B"))]),
    ];
    let ytdlp = ytdlp_results(&entries, 5).unwrap();
    assert_eq!(ytdlp.tracks.len(), 2);
    assert_eq!(ytdlp_results(&entries, 1).unwrap().tracks.len(), 1);
    assert!(ytdlp_results(&Vec::new(), 5).is_err());
}

#[test]
fn durations_past_the_range_of_u64_are_recognised() {
    assert!(duration_is_readable("3:45"));
    assert!(duration_is_readable("1:02:03"));
    assert!(duration_is_readable("not a time"));
    // A field too large to be a number is not read at all.
    assert!(duration_is_readable("99999999999999999999:00"));
    // Seconds reach u64::MAX exactly; their milliseconds do not fit.
    assert!(!duration_is_readable("307445734561825860:15"));
    assert!(!duration_is_readable("999999999999999999:00:00"));
    let empty = obj(vec![]);
    assert!(search_response_is_readable(&empty));
    let good = obj(vec![("musicResponsiveListItemRenderer", song_row())]);
    assert!(search_response_is_readable(&good));
    let long_row = match song_row() {
        Json::Object(entries) => Json::Object(
            entries
                .into_iter()
                .map(|(k, v)| {
                    if k == "flexColumns" {
                        (k, Json::Array(vec![flex("Song"), flex("Band • Album • 307445734561825860:15")]))
                    } else {
                        (k, v)
                    }
                })
                .collect(),
        ),
        other => other,
    };
    let bad = obj(vec![("musicResponsiveListItemRenderer", long_row)]);
    assert!(!search_response_is_readable(&bad));
    // The same duration in a row without a video id is never read.
    let no_id = obj(vec![(
        "musicResponsiveListItemRenderer",
        obj(vec![("flexColumns", Json::Array(vec![flex("Song"), flex("Band • Album • 307445734561825860:15")]))]),
    )]);
    assert!(search_response_is_readable(&no_id));
}
