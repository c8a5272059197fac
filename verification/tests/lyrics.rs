use sonora::lyrics::{
    embedded_is_readable, lay_out_plain_lyrics, lrc_is_readable, lyrics_from_cache,
    lyrics_from_embedded, lyrics_from_lrclib, lyrics_from_netease, no_lyrics, parse_lrc,
    plain_is_readable, tags_are_readable, LyricLine, LyricsProvider, carries_timestamps,
    lrclib_query, netease_song_id, blank_str, next_lyrics_source, LyricsNext, LyricsSource,
    SourceOutcome,
};
use sonora::json::{Json, JsonNumber};

fn jtext(value: &str) -> Json {
    Json::Str(value.to_string())
}

fn jnum(value: u64) -> Json {
    Json::Number(JsonNumber { as_u64: Some(value), as_i64: Some(value as i64), thousandths: Some(value * 1000) })
}

fn jobj(pairs: Vec<(&str, Json)>) -> Json {
    Json::Object(pairs.into_iter().map(|(k, v)| (k.to_string(), v)).collect())
}

fn song(id: u64, name: &str, artists: &[&str]) -> Json {
    jobj(vec![
        ("id", jnum(id)),
        ("name", jtext(name)),
        ("ar", Json::Array(artists.iter().map(|a| jobj(vec![("name", jtext(a))])).collect())),
    ])
}

fn search(songs: Vec<Json>) -> Json {
    jobj(vec![("result", jobj(vec![("songs", Json::Array(songs))]))])
}

#[test]
fn parses_two_and_three_digit_fractions() {
    let parsed = parse_lrc("t", "[00:12.34]First\n[00:15.678]Second", LyricsProvider::Lrclib);
    assert_eq!(parsed.lines.len(), 2);
    assert_eq!(parsed.lines[0].time_ms, 12_340);
    assert_eq!(parsed.lines[1].time_ms, 15_678);
    assert_eq!(parsed.lines[1].text, "Second");
}

#[test]
fn expands_lines_carrying_several_timestamps() {
    let parsed = parse_lrc("t", "[00:10.00][00:40.00]Chorus", LyricsProvider::Lrclib);
    assert_eq!(parsed.lines.len(), 2);
    assert_eq!(parsed.lines[0].time_ms, 10_000);
    assert_eq!(parsed.lines[1].time_ms, 40_000);
    assert!(parsed.lines.iter().all(|l| l.text == "Chorus"));
}

#[test]
fn romanizes_non_latin_lines_and_flags_them() {
    let parsed = parse_lrc(
        "t",
        "[00:01.00]夜に駆ける\n[00:05.00]Just English",
        LyricsProvider::Lrclib,
    );
    assert!(parsed.has_romanization);
    assert!(parsed.lines[0].romanized_text.is_some());
    assert_eq!(parsed.lines[1].romanized_text, None, "Latin needs no conversion");
}

#[test]
fn metadata_tags_are_not_treated_as_lyric_lines() {
    let parsed = parse_lrc(
        "t",
        "[ar:YOASOBI]\n[ti:Yoru ni Kakeru]\n[00:01.00]Real line",
        LyricsProvider::Lrclib,
    );
    assert_eq!(parsed.lines.len(), 1);
    assert_eq!(parsed.lines[0].text, "Real line");
}

#[test]
fn plain_lyrics_are_spread_across_the_track() {
    let parsed = lay_out_plain_lyrics("t", "one\ntwo\nthree", 30_000, LyricsProvider::Netease);
    assert_eq!(parsed.lines.len(), 3);
    assert_eq!(parsed.lines[0].time_ms, 0);
    assert_eq!(parsed.lines[1].time_ms, 10_000);
    assert_eq!(parsed.lines[2].time_ms, 20_000);
}

#[test]
fn empty_input_yields_no_lines() {
    assert!(parse_lrc("t", "", LyricsProvider::Lrclib).lines.is_empty());
    assert!(lay_out_plain_lyrics("t", "   \n\n", 1000, LyricsProvider::Netease)
        .lines
        .is_empty());
}

#[test]
fn parsed_lines_come_out_sorted_with_one_entry_per_time() {
    let parsed = parse_lrc(
        "track-7",
        "[00:30.00]Later\n[00:10.00]Early\n[00:10.00]Duplicate time\n[00:20.5]Middle",
        LyricsProvider::Netease,
    );
    let times: Vec<u64> = parsed.lines.iter().map(|l| l.time_ms).collect();
    assert_eq!(times, vec![10_000, 20_500, 30_000]);
    assert_eq!(parsed.lines[0].text, "Early");
    assert_eq!(parsed.track_id, "track-7");
    assert_eq!(parsed.provider, LyricsProvider::Netease);
    assert!(!parsed.has_romanization);
}

#[test]
fn timestamp_edge_cases() {
    // One fraction digit is tenths; a colon may separate the fraction; minutes up to 999.
    let parsed = parse_lrc("t", "[01:02.3]A\n[02:03:04]B\n[999:59.999]C", LyricsProvider::Lrclib);
    let times: Vec<u64> = parsed.lines.iter().map(|l| l.time_ms).collect();
    assert_eq!(times, vec![62_300, 123_040, 59_999_999]);
    // Seconds of 60 and more, one-digit seconds and four-digit minutes are not timestamps.
    let rejected = parse_lrc("t", "[00:60.00]A\n[00:5.00]B\n[1000:00.00]C", LyricsProvider::Lrclib);
    assert!(rejected.lines.is_empty());
}

#[test]
fn lines_without_text_or_stamps_are_skipped_and_text_is_trimmed() {
    let parsed = parse_lrc("t", "  [00:01.00]   padded   \r\n[00:02.00]\nno stamp", LyricsProvider::Lrclib);
    assert_eq!(parsed.lines.len(), 1);
    assert_eq!(parsed.lines[0].text, "padded");
}

#[test]
fn plain_lyrics_with_unknown_length_use_one_millisecond() {
    let parsed = lay_out_plain_lyrics("t", " a \n\n b ", 0, LyricsProvider::Lrclib);
    assert_eq!(parsed.lines.len(), 2);
    assert_eq!(parsed.lines[0].text, "a");
    assert_eq!(parsed.lines[1].text, "b");
    assert_eq!(parsed.lines[1].time_ms, 0);
    assert_eq!(parsed.provider, LyricsProvider::Lrclib);
    let empty = lay_out_plain_lyrics("t", "", 5000, LyricsProvider::Lrclib);
    assert_eq!(empty.provider, LyricsProvider::NotFound);
}

#[test]
fn plain_cyrillic_lines_are_romanized() {
    let parsed = lay_out_plain_lyrics("t", "Привет", 4000, LyricsProvider::Lrclib);
    assert!(parsed.has_romanization);
    assert_eq!(parsed.lines[0].romanized_text.as_deref(), Some("Privet"));
}

#[test]
fn provider_names_round_trip_through_the_cache() {
    for p in [
        LyricsProvider::Embedded,
        LyricsProvider::Lrclib,
        LyricsProvider::Netease,
        LyricsProvider::NotFound,
    ] {
        assert_eq!(LyricsProvider::from_cache_name(p.cache_name()), p);
    }
    assert_eq!(LyricsProvider::NotFound.cache_name(), "none");
    assert_eq!(LyricsProvider::from_cache_name("something else"), LyricsProvider::Lrclib);
}

#[test]
fn embedded_lyrics_choose_lrc_or_plain_layout() {
    assert!(lyrics_from_embedded("t", "   ", 1000).is_none());
    let lrc = lyrics_from_embedded("t", "[00:01.00]Hi", 1000).unwrap();
    assert_eq!(lrc.provider, LyricsProvider::Embedded);
    assert_eq!(lrc.lines[0].time_ms, 1000);
    let plain = lyrics_from_embedded("t", "la\nla", 4000).unwrap();
    assert_eq!(plain.lines[1].time_ms, 2000);
    // Only metadata tags: LRC with no entries counts as nothing.
    assert!(lyrics_from_embedded("t", "[ar:x]\n[00:01.00]", 1000).is_none());
}

#[test]
fn lrclib_answers_prefer_synced_lyrics() {
    let (raw, parsed) = lyrics_from_lrclib("t", Some("[00:02.00]Sync"), Some("plain"), 1000).unwrap();
    assert_eq!(raw, "[00:02.00]Sync");
    assert_eq!(parsed.lines[0].text, "Sync");
    let (raw, parsed) = lyrics_from_lrclib("t", Some("  "), Some("p1\np2"), 1000).unwrap();
    assert_eq!(raw, "p1\np2");
    assert_eq!(parsed.lines.len(), 2);
    assert!(lyrics_from_lrclib("t", None, Some(" "), 1000).is_none());
    assert!(lyrics_from_netease("t", Some("[00:01.00]x")).is_some());
    assert!(lyrics_from_netease("t", Some("no stamps")).is_none());
}

#[test]
fn cached_lines_keep_their_romanization_flag() {
    let lines = vec![LyricLine {
        time_ms: 5,
        text: "x".to_string(),
        romanized_text: Some("y".to_string()),
    }];
    let cached = lyrics_from_cache("t", "", Some(lines), "netease");
    assert!(cached.has_romanization);
    assert_eq!(cached.provider, LyricsProvider::Netease);
    let reparsed = lyrics_from_cache("t", "[00:03.00]again", None, "embedded");
    assert_eq!(reparsed.lines[0].time_ms, 3000);
    assert_eq!(reparsed.provider, LyricsProvider::Embedded);
    let none = no_lyrics("t");
    assert!(none.lines.is_empty());
    assert_eq!(none.provider, LyricsProvider::NotFound);
}

#[test]
fn texts_the_readers_cannot_take_are_recognised() {
    // A three-byte cut of the fraction `12é` would split the `é`.
    assert!(!lrc_is_readable("[00:12.12\u{e9}]text"));
    assert!(!tags_are_readable("[00:12.12\u{e9}]text"));
    // Two digits and a two-byte character make exactly three bytes: nothing is split.
    assert!(lrc_is_readable("[00:12.1\u{e9}]text"));
    assert!(lrc_is_readable("[00:12.34]First\n[00:15.678]Second"));
    assert!(lrc_is_readable(""));
    // An unassigned syllable at the end of the Hangul block has no transliteration.
    assert!(!lrc_is_readable("[00:01.00]\u{c548}\u{b155}\u{d7a4}"));
    assert!(!plain_is_readable("\u{c548}\u{b155}\u{d7a4}"));
    assert!(plain_is_readable("\u{c548}\u{b155}\nhello"));
    assert!(embedded_is_readable("[00:01.00]x\n[00:02.00]y"));
    assert!(embedded_is_readable("just words\nmore words"));
    assert!(!embedded_is_readable("[00:01.00]x\n[00:02.12\u{e9}]y"));
    assert!(!embedded_is_readable("\u{c548}\u{b155}\u{d7a4}"));
}

#[test]
fn netease_picks_the_song_with_the_title_and_artist() {
    let found = search(vec![
        song(1, "Another Song", &["YOASOBI"]),
        song(2, "  Yoru ni Kakeru ", &["Someone", "YOASOBI feat. X"]),
        song(3, "Yoru ni Kakeru", &["YOASOBI"]),
    ]);
    // Titles compare trimmed and lowercased; an artist name only has to contain the artist.
    assert_eq!(netease_song_id(&found, "YORU NI KAKERU", " yoasobi "), Some(2));
    // Without a match the first song is taken.
    assert_eq!(netease_song_id(&found, "Unknown", "Nobody"), Some(1));
    assert_eq!(netease_song_id(&search(vec![]), "a", "b"), None);
    assert_eq!(netease_song_id(&jobj(vec![]), "a", "b"), None);
    let no_id = search(vec![jobj(vec![("name", jtext("a"))])]);
    assert_eq!(netease_song_id(&no_id, "a", "b"), None);
}

#[test]
fn lrclib_is_asked_with_and_without_the_length() {
    let q = lrclib_query("Song", "Band", Some("Album"), 215_999, true);
    let pairs: Vec<(&str, &str)> = q.iter().map(|(k, v)| (k.as_str(), v.as_str())).collect();
    assert_eq!(
        pairs,
        vec![("track_name", "Song"), ("artist_name", "Band"), ("album_name", "Album"), ("duration", "215")]
    );
    let q = lrclib_query("Song", "Band", None, 215_999, false);
    assert_eq!(q.len(), 2);
}

#[test]
fn timestamped_texts_and_blank_texts_are_recognised() {
    assert!(carries_timestamps("intro\n[00:01.00]x"));
    assert!(!carries_timestamps("[ar:Someone]\nwords"));
    assert!(blank_str(" \t\n"));
    assert!(!blank_str(" a "));
}

#[test]
fn cached_lyrics_come_back_as_they_were() {
    let laid = lay_out_plain_lyrics("t", "Hello\n\u{c548}\u{b155}", 10_000, LyricsProvider::Embedded);
    let read = lyrics_from_cache("t", "", Some(laid.lines.clone()), laid.provider.cache_name());
    assert_eq!(read.provider, laid.provider);
    assert_eq!(read.has_romanization, laid.has_romanization);
    assert!(read.has_romanization);
    assert_eq!(read.lines.len(), laid.lines.len());
    for (a, b) in read.lines.iter().zip(laid.lines.iter()) {
        assert_eq!(a.time_ms, b.time_ms);
        assert_eq!(a.text, b.text);
        assert_eq!(a.romanized_text, b.romanized_text);
    }
    // LRC lyrics flag a transliteration seen in the text even when its line lost to an earlier
    // one at the same time; the cached lines alone no longer carry it.
    let parsed = parse_lrc("t", "[00:01.00]Hello\n[00:01.00]\u{c548}\u{b155}", LyricsProvider::Lrclib);
    assert!(parsed.has_romanization);
    let read = lyrics_from_cache("t", "", Some(parsed.lines.clone()), parsed.provider.cache_name());
    assert!(!read.has_romanization);
}

#[test]
fn sources_are_tried_in_order_until_one_finds_lyrics() {
    assert_eq!(next_lyrics_source(None, SourceOutcome::Nothing), LyricsNext::Ask(LyricsSource::Cache));
    assert_eq!(next_lyrics_source(Some(LyricsSource::Cache), SourceOutcome::Nothing), LyricsNext::Ask(LyricsSource::Embedded));
    assert_eq!(next_lyrics_source(Some(LyricsSource::Cache), SourceOutcome::Found), LyricsNext::Answer);
    assert_eq!(next_lyrics_source(Some(LyricsSource::Embedded), SourceOutcome::Nothing), LyricsNext::Ask(LyricsSource::LrclibWithDuration));
    // LRCLIB is asked again without the length only when the first request got no answer.
    assert_eq!(
        next_lyrics_source(Some(LyricsSource::LrclibWithDuration), SourceOutcome::Unanswered),
        LyricsNext::Ask(LyricsSource::LrclibWithoutDuration)
    );
    assert_eq!(next_lyrics_source(Some(LyricsSource::LrclibWithDuration), SourceOutcome::Nothing), LyricsNext::Ask(LyricsSource::Netease));
    assert_eq!(next_lyrics_source(Some(LyricsSource::LrclibWithoutDuration), SourceOutcome::Unanswered), LyricsNext::Ask(LyricsSource::Netease));
    assert_eq!(next_lyrics_source(Some(LyricsSource::LrclibWithDuration), SourceOutcome::ClientFailed), LyricsNext::Fail);
    assert_eq!(next_lyrics_source(Some(LyricsSource::Netease), SourceOutcome::Unanswered), LyricsNext::NotFound);
    assert_eq!(next_lyrics_source(Some(LyricsSource::Netease), SourceOutcome::Found), LyricsNext::Answer);
}
