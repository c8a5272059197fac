# sonora

The core of a desktop music player, written in Verus. The functions in `src/` carry contracts
that the verifier proves, with one kind of exception: a dozen small wrappers marked
`#[verifier::external_body]` call the standard library or an outside crate (SHA-256, base64,
URL encoding, random bytes, pinyin, Unicode case and character classes, the clock), and their
contracts are believed, not proved.

- `src/lyrics.rs` — LRC parsing, even layout of plain lyrics, and what the lyrics cache and the
  lookup services' answers turn into.
- `src/romanize.rs` — script detection and transliteration (kana, Hangul, pinyin, Cyrillic,
  Greek).
- `src/spotify.rs`, `src/connect.rs`, `src/native.rs` — PKCE authorization pieces, token steps,
  Web API payload reading, paging, Connect polling verdicts, track id normalization and base62,
  and the in-process player's event bookkeeping.
- `src/ytmusic.rs` — InnerTube payload reading and the choice of which upload stands for a
  catalogue track.
- `src/engine.rs`, `src/stream.rs` — the playback transport's state and timeline, and ranged
  HTTP stream bookkeeping.
- `src/library.rs`, `src/db.rs` — which files are scanned, how tag text is cleaned, artwork
  names, settings, and the user-dependent parts of library queries.
- `src/text.rs`, `src/json.rs` — character-sequence helpers and the JSON value the payload
  readers work on.

`app/` is ordinary Rust around the library: settings and token files, the SQLite index, folder
scans with tag reading, HTTP requests, yt-dlp, and the floating-point loudness stage.
