//! YouTube Music: InnerTube payload parsing, the public web-player bootstrap values, and the
//! matching rules that decide which upload stands for a catalogue track.
use vstd::prelude::*;
use crate::text::{trim, trimmed, parse_u64_spec, parse_u64, chars_of, string_of, split_on, split_char, push_str, find_from, find_seq, first_index, lemma_first_index_bounds, find_char, slice_vec, lemma_find_from_bounds, before_first, split_ws, split_whitespace, extend_all};
use crate::romanize::{concat_map, lemma_concat_map_push};
use crate::providers::{ProviderKind, ProviderTrack, ProviderPlaylist, SearchResults, TrackAudioSource};
use crate::json::{Json, str_field, get_spec, str_at, str_at_path, path_spec, array_spec, u64_spec, collected, renderers, deref_all};
use crate::text::{split_str, split_string, replace_all, replace_seq};

verus! {

// ---------------------------------------------------------------------------------------------
// Endpoints and bootstrap values
// ---------------------------------------------------------------------------------------------

/// The InnerTube URL of an API path, keyed with the published API key.
pub open spec fn endpoint_spec(path: Seq<char>, api_key: Seq<char>) -> Seq<char> {
    "https://music.youtube.com/youtubei/v1/"@ + path + "?key="@ + api_key + "&prettyPrint=false"@
}

/// The InnerTube URL of an API path.
pub fn endpoint(path: &str, api_key: &str) -> (r: String)
    ensures
        r@ == endpoint_spec(path@, api_key@),
{
    let mut out: Vec<char> = Vec::new();
    push_str(&mut out, "https://music.youtube.com/youtubei/v1/");
    push_str(&mut out, path);
    push_str(&mut out, "?key=");
    push_str(&mut out, api_key);
    push_str(&mut out, "&prettyPrint=false");
    string_of(&out)
}

/// The value after `marker` in the page, up to the next double quote (or, when there is none,
/// the next single quote).
pub open spec fn value_after(page: Seq<char>, marker: Seq<char>) -> Option<Seq<char>> {
    match find_from(page, marker, 0) {
        None => None,
        Some(i) => {
            let rest = page.skip((i + marker.len()) as int);
            let dq = first_index(rest, '"');
            let end = if dq < rest.len() {
                dq
            } else {
                first_index(rest, '\'')
            };
            if end < rest.len() {
                Some(rest.take(end))
            } else {
                None
            }
        },
    }
}

/// The two ways the web player writes a configuration value: `"KEY":"value"` and `'KEY':'value'`.
pub open spec fn bootstrap_spec(page: Seq<char>, key: Seq<char>) -> Option<Seq<char>> {
    match value_after(page, seq!['"'] + key + "\":\""@) {
        Some(v) => Some(v),
        None => value_after(page, seq!['\''] + key + "':'"@),
    }
}

fn value_after_exec(page: &Vec<char>, marker: &Vec<char>) -> (r: Option<Vec<char>>)
    ensures
        match r {
            Some(v) => value_after(page@, marker@) == Some(v@),
            None => value_after(page@, marker@) is None,
        },
{
    match find_seq(page, marker, 0) {
        None => None,
        Some(i) => {
            proof {
                lemma_find_from_bounds(page@, marker@, 0);
            }
            let total = page.len();
            let start = i + marker.len();
            let ghost rest = page@.skip(start as int);
            assert(rest =~= page@.subrange(start as int, page@.len() as int));
            let dq = find_char(page, start, page.len(), '"');
            let end = if dq < page.len() {
                dq
            } else {
                find_char(page, start, page.len(), '\'')
            };
            if end < page.len() {
                proof {
                    lemma_first_index_bounds(rest, '"');
                }
                let v = slice_vec(page, start, end);
                assert(v@ =~= rest.take(end - start));
                Some(v)
            } else {
                None
            }
        },
    }
}

/// A configuration value the web player publishes in its bootstrap page.
pub fn bootstrap_value(page: &str, key: &str) -> (r: Option<String>)
    ensures
        match r {
            Some(v) => bootstrap_spec(page@, key@) == Some(v@),
            None => bootstrap_spec(page@, key@) is None,
        },
{
    let cs = chars_of(page);
    let mut m1: Vec<char> = vec!['"'];
    push_str(&mut m1, key);
    push_str(&mut m1, "\":\"");
    assert(m1@ =~= seq!['"'] + key@ + "\":\""@);
    match value_after_exec(&cs, &m1) {
        Some(v) => Some(string_of(&v)),
        None => {
            let mut m2: Vec<char> = vec!['\''];
            push_str(&mut m2, key);
            push_str(&mut m2, "':'");
            assert(m2@ =~= seq!['\''] + key@ + "':'"@);
            match value_after_exec(&cs, &m2) {
                Some(v) => Some(string_of(&v)),
                None => None,
            }
        },
    }
}

// ---------------------------------------------------------------------------------------------
// Durations
// ---------------------------------------------------------------------------------------------

/// Reads `m:ss` / `h:mm:ss` fields left to right as base-60 digits from `acc`; nothing when a
/// field is not a number.
pub open spec fn clock_value(parts: Seq<Seq<char>>, acc: int) -> Option<int>
    decreases parts.len(),
{
    if parts.len() == 0 {
        Some(acc)
    } else {
        match parse_u64_spec(trim(parts[0])) {
            None => None,
            Some(v) => clock_value(parts.drop_first(), acc * 60 + v),
        }
    }
}

/// The reading never leaves the range of `u64`, in seconds and then in milliseconds.
pub open spec fn clock_fits(parts: Seq<Seq<char>>, acc: int) -> bool
    decreases parts.len(),
{
    if parts.len() == 0 {
        acc * 1000 <= u64::MAX
    } else {
        match parse_u64_spec(trim(parts[0])) {
            None => true,
            Some(v) => acc * 60 + v <= u64::MAX && clock_fits(parts.drop_first(), acc * 60 + v),
        }
    }
}

/// The fields of a duration text.
pub open spec fn clock_parts(text: Seq<char>) -> Seq<Seq<char>> {
    split_on(trim(text), ':')
}

/// A duration text can be read without overflow.
pub open spec fn duration_readable(text: Seq<char>) -> bool {
    2 <= clock_parts(text).len() <= 3 ==> clock_fits(clock_parts(text), 0)
}

/// Milliseconds a `m:ss` / `h:mm:ss` text stands for; 0 for anything else.
pub open spec fn duration_ms_spec(text: Seq<char>) -> u64 {
    let parts = clock_parts(text);
    if parts.len() < 2 || parts.len() > 3 {
        0
    } else {
        match clock_value(parts, 0) {
            Some(v) => (v * 1000) as u64,
            None => 0,
        }
    }
}

/// Milliseconds of an InnerTube duration run (`m:ss` or `h:mm:ss`); 0 when the text is not one.
pub fn parse_duration(text: &str) -> (r: u64)
    requires
        duration_readable(text@),
    ensures
        r == duration_ms_spec(text@),
{
    let cs = chars_of(text);
    let t = trimmed(&cs);
    let parts = split_char(&t, ':');
    let ghost ps = parts@.map_values(|w: Vec<char>| w@);
    assert(ps == clock_parts(text@));
    if parts.len() < 2 || parts.len() > 3 {
        return 0;
    }
    let mut seconds: u64 = 0;
    let mut i: usize = 0;
    assert(ps.skip(0) =~= ps);
    while i < parts.len()
        invariant
            i <= parts@.len(),
            ps == parts@.map_values(|w: Vec<char>| w@),
            ps == clock_parts(text@),
            2 <= ps.len() <= 3,
            clock_value(ps, 0) == clock_value(ps.skip(i as int), seconds as int),
            clock_fits(ps, 0) ==> clock_fits(ps.skip(i as int), seconds as int),
            clock_fits(ps, 0),
        decreases parts@.len() - i,
    {
        assert(ps.skip(i as int).drop_first() =~= ps.skip(i + 1));
        assert(ps.skip(i as int)[0] == parts@[i as int]@);
        let part = trimmed(&parts[i]);
        let value = match parse_u64(&part, 0, part.len()) {
            Some(v) => v,
            None => {
                assert(part@.subrange(0, part@.len() as int) =~= part@);
                assert(ps.skip(i as int).len() > 0);
                assert(clock_value(ps.skip(i as int), seconds as int) is None);
                return 0;
            },
        };
        assert(part@.subrange(0, part@.len() as int) =~= part@);
        seconds = seconds * 60 + value;
        i = i + 1;
    }
    assert(ps.skip(parts@.len() as int) =~= Seq::<Seq<char>>::empty());
    seconds * 1000
}

/// Whether a duration text can be read without leaving the range of `u64` (see
/// [`parse_duration`]).
pub fn duration_is_readable(text: &str) -> (r: bool)
    ensures
        r == duration_readable(text@),
{
    let cs = chars_of(text);
    let t = trimmed(&cs);
    let parts = split_char(&t, ':');
    let ghost ps = parts@.map_values(|w: Vec<char>| w@);
    assert(ps == clock_parts(text@));
    if parts.len() < 2 || parts.len() > 3 {
        return true;
    }
    let mut seconds: u64 = 0;
    let mut i: usize = 0;
    assert(ps.skip(0) =~= ps);
    while i < parts.len()
        invariant
            i <= parts@.len(),
            ps == parts@.map_values(|w: Vec<char>| w@),
            ps == clock_parts(text@),
            2 <= ps.len() <= 3,
            clock_fits(ps, 0) == clock_fits(ps.skip(i as int), seconds as int),
        decreases parts@.len() - i,
    {
        assert(ps.skip(i as int).drop_first() =~= ps.skip(i + 1));
        assert(ps.skip(i as int)[0] == parts@[i as int]@);
        let part = trimmed(&parts[i]);
        assert(part@.subrange(0, part@.len() as int) =~= part@);
        let value = match parse_u64(&part, 0, part.len()) {
            Some(v) => v,
            None => {
                return true;
            },
        };
        let m = match seconds.checked_mul(60) {
            Some(m) => m,
            None => {
                return false;
            },
        };
        let n = match m.checked_add(value) {
            Some(n) => n,
            None => {
                return false;
            },
        };
        seconds = n;
        i = i + 1;
    }
    assert(ps.skip(parts@.len() as int) =~= Seq::<Seq<char>>::empty());
    seconds.checked_mul(1000).is_some()
}

// ---------------------------------------------------------------------------------------------
// Words
// ---------------------------------------------------------------------------------------------

/// Whether `char::is_alphanumeric` holds of a character.
pub uninterp spec fn alphanumeric(c: char) -> bool;

/// The characters `char::to_lowercase` yields for a character.
pub uninterp spec fn lowercase_of(c: char) -> Seq<char>;

/// `char::is_alphanumeric`. What it returns comes from the standard library's Unicode tables and
/// is only named here, not stated.
#[verifier::external_body]
fn is_alphanumeric(c: char) -> (r: bool)
    ensures
        r == alphanumeric(c),
{
    c.is_alphanumeric()
}

/// `char::to_lowercase`, collected. What it yields comes from the standard library's Unicode
/// tables and is only named here, not stated.
#[verifier::external_body]
fn to_lowercase(c: char) -> (r: Vec<char>)
    ensures
        r@ == lowercase_of(c),
{
    c.to_lowercase().collect()
}

/// What one character becomes in a padded word text: its lowercase when it is alphanumeric, a
/// space when it is whitespace, nothing when it is punctuation.
pub open spec fn word_piece(c: char) -> Seq<char> {
    if alphanumeric(c) {
        lowercase_of(c)
    } else if crate::text::is_ws(c) {
        seq![' ']
    } else {
        seq![]
    }
}

/// The text lowercased, without punctuation, with a space at both ends.
pub open spec fn padded_spec(text: Seq<char>) -> Seq<char> {
    seq![' '] + concat_map(text, |c: char| word_piece(c)) + seq![' ']
}

/// The words of a text, lowercased, without punctuation.
pub open spec fn words_spec(text: Seq<char>) -> Seq<Seq<char>> {
    split_ws(padded_spec(text))
}

fn padded_chars(text: &Vec<char>) -> (r: Vec<char>)
    ensures
        r@ == padded_spec(text@),
{
    let ghost f = |c: char| word_piece(c);
    let mut out: Vec<char> = vec![' '];
    let mut i: usize = 0;
    while i < text.len()
        invariant
            i <= text@.len(),
            f == (|c: char| word_piece(c)),
            out@ == seq![' '] + concat_map(text@.take(i as int), f),
        decreases text@.len() - i,
    {
        let c = text[i];
        proof {
            assert(text@.take(i + 1) =~= text@.take(i as int).push(c));
            lemma_concat_map_push(text@.take(i as int), c, f);
        }
        if is_alphanumeric(c) {
            let low = to_lowercase(c);
            extend_all(&mut out, &low);
        } else if crate::text::is_whitespace(c) {
            out.push(' ');
        }
        assert(out@ =~= seq![' '] + concat_map(text@.take(i + 1), f));
        i = i + 1;
    }
    assert(text@.take(text@.len() as int) =~= text@);
    out.push(' ');
    out
}

/// Lowercases, drops punctuation, and pads both ends so a marker can be matched as a whole word:
/// `"Blinding Lights (Live)"` becomes `" blinding lights live "`.
pub fn padded_words(text: &str) -> (r: String)
    ensures
        r@ == padded_spec(text@),
{
    string_of(&padded_chars(&chars_of(text)))
}

fn word_list(text: &Vec<char>) -> (r: Vec<Vec<char>>)
    ensures
        r@.map_values(|w: Vec<char>| w@) == words_spec(text@),
{
    split_whitespace(&padded_chars(text))
}

/// The words of a text: lowercased, punctuation dropped.
pub fn words(text: &str) -> (r: Vec<String>)
    ensures
        r@.map_values(|w: String| w@) == words_spec(text@),
{
    let ws = word_list(&chars_of(text));
    let mut out: Vec<String> = Vec::new();
    let mut i: usize = 0;
    while i < ws.len()
        invariant
            i <= ws@.len(),
            out@.map_values(|w: String| w@) == ws@.map_values(|w: Vec<char>| w@).take(i as int),
        decreases ws@.len() - i,
    {
        let ghost before = out@.map_values(|w: String| w@);
        let item = string_of(&ws[i]);
        out.push(item);
        assert(out@.map_values(|w: String| w@) =~= before.push(ws@[i as int]@));
        assert(ws@.map_values(|w: Vec<char>| w@).take(i + 1) =~= ws@.map_values(|w: Vec<char>| w@).take(
            i as int,
        ).push(ws@[i as int]@));
        i = i + 1;
    }
    assert(ws@.map_values(|w: Vec<char>| w@).take(ws@.len() as int) =~= ws@.map_values(
        |w: Vec<char>| w@,
    ));
    out
}

/// Words that say nothing about which song a title names.
pub open spec fn is_noise(w: Seq<char>) -> bool {
    ||| w == "feat"@
    ||| w == "ft"@
    ||| w == "with"@
    ||| w == "the"@
    ||| w == "a"@
    ||| w == "remastered"@
    ||| w == "remaster"@
    ||| w == "version"@
    ||| w == "official"@
    ||| w == "audio"@
    ||| w == "video"@
    ||| w == "lyrics"@
    ||| w == "lyric"@
    ||| w == "hd"@
    ||| w == "hq"@
    ||| w == "mv"@
    ||| w == "music"@
    ||| w == "and"@
}

/// Words that mark an upload as another rendition of the song.
pub open spec fn is_variant(w: Seq<char>) -> bool {
    ||| w == "live"@
    ||| w == "cover"@
    ||| w == "remix"@
    ||| w == "acoustic"@
    ||| w == "instrumental"@
    ||| w == "karaoke"@
    ||| w == "sped"@
    ||| w == "slowed"@
    ||| w == "nightcore"@
    ||| w == "reaction"@
    ||| w == "mashup"@
    ||| w == "parody"@
    ||| w == "tribute"@
    ||| w == "8d"@
    ||| w == "unplugged"@
    ||| w == "extended"@
    ||| w == "perform"@
    ||| w == "performs"@
    ||| w == "performance"@
    ||| w == "concert"@
    ||| w == "tour"@
    ||| w == "session"@
    ||| w == "rehearsal"@
    ||| w == "528hz"@
    ||| w == "432hz"@
    ||| w == "medley"@
    ||| w == "take"@
}

fn word_is(w: &Vec<char>, lit: &str) -> (r: bool)
    ensures
        r == (w@ == lit@),
{
    crate::text::chars_eq(w, &chars_of(lit))
}

fn is_noise_word(w: &Vec<char>) -> (r: bool)
    ensures
        r == is_noise(w@),
{
    word_is(w, "feat")
    || word_is(w, "ft")
    || word_is(w, "with")
    || word_is(w, "the")
    || word_is(w, "a")
    || word_is(w, "remastered")
    || word_is(w, "remaster")
    || word_is(w, "version")
    || word_is(w, "official")
    || word_is(w, "audio")
    || word_is(w, "video")
    || word_is(w, "lyrics")
    || word_is(w, "lyric")
    || word_is(w, "hd")
    || word_is(w, "hq")
    || word_is(w, "mv")
    || word_is(w, "music")
    || word_is(w, "and")
}

fn is_variant_word(w: &Vec<char>) -> (r: bool)
    ensures
        r == is_variant(w@),
{
    word_is(w, "live")
    || word_is(w, "cover")
    || word_is(w, "remix")
    || word_is(w, "acoustic")
    || word_is(w, "instrumental")
    || word_is(w, "karaoke")
    || word_is(w, "sped")
    || word_is(w, "slowed")
    || word_is(w, "nightcore")
    || word_is(w, "reaction")
    || word_is(w, "mashup")
    || word_is(w, "parody")
    || word_is(w, "tribute")
    || word_is(w, "8d")
    || word_is(w, "unplugged")
    || word_is(w, "extended")
    || word_is(w, "perform")
    || word_is(w, "performs")
    || word_is(w, "performance")
    || word_is(w, "concert")
    || word_is(w, "tour")
    || word_is(w, "session")
    || word_is(w, "rehearsal")
    || word_is(w, "528hz")
    || word_is(w, "432hz")
    || word_is(w, "medley")
    || word_is(w, "take")
}

// ---------------------------------------------------------------------------------------------
// Titles
// ---------------------------------------------------------------------------------------------

/// The characters outside round and square brackets, reading from nesting depth `depth`; a
/// closing bracket at depth 0 is dropped and stays at depth 0.
pub open spec fn unbracketed(s: Seq<char>, depth: nat) -> Seq<char>
    decreases s.len(),
{
    if s.len() == 0 {
        seq![]
    } else {
        let c = s[0];
        let rest = s.drop_first();
        if c == '(' || c == '[' {
            unbracketed(rest, depth + 1)
        } else if c == ')' || c == ']' {
            unbracketed(rest, if depth == 0 {
                0
            } else {
                (depth - 1) as nat
            })
        } else if depth == 0 {
            seq![c] + unbracketed(rest, 0)
        } else {
            unbracketed(rest, depth)
        }
    }
}

/// A title without its catalogue suffix (after the first ` - `) and without bracketed credits.
pub open spec fn core_title_spec(title: Seq<char>) -> Seq<char> {
    unbracketed(before_first(title, " - "@), 0)
}

fn core_title_chars(title: &Vec<char>) -> (r: Vec<char>)
    ensures
        r@ == core_title_spec(title@),
{
    let sep = chars_of(" - ");
    let head_end = match find_seq(title, &sep, 0) {
        Some(k) => {
            proof {
                lemma_find_from_bounds(title@, sep@, 0);
            }
            k
        },
        None => title.len(),
    };
    let head = slice_vec(title, 0, head_end);
    assert(head@ =~= before_first(title@, " - "@));
    let mut out: Vec<char> = Vec::new();
    let mut depth: usize = 0;
    let mut i: usize = 0;
    assert(head@.skip(0) =~= head@);
    while i < head.len()
        invariant
            i <= head@.len(),
            depth <= i,
            out@ + unbracketed(head@.skip(i as int), depth as nat) == unbracketed(head@, 0),
        decreases head@.len() - i,
    {
        let ghost rest = head@.skip(i as int);
        assert(rest.drop_first() =~= head@.skip(i + 1));
        assert(rest[0] == head@[i as int]);
        let c = head[i];
        if c == '(' || c == '[' {
            depth = depth + 1;
        } else if c == ')' || c == ']' {
            depth = if depth == 0 {
                0
            } else {
                depth - 1
            };
        } else if depth == 0 {
            let ghost before = out@;
            out.push(c);
            assert(out@ + unbracketed(head@.skip(i + 1), 0) =~= before + (seq![c] + unbracketed(
                head@.skip(i + 1),
                0,
            )));
        }
        i = i + 1;
    }
    assert(head@.skip(head@.len() as int) =~= Seq::<char>::empty());
    assert(out@ + Seq::<char>::empty() =~= out@);
    out
}

/// The reference title without catalogue suffixes (`Song - Remastered 2011`) or bracketed credits
/// (`Song (feat. X)`), which uploads format inconsistently.
pub fn core_title(title: &str) -> (r: String)
    ensures
        r@ == core_title_spec(title@),
{
    string_of(&core_title_chars(&chars_of(title)))
}

// ---------------------------------------------------------------------------------------------
// Matching a catalogue track
// ---------------------------------------------------------------------------------------------

/// The catalogue track a stream is being found for.
pub struct TrackReference<'a> {
    pub title: &'a str,
    pub artist: &'a str,
    /// 0 when unknown, which disables the length check.
    pub duration_ms: u64,
}

/// The words that say something about which song a title names.
pub open spec fn meaningful(ws: Seq<Seq<char>>) -> Seq<Seq<char>> {
    ws.filter(|w: Seq<char>| !is_noise(w))
}

/// The rendition markers among some words.
pub open spec fn variants_of(ws: Seq<Seq<char>>) -> Seq<Seq<char>> {
    ws.filter(|w: Seq<char>| is_variant(w))
}

/// Every word of `a` occurs in `b`.
pub open spec fn all_in(a: Seq<Seq<char>>, b: Seq<Seq<char>>) -> bool {
    forall|i: int| 0 <= i < a.len() ==> b.contains(#[trigger] a[i])
}

/// Some word of `a` occurs in `b`.
pub open spec fn any_in(a: Seq<Seq<char>>, b: Seq<Seq<char>>) -> bool {
    exists|i: int| 0 <= i < a.len() && b.contains(#[trigger] a[i])
}

/// The words the candidate must carry to name the reference's song: the meaningful words of its
/// core title, or every word of its title when the core title has none.
pub open spec fn reference_title_words(title: Seq<char>) -> Seq<Seq<char>> {
    let core = meaningful(words_spec(core_title_spec(title)));
    if core.len() == 0 {
        words_spec(title)
    } else {
        core
    }
}

/// The candidate names the reference's song, credits one of its artists, and is the same
/// rendition: it carries exactly the rendition markers the reference title carries.
pub open spec fn names_reference_spec(
    cand_title: Seq<char>,
    cand_artist: Seq<char>,
    ref_title: Seq<char>,
    ref_artist: Seq<char>,
) -> bool {
    let title_words = reference_title_words(ref_title);
    let artist_words = meaningful(words_spec(ref_artist));
    let candidate_words = words_spec(cand_title) + words_spec(cand_artist);
    let reference_variants = variants_of(words_spec(ref_title));
    let candidate_variants = variants_of(words_spec(cand_title));
    &&& all_in(title_words, candidate_words)
    &&& any_in(artist_words, candidate_words)
    &&& all_in(candidate_variants, reference_variants)
    &&& all_in(reference_variants, candidate_variants)
}

fn contains_word(ws: &Vec<Vec<char>>, w: &Vec<char>) -> (r: bool)
    ensures
        r == ws@.map_values(|x: Vec<char>| x@).contains(w@),
{
    let ghost vs = ws@.map_values(|x: Vec<char>| x@);
    let mut i: usize = 0;
    while i < ws.len()
        invariant
            i <= ws@.len(),
            vs == ws@.map_values(|x: Vec<char>| x@),
            forall|j: int| 0 <= j < i ==> vs[j] != w@,
        decreases ws@.len() - i,
    {
        if crate::text::chars_eq(&ws[i], w) {
            assert(vs[i as int] == w@);
            return true;
        }
        i = i + 1;
    }
    false
}

fn all_words_in(a: &Vec<Vec<char>>, b: &Vec<Vec<char>>) -> (r: bool)
    ensures
        r == all_in(a@.map_values(|x: Vec<char>| x@), b@.map_values(|x: Vec<char>| x@)),
{
    let ghost va = a@.map_values(|x: Vec<char>| x@);
    let ghost vb = b@.map_values(|x: Vec<char>| x@);
    let mut i: usize = 0;
    while i < a.len()
        invariant
            i <= a@.len(),
            va == a@.map_values(|x: Vec<char>| x@),
            vb == b@.map_values(|x: Vec<char>| x@),
            forall|j: int| 0 <= j < i ==> vb.contains(#[trigger] va[j]),
        decreases a@.len() - i,
    {
        if !contains_word(b, &a[i]) {
            assert(!vb.contains(va[i as int]));
            return false;
        }
        i = i + 1;
    }
    true
}

fn any_word_in(a: &Vec<Vec<char>>, b: &Vec<Vec<char>>) -> (r: bool)
    ensures
        r == any_in(a@.map_values(|x: Vec<char>| x@), b@.map_values(|x: Vec<char>| x@)),
{
    let ghost va = a@.map_values(|x: Vec<char>| x@);
    let ghost vb = b@.map_values(|x: Vec<char>| x@);
    let mut i: usize = 0;
    while i < a.len()
        invariant
            i <= a@.len(),
            va == a@.map_values(|x: Vec<char>| x@),
            vb == b@.map_values(|x: Vec<char>| x@),
            forall|j: int| 0 <= j < i ==> !vb.contains(#[trigger] va[j]),
        decreases a@.len() - i,
    {
        if contains_word(b, &a[i]) {
            assert(vb.contains(va[i as int]));
            return true;
        }
        i = i + 1;
    }
    false
}

/// Keeps the words that are (`keep_variants`) rendition markers, or else that are not noise.
fn filter_words(ws: &Vec<Vec<char>>, keep_variants: bool) -> (r: Vec<Vec<char>>)
    ensures
        keep_variants ==> r@.map_values(|x: Vec<char>| x@) == variants_of(
            ws@.map_values(|x: Vec<char>| x@),
        ),
        !keep_variants ==> r@.map_values(|x: Vec<char>| x@) == meaningful(
            ws@.map_values(|x: Vec<char>| x@),
        ),
{
    let ghost vs = ws@.map_values(|x: Vec<char>| x@);
    let ghost pred = if keep_variants {
        |w: Seq<char>| is_variant(w)
    } else {
        |w: Seq<char>| !is_noise(w)
    };
    let mut out: Vec<Vec<char>> = Vec::new();
    let mut i: usize = 0;
    proof {
        assert(vs.take(0) =~= Seq::<Seq<char>>::empty());
        reveal(Seq::filter);
        assert(vs.take(0).filter(pred) =~= Seq::<Seq<char>>::empty());
    }
    while i < ws.len()
        invariant
            i <= ws@.len(),
            vs == ws@.map_values(|x: Vec<char>| x@),
            pred == (if keep_variants {
                |w: Seq<char>| is_variant(w)
            } else {
                |w: Seq<char>| !is_noise(w)
            }),
            out@.map_values(|x: Vec<char>| x@) == vs.take(i as int).filter(pred),
        decreases ws@.len() - i,
    {
        let w = &ws[i];
        proof {
            assert(vs.take(i + 1) =~= vs.take(i as int).push(vs[i as int]));
            vs.take(i as int).lemma_filter_push(vs[i as int], pred);
        }
        let keep = if keep_variants {
            is_variant_word(w)
        } else {
            !is_noise_word(w)
        };
        if keep {
            let ghost before = out@.map_values(|x: Vec<char>| x@);
            out.push(slice_vec(w, 0, w.len()));
            assert(w@.subrange(0, w@.len() as int) =~= w@);
            assert(out@.map_values(|x: Vec<char>| x@) =~= before.push(vs[i as int]));
        }
        i = i + 1;
    }
    assert(vs.take(ws@.len() as int) =~= vs);
    out
}

fn clone_words(ws: &Vec<Vec<char>>) -> (r: Vec<Vec<char>>)
    ensures
        r@.map_values(|x: Vec<char>| x@) == ws@.map_values(|x: Vec<char>| x@),
{
    let mut out: Vec<Vec<char>> = Vec::new();
    let mut i: usize = 0;
    while i < ws.len()
        invariant
            i <= ws@.len(),
            out@.map_values(|x: Vec<char>| x@) == ws@.map_values(|x: Vec<char>| x@).take(i as int),
        decreases ws@.len() - i,
    {
        let ghost before = out@.map_values(|x: Vec<char>| x@);
        out.push(slice_vec(&ws[i], 0, ws[i].len()));
        assert(ws@[i as int]@.subrange(0, ws@[i as int]@.len() as int) =~= ws@[i as int]@);
        assert(out@.map_values(|x: Vec<char>| x@) =~= before.push(ws@[i as int]@));
        assert(ws@.map_values(|x: Vec<char>| x@).take(i + 1) =~= ws@.map_values(|x: Vec<char>| x@).take(
            i as int,
        ).push(ws@[i as int]@));
        i = i + 1;
    }
    assert(ws@.map_values(|x: Vec<char>| x@).take(ws@.len() as int) =~= ws@.map_values(
        |x: Vec<char>| x@,
    ));
    out
}

/// True when the candidate names the reference's song, credits one of its artists, and is the
/// same rendition (no live, remix, cover… marker the reference lacks, and every marker it has).
pub fn names_reference(candidate: &ProviderTrack, reference: &TrackReference) -> (r: bool)
    ensures
        r == names_reference_spec(
            candidate.title@,
            candidate.artist@,
            reference.title@,
            reference.artist@,
        ),
{
    let ref_title = chars_of(reference.title);
    let core = core_title_chars(&ref_title);
    let core_words = word_list(&core);
    let mut title_words = filter_words(&core_words, false);
    let ref_words = word_list(&ref_title);
    if title_words.len() == 0 {
        title_words = clone_words(&ref_words);
    }
    let artist_words = filter_words(&word_list(&chars_of(reference.artist)), false);
    let candidate_title = word_list(&chars_of(candidate.title.as_str()));
    let mut candidate_words = clone_words(&candidate_title);
    let artist_part = word_list(&chars_of(candidate.artist.as_str()));
    let ghost ct = candidate_title@.map_values(|x: Vec<char>| x@);
    let ghost ap = artist_part@.map_values(|x: Vec<char>| x@);
    let mut k: usize = 0;
    while k < artist_part.len()
        invariant
            k <= artist_part@.len(),
            ap == artist_part@.map_values(|x: Vec<char>| x@),
            candidate_words@.map_values(|x: Vec<char>| x@) == ct + ap.take(k as int),
        decreases artist_part@.len() - k,
    {
        let ghost before = candidate_words@.map_values(|x: Vec<char>| x@);
        candidate_words.push(slice_vec(&artist_part[k], 0, artist_part[k].len()));
        assert(artist_part@[k as int]@.subrange(0, artist_part@[k as int]@.len() as int)
            =~= artist_part@[k as int]@);
        assert(candidate_words@.map_values(|x: Vec<char>| x@) =~= before.push(ap[k as int]));
        assert(ap.take(k + 1) =~= ap.take(k as int).push(ap[k as int]));
        k = k + 1;
    }
    assert(ap.take(ap.len() as int) =~= ap);
    let reference_variants = filter_words(&ref_words, true);
    let candidate_variants = filter_words(&candidate_title, true);
    all_words_in(&title_words, &candidate_words) && any_word_in(&artist_words, &candidate_words)
        && all_words_in(&candidate_variants, &reference_variants) && all_words_in(
        &reference_variants,
        &candidate_variants,
    )
}

/// How far a candidate may run from the reference length before it counts as a different edit.
pub const DURATION_TOLERANCE_MS: u64 = 10_000;

/// The candidate's length is close enough to the reference's, or one of them is unknown (0).
pub open spec fn within_tolerance_spec(candidate_ms: u64, reference_ms: u64) -> bool {
    reference_ms == 0 || candidate_ms == 0 || (if candidate_ms >= reference_ms {
        candidate_ms - reference_ms
    } else {
        reference_ms - candidate_ms
    }) <= DURATION_TOLERANCE_MS
}

/// Whether the candidate's length is within tolerance of the reference's.
pub fn within_tolerance(candidate: &ProviderTrack, reference: &TrackReference) -> (r: bool)
    ensures
        r == within_tolerance_spec(candidate.duration_ms, reference.duration_ms),
{
    let diff = if candidate.duration_ms >= reference.duration_ms {
        candidate.duration_ms - reference.duration_ms
    } else {
        reference.duration_ms - candidate.duration_ms
    };
    reference.duration_ms == 0 || candidate.duration_ms == 0 || diff <= DURATION_TOLERANCE_MS
}

/// The candidate names the reference and has a length close enough to it.
pub open spec fn exact_match(t: ProviderTrack, title: Seq<char>, artist: Seq<char>, ms: u64) -> bool {
    names_reference_spec(t.title@, t.artist@, title, artist) && within_tolerance_spec(t.duration_ms, ms)
}

/// Position of the first track satisfying `pred`.
pub open spec fn first_where(s: Seq<ProviderTrack>, pred: spec_fn(ProviderTrack) -> bool) -> Option<int>
    decreases s.len(),
{
    if s.len() == 0 {
        None
    } else if pred(s[0]) {
        Some(0)
    } else {
        match first_where(s.drop_first(), pred) {
            Some(i) => Some(i + 1),
            None => None,
        }
    }
}

pub proof fn lemma_first_where(s: Seq<ProviderTrack>, pred: spec_fn(ProviderTrack) -> bool)
    ensures
        match first_where(s, pred) {
            Some(i) => 0 <= i < s.len() && pred(s[i]) && forall|j: int| 0 <= j < i ==> !pred(
                #[trigger] s[j],
            ),
            None => forall|j: int| 0 <= j < s.len() ==> !pred(#[trigger] s[j]),
        },
    decreases s.len(),
{
    if s.len() > 0 && !pred(s[0]) {
        lemma_first_where(s.drop_first(), pred);
        assert forall|j: int| 0 < j < s.len() implies s[j] == s.drop_first()[j - 1] by {}
    }
}

/// The track [`select_candidate`] picks: the first catalogue song that matches exactly, else the
/// first video that does, else the first catalogue song that names the reference at another
/// length.
pub open spec fn pick_spec(
    songs: Seq<ProviderTrack>,
    videos: Seq<ProviderTrack>,
    title: Seq<char>,
    artist: Seq<char>,
    ms: u64,
) -> Option<ProviderTrack> {
    let exact = |t: ProviderTrack| exact_match(t, title, artist, ms);
    let named = |t: ProviderTrack| names_reference_spec(t.title@, t.artist@, title, artist);
    match first_where(songs, exact) {
        Some(i) => Some(songs[i]),
        None => match first_where(videos, exact) {
            Some(i) => Some(videos[i]),
            None => match first_where(songs, named) {
                Some(i) => Some(songs[i]),
                None => None,
            },
        },
    }
}

/// A position as an integer.
pub open spec fn index_of(r: Option<usize>) -> Option<int> {
    match r {
        Some(i) => Some(i as int),
        None => None,
    }
}

fn find_match(tracks: &[ProviderTrack], reference: &TrackReference, exact: bool) -> (r: Option<usize>)
    ensures
        exact ==> index_of(r) == first_where(
            tracks@,
            |t: ProviderTrack| exact_match(t, reference.title@, reference.artist@, reference.duration_ms),
        ),
        !exact ==> index_of(r) == first_where(
            tracks@,
            |t: ProviderTrack| names_reference_spec(t.title@, t.artist@, reference.title@, reference.artist@),
        ),
        match r {
            Some(i) => i < tracks@.len(),
            None => true,
        },
{
    let ghost pred = if exact {
        |t: ProviderTrack| exact_match(t, reference.title@, reference.artist@, reference.duration_ms)
    } else {
        |t: ProviderTrack| names_reference_spec(t.title@, t.artist@, reference.title@, reference.artist@)
    };
    proof {
        lemma_first_where(tracks@, pred);
    }
    let mut i: usize = 0;
    while i < tracks.len()
        invariant
            i <= tracks@.len(),
            pred == (if exact {
                |t: ProviderTrack| exact_match(t, reference.title@, reference.artist@, reference.duration_ms)
            } else {
                |t: ProviderTrack| names_reference_spec(t.title@, t.artist@, reference.title@, reference.artist@)
            }),
            forall|j: int| 0 <= j < i ==> !pred(#[trigger] tracks@[j]),
        decreases tracks@.len() - i,
    {
        let named = names_reference(&tracks[i], reference);
        let hit = if exact {
            named && within_tolerance(&tracks[i], reference)
        } else {
            named
        };
        if hit {
            assert(pred(tracks@[i as int]));
            proof {
                lemma_first_where_at(tracks@, pred, i as int);
            }
            return Some(i);
        }
        i = i + 1;
    }
    proof {
        lemma_first_where_none(tracks@, pred);
    }
    None
}

proof fn lemma_first_where_at(s: Seq<ProviderTrack>, pred: spec_fn(ProviderTrack) -> bool, i: int)
    requires
        0 <= i < s.len(),
        pred(s[i]),
        forall|j: int| 0 <= j < i ==> !pred(#[trigger] s[j]),
    ensures
        first_where(s, pred) == Some(i),
    decreases i,
{
    if i > 0 {
        assert(!pred(s[0]));
        assert forall|j: int| 0 <= j < i - 1 implies !pred(#[trigger] s.drop_first()[j]) by {
            assert(s.drop_first()[j] == s[j + 1]);
        }
        lemma_first_where_at(s.drop_first(), pred, i - 1);
    }
}

proof fn lemma_first_where_none(s: Seq<ProviderTrack>, pred: spec_fn(ProviderTrack) -> bool)
    requires
        forall|j: int| 0 <= j < s.len() ==> !pred(#[trigger] s[j]),
    ensures
        first_where(s, pred) is None,
    decreases s.len(),
{
    if s.len() > 0 {
        assert(!pred(s[0]));
        assert forall|j: int| 0 <= j < s.len() - 1 implies !pred(#[trigger] s.drop_first()[j]) by {
            assert(s.drop_first()[j] == s[j + 1]);
        }
        lemma_first_where_none(s.drop_first(), pred);
    }
}

/// Picks a candidate from YouTube Music's song catalogue (`songs`) or, failing that, from general
/// video search (`videos`), in search-relevance order.
///
/// Returns `None` rather than the closest-sounding upload when nothing names the reference. As a
/// last resort a catalogue song of a different length is accepted, since that is the same
/// release in another edit rather than a fan upload.
pub fn select_candidate<'a>(
    songs: &'a [ProviderTrack],
    videos: &'a [ProviderTrack],
    reference: &TrackReference,
) -> (r: Option<&'a ProviderTrack>)
    ensures
        match r {
            Some(t) => pick_spec(songs@, videos@, reference.title@, reference.artist@, reference.duration_ms)
                == Some(*t),
            None => pick_spec(songs@, videos@, reference.title@, reference.artist@, reference.duration_ms)
                is None,
        },
{
    match find_match(songs, reference, true) {
        Some(i) => Some(&songs[i]),
        None => match find_match(videos, reference, true) {
            Some(i) => Some(&videos[i]),
            None => match find_match(songs, reference, false) {
                Some(i) => Some(&songs[i]),
                None => None,
            },
        },
    }
}

// ---------------------------------------------------------------------------------------------
// InnerTube payloads
// ---------------------------------------------------------------------------------------------

/// The `text` runs of some items joined, skipping items without one.
pub open spec fn runs_joined(items: Seq<Json>) -> Seq<char>
    decreases items.len(),
{
    if items.len() == 0 {
        seq![]
    } else {
        runs_joined(items.drop_last()) + match str_at(items.last(), "text"@) {
            Some(t) => t,
            None => seq![],
        }
    }
}

/// Every `text` run under a `runs` array, joined and trimmed; nothing when that is blank.
pub open spec fn runs_text_spec(value: Json) -> Option<Seq<char>> {
    match get_spec(value, "runs"@) {
        Some(runs) => match array_spec(runs) {
            Some(items) => {
                let t = trim(runs_joined(items));
                if t.len() > 0 {
                    Some(t)
                } else {
                    None
                }
            },
            None => None,
        },
        None => None,
    }
}

/// Joins every `text` run under a `runs` array. InnerTube splits strings into runs whenever a
/// segment carries its own link or style.
pub fn runs_text(value: &Json) -> (r: Option<String>)
    ensures
        match r {
            Some(t) => runs_text_spec(*value) == Some(t@),
            None => runs_text_spec(*value) is None,
        },
{
    let runs = match value.get("runs") {
        Some(v) => v,
        None => return None,
    };
    let items = match runs.as_array() {
        Some(a) => a,
        None => return None,
    };
    let mut joined: Vec<char> = Vec::new();
    let mut i: usize = 0;
    while i < items.len()
        invariant
            i <= items@.len(),
            joined@ == runs_joined(items@.take(i as int)),
        decreases items@.len() - i,
    {
        assert(items@.take(i + 1).drop_last() =~= items@.take(i as int));
        assert(items@.take(i + 1).last() == items@[i as int]);
        match items[i].get("text") {
            Some(t) => match t.as_str() {
                Some(text) => push_str(&mut joined, text),
                None => {},
            },
            None => {},
        }
        assert(joined@ =~= runs_joined(items@.take(i + 1)));
        i = i + 1;
    }
    assert(items@.take(items@.len() as int) =~= items@);
    let t = trimmed(&joined);
    if t.len() > 0 {
        Some(string_of(&t))
    } else {
        None
    }
}

/// The runs text of flex column `index` of a list-item renderer.
pub open spec fn flex_column_spec(renderer: Json, index: int) -> Option<Seq<char>> {
    match get_spec(renderer, "flexColumns"@) {
        Some(cols) => match array_spec(cols) {
            Some(items) => if 0 <= index < items.len() {
                match get_spec(items[index], "musicResponsiveListItemFlexColumnRenderer"@) {
                    Some(col) => match get_spec(col, "text"@) {
                        Some(text) => runs_text_spec(text),
                        None => None,
                    },
                    None => None,
                }
            } else {
                None
            },
            None => None,
        },
        None => None,
    }
}

/// The text of one flex column of a list-item renderer.
pub fn flex_column(renderer: &Json, index: usize) -> (r: Option<String>)
    ensures
        match r {
            Some(t) => flex_column_spec(*renderer, index as int) == Some(t@),
            None => flex_column_spec(*renderer, index as int) is None,
        },
{
    let cols = match renderer.get("flexColumns") {
        Some(v) => v,
        None => return None,
    };
    let items = match cols.as_array() {
        Some(a) => a,
        None => return None,
    };
    if index >= items.len() {
        return None;
    }
    let col = match items[index].get("musicResponsiveListItemFlexColumnRenderer") {
        Some(c) => c,
        None => return None,
    };
    match col.get("text") {
        Some(text) => runs_text(text),
        None => None,
    }
}

/// Where a playlist or album row keeps its video id.
pub open spec fn row_video_path() -> Seq<Seq<char>> {
    seq!["playlistItemData"@, "videoId"@]
}

/// Where a standalone song row keeps its video id: on the play button's watch endpoint.
pub open spec fn button_video_path() -> Seq<Seq<char>> {
    seq![
        "overlay"@,
        "musicItemThumbnailOverlayRenderer"@,
        "content"@,
        "musicPlayButtonRenderer"@,
        "playNavigationEndpoint"@,
        "watchEndpoint"@,
        "videoId"@,
    ]
}

/// The video id of a row.
pub open spec fn video_id_spec(renderer: Json) -> Option<Seq<char>> {
    match str_at_path(renderer, row_video_path()) {
        Some(id) => Some(id),
        None => str_at_path(renderer, button_video_path()),
    }
}

/// The video id of a row: playlists and album rows expose it directly, standalone song rows put
/// it on the play button.
pub fn video_id(renderer: &Json) -> (r: Option<String>)
    ensures
        match r {
            Some(t) => video_id_spec(*renderer) == Some(t@),
            None => video_id_spec(*renderer) is None,
        },
{
    let direct: &[&str] = &["playlistItemData", "videoId"];
    assert(direct@.map_values(|k: &str| k@) =~= row_video_path());
    if let Some(id) = renderer.str_at_path(direct) {
        return Some(string_of(&chars_of(id)));
    }
    let button: &[&str] = &[
        "overlay",
        "musicItemThumbnailOverlayRenderer",
        "content",
        "musicPlayButtonRenderer",
        "playNavigationEndpoint",
        "watchEndpoint",
        "videoId",
    ];
    assert(button@.map_values(|k: &str| k@) =~= button_video_path());
    match renderer.str_at_path(button) {
        Some(id) => Some(string_of(&chars_of(id))),
        None => None,
    }
}

/// Where a row keeps its artwork list.
pub open spec fn thumbnails_path() -> Seq<Seq<char>> {
    seq!["thumbnail"@, "musicThumbnailRenderer"@, "thumbnail"@, "thumbnails"@]
}

/// The escaped ampersand some responses carry in their URLs.
pub open spec fn escaped_amp() -> Seq<char> {
    seq!['\\', 'u', '0', '0', '2', '6']
}

/// The URL of the last (largest) artwork of a row, with escaped ampersands restored.
pub open spec fn thumbnail_spec(renderer: Json) -> Option<Seq<char>> {
    match path_spec(renderer, thumbnails_path()) {
        Some(list) => match array_spec(list) {
            Some(items) => if items.len() > 0 {
                match str_at(items.last(), "url"@) {
                    Some(url) => Some(replace_all(url, escaped_amp(), seq!['&'])),
                    None => None,
                }
            } else {
                None
            },
            None => None,
        },
        None => None,
    }
}

/// The artwork URL of a row: the last entry of its thumbnail list.
pub fn thumbnail(renderer: &Json) -> (r: Option<String>)
    ensures
        match r {
            Some(t) => thumbnail_spec(*renderer) == Some(t@),
            None => thumbnail_spec(*renderer) is None,
        },
{
    let path: &[&str] = &["thumbnail", "musicThumbnailRenderer", "thumbnail", "thumbnails"];
    assert(path@.map_values(|k: &str| k@) =~= thumbnails_path());
    let list = match renderer.at_path(path) {
        Some(l) => l,
        None => return None,
    };
    let items = match list.as_array() {
        Some(a) => a,
        None => return None,
    };
    if items.len() == 0 {
        return None;
    }
    let last = &items[items.len() - 1];
    match last.get("url") {
        Some(u) => match u.as_str() {
            Some(url) => {
                let pat: Vec<char> = vec!['\\', 'u', '0', '0', '2', '6'];
                let rep: Vec<char> = vec!['&'];
                assert(pat@ =~= escaped_amp());
                assert(rep@ =~= seq!['&']);
                Some(string_of(&replace_seq(&chars_of(url), &pat, &rep)))
            },
            None => None,
        },
        None => None,
    }
}

/// The separator between the artist, album and duration of a song row's metadata column.
pub open spec fn bullet() -> Seq<char> {
    seq![' ', '\u{2022}', ' ']
}

/// The non-blank, trimmed fields of a song row's metadata column.
pub open spec fn meta_fields(meta: Seq<char>) -> Seq<Seq<char>> {
    split_str(meta, bullet()).map_values(|f: Seq<char>| trim(f)).filter(|f: Seq<char>| f.len() > 0)
}

/// The metadata column of a song row (empty when it has none).
pub open spec fn song_meta(renderer: Json) -> Seq<char> {
    match flex_column_spec(renderer, 1) {
        Some(m) => m,
        None => seq![],
    }
}

/// Field `i` of some fields, or `default` when there are not that many.
pub open spec fn field_or(fs: Seq<Seq<char>>, i: int, default: Seq<char>) -> Seq<char> {
    if 0 <= i < fs.len() {
        fs[i]
    } else {
        default
    }
}

/// A song row's duration field, which is only read for a row with a video id and a title, can
/// be read without overflow.
pub open spec fn song_readable(renderer: Json) -> bool {
    let fs = meta_fields(song_meta(renderer));
    video_id_spec(renderer) is Some && flex_column_spec(renderer, 0) is Some && fs.len() > 2
        ==> duration_readable(fs[2])
}

/// `t` is the track [`parse_song`] reads from `renderer`.
pub open spec fn is_song_of(t: ProviderTrack, renderer: Json) -> bool {
    let fs = meta_fields(song_meta(renderer));
    &&& video_id_spec(renderer) is Some
    &&& flex_column_spec(renderer, 0) is Some
    &&& t.id@ == "ytmusic://track/"@ + video_id_spec(renderer).unwrap()
    &&& t.provider == ProviderKind::YouTubeMusic
    &&& t.title@ == flex_column_spec(renderer, 0).unwrap()
    &&& t.artist@ == field_or(fs, 0, "Unknown Artist"@)
    &&& t.album@ == field_or(fs, 1, "Unknown Album"@)
    &&& t.duration_ms == (if fs.len() > 2 {
        duration_ms_spec(fs[2])
    } else {
        0
    })
    &&& match t.artwork_url {
        Some(u) => thumbnail_spec(renderer) == Some(u@),
        None => thumbnail_spec(renderer) is None,
    }
}

fn meta_field_list(meta: &Vec<char>) -> (r: Vec<Vec<char>>)
    ensures
        r@.map_values(|f: Vec<char>| f@) == meta_fields(meta@),
{
    let sep: Vec<char> = vec![' ', '\u{2022}', ' '];
    assert(sep@ =~= bullet());
    let pieces = split_string(meta, &sep);
    let ghost ps = pieces@.map_values(|f: Vec<char>| f@);
    let ghost tr = ps.map_values(|f: Seq<char>| trim(f));
    let ghost pred = |f: Seq<char>| f.len() > 0;
    let mut out: Vec<Vec<char>> = Vec::new();
    let mut i: usize = 0;
    proof {
        reveal(Seq::filter);
        assert(tr.take(0).filter(pred) =~= Seq::<Seq<char>>::empty());
    }
    while i < pieces.len()
        invariant
            i <= pieces@.len(),
            ps == pieces@.map_values(|f: Vec<char>| f@),
            tr == ps.map_values(|f: Seq<char>| trim(f)),
            pred == (|f: Seq<char>| f.len() > 0),
            out@.map_values(|f: Vec<char>| f@) == tr.take(i as int).filter(pred),
        decreases pieces@.len() - i,
    {
        proof {
            assert(tr.take(i + 1) =~= tr.take(i as int).push(tr[i as int]));
            tr.take(i as int).lemma_filter_push(tr[i as int], pred);
        }
        let f = trimmed(&pieces[i]);
        if f.len() > 0 {
            let ghost before = out@.map_values(|f: Vec<char>| f@);
            out.push(f);
            assert(out@.map_values(|f: Vec<char>| f@) =~= before.push(tr[i as int]));
        }
        i = i + 1;
    }
    assert(tr.take(pieces@.len() as int) =~= tr);
    out
}

/// Reads a song row: its video id, title (column 0), and the artist, album and duration fields
/// of column 1 (`Artist • Album • Duration`); a row without a video id or title is skipped.
pub fn parse_song(renderer: &Json) -> (r: Option<ProviderTrack>)
    requires
        song_readable(*renderer),
    ensures
        match r {
            Some(t) => is_song_of(t, *renderer),
            None => video_id_spec(*renderer) is None || flex_column_spec(*renderer, 0) is None,
        },
{
    let id = match video_id(renderer) {
        Some(i) => i,
        None => return None,
    };
    let title = match flex_column(renderer, 0) {
        Some(t) => t,
        None => return None,
    };
    let meta: Vec<char> = match flex_column(renderer, 1) {
        Some(m) => chars_of(m.as_str()),
        None => Vec::new(),
    };
    assert(meta@ == song_meta(*renderer));
    let fields = meta_field_list(&meta);
    let ghost fs = fields@.map_values(|f: Vec<char>| f@);
    let artist = if fields.len() > 0 {
        string_of(&fields[0])
    } else {
        string_of(&chars_of("Unknown Artist"))
    };
    let album = if fields.len() > 1 {
        string_of(&fields[1])
    } else {
        string_of(&chars_of("Unknown Album"))
    };
    let duration_ms = if fields.len() > 2 {
        assert(fs[2] == fields@[2]@);
        parse_duration(string_of(&fields[2]).as_str())
    } else {
        0
    };
    let mut full: Vec<char> = Vec::new();
    push_str(&mut full, "ytmusic://track/");
    push_str(&mut full, id.as_str());
    Some(ProviderTrack {
        id: string_of(&full),
        provider: ProviderKind::YouTubeMusic,
        title,
        artist,
        album,
        duration_ms,
        artwork_url: thumbnail(renderer),
    })
}

/// Where a two-row tile keeps the id of the playlist it opens.
pub open spec fn browse_path() -> Seq<Seq<char>> {
    seq!["navigationEndpoint"@, "browseEndpoint"@, "browseId"@]
}

/// The title of a playlist row: its first flex column, else its plain `title` runs.
pub open spec fn playlist_title_spec(renderer: Json) -> Option<Seq<char>> {
    match flex_column_spec(renderer, 0) {
        Some(t) => Some(t),
        None => match get_spec(renderer, "title"@) {
            Some(t) => runs_text_spec(t),
            None => None,
        },
    }
}

/// Reads a playlist row from its browse endpoint; a row without a browse id or a title is
/// skipped.
pub fn parse_playlist(renderer: &Json) -> (r: Option<ProviderPlaylist>)
    ensures
        match r {
            Some(p) => {
                &&& str_at_path(*renderer, browse_path()) is Some
                &&& playlist_title_spec(*renderer) is Some
                &&& p.id@ == "ytmusic://playlist/"@ + str_at_path(*renderer, browse_path()).unwrap()
                &&& p.title@ == playlist_title_spec(*renderer).unwrap()
                &&& p.description is None
                &&& match p.artwork_url {
                    Some(u) => thumbnail_spec(*renderer) == Some(u@),
                    None => thumbnail_spec(*renderer) is None,
                }
                &&& p.track_count == 0
                &&& p.provider == ProviderKind::YouTubeMusic
            },
            None => str_at_path(*renderer, browse_path()) is None || playlist_title_spec(*renderer)
                is None,
        },
{
    let path: &[&str] = &["navigationEndpoint", "browseEndpoint", "browseId"];
    assert(path@.map_values(|k: &str| k@) =~= browse_path());
    let browse_id = match renderer.str_at_path(path) {
        Some(b) => b,
        None => return None,
    };
    let title = match flex_column(renderer, 0) {
        Some(t) => t,
        None => match renderer.get("title") {
            Some(t) => match runs_text(t) {
                Some(x) => x,
                None => return None,
            },
            None => return None,
        },
    };
    let mut full: Vec<char> = Vec::new();
    push_str(&mut full, "ytmusic://playlist/");
    push_str(&mut full, browse_id);
    Some(ProviderPlaylist {
        id: string_of(&full),
        title,
        description: None,
        artwork_url: thumbnail(renderer),
        track_count: 0,
        provider: ProviderKind::YouTubeMusic,
    })
}

// ---------------------------------------------------------------------------------------------
// Search results
// ---------------------------------------------------------------------------------------------

/// Removes every track whose id equals that of the track kept just before it (`Vec::dedup_by`
/// on the id).
pub open spec fn dedup_ids(ts: Seq<ProviderTrack>) -> Seq<ProviderTrack>
    decreases ts.len(),
{
    if ts.len() == 0 {
        seq![]
    } else {
        let d = dedup_ids(ts.drop_last());
        if d.len() > 0 && d.last().id@ == ts.last().id@ {
            d
        } else {
            d.push(ts.last())
        }
    }
}

/// At most the first `limit` items.
pub open spec fn first_n<A>(s: Seq<A>, limit: nat) -> Seq<A> {
    if s.len() <= limit {
        s
    } else {
        s.take(limit as int)
    }
}

/// Removes consecutive tracks with the same id, keeping the first of each run.
pub fn dedup_tracks(ts: Vec<ProviderTrack>) -> (r: Vec<ProviderTrack>)
    ensures
        r@ == dedup_ids(ts@),
{
    let mut out: Vec<ProviderTrack> = Vec::new();
    let mut rest = ts;
    let ghost all = rest@;
    let mut i: usize = 0;
    assert(all.take(0) =~= Seq::<ProviderTrack>::empty());
    let n = rest.len();
    assert(all.skip(0) =~= all);
    while i < n
        invariant
            i <= n == all.len(),
            rest@ == all.skip(i as int),
            out@ == dedup_ids(all.take(i as int)),
        decreases n - i,
    {
        let t = rest.remove(0);
        assert(t == all[i as int]);
        assert(rest@ =~= all.skip(i + 1));
        assert(all.take(i + 1).drop_last() =~= all.take(i as int));
        assert(all.take(i + 1).last() == all[i as int]);
        let keep = out.len() == 0 || !crate::lyrics::same_str(out[out.len() - 1].id.as_str(), t.id.as_str());
        if keep {
            out.push(t);
        }
        i = i + 1;
    }
    assert(all.take(n as int) =~= all);
    out
}

/// The renderers that hold a song: a video id and a title.
pub open spec fn song_rows(rs: Seq<Json>) -> Seq<Json> {
    rs.filter(|r: Json| video_id_spec(r) is Some && flex_column_spec(r, 0) is Some)
}

/// Every renderer's duration field can be read.
pub open spec fn rows_readable(rs: Seq<Json>) -> bool {
    forall|i: int| 0 <= i < rs.len() ==> song_readable(#[trigger] rs[i])
}

/// The songs of some renderers, in order.
fn parse_songs(rs: &Vec<&Json>) -> (r: Vec<ProviderTrack>)
    requires
        rows_readable(deref_all(rs@)),
    ensures
        r@.len() == song_rows(deref_all(rs@)).len(),
        forall|k: int| 0 <= k < r@.len() ==> is_song_of(#[trigger] r@[k], song_rows(deref_all(rs@))[k]),
{
    let ghost vs = deref_all(rs@);
    let ghost pred = |r: Json| video_id_spec(r) is Some && flex_column_spec(r, 0) is Some;
    let mut out: Vec<ProviderTrack> = Vec::new();
    let mut i: usize = 0;
    proof {
        reveal(Seq::filter);
        assert(vs.take(0).filter(pred) =~= Seq::<Json>::empty());
    }
    while i < rs.len()
        invariant
            i <= rs@.len(),
            vs == deref_all(rs@),
            rows_readable(vs),
            pred == (|r: Json| video_id_spec(r) is Some && flex_column_spec(r, 0) is Some),
            out@.len() == vs.take(i as int).filter(pred).len(),
            forall|k: int| 0 <= k < out@.len() ==> is_song_of(#[trigger] out@[k], vs.take(i as int).filter(pred)[k]),
        decreases rs@.len() - i,
    {
        proof {
            assert(vs.take(i + 1) =~= vs.take(i as int).push(vs[i as int]));
            vs.take(i as int).lemma_filter_push(vs[i as int], pred);
        }
        assert(vs[i as int] == *rs@[i as int]);
        match parse_song(rs[i]) {
            Some(t) => {
                out.push(t);
            },
            None => {},
        }
        i = i + 1;
    }
    assert(vs.take(rs@.len() as int) =~= vs);
    out
}

/// Whether a row's duration field can be read without overflow, if it is read at all.
fn song_is_readable(renderer: &Json) -> (r: bool)
    ensures
        r == song_readable(*renderer),
{
    if video_id(renderer).is_none() || flex_column(renderer, 0).is_none() {
        return true;
    }
    let meta: Vec<char> = match flex_column(renderer, 1) {
        Some(m) => chars_of(m.as_str()),
        None => Vec::new(),
    };
    assert(meta@ == song_meta(*renderer));
    let fields = meta_field_list(&meta);
    let ghost fs = fields@.map_values(|f: Vec<char>| f@);
    if fields.len() > 2 {
        assert(fs[2] == fields@[2]@);
        duration_is_readable(string_of(&fields[2]).as_str())
    } else {
        true
    }
}

/// Whether [`search_results_from`] can read a search response: the duration of every song row
/// can be read without overflow.
pub fn search_response_is_readable(value: &Json) -> (r: bool)
    ensures
        r == rows_readable(collected(*value, "musicResponsiveListItemRenderer"@)),
{
    let rows = renderers(value, "musicResponsiveListItemRenderer");
    let ghost vs = deref_all(rows@);
    let mut i: usize = 0;
    while i < rows.len()
        invariant
            i <= rows@.len(),
            vs == deref_all(rows@),
            vs == collected(*value, "musicResponsiveListItemRenderer"@),
            forall|k: int| 0 <= k < i ==> song_readable(#[trigger] vs[k]),
        decreases rows@.len() - i,
    {
        assert(vs[i as int] == *rows@[i as int]);
        if !song_is_readable(rows[i]) {
            assert(!song_readable(vs[i as int]));
            return false;
        }
        i = i + 1;
    }
    true
}

/// The song rows of an InnerTube search response.
pub open spec fn response_songs(value: Json) -> Seq<Json> {
    song_rows(collected(value, "musicResponsiveListItemRenderer"@))
}

/// `tracks` are, in order, the songs read from `rows`, with consecutive repeats of an id
/// removed, cut to `limit`.
pub open spec fn tracks_from_rows(tracks: Seq<ProviderTrack>, rows: Seq<Json>, limit: nat) -> bool {
    exists|parsed: Seq<ProviderTrack>|
        #![trigger dedup_ids(parsed)]
        parsed.len() == rows.len() && (forall|k: int| 0 <= k < parsed.len() ==> is_song_of(#[trigger] parsed[k], rows[k]))
            && tracks == first_n(dedup_ids(parsed), limit)
}

fn truncate_tracks(v: &mut Vec<ProviderTrack>, limit: usize)
    ensures
        final(v)@ == first_n(old(v)@, limit as nat),
{
    if v.len() > limit {
        v.truncate(limit);
    }
}

/// The songs and playlists of an InnerTube search response: the song rows read in order, with
/// consecutive repeats of an id removed and cut to `limit`; when there is at least one, also the
/// first `limit` playlist tiles that read as playlists. No song is an error.
pub fn search_results_from(value: &Json, limit: usize) -> (r: Result<SearchResults, String>)
    requires
        rows_readable(collected(*value, "musicResponsiveListItemRenderer"@)),
    ensures
        match r {
            Ok(res) => {
                &&& res.tracks@.len() > 0
                &&& tracks_from_rows(res.tracks@, response_songs(*value), limit as nat)
                &&& res.playlists@.len() <= limit
            },
            Err(e) => {
                &&& e@ == "InnerTube search returned no tracks"@
                &&& forall|t: Seq<ProviderTrack>| tracks_from_rows(t, response_songs(*value), limit as nat) ==> t.len() == 0
            },
        },
{
    let rows = renderers(value, "musicResponsiveListItemRenderer");
    let parsed = parse_songs(&rows);
    let ghost p = parsed@;
    let mut tracks = dedup_tracks(parsed);
    truncate_tracks(&mut tracks, limit);
    assert(tracks_from_rows(tracks@, response_songs(*value), limit as nat)) by {
        assert(dedup_ids(p) == dedup_ids(p));
    }
    if tracks.len() == 0 {
        proof {
            assert forall|t: Seq<ProviderTrack>| tracks_from_rows(t, response_songs(*value), limit as nat) implies t.len() == 0 by {
                let q = choose|q: Seq<ProviderTrack>|
                    #![trigger dedup_ids(q)]
                    q.len() == response_songs(*value).len() && (forall|k: int| 0 <= k < q.len() ==> is_song_of(#[trigger] q[k], response_songs(*value)[k]))
                        && t == first_n(dedup_ids(q), limit as nat);
                lemma_dedup_empty_iff(q);
                lemma_dedup_empty_iff(p);
            }
        }
        return Err(string_of(&chars_of("InnerTube search returned no tracks")));
    }
    let tiles = renderers(value, "musicTwoRowItemRenderer");
    let mut playlists: Vec<ProviderPlaylist> = Vec::new();
    let mut i: usize = 0;
    while i < tiles.len() && playlists.len() < limit
        invariant
            i <= tiles@.len(),
            playlists@.len() <= limit,
        decreases tiles@.len() - i,
    {
        match parse_playlist(tiles[i]) {
            Some(pl) => playlists.push(pl),
            None => {},
        }
        i = i + 1;
    }
    Ok(SearchResults { tracks, playlists })
}

proof fn lemma_dedup_empty_iff(ts: Seq<ProviderTrack>)
    ensures
        (dedup_ids(ts).len() == 0) == (ts.len() == 0),
    decreases ts.len(),
{
    if ts.len() > 0 {
        lemma_dedup_empty_iff(ts.drop_last());
    }
}

// ---------------------------------------------------------------------------------------------
// yt-dlp
// ---------------------------------------------------------------------------------------------

/// The first of `id`, `uploader` and `channel`-style keys that holds a string.
pub open spec fn first_str_of(value: Json, keys: Seq<Seq<char>>) -> Option<Seq<char>>
    decreases keys.len(),
{
    if keys.len() == 0 {
        None
    } else {
        match str_at(value, keys[0]) {
            Some(s) => Some(s),
            None => first_str_of(value, keys.drop_first()),
        }
    }
}

/// Milliseconds of a yt-dlp `duration` (seconds, possibly fractional); 0 when absent or not a
/// finite non-negative number.
pub open spec fn ytdlp_duration(value: Json) -> u64 {
    match get_spec(value, "duration"@) {
        Some(Json::Number(n)) => match n.thousandths {
            Some(ms) => ms,
            None => 0,
        },
        _ => 0,
    }
}

/// `t` is the track [`parse_ytdlp_search_entry`] reads from `value`.
pub open spec fn is_ytdlp_track(t: ProviderTrack, value: Json) -> bool {
    let id = trim(str_at(value, "id"@).unwrap());
    let title = trim(str_at(value, "title"@).unwrap());
    let artist = match first_str_of(value, seq!["artist"@, "uploader"@, "channel"@]) {
        Some(a) => a,
        None => "Unknown Artist"@,
    };
    &&& t.id@ == "ytmusic://track/"@ + id
    &&& t.provider == ProviderKind::YouTubeMusic
    &&& t.title@ == title
    &&& t.artist@ == trim(artist)
    &&& t.album@ == match str_at(value, "album"@) {
        Some(a) => a,
        None => "YouTube Music"@,
    }
    &&& t.duration_ms == ytdlp_duration(value)
    &&& t.artwork_url matches Some(u) && u@ == "https://i.ytimg.com/vi/"@ + id + "/hqdefault.jpg"@
}

/// `value` reads as a yt-dlp search entry: it has a non-blank id and title.
pub open spec fn is_ytdlp_entry(value: Json) -> bool {
    &&& str_at(value, "id"@) is Some
    &&& str_at(value, "title"@) is Some
    &&& trim(str_at(value, "id"@).unwrap()).len() > 0
    &&& trim(str_at(value, "title"@).unwrap()).len() > 0
}


fn trimmed_str(s: &str) -> (r: Vec<char>)
    ensures
        r@ == trim(s@),
{
    trimmed(&chars_of(s))
}

/// Reads one line of yt-dlp's `--dump-json` search output.
pub fn parse_ytdlp_search_entry(value: &Json) -> (r: Option<ProviderTrack>)
    ensures
        match r {
            Some(t) => is_ytdlp_entry(*value) && is_ytdlp_track(t, *value),
            None => !is_ytdlp_entry(*value),
        },
{
    let id = match value.get("id") {
        Some(v) => match v.as_str() {
            Some(s) => trimmed_str(s),
            None => return None,
        },
        None => return None,
    };
    let title = match value.get("title") {
        Some(v) => match v.as_str() {
            Some(s) => trimmed_str(s),
            None => return None,
        },
        None => return None,
    };
    if id.len() == 0 || title.len() == 0 {
        return None;
    }
    let ghost keys = seq!["artist"@, "uploader"@, "channel"@];
    assert(keys.drop_first() =~= seq!["uploader"@, "channel"@]);
    assert(keys.drop_first().drop_first() =~= seq!["channel"@]);
    assert(keys.drop_first().drop_first().drop_first() =~= Seq::<Seq<char>>::empty());
    proof {
        reveal_with_fuel(first_str_of, 4);
    }
    let artist_raw: Vec<char> = match str_field(value, "artist") {
        Some(a) => a,
        None => match str_field(value, "uploader") {
            Some(a) => a,
            None => match str_field(value, "channel") {
                Some(a) => a,
                None => chars_of("Unknown Artist"),
            },
        },
    };
    let artist = trimmed(&artist_raw);
    let duration_ms: u64 = match value.get("duration") {
        Some(Json::Number(n)) => match n.thousandths {
            Some(ms) => ms,
            None => 0,
        },
        _ => 0,
    };
    let album: Vec<char> = match value.get("album") {
        Some(v) => match v.as_str() {
            Some(a) => chars_of(a),
            None => chars_of("YouTube Music"),
        },
        None => chars_of("YouTube Music"),
    };
    let mut full: Vec<char> = Vec::new();
    push_str(&mut full, "ytmusic://track/");
    extend_all(&mut full, &id);
    let mut art: Vec<char> = Vec::new();
    push_str(&mut art, "https://i.ytimg.com/vi/");
    extend_all(&mut art, &id);
    push_str(&mut art, "/hqdefault.jpg");
    Some(ProviderTrack {
        id: string_of(&full),
        provider: ProviderKind::YouTubeMusic,
        title: string_of(&title),
        artist: string_of(&artist),
        album: string_of(&album),
        duration_ms,
        artwork_url: Some(string_of(&art)),
    })
}

/// The entries that read as yt-dlp search entries.
pub open spec fn ytdlp_rows(entries: Seq<Json>) -> Seq<Json> {
    entries.filter(|v: Json| is_ytdlp_entry(v))
}

/// The tracks of yt-dlp's search output: the entries that read as tracks, in order, with
/// consecutive repeats of an id removed, cut to `limit`; none is an error.
pub fn ytdlp_results(entries: &Vec<Json>, limit: usize) -> (r: Result<SearchResults, String>)
    ensures
        match r {
            Ok(res) => {
                &&& res.tracks@.len() > 0
                &&& res.playlists@.len() == 0
                &&& exists|parsed: Seq<ProviderTrack>|
                    #![trigger dedup_ids(parsed)]
                    parsed.len() == ytdlp_rows(entries@).len() && (forall|k: int|
                        0 <= k < parsed.len() ==> is_ytdlp_track(#[trigger] parsed[k], ytdlp_rows(entries@)[k]))
                        && res.tracks@ == first_n(dedup_ids(parsed), limit as nat)
            },
            Err(e) => {
                &&& e@ == "yt-dlp returned no YouTube results"@
                &&& (ytdlp_rows(entries@).len() == 0 || limit == 0)
            },
        },
{
    let ghost vs = entries@;
    let ghost pred = |v: Json| is_ytdlp_entry(v);
    let mut parsed: Vec<ProviderTrack> = Vec::new();
    let mut i: usize = 0;
    proof {
        reveal(Seq::filter);
        assert(vs.take(0).filter(pred) =~= Seq::<Json>::empty());
    }
    while i < entries.len()
        invariant
            i <= entries@.len(),
            vs == entries@,
            pred == (|v: Json| is_ytdlp_entry(v)),
            parsed@.len() == vs.take(i as int).filter(pred).len(),
            forall|k: int| 0 <= k < parsed@.len() ==> is_ytdlp_track(#[trigger] parsed@[k], vs.take(i as int).filter(pred)[k]),
        decreases entries@.len() - i,
    {
        proof {
            assert(vs.take(i + 1) =~= vs.take(i as int).push(vs[i as int]));
            vs.take(i as int).lemma_filter_push(vs[i as int], pred);
        }
        match parse_ytdlp_search_entry(&entries[i]) {
            Some(t) => parsed.push(t),
            None => {},
        }
        i = i + 1;
    }
    assert(vs.take(entries@.len() as int) =~= vs);
    let ghost p = parsed@;
    let mut tracks = dedup_tracks(parsed);
    truncate_tracks(&mut tracks, limit);
    if tracks.len() == 0 {
        proof {
            lemma_dedup_empty_iff(p);
        }
        return Err(string_of(&chars_of("yt-dlp returned no YouTube results")));
    }
    assert(dedup_ids(p) == dedup_ids(p));
    Ok(SearchResults { tracks, playlists: Vec::new() })
}

// ---------------------------------------------------------------------------------------------
// Streams
// ---------------------------------------------------------------------------------------------

/// A format of the player response that carries audio and a direct URL.
pub open spec fn audio_format(f: Json) -> bool {
    &&& str_at(f, "mimeType"@) is Some
    &&& str_at(f, "mimeType"@).unwrap().len() >= 6
    &&& str_at(f, "mimeType"@).unwrap().take(6) == "audio/"@
    &&& str_at(f, "url"@) is Some
}

/// The bitrate a format states, 0 when it states none.
pub open spec fn bitrate_of(f: Json) -> u64 {
    match get_spec(f, "bitrate"@) {
        Some(b) => match u64_spec(b) {
            Some(v) => v,
            None => 0,
        },
        None => 0,
    }
}

/// `k` is the last audio format with the highest bitrate.
pub open spec fn is_best_audio(fs: Seq<Json>, k: int) -> bool {
    &&& 0 <= k < fs.len()
    &&& audio_format(fs[k])
    &&& forall|j: int| 0 <= j < fs.len() && audio_format(#[trigger] fs[j]) ==> bitrate_of(fs[j]) <= bitrate_of(fs[k])
    &&& forall|j: int| k < j < fs.len() && audio_format(#[trigger] fs[j]) ==> bitrate_of(fs[j]) < bitrate_of(fs[k])
}

/// Where a player response lists its adaptive formats.
pub open spec fn formats_path() -> Seq<Seq<char>> {
    seq!["streamingData"@, "adaptiveFormats"@]
}

/// The adaptive formats of a player response.
pub open spec fn player_formats(player: Json) -> Option<Seq<Json>> {
    match path_spec(player, formats_path()) {
        Some(v) => array_spec(v),
        None => None,
    }
}

fn starts_with_audio(m: &str) -> (r: bool)
    ensures
        r == (m@.len() >= 6 && m@.take(6) == "audio/"@),
{
    let cs = chars_of(m);
    let prefix = chars_of("audio/");
    proof {
        reveal_strlit("audio/");
    }
    if cs.len() < 6 {
        return false;
    }
    let head = slice_vec(&cs, 0, 6);
    assert(head@ =~= cs@.take(6));
    crate::text::chars_eq(&head, &prefix)
}

/// The player response lists an audio format that has a URL.
pub open spec fn player_has_audio(player: Json) -> bool {
    &&& player_formats(player) is Some
    &&& exists|j: int|
        0 <= j < player_formats(player).unwrap().len() && audio_format(
            #[trigger] player_formats(player).unwrap()[j],
        )
}

/// `src` is the stream of the best audio format of a player response: the last of its audio
/// formats with the highest bitrate, with that format's URL and MIME type.
pub open spec fn is_player_source(src: TrackAudioSource, player: Json) -> bool {
    &&& player_formats(player) is Some
    &&& exists|k: int|
        #![trigger player_formats(player).unwrap()[k]]
        is_best_audio(player_formats(player).unwrap(), k) && src.url@ == str_at(
            player_formats(player).unwrap()[k],
            "url"@,
        ).unwrap() && src.mime_type is Some && src.mime_type.unwrap()@ == str_at(
            player_formats(player).unwrap()[k],
            "mimeType"@,
        ).unwrap()
    &&& !src.remote_playback
}

/// The stream of a player response: the last of the audio formats with the highest bitrate,
/// with its URL and MIME type. A response without adaptive formats, or without an audio format
/// that has a URL, is an error.
pub fn best_audio_source(player: &Json) -> (r: Result<TrackAudioSource, String>)
    ensures
        match r {
            Ok(src) => is_player_source(src, *player),
            Err(e) => {
                ||| (e@ == "YouTube Music returned no adaptive audio formats"@ && player_formats(
                    *player,
                ) is None)
                ||| (e@ == "YouTube Music returned no direct audio URL"@ && player_formats(*player) is Some
                    && forall|j: int|
                    0 <= j < player_formats(*player).unwrap().len() ==> !audio_format(
                        #[trigger] player_formats(*player).unwrap()[j],
                    ))
            },
        },
{
    let path: &[&str] = &["streamingData", "adaptiveFormats"];
    assert(path@.map_values(|k: &str| k@) =~= formats_path());
    let formats = match player.at_path(path) {
        Some(f) => match f.as_array() {
            Some(a) => a,
            None => return Err(string_of(&chars_of("YouTube Music returned no adaptive audio formats"))),
        },
        None => return Err(string_of(&chars_of("YouTube Music returned no adaptive audio formats"))),
    };
    let ghost fs = formats@;
    assert(player_formats(*player) == Some(fs));
    let mut best: Option<usize> = None;
    let mut best_rate: u64 = 0;
    let mut i: usize = 0;
    while i < formats.len()
        invariant
            i <= formats@.len(),
            fs == formats@,
            player_formats(*player) == Some(fs),
            match best {
                Some(k) => {
                    &&& k < i
                    &&& audio_format(fs[k as int])
                    &&& best_rate == bitrate_of(fs[k as int])
                    &&& forall|j: int| 0 <= j < i && audio_format(#[trigger] fs[j]) ==> bitrate_of(fs[j]) <= best_rate
                    &&& forall|j: int| k < j < i && audio_format(#[trigger] fs[j]) ==> bitrate_of(fs[j]) < best_rate
                },
                None => forall|j: int| 0 <= j < i ==> !audio_format(#[trigger] fs[j]),
            },
        decreases formats@.len() - i,
    {
        let f = &formats[i];
        let is_audio = match f.get("mimeType") {
            Some(m) => match m.as_str() {
                Some(ms) => starts_with_audio(ms),
                None => false,
            },
            None => false,
        };
        let has_url = match f.get("url") {
            Some(u) => u.as_str().is_some(),
            None => false,
        };
        if is_audio && has_url {
            let rate: u64 = match f.get("bitrate") {
                Some(b) => match b.as_u64() {
                    Some(v) => v,
                    None => 0,
                },
                None => 0,
            };
            assert(audio_format(fs[i as int]));
            match best {
                Some(_) => {
                    if rate >= best_rate {
                        best = Some(i);
                        best_rate = rate;
                    }
                },
                None => {
                    best = Some(i);
                    best_rate = rate;
                },
            }
        } else {
            assert(!audio_format(fs[i as int]));
        }
        i = i + 1;
    }
    match best {
        None => Err(string_of(&chars_of("YouTube Music returned no direct audio URL"))),
        Some(k) => {
            let f = &formats[k];
            let url = f.get("url").unwrap().as_str().unwrap();
            let mime = f.get("mimeType").unwrap().as_str().unwrap();
            assert(is_best_audio(fs, k as int));
            assert(player_formats(*player).unwrap()[k as int] == fs[k as int]);
            Ok(TrackAudioSource {
                url: string_of(&chars_of(url)),
                mime_type: Some(string_of(&chars_of(mime))),
                remote_playback: false,
            })
        },
    }
}

// ---------------------------------------------------------------------------------------------
// Finding a stream for a catalogue track
// ---------------------------------------------------------------------------------------------

/// YouTube Music as a music provider.
pub struct YouTubeMusicProvider;

impl YouTubeMusicProvider {
    pub fn new() -> (r: Self) {
        YouTubeMusicProvider
    }

    /// The video to stream for a catalogue track (e.g. a Spotify track), from the catalogue songs
    /// and (when they were searched) the video uploads found for it: an error when both searches
    /// came back empty or when nothing names the track; else the video id of the picked candidate.
    pub fn resolve_stream_for_track(
            &self,
            songs: &[ProviderTrack],
            videos: &[ProviderTrack],
            reference: &TrackReference,
        ) -> (r: Result<String, String>)
        ensures
            songs@.len() == 0 && videos@.len() == 0 ==> r is Err,
            match r {
                Ok(id) => {
                    &&& !(songs@.len() == 0 && videos@.len() == 0)
                    &&& pick_spec(songs@, videos@, reference.title@, reference.artist@, reference.duration_ms) is Some
                    &&& id@ == track_video_id(
                        pick_spec(songs@, videos@, reference.title@, reference.artist@, reference.duration_ms).unwrap().id@,
                    )
                },
                Err(e) => {
                    ||| (songs@.len() == 0 && videos@.len() == 0 && e@ == search_failed_message(
                        reference.title@,
                        reference.artist@,
                    ))
                    ||| (!(songs@.len() == 0 && videos@.len() == 0) && pick_spec(
                        songs@,
                        videos@,
                        reference.title@,
                        reference.artist@,
                        reference.duration_ms,
                    ) is None && e@ == no_match_message(reference.title@, reference.artist@))
                },
            },
    {
        if songs.len() == 0 && videos.len() == 0 {
            let mut m: Vec<char> = Vec::new();
            push_str(&mut m, "YouTube Music search failed for '");
            push_str(&mut m, reference.artist);
            push_str(&mut m, " ");
            push_str(&mut m, reference.title);
            push_str(&mut m, "'");
            assert(m@ =~= search_failed_message(reference.title@, reference.artist@));
            return Err(string_of(&m));
        }
        match select_candidate(songs, videos, reference) {
            Some(t) => Ok(video_id_of_track(t.id.as_str())),
            None => {
                let mut m: Vec<char> = Vec::new();
                push_str(&mut m, "No confident YouTube match for '");
                push_str(&mut m, reference.title);
                push_str(&mut m, "' by ");
                push_str(&mut m, reference.artist);
                assert(m@ =~= no_match_message(reference.title@, reference.artist@));
                Err(string_of(&m))
            },
        }
    }

    /// The stream of a video: the public player's best audio format when its reply has one, else
    /// the URL yt-dlp printed, else the error explaining that neither worked.
    pub fn resolve_stream(&self, player_reply: Option<&Json>, ytdlp_output: Option<&str>) -> (r: Result<
        TrackAudioSource,
        String,
    >)
        ensures
            match r {
                Ok(src) => if player_reply is Some && player_has_audio(*player_reply.unwrap()) {
                    is_player_source(src, *player_reply.unwrap())
                } else {
                    &&& ytdlp_output is Some
                    &&& ytdlp_url(ytdlp_output.unwrap()@) == Some(src.url@)
                    &&& src.mime_type is Some
                    &&& src.mime_type.unwrap()@ == "audio/mp4"@
                    &&& !src.remote_playback
                },
                Err(e) => {
                    &&& e@ == no_stream_message()
                    &&& !(player_reply is Some && player_has_audio(*player_reply.unwrap()))
                    &&& !(ytdlp_output is Some && ytdlp_url(ytdlp_output.unwrap()@) is Some)
                },
            },
    {
        if let Some(p) = player_reply {
            match best_audio_source(p) {
                Ok(src) => {
                    proof {
                        let fs = player_formats(*p).unwrap();
                        let k = choose|k: int| #![trigger fs[k]] is_best_audio(fs, k) && src.url@ == str_at(
                            fs[k],
                            "url"@,
                        ).unwrap() && src.mime_type is Some && src.mime_type.unwrap()@ == str_at(
                            fs[k],
                            "mimeType"@,
                        ).unwrap();
                        assert(audio_format(fs[k]));
                    }
                    return Ok(src);
                },
                Err(_) => {},
            }
        }
        if let Some(out) = ytdlp_output {
            if let Ok(src) = ytdlp_stream(out) {
                return Ok(src);
            }
        }
        Err(no_stream_error())
    }
}

impl crate::providers::MusicProvider for YouTubeMusicProvider {
    fn provider_id(&self) -> (r: ProviderKind)
        ensures
            r == ProviderKind::YouTubeMusic,
    {
        ProviderKind::YouTubeMusic
    }
}

/// `s` with every leading copy of a non-empty `p` removed (`str::trim_start_matches`).
pub open spec fn strip_leading(s: Seq<char>, p: Seq<char>) -> Seq<char>
    decreases s.len(),
{
    if p.len() > 0 && s.len() >= p.len() && s.take(p.len() as int) == p {
        strip_leading(s.skip(p.len() as int), p)
    } else {
        s
    }
}

/// The video id inside a `ytmusic://track/<id>` track id.
pub open spec fn track_video_id(track_id: Seq<char>) -> Seq<char> {
    strip_leading(track_id, "ytmusic://track/"@)
}

/// The video id of a YouTube Music track id: the id with its `ytmusic://track/` prefix removed.
pub fn video_id_of_track(track_id: &str) -> (r: String)
    ensures
        r@ == track_video_id(track_id@),
{
    let cs = chars_of(track_id);
    let p = chars_of("ytmusic://track/");
    proof {
        reveal_strlit("ytmusic://track/");
    }
    let mut start: usize = 0;
    assert(cs@.skip(0) =~= cs@);
    while start <= cs.len() && p.len() <= cs.len() - start && crate::text::matches_at(&cs, &p, start)
        invariant
            start <= cs@.len(),
            p@.len() > 0,
            track_video_id(track_id@) == strip_leading(cs@.skip(start as int), p@),
            cs@ == track_id@,
            p@ == "ytmusic://track/"@,
        decreases cs@.len() - start,
    {
        let ghost t = cs@.skip(start as int);
        assert(t.take(p@.len() as int) =~= cs@.subrange(start as int, start + p@.len()));
        assert(t.skip(p@.len() as int) =~= cs@.skip(start + p@.len()));
        start = start + p.len();
    }
    let ghost t = cs@.skip(start as int);
    proof {
        if p@.len() <= t.len() {
            assert(t.take(p@.len() as int) =~= cs@.subrange(start as int, start + p@.len()));
        }
    }
    let rest = slice_vec(&cs, start, cs.len());
    assert(rest@ =~= t);
    string_of(&rest)
}

/// What is searched for a catalogue track: its artist, a space, its title.
pub open spec fn stream_query(title: Seq<char>, artist: Seq<char>) -> Seq<char> {
    artist + " "@ + title
}

/// The search text for a catalogue track.
pub fn search_query(title: &str, artist: &str) -> (r: String)
    ensures
        r@ == stream_query(title@, artist@),
{
    let mut out: Vec<char> = Vec::new();
    push_str(&mut out, artist);
    push_str(&mut out, " ");
    push_str(&mut out, title);
    string_of(&out)
}

/// Video search (which is slow) is only needed when no catalogue song matches exactly.
pub fn needs_video_search(songs: &[ProviderTrack], reference: &TrackReference) -> (r: bool)
    ensures
        r == (first_where(
            songs@,
            |t: ProviderTrack| exact_match(t, reference.title@, reference.artist@, reference.duration_ms),
        ) is None),
{
    find_match(songs, reference, true).is_none()
}

/// The message when neither search found anything.
pub open spec fn search_failed_message(title: Seq<char>, artist: Seq<char>) -> Seq<char> {
    "YouTube Music search failed for '"@ + stream_query(title, artist) + "'"@
}

/// The message when nothing found names the track.
pub open spec fn no_match_message(title: Seq<char>, artist: Seq<char>) -> Seq<char> {
    "No confident YouTube match for '"@ + title + "' by "@ + artist
}

/// The message when neither the public player nor yt-dlp gave a stream.
pub open spec fn no_stream_message() -> Seq<char> {
    "Could not resolve audio stream. YouTube Music's public player did not expose a direct stream; install yt-dlp for signature-ciphered videos (`brew install yt-dlp`)."@
}

/// The error given when no stream could be resolved for a video.
pub fn no_stream_error() -> (r: String)
    ensures
        r@ == no_stream_message(),
{
    string_of(&chars_of("Could not resolve audio stream. YouTube Music's public player did not expose a direct stream; install yt-dlp for signature-ciphered videos (`brew install yt-dlp`)."))
}

/// The stream URL yt-dlp printed: the first output line that starts with `http`, trimmed.
pub open spec fn ytdlp_url(output: Seq<char>) -> Option<Seq<char>> {
    first_http_line(crate::text::lines(output))
}

/// The first of some lines that starts with `http`, trimmed.
pub open spec fn first_http_line(ls: Seq<Seq<char>>) -> Option<Seq<char>>
    decreases ls.len(),
{
    if ls.len() == 0 {
        None
    } else if ls[0].len() >= 4 && ls[0].take(4) == "http"@ {
        Some(trim(ls[0]))
    } else {
        first_http_line(ls.drop_first())
    }
}

/// The stream yt-dlp's `-g` output names: an error when no line is a URL.
pub fn ytdlp_stream(output: &str) -> (r: Result<TrackAudioSource, String>)
    ensures
        match r {
            Ok(src) => ytdlp_url(output@) == Some(src.url@) && src.mime_type is Some
                && src.mime_type.unwrap()@ == "audio/mp4"@ && !src.remote_playback,
            Err(e) => ytdlp_url(output@) is None && e@ == "no stream URL returned by yt-dlp"@,
        },
{
    proof {
        reveal_strlit("http");
    }
    let cs = chars_of(output);
    let ranges = crate::text::line_ranges(&cs);
    let ghost ls = crate::text::lines(cs@);
    let mut k: usize = 0;
    assert(ls.skip(0) =~= ls);
    while k < ranges.len()
        invariant
            k <= ranges@.len() == ls.len(),
            ls == crate::text::lines(cs@),
            cs@ == output@,
            forall|m: int|
                0 <= m < ranges@.len() ==> (#[trigger] ranges@[m]).0 <= ranges@[m].1 && ranges@[m].1
                    <= cs@.len(),
            forall|m: int|
                0 <= m < ranges@.len() ==> cs@.subrange(ranges@[m].0 as int, ranges@[m].1 as int)
                    == #[trigger] ls[m],
            first_http_line(ls) == first_http_line(ls.skip(k as int)),
        decreases ranges@.len() - k,
    {
        let (lo, hi) = ranges[k];
        let line = slice_vec(&cs, lo, hi);
        assert(line@ == ls[k as int]);
        assert(ls.skip(k as int)[0] == ls[k as int]);
        assert(ls.skip(k as int).drop_first() =~= ls.skip(k + 1));
        let starts = line.len() >= 4 && line[0] == 'h' && line[1] == 't' && line[2] == 't' && line[3] == 'p';
        proof {
            reveal_strlit("http");
            if line@.len() >= 4 {
                assert(starts == (line@.take(4) == "http"@)) by {
                    if starts {
                        assert(line@.take(4) =~= "http"@);
                    } else if line@.take(4) == "http"@ {
                        assert(line@.take(4)[0] == 'h');
                        assert(line@.take(4)[1] == 't');
                        assert(line@.take(4)[2] == 't');
                        assert(line@.take(4)[3] == 'p');
                    }
                }
            }
        }
        if starts {
            let url = trimmed(&line);
            return Ok(TrackAudioSource {
                url: string_of(&url),
                mime_type: Some(string_of(&chars_of("audio/mp4"))),
                remote_playback: false,
            });
        }
        k = k + 1;
    }
    assert(ls.skip(ls.len() as int) =~= Seq::<Seq<char>>::empty());
    Err(string_of(&chars_of("no stream URL returned by yt-dlp")))
}

// ---------------------------------------------------------------------------------------------
// Laws of the matching rules
// ---------------------------------------------------------------------------------------------

/// Whatever is picked names the reference's song and artist in the same rendition; a picked video
/// is also of the right length; and nothing is picked when no catalogue song names the reference
/// and no video matches it exactly.
pub proof fn lemma_pick_names_reference(
    songs: Seq<ProviderTrack>,
    videos: Seq<ProviderTrack>,
    title: Seq<char>,
    artist: Seq<char>,
    ms: u64,
)
    ensures
        pick_spec(songs, videos, title, artist, ms) matches Some(t) ==> names_reference_spec(
            t.title@,
            t.artist@,
            title,
            artist,
        ),
        (forall|i: int| 0 <= i < songs.len() ==> !names_reference_spec(#[trigger] songs[i].title@, songs[i].artist@, title, artist))
            && (forall|i: int| 0 <= i < videos.len() ==> !exact_match(#[trigger] videos[i], title, artist, ms))
            ==> pick_spec(songs, videos, title, artist, ms) is None,
        pick_spec(songs, videos, title, artist, ms) is Some && !songs.contains(
            pick_spec(songs, videos, title, artist, ms).unwrap(),
        ) ==> exact_match(pick_spec(songs, videos, title, artist, ms).unwrap(), title, artist, ms),
{
    let exact = |t: ProviderTrack| exact_match(t, title, artist, ms);
    let named = |t: ProviderTrack| names_reference_spec(t.title@, t.artist@, title, artist);
    lemma_first_where(songs, exact);
    lemma_first_where(videos, exact);
    lemma_first_where(songs, named);
    if let Some(i) = first_where(songs, exact) {
        assert(songs.contains(songs[i]));
    } else if first_where(videos, exact) is None {
        if let Some(i) = first_where(songs, named) {
            assert(songs.contains(songs[i]));
        }
    }
}

/// An exact catalogue match always wins over any video.
pub proof fn lemma_catalogue_first(
    songs: Seq<ProviderTrack>,
    videos: Seq<ProviderTrack>,
    title: Seq<char>,
    artist: Seq<char>,
    ms: u64,
    k: int,
)
    requires
        0 <= k < songs.len(),
        exact_match(songs[k], title, artist, ms),
    ensures
        pick_spec(songs, videos, title, artist, ms) is Some,
        songs.contains(pick_spec(songs, videos, title, artist, ms).unwrap()),
        exact_match(pick_spec(songs, videos, title, artist, ms).unwrap(), title, artist, ms),
{
    let exact = |t: ProviderTrack| exact_match(t, title, artist, ms);
    lemma_first_where(songs, exact);
    assert(exact(songs[k]));
    let i = first_where(songs, exact).unwrap();
    assert(songs.contains(songs[i]));
}

/// No two neighbouring tracks of a deduplicated list share an id.
pub proof fn lemma_dedup_neighbours_differ(ts: Seq<ProviderTrack>)
    ensures
        forall|i: int| 0 <= i < dedup_ids(ts).len() - 1 ==> (#[trigger] dedup_ids(ts)[i]).id@ != dedup_ids(ts)[i + 1].id@,
    decreases ts.len(),
{
    if ts.len() > 0 {
        let d = dedup_ids(ts.drop_last());
        lemma_dedup_neighbours_differ(ts.drop_last());
        if !(d.len() > 0 && d.last().id@ == ts.last().id@) {
            let e = d.push(ts.last());
            assert forall|i: int| 0 <= i < e.len() - 1 implies (#[trigger] e[i]).id@ != e[i + 1].id@ by {
                if i < d.len() - 1 {
                    assert(e[i] == d[i] && e[i + 1] == d[i + 1]);
                } else {
                    assert(e[i] == d.last());
                }
            }
        }
    }
}


/// The words that mark another rendition of a song: a live take, a cover, a remix, an acoustic,
/// instrumental or karaoke version, a sped-up, slowed or nightcore edit, a reaction, mashup,
/// parody or tribute, an 8D mix, an unplugged or extended version, a performance, concert, tour,
/// session or rehearsal recording, a 528 Hz or 432 Hz retuning, a medley, or a take.
pub open spec fn rendition_markers() -> Seq<Seq<char>> {
    seq![
        "live"@, "cover"@, "remix"@, "acoustic"@, "instrumental"@, "karaoke"@, "sped"@,
        "slowed"@, "nightcore"@, "reaction"@, "mashup"@, "parody"@, "tribute"@, "8d"@,
        "unplugged"@, "extended"@, "perform"@, "performs"@, "performance"@, "concert"@, "tour"@,
        "session"@, "rehearsal"@, "528hz"@, "432hz"@, "medley"@, "take"@,
    ]
}

/// A candidate whose title carries a rendition marker (such as "remix") that the reference title
/// lacks does not name the reference; nor does one that lacks a marker the reference carries.
pub proof fn lemma_rendition_must_agree(
    cand_title: Seq<char>,
    cand_artist: Seq<char>,
    ref_title: Seq<char>,
    ref_artist: Seq<char>,
    marker: Seq<char>,
)
    requires
        rendition_markers().contains(marker),
        words_spec(cand_title).contains(marker) != words_spec(ref_title).contains(marker),
    ensures
        !names_reference_spec(cand_title, cand_artist, ref_title, ref_artist),
{
    let cw = words_spec(cand_title);
    let rw = words_spec(ref_title);
    let pv = |w: Seq<char>| is_variant(w);
    let ms = rendition_markers();
    let k = choose|k: int| 0 <= k < ms.len() && ms[k] == marker;
    assert(is_variant(marker)) by {
        assert(ms[k] == marker);
    }
    if cw.contains(marker) {
        let i = choose|i: int| 0 <= i < cw.len() && cw[i] == marker;
        cw.lemma_filter_contains(pv, i);
        if rw.filter(pv).contains(marker) {
            rw.lemma_filter_contains_rev(pv, marker);
        }
        assert(!rw.filter(pv).contains(marker));
        let cv = cw.filter(pv);
        let j = choose|j: int| 0 <= j < cv.len() && cv[j] == marker;
        assert(!all_in(variants_of(cw), variants_of(rw))) by {
            assert(variants_of(cw) == cv);
            assert(variants_of(rw) == rw.filter(pv));
            assert(!rw.filter(pv).contains(cv[j]));
        }
    } else {
        let i = choose|i: int| 0 <= i < rw.len() && rw[i] == marker;
        rw.lemma_filter_contains(pv, i);
        if cw.filter(pv).contains(marker) {
            cw.lemma_filter_contains_rev(pv, marker);
        }
        let rv = rw.filter(pv);
        let j = choose|j: int| 0 <= j < rv.len() && rv[j] == marker;
        assert(!all_in(variants_of(rw), variants_of(cw))) by {
            assert(variants_of(rw) == rv);
            assert(variants_of(cw) == cw.filter(pv));
            assert(!cw.filter(pv).contains(rv[j]));
        }
    }
}

/// Whatever is picked for a reference is the same rendition as the reference: for every
/// rendition marker, the picked upload's title carries it exactly when the reference title does.
/// A remix is never picked for a title without "remix".
pub proof fn lemma_pick_keeps_the_rendition(
    songs: Seq<ProviderTrack>,
    videos: Seq<ProviderTrack>,
    title: Seq<char>,
    artist: Seq<char>,
    ms: u64,
    marker: Seq<char>,
)
    requires
        rendition_markers().contains(marker),
    ensures
        pick_spec(songs, videos, title, artist, ms) matches Some(t) ==> (words_spec(t.title@).contains(
            marker,
        ) == words_spec(title).contains(marker)),
{
    lemma_pick_names_reference(songs, videos, title, artist, ms);
    if let Some(t) = pick_spec(songs, videos, title, artist, ms) {
        if words_spec(t.title@).contains(marker) != words_spec(title).contains(marker) {
            lemma_rendition_must_agree(t.title@, t.artist@, title, artist, marker);
        }
    }
}

} // verus!
