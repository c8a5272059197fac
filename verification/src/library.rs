//! The local library: which files are audio, how tag text is cleaned, where artwork is stored,
//! and the settings file.
use vstd::prelude::*;
use crate::text::{trim, trimmed, chars_of, string_of, push_str, slice_vec, split_on, split_char, is_blank, find_from, find_seq, ascii_lower, to_ascii_lower};
use crate::lyrics::same_str;
use crate::spotify::sha256;

verus! {

// ---------------------------------------------------------------------------------------------
// Audio files
// ---------------------------------------------------------------------------------------------

/// The last component of a path, ignoring empty and `.` components; none for a path without one
/// or ending in `..` (`Path::file_name`).
pub open spec fn file_name(path: Seq<char>) -> Option<Seq<char>> {
    let comps = split_on(path, '/').filter(|c: Seq<char>| c.len() > 0 && c != seq!['.']);
    if comps.len() == 0 || comps.last() == seq!['.', '.'] {
        None
    } else {
        Some(comps.last())
    }
}

/// Position of the last `.` in a name, or -1.
pub open spec fn last_dot(name: Seq<char>) -> int
    decreases name.len(),
{
    if name.len() == 0 {
        -1
    } else if name.last() == '.' {
        name.len() - 1
    } else {
        last_dot(name.drop_last())
    }
}

/// The extension of a path: what follows the last `.` of its file name, unless that dot starts
/// the name (`Path::extension`).
pub open spec fn extension_of(path: Seq<char>) -> Option<Seq<char>> {
    match file_name(path) {
        None => None,
        Some(name) => {
            let d = last_dot(name);
            if d <= 0 {
                None
            } else {
                Some(name.skip(d + 1))
            }
        },
    }
}

/// An extension of a container Sonora decodes (compared in ASCII lowercase).
pub open spec fn audio_extension(ext: Seq<char>) -> bool {
    let e = ext.map_values(|c: char| ascii_lower(c));
    ||| e == "mp3"@
    ||| e == "flac"@
    ||| e == "wav"@
    ||| e == "ogg"@
    ||| e == "oga"@
    ||| e == "opus"@
    ||| e == "m4a"@
    ||| e == "aac"@
    ||| e == "aiff"@
    ||| e == "aif"@
}

proof fn lemma_last_dot_bounds(name: Seq<char>)
    ensures
        -1 <= last_dot(name) < name.len(),
        last_dot(name) >= 0 ==> name[last_dot(name)] == '.',
        forall|j: int| last_dot(name) < j < name.len() ==> name[j] != '.',
    decreases name.len(),
{
    if name.len() > 0 && name.last() != '.' {
        lemma_last_dot_bounds(name.drop_last());
        assert forall|j: int| last_dot(name) < j < name.len() implies name[j] != '.' by {
            if j < name.len() - 1 {
                assert(name[j] == name.drop_last()[j]);
            }
        }
    }
}

fn file_name_of(path: &Vec<char>) -> (r: Option<Vec<char>>)
    ensures
        match r {
            Some(n) => file_name(path@) == Some(n@),
            None => file_name(path@) is None,
        },
{
    let parts = split_char(path, '/');
    let ghost ps = parts@.map_values(|w: Vec<char>| w@);
    let ghost pred = |c: Seq<char>| c.len() > 0 && c != seq!['.'];
    let mut last: Option<usize> = None;
    let mut count: usize = 0;
    let mut i: usize = 0;
    proof {
        reveal(Seq::filter);
        assert(ps.take(0).filter(pred) =~= Seq::<Seq<char>>::empty());
    }
    while i < parts.len()
        invariant
            i <= parts@.len(),
            ps == parts@.map_values(|w: Vec<char>| w@),
            pred == (|c: Seq<char>| c.len() > 0 && c != seq!['.']),
            count == ps.take(i as int).filter(pred).len(),
            count <= i,
            match last {
                Some(k) => k < i && count > 0 && ps.take(i as int).filter(pred).last() == ps[k as int],
                None => count == 0,
            },
        decreases parts@.len() - i,
    {
        proof {
            assert(ps.take(i + 1) =~= ps.take(i as int).push(ps[i as int]));
            ps.take(i as int).lemma_filter_push(ps[i as int], pred);
        }
        let p = &parts[i];
        let is_dot = p.len() == 1 && p[0] == '.';
        proof {
            if p@.len() == 1 {
                assert(is_dot == (p@ == seq!['.'])) by {
                    if p@[0] == '.' {
                        assert(p@ =~= seq!['.']);
                    }
                }
            } else {
                assert(p@ != seq!['.']);
            }
        }
        if p.len() > 0 && !is_dot {
            last = Some(i);
            count = count + 1;
        }
        i = i + 1;
    }
    assert(ps.take(parts@.len() as int) =~= ps);
    match last {
        None => None,
        Some(k) => {
            let name = &parts[k];
            let is_up = name.len() == 2 && name[0] == '.' && name[1] == '.';
            proof {
                if name@.len() == 2 && name@[0] == '.' && name@[1] == '.' {
                    assert(name@ =~= seq!['.', '.']);
                }
            }
            if is_up {
                None
            } else {
                Some(slice_vec(name, 0, name.len()))
            }
        },
    }
}

/// The extension of a path.
pub fn extension(path: &str) -> (r: Option<String>)
    ensures
        match r {
            Some(e) => extension_of(path@) == Some(e@),
            None => extension_of(path@) is None,
        },
{
    let cs = chars_of(path);
    match file_name_of(&cs) {
        None => None,
        Some(name) => {
            proof {
                lemma_last_dot_bounds(name@);
            }
            let mut d: usize = name.len();
            while d > 0 && name[d - 1] != '.'
                invariant
                    d <= name@.len(),
                    forall|j: int| d <= j < name@.len() ==> name@[j] != '.',
                decreases d,
            {
                d = d - 1;
            }
            proof {
                lemma_last_dot_at(name@, d as int - 1);
            }
            if d <= 1 {
                None
            } else {
                let e = slice_vec(&name, d, name.len());
                assert(e@ =~= name@.skip(d as int));
                Some(string_of(&e))
            }
        },
    }
}

proof fn lemma_last_dot_at(name: Seq<char>, k: int)
    requires
        -1 <= k < name.len(),
        k >= 0 ==> name[k] == '.',
        forall|j: int| k < j < name.len() ==> name[j] != '.',
    ensures
        last_dot(name) == k,
    decreases name.len(),
{
    if name.len() > 0 && k < name.len() - 1 {
        lemma_last_dot_at(name.drop_last(), k);
    }
}

fn lower_ascii(s: &Vec<char>) -> (r: Vec<char>)
    ensures
        r@ == s@.map_values(|c: char| ascii_lower(c)),
{
    let mut out: Vec<char> = Vec::new();
    let mut i: usize = 0;
    while i < s.len()
        invariant
            i <= s@.len(),
            out@ == s@.take(i as int).map_values(|c: char| ascii_lower(c)),
        decreases s@.len() - i,
    {
        out.push(to_ascii_lower(s[i]));
        assert(out@ =~= s@.take(i + 1).map_values(|c: char| ascii_lower(c)));
        i = i + 1;
    }
    assert(s@.take(s@.len() as int) =~= s@);
    out
}

fn ext_is(e: &Vec<char>, lit: &str) -> (r: bool)
    ensures
        r == (e@ == lit@),
{
    crate::text::chars_eq(e, &chars_of(lit))
}

/// Whether a path names a file in a container Sonora decodes.
pub fn is_audio_file(path: &str) -> (r: bool)
    ensures
        r == (extension_of(path@) matches Some(e) && audio_extension(e)),
{
    match extension(path) {
        None => false,
        Some(e) => {
            let low = lower_ascii(&chars_of(e.as_str()));
            ext_is(&low, "mp3") || ext_is(&low, "flac") || ext_is(&low, "wav") || ext_is(&low, "ogg")
                || ext_is(&low, "oga") || ext_is(&low, "opus") || ext_is(&low, "m4a") || ext_is(
                &low,
                "aac",
            ) || ext_is(&low, "aiff") || ext_is(&low, "aif")
        },
    }
}

// ---------------------------------------------------------------------------------------------
// Tag text and artwork
// ---------------------------------------------------------------------------------------------

/// A tag value without NUL characters, trimmed; `Unknown` when nothing is left.
pub open spec fn cleaned(value: Seq<char>) -> Seq<char> {
    let t = trim(value.filter(|c: char| c != '\0'));
    if t.len() == 0 {
        "Unknown"@
    } else {
        t
    }
}

/// A tag value as it is stored: NUL characters (which the index rejects) removed, trimmed, and
/// `Unknown` when nothing is left.
pub fn clean(value: String) -> (r: String)
    ensures
        r@ == cleaned(value@),
{
    let cs = chars_of(value.as_str());
    let ghost pred = |c: char| c != '\0';
    let mut kept: Vec<char> = Vec::new();
    let mut i: usize = 0;
    proof {
        reveal(Seq::filter);
        assert(cs@.take(0).filter(pred) =~= Seq::<char>::empty());
    }
    while i < cs.len()
        invariant
            i <= cs@.len(),
            pred == (|c: char| c != '\0'),
            kept@ == cs@.take(i as int).filter(pred),
        decreases cs@.len() - i,
    {
        proof {
            assert(cs@.take(i + 1) =~= cs@.take(i as int).push(cs@[i as int]));
            cs@.take(i as int).lemma_filter_push(cs@[i as int], pred);
        }
        if cs[i] != '\0' {
            kept.push(cs[i]);
        }
        i = i + 1;
    }
    assert(cs@.take(cs@.len() as int) =~= cs@);
    let t = trimmed(&kept);
    if t.len() == 0 {
        string_of(&chars_of("Unknown"))
    } else {
        string_of(&t)
    }
}

/// The file extension artwork of a MIME type is stored under.
pub open spec fn artwork_extension_spec(mime: Option<Seq<char>>) -> Seq<char> {
    match mime {
        Some(m) => if find_from(m, "png"@, 0) is Some {
            "png"@
        } else if find_from(m, "gif"@, 0) is Some {
            "gif"@
        } else if find_from(m, "bmp"@, 0) is Some {
            "bmp"@
        } else {
            "jpg"@
        },
        None => "jpg"@,
    }
}

/// The file extension artwork of a MIME type is stored under: png, gif or bmp when the type names
/// one, else jpg.
pub fn artwork_extension(mime: Option<&str>) -> (r: &'static str)
    ensures
        r@ == artwork_extension_spec(
            match mime {
                Some(m) => Some(m@),
                None => None,
            },
        ),
{
    match mime {
        Some(m) => {
            let cs = chars_of(m);
            if find_seq(&cs, &chars_of("png"), 0).is_some() {
                "png"
            } else if find_seq(&cs, &chars_of("gif"), 0).is_some() {
                "gif"
            } else if find_seq(&cs, &chars_of("bmp"), 0).is_some() {
                "bmp"
            } else {
                "jpg"
            }
        },
        None => "jpg",
    }
}

/// The lowercase hexadecimal digit of a value below 16.
pub open spec fn hex_digit(v: u8) -> char {
    if v < 10 {
        ((v as int) + ('0' as int)) as char
    } else {
        ((v as int) - 10 + ('a' as int)) as char
    }
}

/// Two lowercase hexadecimal digits per byte.
pub open spec fn hex_spec(bytes: Seq<u8>) -> Seq<char>
    decreases bytes.len(),
{
    if bytes.len() == 0 {
        seq![]
    } else {
        hex_spec(bytes.drop_last()) + seq![hex_digit(bytes.last() / 16), hex_digit(bytes.last() % 16)]
    }
}

fn hex_digit_exec(v: u8) -> (r: char)
    requires
        v < 16,
    ensures
        r == hex_digit(v),
{
    if v < 10 {
        ((v + 48) as u8) as char
    } else {
        ((v - 10 + 97) as u8) as char
    }
}

/// The name artwork is stored under: the lowercase hex SHA-256 of its bytes, a dot, the extension;
/// none for empty artwork. Identical artwork always gets the same name.
pub fn artwork_file_name(data: &[u8], extension: &str) -> (r: Option<String>)
    ensures
        data@.len() == 0 ==> r is None,
        data@.len() > 0 ==> (r matches Some(n) && n@ == hex_spec(sha256(data@)) + "."@ + extension@),
{
    if data.len() == 0 {
        return None;
    }
    let digest = crate::spotify::sha256_digest(data);
    let mut out: Vec<char> = Vec::new();
    let mut i: usize = 0;
    while i < digest.len()
        invariant
            i <= digest@.len(),
            out@ == hex_spec(digest@.take(i as int)),
        decreases digest@.len() - i,
    {
        let b = digest[i];
        assert(digest@.take(i + 1).drop_last() =~= digest@.take(i as int));
        assert(digest@.take(i + 1).last() == b);
        out.push(hex_digit_exec(b / 16));
        out.push(hex_digit_exec(b % 16));
        assert(out@ =~= hex_spec(digest@.take(i + 1)));
        i = i + 1;
    }
    assert(digest@.take(digest@.len() as int) =~= digest@);
    push_str(&mut out, ".");
    push_str(&mut out, extension);
    Some(string_of(&out))
}

/// Counts of one library scan.
#[derive(Debug, Clone, Copy, PartialEq, Eq, Structural)]
pub struct ScanSummary {
    pub scanned: u32,
    pub indexed: u32,
    pub removed: u32,
    pub duration_ms: u64,
}

/// The text fields of a local track, from its path and tags.
pub struct LocalTrackText {
    pub id: String,
    pub title: String,
    pub artist: String,
    pub album: String,
    pub album_artist: Option<String>,
    pub genre: Option<String>,
}

/// A cleaned optional tag, dropped when it cleans to `Unknown`.
pub open spec fn optional_tag(tag: Option<Seq<char>>) -> Option<Seq<char>> {
    match tag {
        Some(t) => if cleaned(t) == "Unknown"@ {
            None
        } else {
            Some(cleaned(t))
        },
        None => None,
    }
}

fn optional_clean(tag: Option<String>) -> (r: Option<String>)
    ensures
        match r {
            Some(v) => optional_tag(
                match tag {
                    Some(t) => Some(t@),
                    None => None,
                },
            ) == Some(v@),
            None => optional_tag(
                match tag {
                    Some(t) => Some(t@),
                    None => None,
                },
            ) is None,
        },
{
    match tag {
        Some(t) => {
            let c = clean(t);
            if same_str(c.as_str(), "Unknown") {
                None
            } else {
                Some(c)
            }
        },
        None => None,
    }
}

/// The text fields of a local track: its id is `local://` and the path; title, artist and album
/// are the cleaned tags (the file stem, or `Unknown Title`, when there is no title tag;
/// `Unknown Artist` and `Unknown Album` when those are missing); album artist and genre are
/// cleaned and dropped when they clean to `Unknown`.
pub fn local_track_text(
    file_path: &str,
    file_stem: Option<String>,
    title: Option<String>,
    artist: Option<String>,
    album: Option<String>,
    album_artist: Option<String>,
    genre: Option<String>,
) -> (r: LocalTrackText)
    ensures
        r.id@ == "local://"@ + file_path@,
        r.title@ == cleaned(
            match title {
                Some(t) => t@,
                None => match file_stem {
                    Some(s) => s@,
                    None => "Unknown Title"@,
                },
            },
        ),
        r.artist@ == cleaned(
            match artist {
                Some(a) => a@,
                None => "Unknown Artist"@,
            },
        ),
        r.album@ == cleaned(
            match album {
                Some(a) => a@,
                None => "Unknown Album"@,
            },
        ),
        match r.album_artist {
            Some(v) => optional_tag(
                match album_artist {
                    Some(t) => Some(t@),
                    None => None,
                },
            ) == Some(v@),
            None => optional_tag(
                match album_artist {
                    Some(t) => Some(t@),
                    None => None,
                },
            ) is None,
        },
        match r.genre {
            Some(v) => optional_tag(
                match genre {
                    Some(t) => Some(t@),
                    None => None,
                },
            ) == Some(v@),
            None => optional_tag(
                match genre {
                    Some(t) => Some(t@),
                    None => None,
                },
            ) is None,
        },
{
    let mut id = chars_of("local://");
    push_str(&mut id, file_path);
    let title_raw = match title {
        Some(t) => t,
        None => match file_stem {
            Some(s) => s,
            None => string_of(&chars_of("Unknown Title")),
        },
    };
    let artist_raw = match artist {
        Some(a) => a,
        None => string_of(&chars_of("Unknown Artist")),
    };
    let album_raw = match album {
        Some(a) => a,
        None => string_of(&chars_of("Unknown Album")),
    };
    LocalTrackText {
        id: string_of(&id),
        title: clean(title_raw),
        artist: clean(artist_raw),
        album: clean(album_raw),
        album_artist: optional_clean(album_artist),
        genre: optional_clean(genre),
    }
}

// ---------------------------------------------------------------------------------------------
// Order of scanned tracks
// ---------------------------------------------------------------------------------------------

/// `a` sorts before `b` the way `String`'s `Ord` orders them: by the first differing character's
/// code point (UTF-8 byte order is code point order), a proper prefix first.
pub open spec fn text_before(a: Seq<char>, b: Seq<char>) -> bool
    decreases a.len(),
{
    if a.len() == 0 {
        b.len() > 0
    } else if b.len() == 0 {
        false
    } else if a[0] != b[0] {
        (a[0] as u32) < (b[0] as u32)
    } else {
        text_before(a.drop_first(), b.drop_first())
    }
}

proof fn lemma_text_before_irreflexive(a: Seq<char>)
    ensures
        !text_before(a, a),
    decreases a.len(),
{
    if a.len() > 0 {
        lemma_text_before_irreflexive(a.drop_first());
    }
}

proof fn lemma_text_before_transitive(a: Seq<char>, b: Seq<char>, c: Seq<char>)
    requires
        text_before(a, b),
        text_before(b, c),
    ensures
        text_before(a, c),
    decreases a.len(),
{
    if a.len() > 0 && b.len() > 0 && c.len() > 0 && a[0] == b[0] && b[0] == c[0] {
        lemma_text_before_transitive(a.drop_first(), b.drop_first(), c.drop_first());
    }
}

fn text_before_exec(a: &str, b: &str) -> (r: bool)
    ensures
        r == text_before(a@, b@),
{
    let x = chars_of(a);
    let y = chars_of(b);
    let mut k: usize = 0;
    assert(x@.skip(0) =~= x@);
    assert(y@.skip(0) =~= y@);
    while k < x.len() && k < y.len() && x[k] == y[k]
        invariant
            k <= x@.len(),
            k <= y@.len(),
            x@ == a@,
            y@ == b@,
            text_before(a@, b@) == text_before(x@.skip(k as int), y@.skip(k as int)),
        decreases x@.len() - k,
    {
        assert(x@.skip(k as int).drop_first() =~= x@.skip(k + 1));
        assert(y@.skip(k as int).drop_first() =~= y@.skip(k + 1));
        k = k + 1;
    }
    if k == x.len() {
        k < y.len()
    } else if k == y.len() {
        false
    } else {
        assert(x@.skip(k as int)[0] == x@[k as int]);
        assert(y@.skip(k as int)[0] == y@[k as int]);
        (x[k] as u32) < (y[k] as u32)
    }
}

/// `order` lists the positions of `ids` in ascending order of the ids, positions with equal ids
/// in their original order: the order a stable sort by id gives.
pub open spec fn sorted_by_id(ids: Seq<String>, order: Seq<usize>) -> bool {
    &&& forall|a: int, b: int|
        0 <= a < b < order.len() ==> !text_before(ids[order[b] as int]@, ids[order[a] as int]@)
    &&& forall|a: int, b: int|
        0 <= a < b < order.len() && ids[order[a] as int]@ == ids[order[b] as int]@ ==> order[a] < order[b]
}

/// `order` holds each position below `n` exactly once.
pub open spec fn is_permutation(order: Seq<usize>, n: nat) -> bool {
    &&& order.len() == n
    &&& forall|a: int| 0 <= a < order.len() ==> order[a] < n
    &&& forall|a: int, b: int| 0 <= a < b < order.len() ==> order[a] != order[b]
}

/// The order scanned tracks are listed in: by id, as a stable sort by id gives (worker
/// completion order varies, so repeated scans must agree on one). Gives the positions of `ids`
/// in that order.
pub fn order_by_id(ids: &Vec<String>) -> (r: Vec<usize>)
    ensures
        is_permutation(r@, ids@.len()),
        sorted_by_id(ids@, r@),
{
    let mut r: Vec<usize> = Vec::new();
    let mut i: usize = 0;
    while i < ids.len()
        invariant
            i <= ids@.len(),
            is_permutation(r@, i as nat),
            sorted_by_id(ids@, r@),
        decreases ids@.len() - i,
    {
        let ghost x = ids@[i as int]@;
        let mut p: usize = 0;
        while p < r.len() && !text_before_exec(ids[i].as_str(), ids[r[p]].as_str())
            invariant
                p <= r@.len(),
                i < ids@.len(),
                x == ids@[i as int]@,
                is_permutation(r@, i as nat),
                forall|q: int| 0 <= q < p ==> !text_before(x, ids@[r@[q] as int]@),
            decreases r@.len() - p,
        {
            p = p + 1;
        }
        let ghost old_r = r@;
        proof {
            if p < old_r.len() {
                assert(text_before(x, ids@[old_r[p as int] as int]@));
            }
        }
        r.insert(p, i);
        proof {
            let n = r@;
            assert(forall|q: int| 0 <= q < n.len() ==> #[trigger] n[q] == (if q < p {
                old_r[q]
            } else if q == p {
                i
            } else {
                old_r[q - 1]
            }));
            assert forall|a: int| 0 <= a < n.len() implies n[a] < i + 1 by {}
            assert forall|a: int, b: int| 0 <= a < b < n.len() implies n[a] != n[b] by {}
            assert forall|a: int, b: int| 0 <= a < b < n.len() implies !text_before(
                ids@[n[b] as int]@,
                ids@[n[a] as int]@,
            ) && (ids@[n[a] as int]@ == ids@[n[b] as int]@ ==> n[a] < n[b]) by {
                if a < p && b == p {
                } else if a == p && b > p {
                    let kq = ids@[old_r[b - 1] as int]@;
                    let kp = ids@[old_r[p as int] as int]@;
                    if b - 1 > p {
                        if text_before(kq, x) {
                            lemma_text_before_transitive(kq, x, kp);
                        }
                        if kq == x {
                            assert(!text_before(kq, kp));
                        }
                    } else {
                        if text_before(kq, x) {
                            lemma_text_before_transitive(kq, x, kp);
                            lemma_text_before_irreflexive(kq);
                        }
                        if kq == x {
                            lemma_text_before_irreflexive(x);
                        }
                    }
                } else if a < p && b > p {
                } else if a > p {
                } else {
                }
            }
        }
        i = i + 1;
    }
    r
}

// ---------------------------------------------------------------------------------------------
// Settings
// ---------------------------------------------------------------------------------------------

/// Persisted settings: the Spotify client id (public by design) and the scanned music folders.
#[derive(Debug, Clone)]
pub struct AppConfig {
    pub spotify_client_id: Option<String>,
    pub music_folders: Vec<String>,
}

/// `Path::join` of a relative name onto a directory.
pub open spec fn joined(dir: Seq<char>, name: Seq<char>) -> Seq<char> {
    if dir.len() == 0 {
        name
    } else if dir.last() == '/' {
        dir + name
    } else {
        dir + seq!['/'] + name
    }
}

impl AppConfig {
    /// Settings with no client id and no folders.
    pub fn new() -> (r: AppConfig)
        ensures
            r.spotify_client_id is None,
            r.music_folders@.len() == 0,
    {
        AppConfig { spotify_client_id: None, music_folders: Vec::new() }
    }

    /// Where the settings file lives in a data directory.
    pub fn path(data_dir: &str) -> (r: String)
        ensures
            r@ == joined(data_dir@, "settings.json"@),
    {
        let mut out = chars_of(data_dir);
        if out.len() > 0 && out[out.len() - 1] != '/' {
            out.push('/');
        }
        push_str(&mut out, "settings.json");
        string_of(&out)
    }

    /// Records the client id, trimmed; a blank one clears it.
    pub fn set_spotify_client_id(&mut self, client_id: &str)
        ensures
            match final(self).spotify_client_id {
                Some(c) => !is_blank(client_id@) && c@ == trim(client_id@),
                None => is_blank(client_id@),
            },
            final(self).music_folders@ == old(self).music_folders@,
    {
        let t = trimmed(&chars_of(client_id));
        proof {
            crate::text::lemma_trim_empty_iff_blank(client_id@);
        }
        self.spotify_client_id = if t.len() == 0 {
            None
        } else {
            Some(string_of(&t))
        };
    }

    /// Adds a scanned folder unless it is already listed.
    pub fn add_music_folder(&mut self, folder: String)
        ensures
            old(self).music_folders@.map_values(|f: String| f@).contains(folder@) ==> final(self).music_folders@.map_values(|f: String| f@)
                == old(self).music_folders@.map_values(|f: String| f@),
            !old(self).music_folders@.map_values(|f: String| f@).contains(folder@) ==> final(self).music_folders@.map_values(|f: String| f@)
                == old(self).music_folders@.map_values(|f: String| f@).push(folder@),
            final(self).spotify_client_id == old(self).spotify_client_id,
    {
        let ghost before = self.music_folders@.map_values(|f: String| f@);
        let mut i: usize = 0;
        while i < self.music_folders.len()
            invariant
                i <= self.music_folders@.len(),
                before == self.music_folders@.map_values(|f: String| f@),
                forall|j: int| 0 <= j < i ==> before[j] != folder@,
            decreases self.music_folders@.len() - i,
        {
            if same_str(self.music_folders[i].as_str(), folder.as_str()) {
                assert(before[i as int] == folder@);
                return;
            }
            i = i + 1;
        }
        self.music_folders.push(folder);
        assert(self.music_folders@.map_values(|f: String| f@) =~= before.push(folder@));
    }
}

/// A cleaned tag value is never empty.
pub proof fn lemma_cleaned_nonempty(value: Seq<char>)
    ensures
        cleaned(value).len() > 0,
{
    reveal_strlit("Unknown");
}


proof fn lemma_split_on_joined(a: Seq<char>, b: Seq<char>, c: char)
    ensures
        split_on(a + seq![c] + b, c) == split_on(a, c) + split_on(b, c),
    decreases a.len(),
{
    let s = a + seq![c] + b;
    crate::text::lemma_first_index_bounds(a, c);
    let i = crate::text::first_index(a, c);
    if i < a.len() {
        crate::text::lemma_first_index_at(s, c, i);
        lemma_split_on_joined(a.skip(i + 1), b, c);
        assert(s.take(i) =~= a.take(i));
        assert(s.skip(i + 1) =~= a.skip(i + 1) + seq![c] + b);
        assert(split_on(s, c) =~= split_on(a, c) + split_on(b, c));
    } else {
        crate::text::lemma_first_index_at(s, c, a.len() as int);
        assert(s.take(a.len() as int) =~= a);
        assert(s.skip(a.len() as int + 1) =~= b);
        assert(split_on(a, c) == seq![a]);
        assert(split_on(s, c) =~= split_on(a, c) + split_on(b, c));
    }
}

proof fn lemma_split_on_without(b: Seq<char>, c: char)
    requires
        !b.contains(c),
    ensures
        split_on(b, c) == seq![b],
{
    assert forall|j: int| 0 <= j < b.len() implies b[j] != c by {
        if b[j] == c {
            assert(b.contains(c));
        }
    }
    crate::text::lemma_first_index_at(b, c, b.len() as int);
}

proof fn lemma_last_dot_before(stem: Seq<char>, ext: Seq<char>)
    requires
        !ext.contains('.'),
    ensures
        last_dot(stem + seq!['.'] + ext) == stem.len(),
    decreases ext.len(),
{
    let name = stem + seq!['.'] + ext;
    if ext.len() > 0 {
        assert(name.last() == ext.last());
        assert(ext.contains(ext.last()) ==> ext.last() != '.');
        assert(ext.contains(ext[ext.len() - 1]));
        assert(name.drop_last() =~= stem + seq!['.'] + ext.drop_last());
        assert(!ext.drop_last().contains('.')) by {
            if ext.drop_last().contains('.') {
                let j = choose|j: int| 0 <= j < ext.drop_last().len() && ext.drop_last()[j] == '.';
                assert(ext[j] == '.');
                assert(ext.contains('.'));
            }
        }
        lemma_last_dot_before(stem, ext.drop_last());
    } else {
        assert(name.last() == '.');
    }
}

/// Every file whose name ends in `.mp3`, `.flac`, `.wav`, `.ogg`, `.oga`, `.opus`, `.m4a`,
/// `.aac`, `.aiff` or `.aif`, in any letter case, is taken for audio, wherever it lies: a path
/// `<dir>/<stem>.<ext>` has the extension `ext`, and the scan indexes it.
pub proof fn lemma_audio_paths_are_indexed(dir: Seq<char>, stem: Seq<char>, ext: Seq<char>)
    requires
        stem.len() > 0,
        !stem.contains('/'),
        !ext.contains('/'),
        !ext.contains('.'),
        ({
            let e = ext.map_values(|c: char| ascii_lower(c));
            ||| e == "mp3"@
            ||| e == "flac"@
            ||| e == "wav"@
            ||| e == "ogg"@
            ||| e == "oga"@
            ||| e == "opus"@
            ||| e == "m4a"@
            ||| e == "aac"@
            ||| e == "aiff"@
            ||| e == "aif"@
        }),
    ensures
        extension_of(dir + seq!['/'] + stem + seq!['.'] + ext) == Some(ext),
        audio_extension(ext),
{
    let name = stem + seq!['.'] + ext;
    let path = dir + seq!['/'] + stem + seq!['.'] + ext;
    assert(path =~= dir + seq!['/'] + name);
    assert(!name.contains('/')) by {
        if name.contains('/') {
            let j = choose|j: int| 0 <= j < name.len() && name[j] == '/';
            if j < stem.len() {
                assert(stem[j] == '/');
                assert(stem.contains('/'));
            } else if j > stem.len() {
                assert(ext[j - stem.len() - 1] == '/');
                assert(ext.contains('/'));
            }
        }
    }
    lemma_split_on_joined(dir, name, '/');
    lemma_split_on_without(name, '/');
    let pred = |c: Seq<char>| c.len() > 0 && c != seq!['.'];
    let parts = split_on(dir, '/');
    assert(split_on(path, '/') =~= parts.push(name));
    assert(ext.map_values(|c: char| ascii_lower(c)).len() == ext.len());
    reveal_strlit("mp3");
    reveal_strlit("flac");
    reveal_strlit("wav");
    reveal_strlit("ogg");
    reveal_strlit("oga");
    reveal_strlit("opus");
    reveal_strlit("m4a");
    reveal_strlit("aac");
    reveal_strlit("aiff");
    reveal_strlit("aif");
    assert(ext.len() >= 3);
    assert(name.len() >= 5);
    assert(pred(name));
    parts.lemma_filter_push(name, pred);
    assert(split_on(path, '/').filter(pred) == parts.filter(pred).push(name));
    assert(name != seq!['.', '.']);
    assert(file_name(path) == Some(name));
    lemma_last_dot_before(stem, ext);
    assert(name.skip(stem.len() as int + 1) =~= ext);
}


/// Only those ten extensions are audio: a file whose extension is anything else (`.txt`, `.jpg`,
/// `.cue`, `.lrc`…) is left out of the scan.
pub proof fn lemma_only_known_extensions(ext: Seq<char>)
    requires
        audio_extension(ext),
    ensures
        ({
            let e = ext.map_values(|c: char| ascii_lower(c));
            ||| e == "mp3"@
            ||| e == "flac"@
            ||| e == "wav"@
            ||| e == "ogg"@
            ||| e == "oga"@
            ||| e == "opus"@
            ||| e == "m4a"@
            ||| e == "aac"@
            ||| e == "aiff"@
            ||| e == "aif"@
        }),
{
}

} // verus!
