//! Synced lyrics: LRC parsing, even layout of plain lyrics, and the decisions around the lyrics
//! cache and the lookup services.
use vstd::prelude::*;
use crate::text::{
    trim, lines, is_blank, first_index, lemma_first_index_bounds, lemma_trim_empty_iff_blank,
    parse_u64_spec, utf8_width, trim_range, find_char, parse_u64, line_ranges, slice_vec,
    chars_of, string_of, chars_eq, pow10, lemma_digits_value_bound, trimmed,
};
use crate::json::{Json, str_field, get_spec, str_at, path_spec, array_spec, u64_spec};
use crate::romanize::{Script, script_of, romanized, no_unassigned_hangul, detect_script_chars, romanize_chars, in_range};

verus! {

/// Where a set of lyrics came from.
#[derive(Debug, Clone, Copy, PartialEq, Eq, Structural)]
pub enum LyricsProvider {
    Embedded,
    Lrclib,
    Netease,
    /// No source had lyrics for the track.
    NotFound,
}

/// One timed line of lyrics, with its transliteration when the line is in a non-Latin script.
#[derive(Debug, Clone)]
pub struct LyricLine {
    pub time_ms: u64,
    pub text: String,
    pub romanized_text: Option<String>,
}

/// Mathematical value of a [`LyricLine`].
pub struct LyricEntry {
    pub time_ms: u64,
    pub text: Seq<char>,
    pub romanized: Option<Seq<char>>,
}

impl View for LyricLine {
    type V = LyricEntry;

    open spec fn view(&self) -> LyricEntry {
        LyricEntry {
            time_ms: self.time_ms,
            text: self.text@,
            romanized: match self.romanized_text {
                Some(r) => Some(r@),
                None => None,
            },
        }
    }
}

/// The lyrics of one track.
#[derive(Debug, Clone)]
pub struct ParsedLyrics {
    pub track_id: String,
    pub lines: Vec<LyricLine>,
    pub has_romanization: bool,
    pub provider: LyricsProvider,
}

pub open spec fn entries_of(ls: Seq<LyricLine>) -> Seq<LyricEntry> {
    ls.map_values(|l: LyricLine| l@)
}

// ---------------------------------------------------------------------------------------------
// Timestamps
// ---------------------------------------------------------------------------------------------

/// The fields of an `mm:ss[.xx]` tag before the fraction is read: minutes (at most three
/// characters, at most 999), two-character seconds below 60, and the text after the separator
/// (`.`, or a second `:`) when there is one.
pub open spec fn timestamp_parts(tag: Seq<char>) -> Option<(u64, u64, Option<Seq<char>>)> {
    let p = first_index(tag, ':');
    if p >= tag.len() {
        None
    } else {
        let min_str = tag.take(p);
        match parse_u64_spec(min_str) {
            None => None,
            Some(minutes) => if min_str.len() > 3 || minutes > 999 {
                None
            } else {
                let sec_part = tag.skip(p + 1);
                let dot = first_index(sec_part, '.');
                let q = if dot < sec_part.len() {
                    dot
                } else {
                    first_index(sec_part, ':')
                };
                let sec_str = sec_part.take(q);
                let frac = if q < sec_part.len() {
                    Some(sec_part.skip(q + 1))
                } else {
                    None
                };
                if sec_str.len() != 2 {
                    None
                } else {
                    match parse_u64_spec(sec_str) {
                        None => None,
                        Some(seconds) => if seconds >= 60 {
                            None
                        } else {
                            Some((minutes, seconds, frac))
                        },
                    }
                }
            },
        }
    }
}

/// Milliseconds a fraction stands for: one digit is tenths, two are hundredths, three or more
/// are read to the millisecond (later digits are ignored); no fraction is 0.
pub open spec fn frac_millis(frac: Option<Seq<char>>) -> Option<u64> {
    match frac {
        None => Some(0),
        Some(f) => if f.len() == 0 {
            Some(0)
        } else if f.len() == 1 {
            match parse_u64_spec(f) {
                Some(v) => Some((v * 100) as u64),
                None => None,
            }
        } else if f.len() == 2 {
            match parse_u64_spec(f) {
                Some(v) => Some((v * 10) as u64),
                None => None,
            }
        } else {
            parse_u64_spec(f.take(3))
        },
    }
}

/// The timestamp an LRC tag stands for, in milliseconds.
pub open spec fn timestamp_ms(tag: Seq<char>) -> Option<u64> {
    match timestamp_parts(tag) {
        None => None,
        Some((m, s, frac)) => match frac_millis(frac) {
            None => None,
            Some(ms) => Some((m * 60_000 + s * 1_000 + ms) as u64),
        },
    }
}

/// Taking the first three bytes of a fraction would cut a multi-byte character in two (the
/// byte-level slice that reads a three-digit fraction cannot be taken there).
pub open spec fn frac_cut_splits_char(f: Seq<char>) -> bool {
    ||| f.len() >= 1 && utf8_width(f[0]) == 4
    ||| f.len() >= 2 && utf8_width(f[0]) == 2 && utf8_width(f[1]) >= 2
    ||| f.len() >= 2 && utf8_width(f[0]) == 1 && utf8_width(f[1]) >= 3
    ||| f.len() >= 3 && utf8_width(f[0]) == 1 && utf8_width(f[1]) == 1 && utf8_width(f[2]) >= 2
}

/// A tag whose fraction cannot be cut at three bytes.
pub open spec fn timestamp_unreadable(tag: Seq<char>) -> bool {
    match timestamp_parts(tag) {
        Some((_, _, Some(f))) => frac_cut_splits_char(f),
        _ => false,
    }
}

proof fn lemma_parse_small(s: Seq<char>)
    requires
        parse_u64_spec(s) is Some,
    ensures
        s.len() == 1 ==> parse_u64_spec(s).unwrap() <= 9,
        s.len() == 2 ==> parse_u64_spec(s).unwrap() <= 99,
        s.len() == 3 ==> parse_u64_spec(s).unwrap() <= 999,
{
    let d = if s.len() > 0 && s[0] == '+' {
        s.drop_first()
    } else {
        s
    };
    lemma_digits_value_bound(d);
    assert(pow10(0) == 1);
    assert(pow10(1) == 10);
    assert(pow10(2) == 100);
    assert(pow10(3) == 1000);
}

fn utf8_width_exec(c: char) -> (r: u8)
    ensures
        r == utf8_width(c),
{
    let u = c as u32;
    if u < 0x80 {
        1
    } else if u < 0x800 {
        2
    } else if u < 0x10000 {
        3
    } else {
        4
    }
}

/// Whether the fraction held in `s[lo..hi]` cannot be cut at three bytes.
fn frac_cut_splits(s: &Vec<char>, lo: usize, hi: usize) -> (r: bool)
    requires
        lo <= hi <= s@.len(),
    ensures
        r == frac_cut_splits_char(s@.subrange(lo as int, hi as int)),
{
    let ghost f = s@.subrange(lo as int, hi as int);
    let n = hi - lo;
    let w0 = if n >= 1 {
        utf8_width_exec(s[lo])
    } else {
        0
    };
    let w1 = if n >= 2 {
        utf8_width_exec(s[lo + 1])
    } else {
        0
    };
    let w2 = if n >= 3 {
        utf8_width_exec(s[lo + 2])
    } else {
        0
    };
    proof {
        if n >= 1 {
            assert(f[0] == s@[lo as int]);
        }
        if n >= 2 {
            assert(f[1] == s@[lo + 1]);
        }
        if n >= 3 {
            assert(f[2] == s@[lo + 2]);
        }
    }
    (n >= 1 && w0 == 4) || (n >= 2 && w0 == 2 && w1 >= 2) || (n >= 2 && w0 == 1 && w1 >= 3) || (n >= 3
        && w0 == 1 && w1 == 1 && w2 >= 2)
}

/// Reads an `mm:ss.xx` tag held in `s[lo..hi]`: an error when its fraction cannot be cut where
/// the reading cuts it.
#[verifier::rlimit(50)]
fn parse_timestamp_tag(s: &Vec<char>, lo: usize, hi: usize) -> (r: Result<Option<u64>, ()>)
    requires
        lo <= hi <= s@.len(),
    ensures
        match r {
            Ok(v) => !timestamp_unreadable(s@.subrange(lo as int, hi as int)) && v == timestamp_ms(
                s@.subrange(lo as int, hi as int),
            ),
            Err(()) => timestamp_unreadable(s@.subrange(lo as int, hi as int)),
        },
{
    let ghost tag = s@.subrange(lo as int, hi as int);
    let colon = find_char(s, lo, hi, ':');
    if colon == hi {
        return Ok(None);
    }
    proof {
        lemma_first_index_bounds(tag, ':');
        assert(tag.take(colon - lo) =~= s@.subrange(lo as int, colon as int));
    }
    let minutes = match parse_u64(s, lo, colon) {
        Some(m) => m,
        None => return Ok(None),
    };
    if colon - lo > 3 || minutes > 999 {
        return Ok(None);
    }
    let sec_lo = colon + 1;
    let ghost sec_part = tag.skip(colon - lo + 1);
    assert(sec_part =~= s@.subrange(sec_lo as int, hi as int));
    let dot = find_char(s, sec_lo, hi, '.');
    let sep = if dot < hi {
        dot
    } else {
        find_char(s, sec_lo, hi, ':')
    };
    proof {
        lemma_first_index_bounds(sec_part, '.');
        lemma_first_index_bounds(sec_part, ':');
        assert(sec_part.take(sep - sec_lo) =~= s@.subrange(sec_lo as int, sep as int));
    }
    if sep - sec_lo != 2 {
        return Ok(None);
    }
    let seconds = match parse_u64(s, sec_lo, sep) {
        Some(v) => v,
        None => return Ok(None),
    };
    if seconds >= 60 {
        return Ok(None);
    }
    let millis: u64 = if sep == hi {
        0
    } else {
        let f_lo = sep + 1;
        let ghost f = sec_part.skip(sep - sec_lo + 1);
        assert(f =~= s@.subrange(f_lo as int, hi as int));
        if frac_cut_splits(s, f_lo, hi) {
            return Err(());
        }
        let flen = hi - f_lo;
        if flen == 0 {
            0
        } else if flen == 1 {
            match parse_u64(s, f_lo, hi) {
                Some(v) => {
                    proof {
                        lemma_parse_small(f);
                    }
                    v * 100
                },
                None => return Ok(None),
            }
        } else if flen == 2 {
            match parse_u64(s, f_lo, hi) {
                Some(v) => {
                    proof {
                        lemma_parse_small(f);
                    }
                    v * 10
                },
                None => return Ok(None),
            }
        } else {
            assert(f.take(3) =~= s@.subrange(f_lo as int, f_lo + 3));
            match parse_u64(s, f_lo, f_lo + 3) {
                Some(v) => {
                    proof {
                        lemma_parse_small(f.take(3));
                    }
                    v
                },
                None => return Ok(None),
            }
        }
    };
    Ok(Some(minutes * 60_000 + seconds * 1_000 + millis))
}

// ---------------------------------------------------------------------------------------------
// LRC lines
// ---------------------------------------------------------------------------------------------

/// Reads the timestamp tags at the front of a line: from the first `[`, each `[tag]` that is a
/// timestamp is taken and the scan continues after it; it stops at the first tag that is not a
/// timestamp (which stays in the text, like `[ar:...]`) or when no complete tag is left. Returns
/// the timestamps and the text left over.
pub open spec fn scan_stamps(rem: Seq<char>) -> (Seq<u64>, Seq<char>)
    decreases rem.len(),
{
    let st = first_index(rem, '[');
    if st >= rem.len() || st < 0 {
        (seq![], rem)
    } else {
        let en = st + first_index(rem.skip(st), ']');
        if en >= rem.len() || en < st {
            (seq![], rem)
        } else {
            match timestamp_ms(rem.subrange(st + 1, en)) {
                Some(ms) => {
                    let rest = scan_stamps(rem.skip(en + 1));
                    (seq![ms] + rest.0, rest.1)
                },
                None => (seq![], rem),
            }
        }
    }
}

/// Every tag the scan reads can be read (see [`timestamp_unreadable`]).
pub open spec fn scan_readable(rem: Seq<char>) -> bool
    decreases rem.len(),
{
    let st = first_index(rem, '[');
    if st >= rem.len() || st < 0 {
        true
    } else {
        let en = st + first_index(rem.skip(st), ']');
        if en >= rem.len() || en < st {
            true
        } else {
            !timestamp_unreadable(rem.subrange(st + 1, en)) && match timestamp_ms(
                rem.subrange(st + 1, en),
            ) {
                Some(_) => scan_readable(rem.skip(en + 1)),
                None => true,
            }
        }
    }
}

/// Timestamps and trimmed text of one LRC line.
pub open spec fn lrc_line(raw: Seq<char>) -> (Seq<u64>, Seq<char>) {
    let scanned = scan_stamps(trim(raw));
    (scanned.0, trim(scanned.1))
}

/// Splits one LRC line held in `s[lo..hi]` into its timestamps and the range of its text.
/// None when a tag the scan reads cannot be cut where it is read.
fn extract_lrc_line(s: &Vec<char>, lo: usize, hi: usize) -> (r: Option<(Vec<u64>, usize, usize)>)
    requires
        lo <= hi <= s@.len(),
    ensures
        match r {
            Some((stamps, a, b)) => {
                &&& scan_readable(trim(s@.subrange(lo as int, hi as int)))
                &&& stamps@ == lrc_line(s@.subrange(lo as int, hi as int)).0
                &&& a <= b <= s@.len()
                &&& s@.subrange(a as int, b as int) == lrc_line(s@.subrange(lo as int, hi as int)).1
            },
            None => !scan_readable(trim(s@.subrange(lo as int, hi as int))),
        },
{
    let ghost raw = s@.subrange(lo as int, hi as int);
    let (mut a, b) = trim_range(s, lo, hi);
    let mut stamps: Vec<u64> = Vec::new();
    loop
        invariant
            lo <= a <= b <= hi <= s@.len(),
            raw == s@.subrange(lo as int, hi as int),
            scan_stamps(trim(raw)).0 == stamps@ + scan_stamps(s@.subrange(a as int, b as int)).0,
            scan_stamps(trim(raw)).1 == scan_stamps(s@.subrange(a as int, b as int)).1,
            scan_readable(trim(raw)) == scan_readable(s@.subrange(a as int, b as int)),
        ensures
            lo <= a <= b <= hi,
            scan_stamps(trim(raw)).0 == stamps@,
            scan_stamps(trim(raw)).1 == s@.subrange(a as int, b as int),
            scan_readable(trim(raw)),
        decreases b - a,
    {
        let ghost rem = s@.subrange(a as int, b as int);
        let st = find_char(s, a, b, '[');
        proof {
            lemma_first_index_bounds(rem, '[');
        }
        if st == b {
            assert(scan_stamps(rem) == (Seq::<u64>::empty(), rem));
            assert(stamps@ + Seq::<u64>::empty() =~= stamps@);
            break;
        }
        let ghost after = rem.skip(st - a);
        assert(after =~= s@.subrange(st as int, b as int));
        let en = find_char(s, st, b, ']');
        proof {
            lemma_first_index_bounds(after, ']');
        }
        if en == b {
            assert(scan_stamps(rem) == (Seq::<u64>::empty(), rem));
            assert(stamps@ + Seq::<u64>::empty() =~= stamps@);
            break;
        }
        assert(rem.subrange(st - a + 1, en - a) =~= s@.subrange(st + 1, en as int));
        match parse_timestamp_tag(s, st + 1, en) {
            Err(()) => {
                assert(!scan_readable(rem));
                return None;
            },
            Ok(Some(ms)) => {
                assert(rem.skip(en - a + 1) =~= s@.subrange(en + 1, b as int));
                let ghost rest = scan_stamps(s@.subrange(en + 1, b as int));
                assert(scan_stamps(rem) == (seq![ms] + rest.0, rest.1));
                stamps.push(ms);
                assert(stamps@ + rest.0 =~= (stamps@.drop_last() + (seq![ms] + rest.0)));
                a = en + 1;
            },
            Ok(None) => {
                assert(scan_stamps(rem) == (Seq::<u64>::empty(), rem));
                assert(stamps@ + Seq::<u64>::empty() =~= stamps@);
                break;
            },
        }
    }
    let (x, y) = trim_range(s, a, b);
    Some((stamps, x, y))
}

// ---------------------------------------------------------------------------------------------
// Romanized entries
// ---------------------------------------------------------------------------------------------

/// The transliteration kept for a line: only for non-Latin scripts, and only when it changed
/// something.
pub open spec fn romanization(text: Seq<char>) -> Option<Seq<char>> {
    match script_of(text) {
        Script::Latin | Script::Other => None,
        _ => if romanized(text) != text {
            Some(romanized(text))
        } else {
            None
        },
    }
}

/// A line can be transliterated (Hangul lines must avoid the unassigned syllable tail).
pub open spec fn romanizable(text: Seq<char>) -> bool {
    script_of(text) == Script::Korean ==> no_unassigned_hangul(text)
}

fn line_romanization(text: &Vec<char>) -> (r: Option<Vec<char>>)
    requires
        romanizable(text@),
    ensures
        match r {
            Some(v) => romanization(text@) == Some(v@),
            None => romanization(text@) is None,
        },
{
    match detect_script_chars(text) {
        Script::Latin | Script::Other => None,
        _ => {
            let converted = romanize_chars(text);
            if chars_eq(&converted, text) {
                None
            } else {
                Some(converted)
            }
        },
    }
}

fn make_line(time_ms: u64, text: &Vec<char>, rom: &Option<Vec<char>>) -> (l: LyricLine)
    ensures
        l@ == (LyricEntry {
            time_ms,
            text: text@,
            romanized: match rom {
                Some(r) => Some(r@),
                None => None,
            },
        }),
{
    LyricLine {
        time_ms,
        text: string_of(text),
        romanized_text: match rom {
            Some(r) => Some(string_of(r)),
            None => None,
        },
    }
}

/// The entries one LRC line contributes: one per timestamp, all with the line's text, when it
/// has both timestamps and text.
pub open spec fn line_entries(raw: Seq<char>) -> Seq<LyricEntry> {
    let l = lrc_line(raw);
    if l.0.len() == 0 || l.1.len() == 0 {
        seq![]
    } else {
        l.0.map_values(|t: u64| LyricEntry { time_ms: t, text: l.1, romanized: romanization(l.1) })
    }
}

/// All entries of a sequence of LRC lines, in order.
pub open spec fn lrc_entries(ls: Seq<Seq<char>>) -> Seq<LyricEntry>
    decreases ls.len(),
{
    if ls.len() == 0 {
        seq![]
    } else {
        lrc_entries(ls.drop_last()) + line_entries(ls.last())
    }
}

/// A line contributes entries that carry a transliteration.
pub open spec fn line_romanizes(raw: Seq<char>) -> bool {
    let l = lrc_line(raw);
    l.0.len() > 0 && l.1.len() > 0 && romanization(l.1) is Some
}

/// Entries strictly ordered by time.
pub open spec fn strictly_ascending(out: Seq<LyricEntry>) -> bool {
    forall|i: int, j: int| 0 <= i < j < out.len() ==> #[trigger] out[i].time_ms < #[trigger] out[j].time_ms
}

/// `es[k]` is the first entry with its time.
pub open spec fn first_with_time(es: Seq<LyricEntry>, k: int) -> bool {
    0 <= k < es.len() && forall|k2: int| 0 <= k2 < k ==> #[trigger] es[k2].time_ms != es[k].time_ms
}

/// `out[i]` is the first entry of `es` with its time.
pub open spec fn witnessed_at(out: Seq<LyricEntry>, es: Seq<LyricEntry>, i: int) -> bool {
    exists|k: int| first_with_time(es, k) && #[trigger] es[k] == out[i]
}

/// Every entry of `out` is the first entry of `es` with its time.
#[verifier::opaque]
pub open spec fn witnessed(out: Seq<LyricEntry>, es: Seq<LyricEntry>) -> bool {
    forall|i: int| 0 <= i < out.len() ==> #[trigger] witnessed_at(out, es, i)
}

/// Every time of `es` occurs in `out`.
#[verifier::opaque]
pub open spec fn covered(out: Seq<LyricEntry>, es: Seq<LyricEntry>) -> bool {
    forall|k: int|
        0 <= k < es.len() ==> exists|i: int| 0 <= i < out.len() && #[trigger] out[i].time_ms == #[trigger] es[k].time_ms
}

/// `out` holds, in ascending time order, exactly one entry per distinct time of `es`: the first
/// entry of `es` with that time. (This is what a stable sort by time followed by removal of
/// repeated times produces.)
pub open spec fn first_per_time(out: Seq<LyricEntry>, es: Seq<LyricEntry>) -> bool {
    &&& strictly_ascending(out)
    &&& witnessed(out, es)
    &&& covered(out, es)
}

proof fn lemma_first_per_time_empty()
    ensures
        first_per_time(seq![], seq![]),
{
    reveal(witnessed);
    reveal(covered);
}

proof fn lemma_push_prefix(es: Seq<LyricEntry>, e: LyricEntry)
    ensures
        forall|k: int| 0 <= k < es.len() ==> #[trigger] es.push(e)[k] == es[k],
        forall|k: int| first_with_time(es, k) ==> first_with_time(es.push(e), k),
{
    assert forall|k: int| first_with_time(es, k) implies first_with_time(es.push(e), k) by {
        assert forall|k2: int| 0 <= k2 < k implies #[trigger] es.push(e)[k2].time_ms != es.push(
            e,
        )[k].time_ms by {
            assert(es.push(e)[k2] == es[k2]);
            assert(es.push(e)[k] == es[k]);
        }
    }
}

/// An entry whose time is already present leaves the output unchanged.
proof fn lemma_add_present(o: Seq<LyricEntry>, es: Seq<LyricEntry>, e: LyricEntry, p: int)
    requires
        first_per_time(o, es),
        0 <= p < o.len(),
        o[p].time_ms == e.time_ms,
    ensures
        first_per_time(o, es.push(e)),
{
    lemma_witnessed_push(o, es, e);
    lemma_covered_present(o, es, e, p);
}

proof fn lemma_witnessed_push(o: Seq<LyricEntry>, es: Seq<LyricEntry>, e: LyricEntry)
    requires
        witnessed(o, es),
    ensures
        witnessed(o, es.push(e)),
{
    let es2 = es.push(e);
    lemma_push_prefix(es, e);
    reveal(witnessed);
    assert forall|i: int| 0 <= i < o.len() implies #[trigger] witnessed_at(o, es2, i) by {
        let k = lemma_witness_of(o, es, i);
        assert(first_with_time(es2, k));
        assert(es2[k] == es[k]);
    }
}

proof fn lemma_witness_of(o: Seq<LyricEntry>, es: Seq<LyricEntry>, i: int) -> (k: int)
    requires
        witnessed(o, es),
        0 <= i < o.len(),
    ensures
        first_with_time(es, k),
        es[k] == o[i],
{
    reveal(witnessed);
    assert(witnessed_at(o, es, i));
    choose|k: int| first_with_time(es, k) && #[trigger] es[k] == o[i]
}

proof fn lemma_covered_present(o: Seq<LyricEntry>, es: Seq<LyricEntry>, e: LyricEntry, p: int)
    requires
        covered(o, es),
        0 <= p < o.len(),
        o[p].time_ms == e.time_ms,
    ensures
        covered(o, es.push(e)),
{
    let es2 = es.push(e);
    reveal(covered);
    assert forall|k: int|
        0 <= k < es2.len() implies exists|i: int| 0 <= i < o.len() && #[trigger] o[i].time_ms
        == #[trigger] es2[k].time_ms by {
        if k < es.len() {
            assert(es2[k] == es[k]);
            let i = choose|i: int|
                0 <= i < o.len() && #[trigger] o[i].time_ms == #[trigger] es[k].time_ms;
            assert(o[i].time_ms == es2[k].time_ms);
        } else {
            assert(es2[k] == e);
            assert(o[p].time_ms == es2[k].time_ms);
        }
    }
}

/// Inserting at the first later position keeps the output ascending.
proof fn lemma_insert_ascending(o: Seq<LyricEntry>, e: LyricEntry, p: int)
    requires
        strictly_ascending(o),
        0 <= p <= o.len(),
        forall|i: int| 0 <= i < p ==> (#[trigger] o[i]).time_ms < e.time_ms,
        p < o.len() ==> o[p].time_ms > e.time_ms,
    ensures
        strictly_ascending(o.insert(p, e)),
{
    let n = o.insert(p, e);
    assert forall|i: int| 0 <= i < n.len() implies #[trigger] n[i] == (if i < p {
        o[i]
    } else if i == p {
        e
    } else {
        o[i - 1]
    }) by {}
    assert forall|i: int, j: int|
        0 <= i < j < n.len() implies #[trigger] n[i].time_ms < #[trigger] n[j].time_ms by {
        if j < p {
            assert(o[i].time_ms < o[j].time_ms);
        } else if j == p {
            assert(o[i].time_ms < e.time_ms);
        } else if i < p {
            assert(o[i].time_ms < e.time_ms);
            if p < j - 1 {
                assert(o[p].time_ms < o[j - 1].time_ms);
            }
        } else if i == p {
            if p < j - 1 {
                assert(o[p].time_ms < o[j - 1].time_ms);
            }
        } else {
            assert(o[i - 1].time_ms < o[j - 1].time_ms);
        }
    }
}

/// Inserting an entry with a new time at its place yields the output for the longer input.
#[verifier::rlimit(80)]
proof fn lemma_add_absent(o: Seq<LyricEntry>, es: Seq<LyricEntry>, e: LyricEntry, p: int)
    requires
        first_per_time(o, es),
        0 <= p <= o.len(),
        forall|i: int| 0 <= i < p ==> (#[trigger] o[i]).time_ms < e.time_ms,
        p < o.len() ==> o[p].time_ms > e.time_ms,
    ensures
        first_per_time(o.insert(p, e), es.push(e)),
{
    let es2 = es.push(e);
    let n = o.insert(p, e);
    lemma_push_prefix(es, e);
    lemma_insert_ascending(o, e, p);
    reveal(witnessed);
    reveal(covered);
    assert forall|i: int| 0 <= i < n.len() implies #[trigger] n[i] == (if i < p {
        o[i]
    } else if i == p {
        e
    } else {
        o[i - 1]
    }) by {}
    assert forall|i: int| 0 <= i < o.len() implies (#[trigger] o[i]).time_ms != e.time_ms by {
        if i > p {
            assert(o[p].time_ms < o[i].time_ms);
        }
    }
    assert forall|i: int| 0 <= i < n.len() implies #[trigger] witnessed_at(n, es2, i) by {
        if i == p {
            let k = es.len() as int;
            assert(es2[k] == e);
            assert forall|k2: int| 0 <= k2 < k implies #[trigger] es2[k2].time_ms
                != es2[k].time_ms by {
                assert(es2[k2] == es[k2]);
                let w = choose|w: int|
                    0 <= w < o.len() && #[trigger] o[w].time_ms == #[trigger] es[k2].time_ms;
                assert(o[w].time_ms != e.time_ms);
            }
            assert(first_with_time(es2, k));
        } else {
            let oi = if i < p {
                i
            } else {
                i - 1
            };
            assert(n[i] == o[oi]);
            let k = lemma_witness_of(o, es, oi);
            assert(first_with_time(es2, k));
            assert(es2[k] == es[k]);
        }
    }
    assert forall|k: int|
        0 <= k < es2.len() implies exists|i: int| 0 <= i < n.len() && #[trigger] n[i].time_ms
        == #[trigger] es2[k].time_ms by {
        if k < es.len() {
            assert(es2[k] == es[k]);
            let w = choose|w: int|
                0 <= w < o.len() && #[trigger] o[w].time_ms == #[trigger] es[k].time_ms;
            let ni = if w < p {
                w
            } else {
                w + 1
            };
            assert(n[ni].time_ms == es2[k].time_ms);
        } else {
            assert(n[p].time_ms == es2[k].time_ms);
        }
    }
}

/// Adds `line` unless its time is already present, keeping the order.
fn add_entry(out: &mut Vec<LyricLine>, line: LyricLine, Ghost(es): Ghost<Seq<LyricEntry>>)
    requires
        first_per_time(entries_of(old(out)@), es),
    ensures
        first_per_time(entries_of(final(out)@), es.push(line@)),
{
    let ghost o = entries_of(out@);
    let ghost e = line@;
    let mut p: usize = 0;
    while p < out.len() && out[p].time_ms < line.time_ms
        invariant
            p <= out@.len(),
            o == entries_of(out@),
            e == line@,
            forall|i: int| 0 <= i < p ==> (#[trigger] o[i]).time_ms < e.time_ms,
        decreases out@.len() - p,
    {
        p = p + 1;
    }
    if p < out.len() && out[p].time_ms == line.time_ms {
        proof {
            lemma_add_present(o, es, e, p as int);
        }
        return;
    }
    proof {
        lemma_add_absent(o, es, e, p as int);
    }
    out.insert(p, line);
    assert(entries_of(out@) =~= o.insert(p as int, e));
}

// ---------------------------------------------------------------------------------------------
// Whole texts
// ---------------------------------------------------------------------------------------------

/// Every line of an LRC text can be read: its tags can be cut where the scan reads them, and a
/// line that yields entries can be transliterated.
pub open spec fn lrc_readable(content: Seq<char>) -> bool {
    forall|k: int| 0 <= k < lines(content).len() ==> lrc_line_readable(#[trigger] lines(content)[k])
}

/// One LRC line can be read: its tags can be cut where the scan reads them, and when it yields
/// entries its text can be transliterated.
pub open spec fn lrc_line_readable(raw: Seq<char>) -> bool {
    &&& scan_readable(trim(raw))
    &&& (lrc_line(raw).0.len() > 0 && lrc_line(raw).1.len() > 0) ==> romanizable(lrc_line(raw).1)
}

/// Some line of the text yields entries with a transliteration.
pub open spec fn lrc_romanizes(content: Seq<char>) -> bool {
    exists|k: int| 0 <= k < lines(content).len() && #[trigger] line_romanizes(lines(content)[k])
}

proof fn lemma_lrc_entries_step(ls: Seq<Seq<char>>, k: int)
    requires
        0 <= k < ls.len(),
    ensures
        lrc_entries(ls.take(k + 1)) == lrc_entries(ls.take(k)) + line_entries(ls[k]),
{
    assert(ls.take(k + 1).drop_last() =~= ls.take(k));
}

/// Parses LRC text into timed lines, adding a transliteration for lines in non-Latin scripts.
///
/// A line may carry several timestamps (a repeated chorus); each stamp gives an entry of its own.
/// The entries come out ordered by time, with one entry per distinct time (the first one the
/// text gives for it).
pub fn parse_lrc(track_id: &str, lrc_content: &str, provider: LyricsProvider) -> (r: ParsedLyrics)
    requires
        lrc_readable(lrc_content@),
    ensures
        r.track_id@ == track_id@,
        r.provider == provider,
        first_per_time(entries_of(r.lines@), lrc_entries(lines(lrc_content@))),
        r.has_romanization == lrc_romanizes(lrc_content@),
{
    let cs = chars_of(lrc_content);
    let ranges = line_ranges(&cs);
    let ghost ls = lines(cs@);
    let mut out: Vec<LyricLine> = Vec::new();
    let mut has_romanization = false;
    let ghost mut es: Seq<LyricEntry> = seq![];
    proof {
        lemma_first_per_time_empty();
        assert(ls.take(0) =~= seq![]);
        assert(entries_of(out@) =~= seq![]);
    }
    let mut k: usize = 0;
    while k < ranges.len()
        invariant
            k <= ranges@.len() == ls.len(),
            ls == lines(cs@),
            cs@ == lrc_content@,
            lrc_readable(cs@),
            forall|m: int|
                0 <= m < ranges@.len() ==> (#[trigger] ranges@[m]).0 <= ranges@[m].1 && ranges@[m].1
                    <= cs@.len(),
            forall|m: int|
                0 <= m < ranges@.len() ==> cs@.subrange(ranges@[m].0 as int, ranges@[m].1 as int)
                    == #[trigger] ls[m],
            es == lrc_entries(ls.take(k as int)),
            first_per_time(entries_of(out@), es),
            has_romanization == exists|m: int| 0 <= m < k && #[trigger] line_romanizes(ls[m]),
        decreases ranges@.len() - k,
    {
        let (lo, hi) = ranges[k];
        let ghost raw = ls[k as int];
        assert(cs@.subrange(lo as int, hi as int) == raw);
        let (stamps, a, b) = match extract_lrc_line(&cs, lo, hi) {
            Some(t) => t,
            None => {
                assert(false);
                (Vec::new(), lo, lo)
            },
        };
        proof {
            lemma_lrc_entries_step(ls, k as int);
        }
        if stamps.len() == 0 || a == b {
            assert(line_entries(raw) =~= seq![]);
            assert(es + line_entries(raw) =~= es);
            assert(!line_romanizes(raw));
            assert((exists|m: int| 0 <= m < k + 1 && #[trigger] line_romanizes(ls[m])) == (exists|
                m: int,
            | 0 <= m < k && #[trigger] line_romanizes(ls[m])));
        } else {
            let text = slice_vec(&cs, a, b);
            let rom = line_romanization(&text);
            let ghost entries = line_entries(raw);
            assert(line_romanizes(raw) == rom.is_some());
            has_romanization = has_romanization || rom.is_some();
            assert(has_romanization == exists|m: int| 0 <= m < k + 1 && #[trigger] line_romanizes(
                ls[m],
            )) by {
                if line_romanizes(raw) {
                    assert(line_romanizes(ls[k as int]));
                }
            }
            let ghost base = es;
            let mut j: usize = 0;
            while j < stamps.len()
                invariant
                    j <= stamps@.len(),
                    stamps@ == lrc_line(raw).0,
                    text@ == lrc_line(raw).1,
                    text@.len() > 0,
                    stamps@.len() > 0,
                    entries == line_entries(raw),
                    match rom {
                        Some(v) => romanization(text@) == Some(v@),
                        None => romanization(text@) is None,
                    },
                    es == base + entries.take(j as int),
                    first_per_time(entries_of(out@), es),
                decreases stamps@.len() - j,
            {
                let line = make_line(stamps[j], &text, &rom);
                assert(line@ == entries[j as int]);
                add_entry(&mut out, line, Ghost(es));
                proof {
                    es = es.push(line@);
                    assert(entries.take(j + 1) =~= entries.take(j as int).push(entries[j as int]));
                    assert(es =~= base + entries.take(j + 1));
                }
                j = j + 1;
            }
            assert(entries.take(stamps@.len() as int) =~= entries);
        }
        k = k + 1;
    }
    assert(ls.take(ls.len() as int) =~= ls);
    ParsedLyrics {
        track_id: string_of(&chars_of(track_id)),
        lines: out,
        has_romanization,
        provider,
    }
}

/// The non-blank lines of a text, trimmed, in order.
pub open spec fn plain_lines(ls: Seq<Seq<char>>) -> Seq<Seq<char>>
    decreases ls.len(),
{
    if ls.len() == 0 {
        seq![]
    } else {
        let t = trim(ls.last());
        plain_lines(ls.drop_last()) + if t.len() > 0 {
            seq![t]
        } else {
            seq![]
        }
    }
}

/// The spacing between laid-out lines: the duration (at least 1 ms) split evenly.
pub open spec fn plain_step(duration_ms: u64, n: nat) -> u64 {
    ((if duration_ms == 0 {
        1
    } else {
        duration_ms as int
    }) / (n as int)) as u64
}

/// The entry a plain lyric line gets at position `i`.
pub open spec fn plain_entry(text: Seq<char>, i: int, step: u64) -> LyricEntry {
    LyricEntry { time_ms: (i * step) as u64, text, romanized: romanization(text) }
}

/// The non-blank lines of the text can be transliterated.
pub open spec fn plain_readable(text: Seq<char>) -> bool {
    forall|i: int|
        0 <= i < plain_lines(lines(text)).len() ==> romanizable(
            #[trigger] plain_lines(lines(text))[i],
        )
}

proof fn lemma_plain_lines_step(ls: Seq<Seq<char>>, k: int)
    requires
        0 <= k < ls.len(),
    ensures
        plain_lines(ls.take(k + 1)) == plain_lines(ls.take(k)) + if trim(ls[k]).len() > 0 {
            seq![trim(ls[k])]
        } else {
            seq![]
        },
{
    assert(ls.take(k + 1).drop_last() =~= ls.take(k));
}

proof fn lemma_step_times(i: int, n: int, d: int, step: int)
    requires
        0 <= i < n,
        1 <= d,
        step == d / n,
    ensures
        0 <= i * step <= d,
{
    assert(0 <= step) by (nonlinear_arith)
        requires
            1 <= d,
            1 <= n,
            step == d / n,
    ;
    assert(i * step <= n * step) by (nonlinear_arith)
        requires
            0 <= i < n,
            0 <= step,
    ;
    assert(n * step <= d) by (nonlinear_arith)
        requires
            1 <= n,
            step == d / n,
            1 <= d,
    ;
    assert(0 <= i * step) by (nonlinear_arith)
        requires
            0 <= i,
            0 <= step,
    ;
}

/// Lays plain (unsynced) lyrics out evenly over the track: the non-blank lines, trimmed, one every
/// `max(duration, 1) / count` milliseconds from 0. A text with no such line gives no lines and
/// the `NotFound` provider.
pub fn lay_out_plain_lyrics(track_id: &str, text: &str, duration_ms: u64, provider: LyricsProvider) -> (r:
    ParsedLyrics)
    requires
        plain_readable(text@),
    ensures
        r.track_id@ == track_id@,
        ({
            let plain = plain_lines(lines(text@));
            let step = plain_step(duration_ms, plain.len());
            if plain.len() == 0 {
                &&& r.lines@.len() == 0
                &&& !r.has_romanization
                &&& r.provider == LyricsProvider::NotFound
            } else {
                &&& r.provider == provider
                &&& r.lines@.len() == plain.len()
                &&& forall|i: int|
                    0 <= i < plain.len() ==> (#[trigger] r.lines@[i])@ == plain_entry(
                        plain[i],
                        i,
                        step,
                    )
                &&& r.has_romanization == exists|i: int|
                    0 <= i < plain.len() && (#[trigger] romanization(plain[i])) is Some
            }
        }),
{
    let cs = chars_of(text);
    let ranges = line_ranges(&cs);
    let ghost ls = lines(cs@);
    let mut raw: Vec<(usize, usize)> = Vec::new();
    let mut k: usize = 0;
    assert(ls.take(0) =~= seq![]);
    while k < ranges.len()
        invariant
            k <= ranges@.len() == ls.len(),
            ls == lines(cs@),
            forall|m: int|
                0 <= m < ranges@.len() ==> (#[trigger] ranges@[m]).0 <= ranges@[m].1 && ranges@[m].1
                    <= cs@.len(),
            forall|m: int|
                0 <= m < ranges@.len() ==> cs@.subrange(ranges@[m].0 as int, ranges@[m].1 as int)
                    == #[trigger] ls[m],
            raw@.len() == plain_lines(ls.take(k as int)).len(),
            forall|m: int|
                0 <= m < raw@.len() ==> (#[trigger] raw@[m]).0 <= raw@[m].1 && raw@[m].1
                    <= cs@.len(),
            forall|m: int|
                0 <= m < raw@.len() ==> cs@.subrange(raw@[m].0 as int, raw@[m].1 as int)
                    == #[trigger] plain_lines(ls.take(k as int))[m],
        decreases ranges@.len() - k,
    {
        let (lo, hi) = ranges[k];
        let (a, b) = trim_range(&cs, lo, hi);
        proof {
            lemma_plain_lines_step(ls, k as int);
        }
        let ghost before = plain_lines(ls.take(k as int));
        if a < b {
            raw.push((a, b));
        }
        k = k + 1;
        assert forall|m: int| 0 <= m < raw@.len() implies cs@.subrange(
            raw@[m].0 as int,
            raw@[m].1 as int,
        ) == #[trigger] plain_lines(ls.take(k as int))[m] by {
            if m < before.len() {
                assert(plain_lines(ls.take(k as int))[m] == before[m]);
            }
        }
    }
    assert(ls.take(ls.len() as int) =~= ls);
    let ghost plain = plain_lines(ls);
    let n = raw.len();
    if n == 0 {
        return ParsedLyrics {
            track_id: string_of(&chars_of(track_id)),
            lines: Vec::new(),
            has_romanization: false,
            provider: LyricsProvider::NotFound,
        };
    }
    let d: u64 = if duration_ms == 0 {
        1
    } else {
        duration_ms
    };
    let step: u64 = d / (n as u64);
    assert(step == plain_step(duration_ms, plain.len()));
    let mut out: Vec<LyricLine> = Vec::new();
    let mut has_romanization = false;
    let mut i: usize = 0;
    while i < n
        invariant
            i <= n == raw@.len() == plain.len(),
            n > 0,
            1 <= d,
            step == (d as int) / (n as int),
            plain == plain_lines(lines(text@)),
            plain_readable(text@),
            forall|m: int|
                0 <= m < raw@.len() ==> (#[trigger] raw@[m]).0 <= raw@[m].1 && raw@[m].1
                    <= cs@.len(),
            forall|m: int|
                0 <= m < raw@.len() ==> cs@.subrange(raw@[m].0 as int, raw@[m].1 as int)
                    == #[trigger] plain[m],
            out@.len() == i,
            forall|m: int| 0 <= m < i ==> (#[trigger] out@[m])@ == plain_entry(plain[m], m, step),
            has_romanization == exists|m: int|
                0 <= m < i && (#[trigger] romanization(plain[m])) is Some,
        decreases n - i,
    {
        let (a, b) = raw[i];
        let line_text = slice_vec(&cs, a, b);
        assert(romanizable(plain[i as int]));
        let rom = line_romanization(&line_text);
        proof {
            lemma_step_times(i as int, n as int, d as int, step as int);
        }
        let time_ms = (i as u64) * step;
        let line = make_line(time_ms, &line_text, &rom);
        let ghost was = has_romanization;
        has_romanization = has_romanization || rom.is_some();
        assert(has_romanization == exists|m: int|
            0 <= m < i + 1 && (#[trigger] romanization(plain[m])) is Some) by {
            if rom.is_some() {
                assert(romanization(plain[i as int]) is Some);
            }
        }
        out.push(line);
        i = i + 1;
    }
    ParsedLyrics {
        track_id: string_of(&chars_of(track_id)),
        lines: out,
        has_romanization,
        provider,
    }
}

// ---------------------------------------------------------------------------------------------
// Providers and the lookup order
// ---------------------------------------------------------------------------------------------

/// The name under which a provider is stored in the lyrics cache.
pub open spec fn provider_label(p: LyricsProvider) -> Seq<char> {
    match p {
        LyricsProvider::Embedded => "embedded"@,
        LyricsProvider::Lrclib => "lrclib"@,
        LyricsProvider::Netease => "netease"@,
        LyricsProvider::NotFound => "none"@,
    }
}

/// The provider a stored name stands for; an unknown name is read as LRCLIB.
pub open spec fn provider_of_label(name: Seq<char>) -> LyricsProvider {
    if name == "embedded"@ {
        LyricsProvider::Embedded
    } else if name == "netease"@ {
        LyricsProvider::Netease
    } else if name == "none"@ {
        LyricsProvider::NotFound
    } else {
        LyricsProvider::Lrclib
    }
}

/// `a` and `b` hold the same characters.
pub fn same_str(a: &str, b: &str) -> (r: bool)
    ensures
        r == (a@ == b@),
{
    chars_eq(&chars_of(a), &chars_of(b))
}

impl LyricsProvider {
    /// The name under which this provider is stored in the lyrics cache.
    pub fn cache_name(&self) -> (r: &'static str)
        ensures
            r@ == provider_label(*self),
    {
        match self {
            LyricsProvider::Embedded => "embedded",
            LyricsProvider::Lrclib => "lrclib",
            LyricsProvider::Netease => "netease",
            LyricsProvider::NotFound => "none",
        }
    }

    /// The provider a cached name stands for; names it does not know are read as LRCLIB.
    pub fn from_cache_name(name: &str) -> (r: LyricsProvider)
        ensures
            r == provider_of_label(name@),
    {
        if same_str(name, "embedded") {
            LyricsProvider::Embedded
        } else if same_str(name, "netease") {
            LyricsProvider::Netease
        } else if same_str(name, "none") {
            LyricsProvider::NotFound
        } else {
            LyricsProvider::Lrclib
        }
    }
}

/// Reading back the name a provider is cached under gives the same provider.
pub proof fn lemma_provider_name_round_trip(p: LyricsProvider)
    ensures
        provider_of_label(provider_label(p)) == p,
{
    reveal_strlit("embedded");
    reveal_strlit("lrclib");
    reveal_strlit("netease");
    reveal_strlit("none");
    assert("embedded"@.len() == 8);
    assert("lrclib"@.len() == 6);
    assert("netease"@.len() == 7);
    assert("none"@.len() == 4);
}

/// What lyrics are looked up for.
pub struct LyricsRequest<'a> {
    pub track_id: &'a str,
    pub title: &'a str,
    pub artist: &'a str,
    pub album: Option<&'a str>,
    pub duration_ms: u64,
    /// Lyrics embedded in the file's tags, checked before any network call.
    pub embedded: Option<String>,
}

/// Some line of the text carries a timestamp.
pub open spec fn has_timestamps(content: Seq<char>) -> bool {
    exists|k: int| 0 <= k < lines(content).len() && (#[trigger] lrc_line(lines(content)[k])).0.len() > 0
}

/// Every line's tags can be cut where the scan reads them.
pub open spec fn tags_readable(content: Seq<char>) -> bool {
    forall|k: int| 0 <= k < lines(content).len() ==> scan_readable(trim(#[trigger] lines(content)[k]))
}

/// Whether some line of `content` carries a timestamp, that is, whether it is LRC.
pub fn carries_timestamps(content: &str) -> (r: bool)
    requires
        tags_readable(content@),
    ensures
        r == has_timestamps(content@),
{
    let cs = chars_of(content);
    let ranges = line_ranges(&cs);
    let ghost ls = lines(cs@);
    let mut k: usize = 0;
    while k < ranges.len()
        invariant
            k <= ranges@.len() == ls.len(),
            ls == lines(cs@),
            cs@ == content@,
            tags_readable(cs@),
            forall|m: int|
                0 <= m < ranges@.len() ==> (#[trigger] ranges@[m]).0 <= ranges@[m].1 && ranges@[m].1
                    <= cs@.len(),
            forall|m: int|
                0 <= m < ranges@.len() ==> cs@.subrange(ranges@[m].0 as int, ranges@[m].1 as int)
                    == #[trigger] ls[m],
            forall|m: int| 0 <= m < k ==> (#[trigger] lrc_line(ls[m])).0.len() == 0,
        decreases ranges@.len() - k,
    {
        let (lo, hi) = ranges[k];
        assert(cs@.subrange(lo as int, hi as int) == ls[k as int]);
        let stamps = match extract_lrc_line(&cs, lo, hi) {
            Some((stamps, _a, _b)) => stamps,
            None => {
                assert(false);
                Vec::new()
            },
        };
        if stamps.len() > 0 {
            assert(lrc_line(ls[k as int]).0.len() > 0);
            return true;
        }
        k = k + 1;
    }
    false
}

/// What the embedded lyrics of a file can be read as, if anything.
pub open spec fn embedded_readable(content: Seq<char>) -> bool {
    &&& tags_readable(content)
    &&& has_timestamps(content) ==> lrc_readable(content)
    &&& !has_timestamps(content) ==> plain_readable(content)
}

/// Lyrics embedded in a file's tags: none when the text is blank; otherwise LRC when a line
/// carries a timestamp, else plain lines laid out over the track. A result without lines counts
/// as none.
pub fn lyrics_from_embedded(track_id: &str, embedded: &str, duration_ms: u64) -> (r: Option<
    ParsedLyrics,
>)
    requires
        embedded_readable(embedded@),
    ensures
        is_blank(embedded@) ==> r is None,
        match r {
            Some(p) => {
                &&& !is_blank(embedded@)
                &&& p.track_id@ == track_id@
                &&& p.provider == LyricsProvider::Embedded
                &&& p.lines@.len() > 0
                &&& has_timestamps(embedded@) ==> {
                    &&& first_per_time(
                        entries_of(p.lines@),
                        lrc_entries(lines(embedded@)),
                    )
                    &&& p.has_romanization == lrc_romanizes(embedded@)
                }
                &&& !has_timestamps(embedded@) ==> {
                    let plain = plain_lines(lines(embedded@));
                    let step = plain_step(duration_ms, plain.len());
                    &&& p.lines@.len() == plain.len()
                    &&& forall|i: int|
                        0 <= i < plain.len() ==> (#[trigger] p.lines@[i])@ == plain_entry(
                            plain[i],
                            i,
                            step,
                        )
                    &&& p.has_romanization == exists|i: int|
                        0 <= i < plain.len() && (#[trigger] romanization(plain[i])) is Some
                }
            },
            None => is_blank(embedded@) || (has_timestamps(embedded@) && lrc_entries(
                lines(embedded@),
            ).len() == 0) || (!has_timestamps(embedded@) && plain_lines(lines(embedded@)).len()
                == 0),
        },
{
    let cs = chars_of(embedded);
    let (a, b) = trim_range(&cs, 0, cs.len());
    proof {
        assert(cs@.subrange(0, cs@.len() as int) =~= cs@);
        lemma_trim_empty_iff_blank(cs@);
    }
    if a == b {
        return None;
    }
    let parsed = if carries_timestamps(embedded) {
        let p = parse_lrc(track_id, embedded, LyricsProvider::Embedded);
        proof {
            if p.lines@.len() == 0 {
                lemma_first_per_time_nonempty(entries_of(p.lines@), lrc_entries(lines(embedded@)));
            }
        }
        p
    } else {
        lay_out_plain_lyrics(track_id, embedded, duration_ms, LyricsProvider::Embedded)
    };
    if parsed.lines.len() == 0 {
        None
    } else {
        Some(parsed)
    }
}

/// An empty output covers only an empty input.
proof fn lemma_first_per_time_nonempty(out: Seq<LyricEntry>, es: Seq<LyricEntry>)
    requires
        first_per_time(out, es),
        out.len() == 0,
    ensures
        es.len() == 0,
{
    if es.len() > 0 {
        let i = lemma_covered_at(out, es, 0);
    }
}

proof fn lemma_covered_at(out: Seq<LyricEntry>, es: Seq<LyricEntry>, k: int) -> (i: int)
    requires
        covered(out, es),
        0 <= k < es.len(),
    ensures
        0 <= i < out.len(),
        out[i].time_ms == es[k].time_ms,
{
    reveal(covered);
    choose|i: int| 0 <= i < out.len() && #[trigger] out[i].time_ms == #[trigger] es[k].time_ms
}

/// An empty input gives an empty output.
proof fn lemma_first_per_time_empty_input(out: Seq<LyricEntry>, es: Seq<LyricEntry>)
    requires
        first_per_time(out, es),
        es.len() == 0,
    ensures
        out.len() == 0,
{
    if out.len() > 0 {
        let k = lemma_witness_of(out, es, 0);
    }
}

/// `p` is what [`parse_lrc`] gives for `content`.
pub open spec fn is_lrc_parse(p: ParsedLyrics, track_id: Seq<char>, content: Seq<char>, provider: LyricsProvider) -> bool {
    &&& p.track_id@ == track_id
    &&& p.provider == provider
    &&& first_per_time(entries_of(p.lines@), lrc_entries(lines(content)))
    &&& p.has_romanization == lrc_romanizes(content)
}

/// `p` is what [`lay_out_plain_lyrics`] gives for `content` when it has a non-blank line.
pub open spec fn is_plain_layout(
    p: ParsedLyrics,
    track_id: Seq<char>,
    content: Seq<char>,
    duration_ms: u64,
    provider: LyricsProvider,
) -> bool {
    let plain = plain_lines(lines(content));
    let step = plain_step(duration_ms, plain.len());
    &&& p.track_id@ == track_id
    &&& p.provider == provider
    &&& p.lines@.len() == plain.len()
    &&& forall|i: int|
        0 <= i < plain.len() ==> (#[trigger] p.lines@[i])@ == plain_entry(plain[i], i, step)
    &&& p.has_romanization == exists|i: int|
        0 <= i < plain.len() && (#[trigger] romanization(plain[i])) is Some
}

/// A text is present and not blank.
pub open spec fn given(t: Option<&str>) -> bool {
    t is Some && !is_blank(t.unwrap()@)
}

/// Lyrics read back from the cache: the stored lines when their JSON could be read (flagged when
/// any line has a transliteration), else the stored LRC parsed again; the provider comes from its
/// stored name.
pub fn lyrics_from_cache(
    track_id: &str,
    raw_lrc: &str,
    cached_lines: Option<Vec<LyricLine>>,
    provider_name: &str,
) -> (r: ParsedLyrics)
    requires
        cached_lines is None ==> lrc_readable(raw_lrc@),
    ensures
        r.track_id@ == track_id@,
        r.provider == provider_of_label(provider_name@),
        match cached_lines {
            Some(ls) => {
                &&& r.lines@ == ls@
                &&& r.has_romanization == exists|i: int|
                    0 <= i < ls@.len() && (#[trigger] ls@[i]).romanized_text is Some
            },
            None => is_lrc_parse(r, track_id@, raw_lrc@, r.provider),
        },
{
    let provider = LyricsProvider::from_cache_name(provider_name);
    match cached_lines {
        Some(ls) => {
            let mut has_romanization = false;
            let mut i: usize = 0;
            while i < ls.len()
                invariant
                    i <= ls@.len(),
                    has_romanization == exists|m: int|
                        0 <= m < i && (#[trigger] ls@[m]).romanized_text is Some,
                decreases ls@.len() - i,
            {
                if ls[i].romanized_text.is_some() {
                    has_romanization = true;
                    assert(ls@[i as int].romanized_text is Some);
                }
                i = i + 1;
            }
            ParsedLyrics {
                track_id: string_of(&chars_of(track_id)),
                lines: ls,
                has_romanization,
                provider,
            }
        },
        None => parse_lrc(track_id, raw_lrc, provider),
    }
}

/// What LRCLIB's answer gives: its synced lyrics when they are given and yield lines, else its
/// plain lyrics laid out over the track when they are given and have a non-blank line; the text
/// that was used comes back with the result, to be cached.
pub fn lyrics_from_lrclib(track_id: &str, synced: Option<&str>, plain: Option<&str>, duration_ms: u64) -> (r:
    Option<(String, ParsedLyrics)>)
    requires
        given(synced) ==> lrc_readable(synced.unwrap()@),
        given(plain) && !(given(synced) && lrc_entries(lines(synced.unwrap()@)).len() > 0) ==> plain_readable(
            plain.unwrap()@,
        ),
    ensures
        ({
            let use_synced = given(synced) && lrc_entries(lines(synced.unwrap()@)).len() > 0;
            let use_plain = !use_synced && given(plain) && plain_lines(lines(plain.unwrap()@)).len()
                > 0;
            &&& r is Some <==> use_synced || use_plain
            &&& use_synced ==> r.unwrap().0@ == synced.unwrap()@ && is_lrc_parse(
                r.unwrap().1,
                track_id@,
                synced.unwrap()@,
                LyricsProvider::Lrclib,
            )
            &&& use_plain ==> r.unwrap().0@ == plain.unwrap()@ && is_plain_layout(
                r.unwrap().1,
                track_id@,
                plain.unwrap()@,
                duration_ms,
                LyricsProvider::Lrclib,
            )
        }),
{
    if let Some(text) = synced {
        if !blank_str(text) {
            let parsed = parse_lrc(track_id, text, LyricsProvider::Lrclib);
            proof {
                lemma_parse_nonempty(parsed, text@);
            }
            if parsed.lines.len() > 0 {
                return Some((string_of(&chars_of(text)), parsed));
            }
        }
    }
    if let Some(text) = plain {
        if !blank_str(text) {
            let parsed = lay_out_plain_lyrics(track_id, text, duration_ms, LyricsProvider::Lrclib);
            if parsed.lines.len() > 0 {
                return Some((string_of(&chars_of(text)), parsed));
            }
        }
    }
    None
}

/// What NetEase's answer gives: its LRC when it is given and yields lines, with the text that was
/// used.
pub fn lyrics_from_netease(track_id: &str, raw: Option<&str>) -> (r: Option<(String, ParsedLyrics)>)
    requires
        given(raw) ==> lrc_readable(raw.unwrap()@),
    ensures
        r is Some <==> given(raw) && lrc_entries(lines(raw.unwrap()@)).len() > 0,
        r is Some ==> r.unwrap().0@ == raw.unwrap()@ && is_lrc_parse(
            r.unwrap().1,
            track_id@,
            raw.unwrap()@,
            LyricsProvider::Netease,
        ),
{
    if let Some(text) = raw {
        if !blank_str(text) {
            let parsed = parse_lrc(track_id, text, LyricsProvider::Netease);
            proof {
                lemma_parse_nonempty(parsed, text@);
            }
            if parsed.lines.len() > 0 {
                return Some((string_of(&chars_of(text)), parsed));
            }
        }
    }
    None
}

/// The answer when no source has lyrics for the track.
pub fn no_lyrics(track_id: &str) -> (r: ParsedLyrics)
    ensures
        r.track_id@ == track_id@,
        r.lines@.len() == 0,
        !r.has_romanization,
        r.provider == LyricsProvider::NotFound,
{
    ParsedLyrics {
        track_id: string_of(&chars_of(track_id)),
        lines: Vec::new(),
        has_romanization: false,
        provider: LyricsProvider::NotFound,
    }
}

proof fn lemma_parse_nonempty(p: ParsedLyrics, content: Seq<char>)
    requires
        first_per_time(entries_of(p.lines@), lrc_entries(lines(content))),
    ensures
        (p.lines@.len() > 0) == (lrc_entries(lines(content)).len() > 0),
{
    if p.lines@.len() == 0 {
        lemma_first_per_time_nonempty(entries_of(p.lines@), lrc_entries(lines(content)));
    }
    if lrc_entries(lines(content)).len() == 0 {
        lemma_first_per_time_empty_input(entries_of(p.lines@), lrc_entries(lines(content)));
    }
}

/// Whether a text is blank (empty or only whitespace).
pub fn blank_str(t: &str) -> (r: bool)
    ensures
        r == is_blank(t@),
{
    let cs = chars_of(t);
    let (a, b) = trim_range(&cs, 0, cs.len());
    proof {
        assert(cs@.subrange(0, cs@.len() as int) =~= cs@);
        lemma_trim_empty_iff_blank(cs@);
    }
    a == b
}

// ---------------------------------------------------------------------------------------------
// Order of the sources
// ---------------------------------------------------------------------------------------------

/// A place lyrics are looked up in, in the order they are tried.
#[derive(Debug, Clone, Copy, PartialEq, Eq, Structural)]
pub enum LyricsSource {
    Cache,
    Embedded,
    /// LRCLIB, asked with the track's length.
    LrclibWithDuration,
    /// LRCLIB again, without the length (it is strict about it).
    LrclibWithoutDuration,
    Netease,
}

/// How asking a source went.
#[derive(Debug, Clone, Copy, PartialEq, Eq, Structural)]
pub enum SourceOutcome {
    /// It gave lyrics: lyrics with lines, or, for the cache, an entry for the track.
    Found,
    /// It answered, with nothing usable.
    Nothing,
    /// No answer could be read (the request failed or its body was not the expected JSON).
    Unanswered,
    /// The HTTP client for the lookup services could not be built.
    ClientFailed,
}

/// What the lookup does next.
#[derive(Debug, Clone, Copy, PartialEq, Eq, Structural)]
pub enum LyricsNext {
    Ask(LyricsSource),
    /// Answer with what the source just asked found.
    Answer,
    /// Answer that no source has lyrics.
    NotFound,
    /// Give up with the client's error.
    Fail,
}

/// The order of the lookup: the cache, the file's own tags, LRCLIB with the length, LRCLIB
/// without it when the first request got no answer, then NetEase; the first source that finds
/// lyrics answers. A client that cannot be built for LRCLIB ends the lookup with its error;
/// NetEase failing in any way means no lyrics.
pub open spec fn lyrics_next_spec(at: Option<LyricsSource>, outcome: SourceOutcome) -> LyricsNext {
    match at {
        None => LyricsNext::Ask(LyricsSource::Cache),
        Some(source) => if outcome == SourceOutcome::Found {
            LyricsNext::Answer
        } else {
            match source {
                LyricsSource::Cache => LyricsNext::Ask(LyricsSource::Embedded),
                LyricsSource::Embedded => LyricsNext::Ask(LyricsSource::LrclibWithDuration),
                LyricsSource::LrclibWithDuration => if outcome == SourceOutcome::ClientFailed {
                    LyricsNext::Fail
                } else if outcome == SourceOutcome::Unanswered {
                    LyricsNext::Ask(LyricsSource::LrclibWithoutDuration)
                } else {
                    LyricsNext::Ask(LyricsSource::Netease)
                },
                LyricsSource::LrclibWithoutDuration => if outcome == SourceOutcome::ClientFailed {
                    LyricsNext::Fail
                } else {
                    LyricsNext::Ask(LyricsSource::Netease)
                },
                LyricsSource::Netease => LyricsNext::NotFound,
            }
        },
    }
}

/// The next step of a lyrics lookup, from the source last asked (none at the start) and how
/// asking it went.
pub fn next_lyrics_source(at: Option<LyricsSource>, outcome: SourceOutcome) -> (r: LyricsNext)
    ensures
        r == lyrics_next_spec(at, outcome),
{
    match at {
        None => LyricsNext::Ask(LyricsSource::Cache),
        Some(source) => match outcome {
            SourceOutcome::Found => LyricsNext::Answer,
            _ => match source {
                LyricsSource::Cache => LyricsNext::Ask(LyricsSource::Embedded),
                LyricsSource::Embedded => LyricsNext::Ask(LyricsSource::LrclibWithDuration),
                LyricsSource::LrclibWithDuration => match outcome {
                    SourceOutcome::ClientFailed => LyricsNext::Fail,
                    SourceOutcome::Unanswered => LyricsNext::Ask(LyricsSource::LrclibWithoutDuration),
                    _ => LyricsNext::Ask(LyricsSource::Netease),
                },
                LyricsSource::LrclibWithoutDuration => match outcome {
                    SourceOutcome::ClientFailed => LyricsNext::Fail,
                    _ => LyricsNext::Ask(LyricsSource::Netease),
                },
                LyricsSource::Netease => LyricsNext::NotFound,
            },
        },
    }
}

/// A lookup never asks a source twice, and never asks the network before the cache and the
/// file's tags: every source it moves on to comes later in the order than the one just asked.
pub proof fn lemma_sources_only_move_forward(source: LyricsSource, outcome: SourceOutcome)
    ensures
        lyrics_next_spec(Some(source), outcome) matches LyricsNext::Ask(next) ==> source_rank(next)
            > source_rank(source),
        lyrics_next_spec(None, outcome) == LyricsNext::Ask(LyricsSource::Cache),
{
}

/// The place of a source in the order of the lookup.
pub open spec fn source_rank(s: LyricsSource) -> int {
    match s {
        LyricsSource::Cache => 0,
        LyricsSource::Embedded => 1,
        LyricsSource::LrclibWithDuration => 2,
        LyricsSource::LrclibWithoutDuration => 3,
        LyricsSource::Netease => 4,
    }
}

// ---------------------------------------------------------------------------------------------
// Readability checks
// ---------------------------------------------------------------------------------------------

fn romanizable_exec(text: &Vec<char>) -> (r: bool)
    ensures
        r == romanizable(text@),
{
    match detect_script_chars(text) {
        Script::Korean => {
            let mut i: usize = 0;
            while i < text.len()
                invariant
                    i <= text@.len(),
                    script_of(text@) == Script::Korean,
                    forall|j: int| 0 <= j < i ==> !in_range(#[trigger] text@[j], 0xD7A4, 0xD7AF),
                decreases text@.len() - i,
            {
                let u = text[i] as u32;
                if 0xD7A4 <= u && u <= 0xD7AF {
                    assert(in_range(text@[i as int], 0xD7A4, 0xD7AF));
                    assert(!no_unassigned_hangul(text@));
                    return false;
                }
                i = i + 1;
            }
            true
        },
        _ => true,
    }
}

/// Whether [`parse_lrc`] can read a text: every line's tags can be cut where they are read, and
/// every line that yields entries can be transliterated. On a text where this fails, reading the
/// text would cut a multi-byte character or meet an unassigned Hangul syllable.
pub fn lrc_is_readable(content: &str) -> (r: bool)
    ensures
        r == lrc_readable(content@),
{
    let cs = chars_of(content);
    let ranges = line_ranges(&cs);
    let ghost ls = lines(cs@);
    let mut ok = true;
    let mut k: usize = 0;
    while k < ranges.len()
        invariant
            k <= ranges@.len() == ls.len(),
            ls == lines(cs@),
            cs@ == content@,
            forall|m: int|
                0 <= m < ranges@.len() ==> (#[trigger] ranges@[m]).0 <= ranges@[m].1 && ranges@[m].1
                    <= cs@.len(),
            forall|m: int|
                0 <= m < ranges@.len() ==> cs@.subrange(ranges@[m].0 as int, ranges@[m].1 as int)
                    == #[trigger] ls[m],
            ok == forall|m: int| 0 <= m < k ==> lrc_line_readable(#[trigger] ls[m]),
        decreases ranges@.len() - k,
    {
        let (lo, hi) = ranges[k];
        assert(cs@.subrange(lo as int, hi as int) == ls[k as int]);
        let line_ok = match extract_lrc_line(&cs, lo, hi) {
            None => false,
            Some((stamps, a, b)) => {
                if stamps.len() > 0 && a < b {
                    let text = slice_vec(&cs, a, b);
                    romanizable_exec(&text)
                } else {
                    true
                }
            },
        };
        assert(line_ok == lrc_line_readable(ls[k as int]));
        ok = ok && line_ok;
        assert(ok == forall|m: int| 0 <= m < k + 1 ==> lrc_line_readable(#[trigger] ls[m])) by {
            if !line_ok {
                assert(!lrc_line_readable(ls[k as int]));
            }
        }
        k = k + 1;
    }
    ok
}

/// Whether every line's tags can be cut where the scan reads them.
pub fn tags_are_readable(content: &str) -> (r: bool)
    ensures
        r == tags_readable(content@),
{
    let cs = chars_of(content);
    let ranges = line_ranges(&cs);
    let ghost ls = lines(cs@);
    let mut ok = true;
    let mut k: usize = 0;
    while k < ranges.len()
        invariant
            k <= ranges@.len() == ls.len(),
            ls == lines(cs@),
            cs@ == content@,
            forall|m: int|
                0 <= m < ranges@.len() ==> (#[trigger] ranges@[m]).0 <= ranges@[m].1 && ranges@[m].1
                    <= cs@.len(),
            forall|m: int|
                0 <= m < ranges@.len() ==> cs@.subrange(ranges@[m].0 as int, ranges@[m].1 as int)
                    == #[trigger] ls[m],
            ok == forall|m: int| 0 <= m < k ==> scan_readable(trim(#[trigger] ls[m])),
        decreases ranges@.len() - k,
    {
        let (lo, hi) = ranges[k];
        assert(cs@.subrange(lo as int, hi as int) == ls[k as int]);
        let line_ok = extract_lrc_line(&cs, lo, hi).is_some();
        ok = ok && line_ok;
        assert(ok == forall|m: int| 0 <= m < k + 1 ==> scan_readable(trim(#[trigger] ls[m]))) by {
            if !line_ok {
                assert(!scan_readable(trim(ls[k as int])));
            }
        }
        k = k + 1;
    }
    ok
}

/// Whether [`lay_out_plain_lyrics`] can read a text: every non-blank line can be transliterated.
pub fn plain_is_readable(text: &str) -> (r: bool)
    ensures
        r == plain_readable(text@),
{
    let cs = chars_of(text);
    let ranges = line_ranges(&cs);
    let ghost ls = lines(cs@);
    let mut ok = true;
    let mut k: usize = 0;
    assert(ls.take(0) =~= Seq::<Seq<char>>::empty());
    while k < ranges.len()
        invariant
            k <= ranges@.len() == ls.len(),
            ls == lines(cs@),
            cs@ == text@,
            forall|m: int|
                0 <= m < ranges@.len() ==> (#[trigger] ranges@[m]).0 <= ranges@[m].1 && ranges@[m].1
                    <= cs@.len(),
            forall|m: int|
                0 <= m < ranges@.len() ==> cs@.subrange(ranges@[m].0 as int, ranges@[m].1 as int)
                    == #[trigger] ls[m],
            ok == forall|i: int|
                0 <= i < plain_lines(ls.take(k as int)).len() ==> romanizable(
                    #[trigger] plain_lines(ls.take(k as int))[i],
                ),
        decreases ranges@.len() - k,
    {
        let (lo, hi) = ranges[k];
        assert(cs@.subrange(lo as int, hi as int) == ls[k as int]);
        let (a, b) = trim_range(&cs, lo, hi);
        proof {
            lemma_plain_lines_step(ls, k as int);
        }
        let ghost before = plain_lines(ls.take(k as int));
        let ghost after = plain_lines(ls.take(k + 1));
        if a < b {
            let t = slice_vec(&cs, a, b);
            let line_ok = romanizable_exec(&t);
            assert(after == before.push(t@));
            ok = ok && line_ok;
            assert(ok == forall|i: int| 0 <= i < after.len() ==> romanizable(#[trigger] after[i])) by {
                assert forall|i: int| 0 <= i < before.len() implies after[i] == before[i] by {}
                if !line_ok {
                    assert(!romanizable(after[before.len() as int]));
                }
            }
        } else {
            assert(after =~= before);
        }
        k = k + 1;
    }
    assert(ls.take(ls.len() as int) =~= ls);
    ok
}

/// Whether [`lyrics_from_embedded`] can read a text: its tags can be read, and it can be read as
/// LRC when a line carries a timestamp, else as plain lines.
pub fn embedded_is_readable(content: &str) -> (r: bool)
    ensures
        r == embedded_readable(content@),
{
    if !tags_are_readable(content) {
        return false;
    }
    if carries_timestamps(content) {
        lrc_is_readable(content)
    } else {
        plain_is_readable(content)
    }
}

// ---------------------------------------------------------------------------------------------
// Lookup services
// ---------------------------------------------------------------------------------------------

/// The query LRCLIB is asked with: title, artist, the album when known, and the length in whole
/// seconds when `with_duration` (LRCLIB is strict about it, so a second try goes without it).
pub fn lrclib_query(title: &str, artist: &str, album: Option<&str>, duration_ms: u64, with_duration: bool) -> (r:
    Vec<(String, String)>)
    ensures
        r@.len() == 2 + (if album is Some {
            1int
        } else {
            0
        }) + (if with_duration {
            1int
        } else {
            0
        }),
        r@[0].0@ == "track_name"@ && r@[0].1@ == title@,
        r@[1].0@ == "artist_name"@ && r@[1].1@ == artist@,
        album is Some ==> r@[2].0@ == "album_name"@ && r@[2].1@ == album.unwrap()@,
        with_duration ==> r@.last().0@ == "duration"@ && r@.last().1@ == crate::text::decimal_spec(
            (duration_ms / 1000) as nat,
        ),
{
    let mut q: Vec<(String, String)> = Vec::new();
    q.push((string_of(&chars_of("track_name")), string_of(&chars_of(title))));
    q.push((string_of(&chars_of("artist_name")), string_of(&chars_of(artist))));
    if let Some(a) = album {
        q.push((string_of(&chars_of("album_name")), string_of(&chars_of(a))));
    }
    if with_duration {
        q.push((string_of(&chars_of("duration")), string_of(&crate::text::decimal(duration_ms / 1000))));
    }
    q
}

/// The lowercase form `str::to_lowercase` gives a text.
pub uninterp spec fn lowercase_text(s: Seq<char>) -> Seq<char>;

/// `str::to_lowercase`. What it returns comes from the standard library's Unicode tables and is
/// only named here, not stated.
#[verifier::external_body]
fn to_lowercase_str(s: &str) -> (r: String)
    ensures
        r@ == lowercase_text(s@),
{
    s.to_lowercase()
}

/// The song's name, trimmed and lowercased, is the title searched for.
pub open spec fn same_title(song: Json, title: Seq<char>) -> bool {
    match str_at(song, "name"@) {
        Some(n) => lowercase_text(trim(n)) == lowercase_text(trim(title)),
        None => false,
    }
}

/// One of the song's artists has a lowercased name containing the artist searched for.
pub open spec fn credits_artist(song: Json, artist: Seq<char>) -> bool {
    match get_spec(song, "ar"@) {
        Some(a) => match array_spec(a) {
            Some(items) => exists|i: int|
                0 <= i < items.len() && (#[trigger] str_at(items[i], "name"@)) is Some && crate::text::find_from(
                    lowercase_text(str_at(items[i], "name"@).unwrap()),
                    lowercase_text(trim(artist)),
                    0,
                ) is Some,
            None => false,
        },
        None => false,
    }
}

/// The songs of a NetEase search response.
pub open spec fn netease_songs(search: Json) -> Option<Seq<Json>> {
    match path_spec(search, seq!["result"@, "songs"@]) {
        Some(v) => array_spec(v),
        None => None,
    }
}

/// The position of the first song that has the title and credits the artist.
pub open spec fn first_matching_song(songs: Seq<Json>, title: Seq<char>, artist: Seq<char>) -> Option<int>
    decreases songs.len(),
{
    if songs.len() == 0 {
        None
    } else if same_title(songs[0], title) && credits_artist(songs[0], artist) {
        Some(0)
    } else {
        match first_matching_song(songs.drop_first(), title, artist) {
            Some(i) => Some(i + 1),
            None => None,
        }
    }
}

/// The song whose lyrics are fetched: the first that has the title and credits the artist, else
/// the first song.
pub open spec fn chosen_song(search: Json, title: Seq<char>, artist: Seq<char>) -> Option<Json> {
    match netease_songs(search) {
        Some(songs) => match first_matching_song(songs, title, artist) {
            Some(i) => Some(songs[i]),
            None => if songs.len() > 0 {
                Some(songs[0])
            } else {
                None
            },
        },
        None => None,
    }
}

fn credits(song: &Json, artist_low: &Vec<char>, Ghost(artist): Ghost<Seq<char>>) -> (r: bool)
    requires
        artist_low@ == lowercase_text(trim(artist)),
    ensures
        r == credits_artist(*song, artist),
{
    let items = match song.get("ar") {
        Some(a) => match a.as_array() {
            Some(items) => items,
            None => return false,
        },
        None => return false,
    };
    let mut i: usize = 0;
    while i < items.len()
        invariant
            i <= items@.len(),
            artist_low@ == lowercase_text(trim(artist)),
            get_spec(*song, "ar"@) is Some,
            array_spec(get_spec(*song, "ar"@).unwrap()) == Some(items@),
            forall|j: int|
                0 <= j < i ==> !((#[trigger] str_at(items@[j], "name"@)) is Some && crate::text::find_from(
                    lowercase_text(str_at(items@[j], "name"@).unwrap()),
                    lowercase_text(trim(artist)),
                    0,
                ) is Some),
        decreases items@.len() - i,
    {
        if let Some(name) = str_field(&items[i], "name") {
            let low = chars_of(to_lowercase_str(string_of(&name).as_str()).as_str());
            if crate::text::find_seq(&low, artist_low, 0).is_some() {
                assert(str_at(items@[i as int], "name"@) == Some(name@));
                assert(crate::text::find_from(
                    lowercase_text(str_at(items@[i as int], "name"@).unwrap()),
                    lowercase_text(trim(artist)),
                    0,
                ) is Some);
                return true;
            }
        }
        i = i + 1;
    }
    false
}

fn first_song_index(songs: &Vec<Json>, title: &str, artist: &str) -> (r: Option<usize>)
    ensures
        match r {
            Some(i) => i < songs@.len() && first_matching_song(songs@, title@, artist@) == Some(i as int),
            None => first_matching_song(songs@, title@, artist@) is None,
        },
{
    let title_low = chars_of(to_lowercase_str(string_of(&trimmed(&chars_of(title))).as_str()).as_str());
    let artist_low = chars_of(to_lowercase_str(string_of(&trimmed(&chars_of(artist))).as_str()).as_str());
    let mut i: usize = 0;
    assert(songs@.skip(0) =~= songs@);
    while i < songs.len()
        invariant
            i <= songs@.len(),
            title_low@ == lowercase_text(trim(title@)),
            artist_low@ == lowercase_text(trim(artist@)),
            first_matching_song(songs@, title@, artist@) == match first_matching_song(songs@.skip(i as int), title@, artist@) {
                Some(k) => Some(k + i),
                None => None,
            },
        decreases songs@.len() - i,
    {
        let ghost rest = songs@.skip(i as int);
        assert(rest.drop_first() =~= songs@.skip(i + 1));
        assert(rest[0] == songs@[i as int]);
        let song = &songs[i];
        let titled = match str_field(song, "name") {
            Some(n) => {
                let low = chars_of(to_lowercase_str(string_of(&trimmed(&n)).as_str()).as_str());
                crate::text::chars_eq(&low, &title_low)
            },
            None => false,
        };
        if titled && credits(song, &artist_low, Ghost(artist@)) {
            return Some(i);
        }
        i = i + 1;
    }
    assert(songs@.skip(songs@.len() as int) =~= Seq::<Json>::empty());
    None
}

/// The id of the NetEase song whose lyrics are fetched: the first song of the search response
/// named like the title (trimmed, lowercased) whose artists include one containing the artist,
/// else the first song; none when there are no songs or the chosen one has no numeric id.
pub fn netease_song_id(search: &Json, title: &str, artist: &str) -> (r: Option<u64>)
    ensures
        r == match chosen_song(*search, title@, artist@) {
            Some(song) => match get_spec(song, "id"@) {
                Some(v) => u64_spec(v),
                None => None,
            },
            None => None,
        },
{
    let path: &[&str] = &["result", "songs"];
    assert(path@.map_values(|k: &str| k@) =~= seq!["result"@, "songs"@]);
    let songs = match search.at_path(path) {
        Some(v) => match v.as_array() {
            Some(items) => items,
            None => return None,
        },
        None => return None,
    };
    let song = match first_song_index(songs, title, artist) {
        Some(i) => &songs[i],
        None => {
            if songs.len() == 0 {
                return None;
            }
            &songs[0]
        },
    };
    match song.get("id") {
        Some(v) => v.as_u64(),
        None => None,
    }
}

/// Lyrics kept in the cache come back as they were: reading back the stored lines under the
/// stored name of the provider (what [`lyrics_from_cache`] gives for them) yields the same lines
/// and provider, and, for plain lyrics laid out over a track, the same romanization flag.
pub proof fn lemma_cache_round_trip(
    p: ParsedLyrics,
    read: ParsedLyrics,
    track_id: Seq<char>,
    content: Seq<char>,
    duration_ms: u64,
    provider: LyricsProvider,
)
    requires
        read.lines@ == p.lines@,
        read.provider == provider_of_label(provider_label(p.provider)),
        read.has_romanization == exists|i: int|
            0 <= i < p.lines@.len() && (#[trigger] p.lines@[i]).romanized_text is Some,
    ensures
        read.provider == p.provider,
        read.lines@ == p.lines@,
        is_plain_layout(p, track_id, content, duration_ms, provider) ==> read.has_romanization
            == p.has_romanization,
{
    lemma_provider_name_round_trip(p.provider);
    if is_plain_layout(p, track_id, content, duration_ms, provider) {
        let plain = plain_lines(lines(content));
        let step = plain_step(duration_ms, plain.len());
        if p.has_romanization {
            let i = choose|i: int| 0 <= i < plain.len() && (#[trigger] romanization(plain[i])) is Some;
            assert(p.lines@[i]@ == plain_entry(plain[i], i, step));
            assert(p.lines@[i].romanized_text is Some);
        }
        if read.has_romanization {
            let i = choose|i: int| 0 <= i < p.lines@.len() && (#[trigger] p.lines@[i]).romanized_text is Some;
            assert(p.lines@[i]@ == plain_entry(plain[i], i, step));
            assert(romanization(plain[i]) is Some);
        }
    }
}

proof fn lemma_two_digits(a: char, b: char)
    requires
        crate::text::is_digit(a),
        crate::text::is_digit(b),
    ensures
        parse_u64_spec(seq![a, b]) == Some(
            (10 * crate::text::digit_value(a) + crate::text::digit_value(b)) as u64,
        ),
{
    let s = seq![a, b];
    assert(s.drop_last() =~= seq![a]);
    assert(seq![a].drop_last() =~= Seq::<char>::empty());
    assert(s[0] != '+');
    assert(crate::text::all_digits(s));
    assert(crate::text::digits_value(Seq::<char>::empty()) == 0);
    assert(crate::text::digits_value(seq![a]) == crate::text::digit_value(a));
    assert(crate::text::digits_value(s) == 10 * crate::text::digit_value(a) + crate::text::digit_value(b));
}

proof fn lemma_trim_keeps(t: Seq<char>)
    requires
        t.len() > 0,
        !crate::text::is_ws(t[0]),
        !crate::text::is_ws(t.last()),
    ensures
        trim(t) == t,
{
    assert(crate::text::trim_start(t) == t);
    assert(crate::text::trim_end(t) == t);
}

/// A text of one line whose line gives a single entry is parsed into exactly that entry.
proof fn lemma_one_line_parse(raw: Seq<char>, out: Seq<LyricEntry>)
    requires
        raw.len() > 0,
        !raw.contains('\n'),
        line_entries(raw).len() == 1,
        first_per_time(out, lrc_entries(lines(raw))),
    ensures
        out == line_entries(raw),
{
    assert forall|j: int| 0 <= j < raw.len() implies raw[j] != '\n' by {
        if raw[j] == '\n' {
            assert(raw.contains('\n'));
        }
    }
    crate::text::lemma_first_nl_at(raw, raw.len() as int);
    assert(lines(raw) == seq![raw]);
    assert(seq![raw].drop_last() =~= Seq::<Seq<char>>::empty());
    assert(seq![raw].last() == raw);
    assert(lrc_entries(Seq::<Seq<char>>::empty()) == Seq::<LyricEntry>::empty());
    assert(lrc_entries(seq![raw]) == lrc_entries(Seq::<Seq<char>>::empty()) + line_entries(raw));
    let es = lrc_entries(lines(raw));
    assert(es =~= line_entries(raw));
    let e = es[0];
    reveal(witnessed);
    reveal(covered);
    assert forall|i: int| 0 <= i < out.len() implies out[i] == e by {
        assert(witnessed_at(out, es, i));
    }
    assert(es.len() == 1);
    let i0 = lemma_covered_at(out, es, 0);
    assert(out.len() >= 1);
    if out.len() > 1 {
        assert(out[0].time_ms < out[1].time_ms);
        assert(out[0] == e && out[1] == e);
    }
    assert(out =~= seq![e]);
}

/// A tag with whole seconds and no fraction is read to the whole second: the line
/// `[mm:ss]text` gives one entry, at `mm` minutes and `ss` seconds, with that text.
pub proof fn lemma_whole_second_tag(m1: char, m2: char, s1: char, s2: char, text: Seq<char>)
    requires
        crate::text::is_digit(m1),
        crate::text::is_digit(m2),
        crate::text::is_digit(s1),
        crate::text::is_digit(s2),
        s1 <= '5',
        text.len() > 0,
        !crate::text::is_ws(text[0]),
        !crate::text::is_ws(text.last()),
        !text.contains('['),
        !text.contains('\n'),
    ensures
        ({
            let minutes = 10 * crate::text::digit_value(m1) + crate::text::digit_value(m2);
            let seconds = 10 * crate::text::digit_value(s1) + crate::text::digit_value(s2);
            let raw = seq!['[', m1, m2, ':', s1, s2, ']'] + text;
            &&& forall|out: Seq<LyricEntry>|
                #![trigger first_per_time(out, lrc_entries(lines(raw)))]
                first_per_time(out, lrc_entries(lines(raw))) ==> out == seq![
                    LyricEntry {
                        time_ms: (minutes * 60_000 + seconds * 1_000) as u64,
                        text,
                        romanized: romanization(text),
                    },
                ]
            &&& lrc_line(raw) == (seq![(minutes * 60_000 + seconds * 1_000) as u64], text)
            &&& line_entries(raw) == seq![
                LyricEntry {
                    time_ms: (minutes * 60_000 + seconds * 1_000) as u64,
                    text,
                    romanized: romanization(text),
                },
            ]
        }),
{
    let minutes = 10 * crate::text::digit_value(m1) + crate::text::digit_value(m2);
    let seconds = 10 * crate::text::digit_value(s1) + crate::text::digit_value(s2);
    let ms = (minutes * 60_000 + seconds * 1_000) as u64;
    let tag = seq![m1, m2, ':', s1, s2];
    let raw = seq!['[', m1, m2, ':', s1, s2, ']'] + text;
    lemma_whole_second_ms(m1, m2, s1, s2);
    assert(!tag.contains(']')) by {
        if tag.contains(']') {
            let j = choose|j: int| 0 <= j < tag.len() && tag[j] == ']';
        }
    }
    assert(raw =~= seq!['['] + tag + seq![']'] + text);
    lemma_scan_tag(tag, text, ms);
    lemma_trim_keeps(raw);
    lemma_trim_keeps(text);
    assert forall|j: int| 0 <= j < text.len() implies text[j] != '[' by {
        if text[j] == '[' {
            assert(text.contains('['));
        }
    }
    crate::text::lemma_first_index_at(text, '[', text.len() as int);
    assert(scan_stamps(text) == (Seq::<u64>::empty(), text));
    assert(scan_stamps(raw) == (seq![ms] + Seq::<u64>::empty(), text));
    assert(seq![ms] + Seq::<u64>::empty() =~= seq![ms]);
    assert(lrc_line(raw) == (seq![ms], text));
    assert(line_entries(raw) =~= seq![LyricEntry { time_ms: ms, text, romanized: romanization(text) }]);
    assert(!raw.contains('\n')) by {
        if raw.contains('\n') {
            let j = choose|j: int| 0 <= j < raw.len() && raw[j] == '\n';
            if j >= 7 {
                assert(text[j - 7] == '\n');
                assert(text.contains('\n'));
            }
        }
    }
    assert forall|out: Seq<LyricEntry>|
        #![trigger first_per_time(out, lrc_entries(lines(raw)))]
        first_per_time(out, lrc_entries(lines(raw))) implies out == line_entries(raw) by {
        lemma_one_line_parse(raw, out);
    }
}

/// A fraction after the seconds counts tenths when it has one digit, hundredths when it has two,
/// and milliseconds when it has three: `[mm:ss.f]text` gives one entry at `mm` minutes, `ss`
/// seconds and that fraction, with that text.
pub proof fn lemma_fraction_tag(
    m1: char,
    m2: char,
    s1: char,
    s2: char,
    f: Seq<char>,
    text: Seq<char>,
)
    requires
        crate::text::is_digit(m1),
        crate::text::is_digit(m2),
        crate::text::is_digit(s1),
        crate::text::is_digit(s2),
        s1 <= '5',
        1 <= f.len() <= 3,
        crate::text::all_digits(f),
        text.len() > 0,
        !crate::text::is_ws(text[0]),
        !crate::text::is_ws(text.last()),
        !text.contains('['),
    ensures
        ({
            let minutes = 10 * crate::text::digit_value(m1) + crate::text::digit_value(m2);
            let seconds = 10 * crate::text::digit_value(s1) + crate::text::digit_value(s2);
            let fraction = crate::text::digits_value(f) * (if f.len() == 1 {
                100int
            } else if f.len() == 2 {
                10int
            } else {
                1int
            });
            let raw = seq!['[', m1, m2, ':', s1, s2, '.'] + f + seq![']'] + text;
            lrc_line(raw) == (seq![(minutes * 60_000 + seconds * 1_000 + fraction) as u64], text)
        }),
{
    let minutes = 10 * crate::text::digit_value(m1) + crate::text::digit_value(m2);
    let seconds = 10 * crate::text::digit_value(s1) + crate::text::digit_value(s2);
    let fraction = crate::text::digits_value(f) * (if f.len() == 1 {
        100int
    } else if f.len() == 2 {
        10int
    } else {
        1int
    });
    let ms = (minutes * 60_000 + seconds * 1_000 + fraction) as u64;
    let tag = seq![m1, m2, ':', s1, s2, '.'] + f;
    let raw = seq!['[', m1, m2, ':', s1, s2, '.'] + f + seq![']'] + text;
    let n = f.len() as int;
    // the tag
    crate::text::lemma_first_index_at(tag, ':', 2);
    assert(tag.take(2) =~= seq![m1, m2]);
    lemma_two_digits(m1, m2);
    lemma_two_digits(s1, s2);
    let sec_part = tag.skip(3);
    assert(sec_part =~= seq![s1, s2, '.'] + f);
    crate::text::lemma_first_index_at(sec_part, '.', 2);
    assert(sec_part.take(2) =~= seq![s1, s2]);
    assert(sec_part.skip(3) =~= f);
    crate::text::lemma_digits_value_bound(f);
    assert(crate::text::pow10(0) == 1);
    assert(crate::text::pow10(1) == 10);
    assert(crate::text::pow10(2) == 100);
    assert(crate::text::pow10(3) == 1000);
    assert(f[0] != '+');
    if f.len() == 3 {
        assert(f.take(3) =~= f);
    }
    assert(parse_u64_spec(f) == Some(crate::text::digits_value(f) as u64));
    assert(timestamp_parts(tag) == Some((minutes as u64, seconds as u64, Some(f))));
    assert(timestamp_ms(tag) == Some(ms));
    // the line
    lemma_trim_keeps(raw);
    lemma_trim_keeps(text);
    crate::text::lemma_first_index_at(raw, '[', 0);
    assert(raw.skip(0) =~= raw);
    assert forall|j: int| 0 <= j < 7 + n implies raw[j] != ']' by {
        if j >= 7 {
            assert(raw[j] == f[j - 7]);
        }
    }
    crate::text::lemma_first_index_at(raw, ']', 7 + n);
    assert(raw.subrange(1, 7 + n) =~= tag);
    assert(raw.skip(8 + n) =~= text);
    assert forall|j: int| 0 <= j < text.len() implies text[j] != '[' by {
        if text[j] == '[' {
            assert(text.contains('['));
        }
    }
    crate::text::lemma_first_index_at(text, '[', text.len() as int);
    assert(scan_stamps(text) == (Seq::<u64>::empty(), text));
    assert(scan_stamps(raw) == (seq![ms] + Seq::<u64>::empty(), text));
    assert(seq![ms] + Seq::<u64>::empty() =~= seq![ms]);
}

proof fn lemma_whole_second_ms(m1: char, m2: char, s1: char, s2: char)
    requires
        crate::text::is_digit(m1),
        crate::text::is_digit(m2),
        crate::text::is_digit(s1),
        crate::text::is_digit(s2),
        s1 <= '5',
    ensures
        timestamp_ms(seq![m1, m2, ':', s1, s2]) == Some(
            ((10 * crate::text::digit_value(m1) + crate::text::digit_value(m2)) * 60_000 + (10
                * crate::text::digit_value(s1) + crate::text::digit_value(s2)) * 1_000) as u64,
        ),
{
    let tag = seq![m1, m2, ':', s1, s2];
    crate::text::lemma_first_index_at(tag, ':', 2);
    assert(tag.take(2) =~= seq![m1, m2]);
    lemma_two_digits(m1, m2);
    lemma_two_digits(s1, s2);
    let sec_part = tag.skip(3);
    assert(sec_part =~= seq![s1, s2]);
    crate::text::lemma_first_index_at(sec_part, '.', 2);
    crate::text::lemma_first_index_at(sec_part, ':', 2);
    assert(sec_part.take(2) =~= sec_part);
}

proof fn lemma_scan_tag(tag: Seq<char>, rest: Seq<char>, ms: u64)
    requires
        !tag.contains(']'),
        timestamp_ms(tag) == Some(ms),
    ensures
        scan_stamps(seq!['['] + tag + seq![']'] + rest) == (
            seq![ms] + scan_stamps(rest).0,
            scan_stamps(rest).1,
        ),
{
    let raw = seq!['['] + tag + seq![']'] + rest;
    let n = tag.len() as int;
    crate::text::lemma_first_index_at(raw, '[', 0);
    assert(raw.skip(0) =~= raw);
    assert forall|j: int| 0 <= j < n + 1 implies raw[j] != ']' by {
        if j >= 1 && raw[j] == ']' {
            assert(tag[j - 1] == ']');
            assert(tag.contains(']'));
        }
    }
    crate::text::lemma_first_index_at(raw, ']', n + 1);
    assert(raw.subrange(1, n + 1) =~= tag);
    assert(raw.skip(n + 2) =~= rest);
}

/// A line may carry several tags: `[mm:ss][MM:SS]text` gives an entry at each of the two times,
/// both with that text (a chorus sung twice).
pub proof fn lemma_two_tags_two_entries(
    m1: char,
    m2: char,
    s1: char,
    s2: char,
    n1: char,
    n2: char,
    t1: char,
    t2: char,
    text: Seq<char>,
)
    requires
        crate::text::is_digit(m1),
        crate::text::is_digit(m2),
        crate::text::is_digit(s1),
        crate::text::is_digit(s2),
        s1 <= '5',
        crate::text::is_digit(n1),
        crate::text::is_digit(n2),
        crate::text::is_digit(t1),
        crate::text::is_digit(t2),
        t1 <= '5',
        text.len() > 0,
        !crate::text::is_ws(text[0]),
        !crate::text::is_ws(text.last()),
        !text.contains('['),
    ensures
        ({
            let first = (10 * crate::text::digit_value(m1) + crate::text::digit_value(m2)) * 60_000
                + (10 * crate::text::digit_value(s1) + crate::text::digit_value(s2)) * 1_000;
            let second = (10 * crate::text::digit_value(n1) + crate::text::digit_value(n2)) * 60_000
                + (10 * crate::text::digit_value(t1) + crate::text::digit_value(t2)) * 1_000;
            let raw = seq!['[', m1, m2, ':', s1, s2, ']', '[', n1, n2, ':', t1, t2, ']'] + text;
            line_entries(raw) == seq![
                LyricEntry { time_ms: first as u64, text, romanized: romanization(text) },
                LyricEntry { time_ms: second as u64, text, romanized: romanization(text) },
            ]
        }),
{
    let tag1 = seq![m1, m2, ':', s1, s2];
    let tag2 = seq![n1, n2, ':', t1, t2];
    let raw = seq!['[', m1, m2, ':', s1, s2, ']', '[', n1, n2, ':', t1, t2, ']'] + text;
    let rest = seq!['[', n1, n2, ':', t1, t2, ']'] + text;
    lemma_whole_second_ms(m1, m2, s1, s2);
    lemma_whole_second_ms(n1, n2, t1, t2);
    let a = timestamp_ms(tag1).unwrap();
    let b = timestamp_ms(tag2).unwrap();
    assert(!tag1.contains(']')) by {
        if tag1.contains(']') {
            let j = choose|j: int| 0 <= j < tag1.len() && tag1[j] == ']';
        }
    }
    assert(!tag2.contains(']')) by {
        if tag2.contains(']') {
            let j = choose|j: int| 0 <= j < tag2.len() && tag2[j] == ']';
        }
    }
    assert(raw =~= seq!['['] + tag1 + seq![']'] + rest);
    assert(rest =~= seq!['['] + tag2 + seq![']'] + text);
    lemma_scan_tag(tag1, rest, a);
    lemma_scan_tag(tag2, text, b);
    assert forall|j: int| 0 <= j < text.len() implies text[j] != '[' by {
        if text[j] == '[' {
            assert(text.contains('['));
        }
    }
    crate::text::lemma_first_index_at(text, '[', text.len() as int);
    assert(scan_stamps(text) == (Seq::<u64>::empty(), text));
    lemma_trim_keeps(raw);
    lemma_trim_keeps(text);
    assert(seq![a] + (seq![b] + Seq::<u64>::empty()) =~= seq![a, b]);
    assert(lrc_line(raw) == (seq![a, b], text));
    assert(line_entries(raw) =~= seq![
        LyricEntry { time_ms: a, text, romanized: romanization(text) },
        LyricEntry { time_ms: b, text, romanized: romanization(text) },
    ]);
}

/// Laid-out plain lines keep their order in time and never start after the track ends (a track
/// of unknown length counts as 1 ms).
pub proof fn lemma_plain_times_in_order(duration_ms: u64, n: nat, i: int, j: int)
    requires
        0 <= i <= j < n,
    ensures
        (i * plain_step(duration_ms, n)) <= (j * plain_step(duration_ms, n)),
        (j * plain_step(duration_ms, n)) <= (if duration_ms == 0 {
            1
        } else {
            duration_ms as int
        }),
{
    let d: int = if duration_ms == 0 {
        1
    } else {
        duration_ms as int
    };
    let step = plain_step(duration_ms, n);
    assert(step == d / (n as int));
    lemma_step_times(j, n as int, d, step as int);
    assert(i * step <= j * step) by (nonlinear_arith)
        requires
            0 <= i <= j,
            0 <= step,
    ;
}

} // verus!
