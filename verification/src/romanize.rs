//! Script detection and transliteration for lyric lines.
//!
//! Every transform here is deterministic and offline: kana, Hangul, Hanzi, Cyrillic and Greek all
//! convert without a network round trip.
use vstd::prelude::*;
use pinyin::ToPinyin;
use crate::text::{is_ws, is_whitespace, is_ascii_alpha, ascii_lower, to_ascii_lower, chars_of, string_of};
use self::tables::{
    cyrillic_letter, cyrillic_letter_exec, greek_letter, greek_letter_exec, hangul_final,
    hangul_final_exec, hangul_initial, hangul_initial_exec, hangul_vowel, hangul_vowel_exec, hepburn,
    hepburn_exec,
};

pub mod tables;

verus! {

/// The writing system that dominates a line.
#[derive(Debug, Clone, Copy, PartialEq, Eq, Structural)]
pub enum Script {
    Japanese,
    Korean,
    Chinese,
    Cyrillic,
    Greek,
    Latin,
    Other,
}

pub open spec fn in_range(c: char, lo: u32, hi: u32) -> bool {
    lo <= (c as u32) <= hi
}

/// Hiragana (U+3040..U+309F) or Katakana (U+30A0..U+30FF).
pub open spec fn is_kana(c: char) -> bool {
    in_range(c, 0x3040, 0x309F) || in_range(c, 0x30A0, 0x30FF)
}

/// Hangul syllables (U+AC00..U+D7AF) or Hangul jamo (U+1100..U+11FF).
pub open spec fn is_hangul_or_jamo(c: char) -> bool {
    in_range(c, 0xAC00, 0xD7AF) || in_range(c, 0x1100, 0x11FF)
}

/// CJK unified ideographs (U+4E00..U+9FFF).
pub open spec fn is_cjk(c: char) -> bool {
    in_range(c, 0x4E00, 0x9FFF)
}

/// Cyrillic block (U+0400..U+04FF).
pub open spec fn is_cyrillic(c: char) -> bool {
    in_range(c, 0x400, 0x4FF)
}

/// Greek block (U+0370..U+03FF).
pub open spec fn is_greek(c: char) -> bool {
    in_range(c, 0x370, 0x3FF)
}

/// Number of characters of `s` that satisfy `p`.
pub open spec fn count_where(s: Seq<char>, p: spec_fn(char) -> bool) -> nat
    decreases s.len(),
{
    if s.len() == 0 {
        0
    } else {
        count_where(s.drop_last(), p) + if p(s.last()) {
            1nat
        } else {
            0nat
        }
    }
}

/// The dominant script of a line: kana above 5% of the non-whitespace characters make it
/// Japanese (kana are unique to Japanese); otherwise Hangul, Han, Cyrillic and Greek each need
/// more than 30%, in that order; any ASCII letter makes it Latin; everything else is Other.
pub open spec fn script_of(s: Seq<char>) -> Script {
    let total = count_where(s, |c: char| !is_ws(c));
    if count_where(s, |c: char| !is_ws(c) && is_kana(c)) * 20 > total {
        Script::Japanese
    } else if count_where(s, |c: char| !is_ws(c) && is_hangul_or_jamo(c)) * 10 > 3 * total {
        Script::Korean
    } else if count_where(s, |c: char| !is_ws(c) && is_cjk(c)) * 10 > 3 * total {
        Script::Chinese
    } else if count_where(s, |c: char| !is_ws(c) && is_cyrillic(c)) * 10 > 3 * total {
        Script::Cyrillic
    } else if count_where(s, |c: char| !is_ws(c) && is_greek(c)) * 10 > 3 * total {
        Script::Greek
    } else if count_where(s, |c: char| !is_ws(c) && is_ascii_alpha(c)) > 0 {
        Script::Latin
    } else {
        Script::Other
    }
}

proof fn lemma_count_push(s: Seq<char>, c: char, p: spec_fn(char) -> bool)
    ensures
        count_where(s.push(c), p) == count_where(s, p) + if p(c) {
            1nat
        } else {
            0nat
        },
{
    assert(s.push(c).drop_last() =~= s);
}

/// Picks the dominant script in a line.
pub fn detect_script(text: &str) -> (r: Script)
    ensures
        r == script_of(text@),
{
    let s = chars_of(text);
    detect_script_chars(&s)
}

pub fn detect_script_chars(s: &Vec<char>) -> (r: Script)
    ensures
        r == script_of(s@),
{
    let ghost pv = |c: char| !is_ws(c);
    let ghost pk = |c: char| !is_ws(c) && is_kana(c);
    let ghost ph = |c: char| !is_ws(c) && is_hangul_or_jamo(c);
    let ghost pc = |c: char| !is_ws(c) && is_cjk(c);
    let ghost py = |c: char| !is_ws(c) && is_cyrillic(c);
    let ghost pg = |c: char| !is_ws(c) && is_greek(c);
    let ghost pa = |c: char| !is_ws(c) && is_ascii_alpha(c);
    let mut total: usize = 0;
    let mut kana: usize = 0;
    let mut hangul: usize = 0;
    let mut cjk: usize = 0;
    let mut cyr: usize = 0;
    let mut greek: usize = 0;
    let mut alpha: usize = 0;
    let mut i: usize = 0;
    while i < s.len()
        invariant
            i <= s@.len(),
            pv == (|c: char| !is_ws(c)),
            pk == (|c: char| !is_ws(c) && is_kana(c)),
            ph == (|c: char| !is_ws(c) && is_hangul_or_jamo(c)),
            pc == (|c: char| !is_ws(c) && is_cjk(c)),
            py == (|c: char| !is_ws(c) && is_cyrillic(c)),
            pg == (|c: char| !is_ws(c) && is_greek(c)),
            pa == (|c: char| !is_ws(c) && is_ascii_alpha(c)),
            total == count_where(s@.take(i as int), pv),
            kana == count_where(s@.take(i as int), pk),
            hangul == count_where(s@.take(i as int), ph),
            cjk == count_where(s@.take(i as int), pc),
            cyr == count_where(s@.take(i as int), py),
            greek == count_where(s@.take(i as int), pg),
            alpha == count_where(s@.take(i as int), pa),
            kana <= total && hangul <= total && cjk <= total && cyr <= total && greek <= total
                && alpha <= total && total <= i,
        decreases s@.len() - i,
    {
        let c = s[i];
        proof {
            assert(s@.take(i + 1) =~= s@.take(i as int).push(c));
            lemma_count_push(s@.take(i as int), c, pv);
            lemma_count_push(s@.take(i as int), c, pk);
            lemma_count_push(s@.take(i as int), c, ph);
            lemma_count_push(s@.take(i as int), c, pc);
            lemma_count_push(s@.take(i as int), c, py);
            lemma_count_push(s@.take(i as int), c, pg);
            lemma_count_push(s@.take(i as int), c, pa);
        }
        if !is_whitespace(c) {
            let u = c as u32;
            total = total + 1;
            if (0x3040 <= u && u <= 0x309F) || (0x30A0 <= u && u <= 0x30FF) {
                kana = kana + 1;
            }
            if (0xAC00 <= u && u <= 0xD7AF) || (0x1100 <= u && u <= 0x11FF) {
                hangul = hangul + 1;
            }
            if 0x4E00 <= u && u <= 0x9FFF {
                cjk = cjk + 1;
            }
            if 0x400 <= u && u <= 0x4FF {
                cyr = cyr + 1;
            }
            if 0x370 <= u && u <= 0x3FF {
                greek = greek + 1;
            }
            if ('a' <= c && c <= 'z') || ('A' <= c && c <= 'Z') {
                alpha = alpha + 1;
            }
        }
        i = i + 1;
    }
    assert(s@.take(s@.len() as int) =~= s@);
    let t = total as u128;
    if (kana as u128) * 20 > t {
        Script::Japanese
    } else if (hangul as u128) * 10 > 3 * t {
        Script::Korean
    } else if (cjk as u128) * 10 > 3 * t {
        Script::Chinese
    } else if (cyr as u128) * 10 > 3 * t {
        Script::Cyrillic
    } else if (greek as u128) * 10 > 3 * t {
        Script::Greek
    } else if alpha > 0 {
        Script::Latin
    } else {
        Script::Other
    }
}

// ---------------------------------------------------------------------------------------------
// Japanese
// ---------------------------------------------------------------------------------------------

/// Katakana U+30A1..U+30F6 map onto the hiragana block 0x60 below; everything else is kept.
pub open spec fn hiragana_of(c: char) -> char {
    let u = c as u32;
    if 0x30A1 <= u <= 0x30F6 {
        (u - 0x60) as char
    } else {
        c
    }
}

/// `char::from_u32`: the character with the given code point, when it is a Unicode scalar value.
#[verifier::external_body]
fn char_from_u32(u: u32) -> (r: Option<char>)
    ensures
        r is Some <==> (u <= 0x10FFFF && !(0xD800 <= u <= 0xDFFF)),
        r matches Some(c) ==> c as u32 == u && c == u as char,
{
    char::from_u32(u)
}

fn to_hiragana(c: char) -> (r: char)
    ensures
        r == hiragana_of(c),
{
    let code = c as u32;
    if 0x30A1 <= code && code <= 0x30F6 {
        match char_from_u32(code - 0x60) {
            Some(h) => {
                h
            },
            None => c,
        }
    } else {
        c
    }
}

/// Hepburn reading of a hiragana character (U+3041..U+3093), if it has one.
pub open spec fn reading_of(c: char) -> Option<Seq<char>> {
    let u = c as u32;
    if 0x3041 <= u && u - 0x3041 < 83 {
        Some(hepburn(u - 0x3041))
    } else {
        None
    }
}

fn lookup(c: char) -> (r: Option<Vec<char>>)
    ensures
        match r {
            Some(v) => reading_of(c) == Some(v@),
            None => reading_of(c) is None,
        },
{
    let u = c as u32;
    if u >= 0x3041 && u - 0x3041 < 83 {
        Some(hepburn_exec((u - 0x3041) as usize))
    } else {
        None
    }
}

/// The vowel a small ゃ/ゅ/ょ contributes to a contraction.
pub open spec fn yoon_vowel(small: char) -> Option<char> {
    if small == '\u{3083}' {
        Some('a')
    } else if small == '\u{3085}' {
        Some('u')
    } else if small == '\u{3087}' {
        Some('o')
    } else {
        None
    }
}

/// Contraction of an -i kana with a small ゃ/ゅ/ょ: き + ゃ → kya, し + ゃ → sha. Stems that
/// already end in the palatal sound (sh, ch, j) take the vowel directly.
pub open spec fn yoon(base: char, small: char) -> Option<Seq<char>> {
    match (yoon_vowel(small), reading_of(base)) {
        (Some(v), Some(r)) => if r.len() > 0 && r.last() == 'i' {
            let stem = r.drop_last();
            if stem == seq!['s', 'h'] || stem == seq!['c', 'h'] || stem == seq!['j'] {
                Some(stem.push(v))
            } else {
                Some(stem.push('y').push(v))
            }
        } else {
            None
        },
        _ => None,
    }
}

fn yoon_reading(base: char, small: char) -> (r: Option<Vec<char>>)
    ensures
        match r {
            Some(v) => yoon(base, small) == Some(v@),
            None => yoon(base, small) is None,
        },
{
    let vowel = if small == '\u{3083}' {
        'a'
    } else if small == '\u{3085}' {
        'u'
    } else if small == '\u{3087}' {
        'o'
    } else {
        return None;
    };
    let mut stem = match lookup(base) {
        Some(r) => r,
        None => return None,
    };
    if stem.len() == 0 || stem[stem.len() - 1] != 'i' {
        return None;
    }
    stem.pop();
    let palatal = (stem.len() == 2 && stem[0] == 's' && stem[1] == 'h') || (stem.len() == 2
        && stem[0] == 'c' && stem[1] == 'h') || (stem.len() == 1 && stem[0] == 'j');
    proof {
        let t = stem@;
        assert(palatal == (t =~= seq!['s', 'h'] || t =~= seq!['c', 'h'] || t =~= seq!['j']));
    }
    if !palatal {
        stem.push('y');
    }
    stem.push(vowel);
    Some(stem)
}

/// Vowel letters a long-vowel mark may repeat.
pub open spec fn is_vowel_letter(c: char) -> bool {
    c == 'a' || c == 'e' || c == 'i' || c == 'o' || c == 'u'
}

/// Kana after which a syllable-final ん is separated by an apostrophe (vowels and y-glides).
pub open spec fn takes_apostrophe(c: char) -> bool {
    c == '\u{3042}' || c == '\u{3044}' || c == '\u{3046}' || c == '\u{3048}' || c == '\u{304A}'
        || c == '\u{3084}' || c == '\u{3086}' || c == '\u{3088}'
}

/// ASCII lowercase of every character.
pub open spec fn lower_all(s: Seq<char>) -> Seq<char> {
    s.map_values(|c: char| ascii_lower(c))
}

/// Hepburn romanization of hiragana characters `cs`, appended to what was already produced
/// (`out`). The sokuon っ doubles the next consonant, the long mark ー repeats the previous vowel,
/// contractions are read as one syllable, ん takes an apostrophe before a vowel or y-glide, and
/// anything without a reading is copied.
pub open spec fn kana_rom(cs: Seq<char>, out: Seq<char>) -> Seq<char>
    decreases cs.len(),
{
    if cs.len() == 0 {
        out
    } else {
        let c = cs[0];
        if c == '\u{3063}' {
            let o = if cs.len() > 1 && reading_of(cs[1]) is Some && reading_of(cs[1]).unwrap().len()
                > 0 {
                out.push(reading_of(cs[1]).unwrap()[0])
            } else {
                out
            };
            kana_rom(cs.drop_first(), o)
        } else if c == '\u{30FC}' {
            let o = if out.len() > 0 && is_vowel_letter(out.last()) {
                out.push(out.last())
            } else {
                out
            };
            kana_rom(cs.drop_first(), o)
        } else if cs.len() > 1 && yoon(c, cs[1]) is Some {
            kana_rom(cs.skip(2), out + yoon(c, cs[1]).unwrap())
        } else if reading_of(c) is Some {
            let r = reading_of(c).unwrap();
            let o = if r == seq!['n'] && cs.len() > 1 && takes_apostrophe(cs[1]) {
                out + lower_all(r) + seq!['\'']
            } else {
                out + lower_all(r)
            };
            kana_rom(cs.drop_first(), o)
        } else {
            kana_rom(cs.drop_first(), out.push(c))
        }
    }
}

/// Hepburn romanization of a line's kana, with everything else (kanji included) kept in place.
pub open spec fn kana_romanized(text: Seq<char>) -> Seq<char> {
    kana_rom(text.map_values(|c: char| hiragana_of(c)), seq![])
}

fn push_lower(out: &mut Vec<char>, r: &Vec<char>)
    ensures
        final(out)@ == old(out)@ + lower_all(r@),
{
    let ghost start = out@;
    let mut i: usize = 0;
    while i < r.len()
        invariant
            i <= r@.len(),
            out@ == start + lower_all(r@.take(i as int)),
        decreases r@.len() - i,
    {
        out.push(to_ascii_lower(r[i]));
        i = i + 1;
        assert(lower_all(r@.take(i as int)) =~= lower_all(r@.take(i - 1)).push(ascii_lower(r@[i - 1])));
        assert(out@ =~= start + lower_all(r@.take(i as int)));
    }
    assert(r@.take(r@.len() as int) =~= r@);
}

/// Hepburn romanization of kana; kanji and other characters are copied unchanged.
pub fn romanize_kana_chars(text: &Vec<char>) -> (r: Vec<char>)
    ensures
        r@ == kana_romanized(text@),
{
    let mut cs: Vec<char> = Vec::new();
    let mut k: usize = 0;
    while k < text.len()
        invariant
            k <= text@.len(),
            cs@ == text@.take(k as int).map_values(|c: char| hiragana_of(c)),
        decreases text@.len() - k,
    {
        cs.push(to_hiragana(text[k]));
        k = k + 1;
        assert(cs@ =~= text@.take(k as int).map_values(|c: char| hiragana_of(c)));
    }
    assert(text@.take(text@.len() as int) =~= text@);
    let ghost all = cs@;
    let mut out: Vec<char> = Vec::new();
    let mut i: usize = 0;
    assert(all.skip(0) =~= all);
    while i < cs.len()
        invariant
            i <= cs@.len(),
            cs@ == all,
            kana_rom(all, seq![]) == kana_rom(all.skip(i as int), out@),
        decreases cs@.len() - i,
    {
        let c = cs[i];
        let ghost rest = all.skip(i as int);
        assert(rest[0] == c);
        assert(rest.drop_first() =~= all.skip(i + 1));
        if i + 1 < cs.len() {
            assert(rest[1] == cs@[i + 1]);
        }
        let ghost old_out = out@;
        if c == '\u{3063}' {
            if i + 1 < cs.len() {
                match lookup(cs[i + 1]) {
                    Some(next) => {
                        if next.len() > 0 {
                            out.push(next[0]);
                        }
                    },
                    None => {},
                }
            }
            assert(kana_rom(rest, old_out) == kana_rom(all.skip(i + 1), out@));
            i = i + 1;
            continue;
        }
        if c == '\u{30FC}' {
            if out.len() > 0 {
                let last = out[out.len() - 1];
                if last == 'a' || last == 'e' || last == 'i' || last == 'o' || last == 'u' {
                    out.push(last);
                }
            }
            assert(kana_rom(rest, old_out) == kana_rom(all.skip(i + 1), out@));
            i = i + 1;
            continue;
        }
        if i + 1 < cs.len() {
            match yoon_reading(c, cs[i + 1]) {
                Some(combined) => {
                    assert(rest.skip(2) =~= all.skip(i + 2));
                    let ghost before = out@;
                    let mut j: usize = 0;
                    while j < combined.len()
                        invariant
                            j <= combined@.len(),
                            out@ == before + combined@.take(j as int),
                        decreases combined@.len() - j,
                    {
                        out.push(combined[j]);
                        j = j + 1;
                        assert(out@ =~= before + combined@.take(j as int));
                    }
                    assert(combined@.take(combined@.len() as int) =~= combined@);
                    assert(kana_rom(rest, old_out) == kana_rom(all.skip(i + 2), out@));
                    i = i + 2;
                    continue;
                },
                None => {},
            }
        }
        match lookup(c) {
            Some(reading) => {
                push_lower(&mut out, &reading);
                let is_n = reading.len() == 1 && reading[0] == 'n';
                assert(is_n == (reading@ =~= seq!['n']));
                if is_n && i + 1 < cs.len() {
                    let next = cs[i + 1];
                    if next == '\u{3042}' || next == '\u{3044}' || next == '\u{3046}' || next
                        == '\u{3048}' || next == '\u{304A}' || next == '\u{3084}' || next
                        == '\u{3086}' || next == '\u{3088}' {
                        out.push('\'');
                        assert(out@ =~= old_out + lower_all(reading@) + seq!['\'']);
                    }
                }
                assert(kana_rom(rest, old_out) == kana_rom(all.skip(i + 1), out@));
                i = i + 1;
            },
            None => {
                out.push(c);
                assert(kana_rom(rest, old_out) == kana_rom(all.skip(i + 1), out@));
                i = i + 1;
            },
        }
    }
    assert(all.skip(cs@.len() as int).len() == 0);
    out
}

/// Whether a line holds any CJK ideograph (which needs a dictionary reading).
pub open spec fn has_kanji(s: Seq<char>) -> bool {
    exists|i: int| 0 <= i < s.len() && is_cjk(#[trigger] s[i])
}

/// Hepburn romanization of a Japanese line. Kana are read directly; a kanji has no reading
/// without a morphological dictionary, so it is kept in place (see
/// [`romanize_japanese_segmented`] for dictionary readings supplied by a segmenter).
pub fn romanize_japanese(text: &str) -> (r: String)
    ensures
        r@ == kana_romanized(text@),
{
    let cs = chars_of(text);
    let out = romanize_kana_chars(&cs);
    string_of(&out)
}

/// One morpheme found by a Japanese segmenter: the characters `start..end` of the line and, when
/// the dictionary knows it, the katakana reading.
pub struct JapaneseToken {
    pub start: usize,
    pub end: usize,
    pub reading: Option<Vec<char>>,
}

/// Tokens that lie inside a text of length `len` with non-decreasing, non-overlapping bounds.
pub open spec fn tokens_well_formed(tokens: Seq<JapaneseToken>, len: int) -> bool {
    forall|k: int|
        0 <= k < tokens.len() ==> {
            &&& (#[trigger] tokens[k]).start <= tokens[k].end <= len
            &&& k > 0 ==> tokens[k - 1].end <= tokens[k].start
        }
}

/// A dictionary reading counts when it is present, non-empty and not the `*` placeholder.
pub open spec fn usable_reading(reading: Option<Vec<char>>) -> Option<Seq<char>> {
    match reading {
        Some(r) => if r@.len() > 0 && r@ != seq!['*'] {
            Some(r@)
        } else {
            None
        },
        None => None,
    }
}

/// Romanization of a segmented line: uncovered stretches and every token are read as kana, a
/// token by its dictionary reading when it has one and by its own characters otherwise.
pub open spec fn segmented_rom(text: Seq<char>, tokens: Seq<JapaneseToken>) -> Seq<char>
    decreases tokens.len(),
{
    if tokens.len() == 0 {
        kana_romanized(text)
    } else {
        let last = tokens.last();
        let cursor = if tokens.len() > 1 {
            tokens[tokens.len() - 2].end as int
        } else {
            0
        };
        let head = segmented_prefix(text, tokens.drop_last());
        let gap = if last.start > cursor {
            kana_romanized(text.subrange(cursor, last.start as int))
        } else {
            seq![]
        };
        let word = match usable_reading(last.reading) {
            Some(r) => kana_romanized(r),
            None => kana_romanized(text.subrange(last.start as int, last.end as int)),
        };
        let tail = if (last.end as int) < text.len() {
            kana_romanized(text.subrange(last.end as int, text.len() as int))
        } else {
            seq![]
        };
        head + gap + word + tail
    }
}

/// Output for the tokens so far, without the text after the last of them.
pub open spec fn segmented_prefix(text: Seq<char>, tokens: Seq<JapaneseToken>) -> Seq<char>
    decreases tokens.len(),
{
    if tokens.len() == 0 {
        seq![]
    } else {
        let last = tokens.last();
        let cursor = if tokens.len() > 1 {
            tokens[tokens.len() - 2].end as int
        } else {
            0
        };
        let gap = if last.start > cursor {
            kana_romanized(text.subrange(cursor, last.start as int))
        } else {
            seq![]
        };
        let word = match usable_reading(last.reading) {
            Some(r) => kana_romanized(r),
            None => kana_romanized(text.subrange(last.start as int, last.end as int)),
        };
        segmented_prefix(text, tokens.drop_last()) + gap + word
    }
}

/// Hepburn romanization of a Japanese line whose segmentation (with dictionary readings for its
/// kanji) was produced by a morphological analyser. A line without kanji needs no segmentation
/// and is read as kana directly.
pub fn romanize_japanese_segmented(text: &str, tokens: &Vec<JapaneseToken>) -> (r: String)
    requires
        tokens_well_formed(tokens@, text@.len() as int),
    ensures
        r@ == (if has_kanji(text@) {
            segmented_rom(text@, tokens@)
        } else {
            kana_romanized(text@)
        }),
{
    let cs = chars_of(text);
    let mut any_kanji = false;
    let mut k: usize = 0;
    while k < cs.len()
        invariant
            k <= cs@.len(),
            cs@ == text@,
            any_kanji == exists|i: int| 0 <= i < k && is_cjk(#[trigger] cs@[i]),
        decreases cs@.len() - k,
    {
        let u = cs[k] as u32;
        if 0x4E00 <= u && u <= 0x9FFF {
            any_kanji = true;
        }
        k = k + 1;
    }
    if !any_kanji {
        return string_of(&romanize_kana_chars(&cs));
    }
    let mut out: Vec<char> = Vec::new();
    let mut cursor: usize = 0;
    let mut t: usize = 0;
    while t < tokens.len()
        invariant
            t <= tokens@.len(),
            cs@ == text@,
            tokens_well_formed(tokens@, text@.len() as int),
            out@ == segmented_prefix(text@, tokens@.take(t as int)),
            cursor == (if t > 0 {
                tokens@[t - 1].end as int
            } else {
                0
            }),
            cursor <= cs@.len(),
        decreases tokens@.len() - t,
    {
        let token = &tokens[t];
        let ghost pre = tokens@.take(t + 1);
        assert(pre.drop_last() =~= tokens@.take(t as int));
        assert(pre.last() == tokens@[t as int]);
        if t > 0 {
            assert(pre[pre.len() - 2] == tokens@[t - 1]);
        }
        if token.start > cursor {
            let gap = crate::text::slice_vec(&cs, cursor, token.start);
            let g = romanize_kana_chars(&gap);
            crate::text::extend_all(&mut out, &g);
        }
        let usable = match &token.reading {
            Some(r) => {
                let star = r.len() == 1 && r[0] == '*';
                assert(star == (r@ =~= seq!['*']));
                if r.len() > 0 && !star {
                    Some(r)
                } else {
                    None
                }
            },
            None => None,
        };
        match usable {
            Some(r) => {
                let w = romanize_kana_chars(r);
                crate::text::extend_all(&mut out, &w);
            },
            None => {
                let surface = crate::text::slice_vec(&cs, token.start, token.end);
                let w = romanize_kana_chars(&surface);
                crate::text::extend_all(&mut out, &w);
            },
        }
        cursor = token.end;
        t = t + 1;
    }
    assert(tokens@.take(tokens@.len() as int) =~= tokens@);
    if cursor < cs.len() {
        let rest = crate::text::slice_vec(&cs, cursor, cs.len());
        let w = romanize_kana_chars(&rest);
        crate::text::extend_all(&mut out, &w);
    }
    proof {
        if tokens@.len() > 0 {
            assert(segmented_rom(text@, tokens@) == segmented_prefix(text@, tokens@) + (if (
            tokens@.last().end as int) < text@.len() {
                kana_romanized(text@.subrange(tokens@.last().end as int, text@.len() as int))
            } else {
                seq![]
            }));
        } else {
            assert(text@.subrange(0, text@.len() as int) =~= text@);
        }
    }
    string_of(&out)
}

// ---------------------------------------------------------------------------------------------
// Korean
// ---------------------------------------------------------------------------------------------

/// Concatenation of `f` over every character of `s`.
pub open spec fn concat_map(s: Seq<char>, f: spec_fn(char) -> Seq<char>) -> Seq<char>
    decreases s.len(),
{
    if s.len() == 0 {
        seq![]
    } else {
        concat_map(s.drop_last(), f) + f(s.last())
    }
}

pub proof fn lemma_concat_map_push(s: Seq<char>, c: char, f: spec_fn(char) -> Seq<char>)
    ensures
        concat_map(s.push(c), f) == concat_map(s, f) + f(c),
{
    assert(s.push(c).drop_last() =~= s);
}

/// No character of `s` lies in U+D7A4..U+D7AF, the unassigned tail of the Hangul syllable block,
/// for which there is no jamo decomposition.
pub open spec fn no_unassigned_hangul(s: Seq<char>) -> bool {
    forall|i: int| 0 <= i < s.len() ==> !in_range(#[trigger] s[i], 0xD7A4, 0xD7AF)
}

/// Revised Romanization of one character: a Hangul syllable U+AC00..U+D7AF is split into
/// initial, vowel and final jamo; anything else is copied.
pub open spec fn korean_char(c: char) -> Seq<char> {
    let u = c as u32;
    if 0xAC00 <= u <= 0xD7AF {
        let s = u - 0xAC00;
        hangul_initial(s / 588) + hangul_vowel((s % 588) / 28) + hangul_final(s % 28)
    } else {
        seq![c]
    }
}

/// Revised Romanization of Korean, syllable by syllable.
pub fn romanize_korean(text: &str) -> (r: String)
    requires
        no_unassigned_hangul(text@),
    ensures
        r@ == concat_map(text@, |c: char| korean_char(c)),
{
    string_of(&romanize_korean_chars(&chars_of(text)))
}

pub fn romanize_korean_chars(cs: &Vec<char>) -> (r: Vec<char>)
    requires
        no_unassigned_hangul(cs@),
    ensures
        r@ == concat_map(cs@, |c: char| korean_char(c)),
{
    let ghost f = |c: char| korean_char(c);
    let mut out: Vec<char> = Vec::new();
    let mut i: usize = 0;
    while i < cs.len()
        invariant
            i <= cs@.len(),
            f == (|c: char| korean_char(c)),
            no_unassigned_hangul(cs@),
            out@ == concat_map(cs@.take(i as int), f),
        decreases cs@.len() - i,
    {
        let c = cs[i];
        let code = c as u32;
        proof {
            assert(cs@.take(i + 1) =~= cs@.take(i as int).push(c));
            lemma_concat_map_push(cs@.take(i as int), c, f);
        }
        if 0xAC00 <= code && code <= 0xD7AF {
            let syllable = code - 0xAC00;
            assert(!in_range(cs@[i as int], 0xD7A4, 0xD7AF));
            assert(syllable / 588 < 19) by (nonlinear_arith)
                requires
                    syllable <= 0xD7A3 - 0xAC00,
            ;
            let a = hangul_initial_exec((syllable / 588) as usize);
            let b = hangul_vowel_exec(((syllable % 588) / 28) as usize);
            let z = hangul_final_exec((syllable % 28) as usize);
            crate::text::extend_all(&mut out, &a);
            crate::text::extend_all(&mut out, &b);
            crate::text::extend_all(&mut out, &z);
            assert(out@ =~= concat_map(cs@.take(i as int), f) + korean_char(c));
        } else {
            out.push(c);
        }
        i = i + 1;
    }
    assert(cs@.take(cs@.len() as int) =~= cs@);
    out
}

// ---------------------------------------------------------------------------------------------
// Chinese
// ---------------------------------------------------------------------------------------------

/// Hanyu Pinyin with tone marks that the `pinyin` crate gives for one character; `None` for a
/// character it has no reading for.
pub uninterp spec fn pinyin_of(c: char) -> Option<Seq<char>>;

/// `pinyin::ToPinyin::to_pinyin` on one character followed by `Pinyin::with_tone`. The reading
/// is whatever the crate's table holds for that character; nothing more is claimed of it.
#[verifier::external_body]
fn pinyin_with_tone(c: char) -> (r: Option<Vec<char>>)
    ensures
        match r {
            Some(v) => pinyin_of(c) == Some(v@),
            None => pinyin_of(c) is None,
        },
{
    c.to_pinyin().map(|p| p.with_tone().chars().collect())
}

/// A Han character replaced by its pinyin, anything else kept.
pub open spec fn chinese_char(c: char) -> Seq<char> {
    match pinyin_of(c) {
        Some(p) => p,
        None => seq![c],
    }
}

/// Hanyu Pinyin with tone marks, leaving characters without a reading untouched.
pub fn romanize_chinese(text: &str) -> (r: String)
    ensures
        r@ == concat_map(text@, |c: char| chinese_char(c)),
{
    string_of(&romanize_chinese_chars(&chars_of(text)))
}

pub fn romanize_chinese_chars(cs: &Vec<char>) -> (r: Vec<char>)
    ensures
        r@ == concat_map(cs@, |c: char| chinese_char(c)),
{
    let ghost f = |c: char| chinese_char(c);
    let mut out: Vec<char> = Vec::new();
    let mut i: usize = 0;
    while i < cs.len()
        invariant
            i <= cs@.len(),
            f == (|c: char| chinese_char(c)),
            out@ == concat_map(cs@.take(i as int), f),
        decreases cs@.len() - i,
    {
        let c = cs[i];
        proof {
            assert(cs@.take(i + 1) =~= cs@.take(i as int).push(c));
            lemma_concat_map_push(cs@.take(i as int), c, f);
        }
        match pinyin_with_tone(c) {
            Some(p) => crate::text::extend_all(&mut out, &p),
            None => out.push(c),
        }
        i = i + 1;
    }
    assert(cs@.take(cs@.len() as int) =~= cs@);
    out
}

// ---------------------------------------------------------------------------------------------
// Cyrillic & Greek
// ---------------------------------------------------------------------------------------------

/// A Cyrillic letter replaced by its transliteration, anything else kept.
pub open spec fn cyrillic_char(c: char) -> Seq<char> {
    match cyrillic_letter(c) {
        Some(t) => t,
        None => seq![c],
    }
}

/// A Greek letter replaced by its transliteration, anything else kept.
pub open spec fn greek_char(c: char) -> Seq<char> {
    match greek_letter(c) {
        Some(t) => t,
        None => seq![c],
    }
}

/// ISO 9 / ALA-LC style transliteration of Cyrillic.
pub fn romanize_cyrillic(text: &str) -> (r: String)
    ensures
        r@ == concat_map(text@, |c: char| cyrillic_char(c)),
{
    string_of(&romanize_cyrillic_chars(&chars_of(text)))
}

pub fn romanize_cyrillic_chars(cs: &Vec<char>) -> (r: Vec<char>)
    ensures
        r@ == concat_map(cs@, |c: char| cyrillic_char(c)),
{
    let ghost f = |c: char| cyrillic_char(c);
    let mut out: Vec<char> = Vec::new();
    let mut i: usize = 0;
    while i < cs.len()
        invariant
            i <= cs@.len(),
            f == (|c: char| cyrillic_char(c)),
            out@ == concat_map(cs@.take(i as int), f),
        decreases cs@.len() - i,
    {
        let c = cs[i];
        proof {
            assert(cs@.take(i + 1) =~= cs@.take(i as int).push(c));
            lemma_concat_map_push(cs@.take(i as int), c, f);
        }
        match cyrillic_letter_exec(c) {
            Some(t) => crate::text::extend_all(&mut out, &t),
            None => out.push(c),
        }
        i = i + 1;
    }
    assert(cs@.take(cs@.len() as int) =~= cs@);
    out
}

/// Transliteration of Greek, accented forms included.
pub fn romanize_greek(text: &str) -> (r: String)
    ensures
        r@ == concat_map(text@, |c: char| greek_char(c)),
{
    string_of(&romanize_greek_chars(&chars_of(text)))
}

pub fn romanize_greek_chars(cs: &Vec<char>) -> (r: Vec<char>)
    ensures
        r@ == concat_map(cs@, |c: char| greek_char(c)),
{
    let ghost f = |c: char| greek_char(c);
    let mut out: Vec<char> = Vec::new();
    let mut i: usize = 0;
    while i < cs.len()
        invariant
            i <= cs@.len(),
            f == (|c: char| greek_char(c)),
            out@ == concat_map(cs@.take(i as int), f),
        decreases cs@.len() - i,
    {
        let c = cs[i];
        proof {
            assert(cs@.take(i + 1) =~= cs@.take(i as int).push(c));
            lemma_concat_map_push(cs@.take(i as int), c, f);
        }
        match greek_letter_exec(c) {
            Some(t) => crate::text::extend_all(&mut out, &t),
            None => out.push(c),
        }
        i = i + 1;
    }
    assert(cs@.take(cs@.len() as int) =~= cs@);
    out
}

/// Transliteration of a line by its dominant script; Latin and unrecognised lines are unchanged.
pub open spec fn romanized(text: Seq<char>) -> Seq<char> {
    match script_of(text) {
        Script::Japanese => kana_romanized(text),
        Script::Korean => concat_map(text, |c: char| korean_char(c)),
        Script::Chinese => concat_map(text, |c: char| chinese_char(c)),
        Script::Cyrillic => concat_map(text, |c: char| cyrillic_char(c)),
        Script::Greek => concat_map(text, |c: char| greek_char(c)),
        Script::Latin | Script::Other => text,
    }
}

/// Transliterates a lyric line using whichever script it is written in. Latin and unrecognised
/// lines come back unchanged.
pub fn romanize(text: &str) -> (r: String)
    requires
        script_of(text@) == Script::Korean ==> no_unassigned_hangul(text@),
    ensures
        r@ == romanized(text@),
{
    string_of(&romanize_chars(&chars_of(text)))
}

/// [`romanize`] on characters.
pub fn romanize_chars(cs: &Vec<char>) -> (r: Vec<char>)
    requires
        script_of(cs@) == Script::Korean ==> no_unassigned_hangul(cs@),
    ensures
        r@ == romanized(cs@),
{
    match detect_script_chars(cs) {
        Script::Japanese => romanize_kana_chars(cs),
        Script::Korean => romanize_korean_chars(cs),
        Script::Chinese => romanize_chinese_chars(cs),
        Script::Cyrillic => romanize_cyrillic_chars(cs),
        Script::Greek => romanize_greek_chars(cs),
        Script::Latin | Script::Other => crate::text::slice_vec(cs, 0, cs.len()),
    }
}

/// A line is transliterated by the romanizer of the script [`detect_script`] finds in it: what
/// [`romanize_japanese`], [`romanize_korean`], [`romanize_chinese`], [`romanize_cyrillic`] and
/// [`romanize_greek`] give; a Latin or unrecognised line is given back as it is.
pub proof fn lemma_romanize_follows_the_script(text: Seq<char>)
    ensures
        romanized(text) == match script_of(text) {
            Script::Japanese => kana_romanized(text),
            Script::Korean => concat_map(text, |c: char| korean_char(c)),
            Script::Chinese => concat_map(text, |c: char| chinese_char(c)),
            Script::Cyrillic => concat_map(text, |c: char| cyrillic_char(c)),
            Script::Greek => concat_map(text, |c: char| greek_char(c)),
            Script::Latin | Script::Other => text,
        },
{
}

/// Latin and unrecognised lines are left exactly as they are.
pub proof fn lemma_latin_unchanged(text: Seq<char>)
    ensures
        script_of(text) == Script::Latin || script_of(text) == Script::Other ==> romanized(text) == text,
{
}


/// An ASCII letter made uppercase.
pub open spec fn ascii_upper(c: char) -> char {
    if 'a' <= c <= 'z' {
        ((c as u32) - 32) as char
    } else {
        c
    }
}

/// A transliteration with its first letter made uppercase.
pub open spec fn capitalized(s: Seq<char>) -> Seq<char> {
    if s.len() == 0 {
        s
    } else {
        s.update(0, ascii_upper(s[0]))
    }
}

/// The capital of a lowercase Cyrillic letter of U+0430..U+045F.
pub open spec fn cyrillic_capital(c: char) -> char {
    if (c as u32) < 0x450 {
        ((c as u32) - 0x20) as char
    } else {
        ((c as u32) - 0x50) as char
    }
}

/// Letter case carries over: a capital Cyrillic letter is transliterated as its small letter is,
/// with the first Latin letter made uppercase (Ш gives "Sh" where ш gives "sh"), and a small
/// letter gives only small Latin letters.
pub proof fn lemma_cyrillic_case_pairs(c: char)
    requires
        0x430 <= (c as u32) < 0x460,
    ensures
        cyrillic_letter(cyrillic_capital(c)) == match cyrillic_letter(c) {
            Some(t) => Some(capitalized(t)),
            None => None,
        },
        cyrillic_letter(c) matches Some(t) ==> forall|i: int| 0 <= i < t.len() ==> 'a' <= #[trigger] t[i] <= 'z',
{
    let u = c as u32;
    assert(cyrillic_letter(cyrillic_capital(c)) =~~= match cyrillic_letter(c) {
        Some(t) => Some(capitalized(t)),
        None => None,
    });
}

/// The small letter ш is always written "sh", wherever it stands in a line.
pub proof fn lemma_sha_is_sh(text: Seq<char>)
    ensures
        concat_map(text.push('\u{448}'), |c: char| cyrillic_char(c)) == concat_map(
            text,
            |c: char| cyrillic_char(c),
        ) + seq!['s', 'h'],
{
    lemma_concat_map_push(text, '\u{448}', |c: char| cyrillic_char(c));
}


/// A small letter of the Russian alphabet (а..я and ё).
pub open spec fn russian_small(c: char) -> bool {
    0x430 <= (c as u32) <= 0x44F || (c as u32) == 0x451
}

/// Two different Russian letters are written differently, but for the pairs ISO 9 / ALA-LC writes
/// alike: й and ы (both "y"), е and э (both "e"), and the hard and soft signs ъ and ь (both
/// dropped).
pub proof fn lemma_russian_letters_distinct(a: char, b: char)
    requires
        russian_small(a),
        russian_small(b),
        a != b,
        !(a == '\u{439}' && b == '\u{44b}') && !(a == '\u{44b}' && b == '\u{439}'),
        !(a == '\u{435}' && b == '\u{44d}') && !(a == '\u{44d}' && b == '\u{435}'),
        !(a == '\u{44a}' && b == '\u{44c}') && !(a == '\u{44c}' && b == '\u{44a}'),
    ensures
        cyrillic_letter(a) != cyrillic_letter(b),
{
    let ta = cyrillic_letter(a).unwrap();
    let tb = cyrillic_letter(b).unwrap();
    if cyrillic_letter(a) == cyrillic_letter(b) {
        assert(ta.len() == tb.len());
        if ta.len() > 0 {
            assert(ta[0] == tb[0]);
        }
        if ta.len() > 1 {
            assert(ta[1] == tb[1]);
        }
        if ta.len() > 2 {
            assert(ta[2] == tb[2]);
        }
    }
}


/// Letter case carries over in Greek: each capital of Α..Ω is transliterated as its small letter
/// α..ω is, with the first Latin letter made uppercase (Θ gives "Th" where θ gives "th"), and a
/// small letter gives only small Latin letters. (Final ς has no capital.)
pub proof fn lemma_greek_case_pairs(c: char)
    requires
        0x3B1 <= (c as u32) <= 0x3C9,
        (c as u32) != 0x3C2,
    ensures
        greek_letter(((c as u32) - 0x20) as char) == match greek_letter(c) {
            Some(t) => Some(capitalized(t)),
            None => None,
        },
        greek_letter(c) matches Some(t) ==> forall|i: int| 0 <= i < t.len() ==> 'a' <= #[trigger] t[i] <= 'z',
{
    assert(greek_letter(((c as u32) - 0x20) as char) =~~= match greek_letter(c) {
        Some(t) => Some(capitalized(t)),
        None => None,
    });
}

/// Two different small letters of the Greek alphabet α..ω are written differently, but for the
/// pairs the transliteration writes alike: η and ι (both "i"), ο and ω (both "o"), and σ and its
/// final form ς (both "s").
pub proof fn lemma_greek_letters_distinct(a: char, b: char)
    requires
        0x3B1 <= (a as u32) <= 0x3C9,
        0x3B1 <= (b as u32) <= 0x3C9,
        a != b,
        !(a == '\u{3b7}' && b == '\u{3b9}') && !(a == '\u{3b9}' && b == '\u{3b7}'),
        !(a == '\u{3bf}' && b == '\u{3c9}') && !(a == '\u{3c9}' && b == '\u{3bf}'),
        !(a == '\u{3c3}' && b == '\u{3c2}') && !(a == '\u{3c2}' && b == '\u{3c3}'),
    ensures
        greek_letter(a) != greek_letter(b),
{
    let ta = greek_letter(a).unwrap();
    let tb = greek_letter(b).unwrap();
    if greek_letter(a) == greek_letter(b) {
        assert(ta.len() == tb.len());
        if ta.len() > 0 {
            assert(ta[0] == tb[0]);
        }
        if ta.len() > 1 {
            assert(ta[1] == tb[1]);
        }
    }
}


/// An accent or a diaeresis does not change how a Greek vowel is written: ά, έ, ή, ί, ό, ύ, ώ,
/// ϊ, ϋ, ΐ, ΰ and their capitals give what the bare vowel gives.
pub proof fn lemma_greek_accents_ignored()
    ensures
        greek_letter('\u{3ac}') == greek_letter('\u{3b1}'),
        greek_letter('\u{3ad}') == greek_letter('\u{3b5}'),
        greek_letter('\u{3ae}') == greek_letter('\u{3b7}'),
        greek_letter('\u{3af}') == greek_letter('\u{3b9}'),
        greek_letter('\u{3cc}') == greek_letter('\u{3bf}'),
        greek_letter('\u{3cd}') == greek_letter('\u{3c5}'),
        greek_letter('\u{3ce}') == greek_letter('\u{3c9}'),
        greek_letter('\u{3ca}') == greek_letter('\u{3b9}'),
        greek_letter('\u{3cb}') == greek_letter('\u{3c5}'),
        greek_letter('\u{390}') == greek_letter('\u{3b9}'),
        greek_letter('\u{3b0}') == greek_letter('\u{3c5}'),
        greek_letter('\u{386}') == greek_letter('\u{391}'),
        greek_letter('\u{388}') == greek_letter('\u{395}'),
        greek_letter('\u{389}') == greek_letter('\u{397}'),
        greek_letter('\u{38a}') == greek_letter('\u{399}'),
        greek_letter('\u{38c}') == greek_letter('\u{39f}'),
        greek_letter('\u{38e}') == greek_letter('\u{3a5}'),
        greek_letter('\u{38f}') == greek_letter('\u{3a9}'),
        greek_letter('\u{3aa}') == greek_letter('\u{399}'),
        greek_letter('\u{3ab}') == greek_letter('\u{3a5}'),
{
}

} // verus!
