//! Transliteration tables: Hepburn kana readings, Revised Romanization jamo, and the Cyrillic and
//! Greek letter maps.
use vstd::prelude::*;

verus! {

/// Hepburn reading of the kana at `0x3041 + i`; upper-case entries are small kana that only complete a contraction.
pub open spec fn hepburn(i: int) -> Seq<char> {
    if i == 0 {
        seq!['a']
    } else if i == 1 {
        seq!['a']
    } else if i == 2 {
        seq!['i']
    } else if i == 3 {
        seq!['i']
    } else if i == 4 {
        seq!['u']
    } else if i == 5 {
        seq!['u']
    } else if i == 6 {
        seq!['e']
    } else if i == 7 {
        seq!['e']
    } else if i == 8 {
        seq!['o']
    } else if i == 9 {
        seq!['o']
    } else if i == 10 {
        seq!['k', 'a']
    } else if i == 11 {
        seq!['g', 'a']
    } else if i == 12 {
        seq!['k', 'i']
    } else if i == 13 {
        seq!['g', 'i']
    } else if i == 14 {
        seq!['k', 'u']
    } else if i == 15 {
        seq!['g', 'u']
    } else if i == 16 {
        seq!['k', 'e']
    } else if i == 17 {
        seq!['g', 'e']
    } else if i == 18 {
        seq!['k', 'o']
    } else if i == 19 {
        seq!['g', 'o']
    } else if i == 20 {
        seq!['s', 'a']
    } else if i == 21 {
        seq!['z', 'a']
    } else if i == 22 {
        seq!['s', 'h', 'i']
    } else if i == 23 {
        seq!['j', 'i']
    } else if i == 24 {
        seq!['s', 'u']
    } else if i == 25 {
        seq!['z', 'u']
    } else if i == 26 {
        seq!['s', 'e']
    } else if i == 27 {
        seq!['z', 'e']
    } else if i == 28 {
        seq!['s', 'o']
    } else if i == 29 {
        seq!['z', 'o']
    } else if i == 30 {
        seq!['t', 'a']
    } else if i == 31 {
        seq!['d', 'a']
    } else if i == 32 {
        seq!['c', 'h', 'i']
    } else if i == 33 {
        seq!['j', 'i']
    } else if i == 34 {
        seq!['T', 'S', 'U']
    } else if i == 35 {
        seq!['t', 's', 'u']
    } else if i == 36 {
        seq!['z', 'u']
    } else if i == 37 {
        seq!['t', 'e']
    } else if i == 38 {
        seq!['d', 'e']
    } else if i == 39 {
        seq!['t', 'o']
    } else if i == 40 {
        seq!['d', 'o']
    } else if i == 41 {
        seq!['n', 'a']
    } else if i == 42 {
        seq!['n', 'i']
    } else if i == 43 {
        seq!['n', 'u']
    } else if i == 44 {
        seq!['n', 'e']
    } else if i == 45 {
        seq!['n', 'o']
    } else if i == 46 {
        seq!['h', 'a']
    } else if i == 47 {
        seq!['b', 'a']
    } else if i == 48 {
        seq!['p', 'a']
    } else if i == 49 {
        seq!['h', 'i']
    } else if i == 50 {
        seq!['b', 'i']
    } else if i == 51 {
        seq!['p', 'i']
    } else if i == 52 {
        seq!['f', 'u']
    } else if i == 53 {
        seq!['b', 'u']
    } else if i == 54 {
        seq!['p', 'u']
    } else if i == 55 {
        seq!['h', 'e']
    } else if i == 56 {
        seq!['b', 'e']
    } else if i == 57 {
        seq!['p', 'e']
    } else if i == 58 {
        seq!['h', 'o']
    } else if i == 59 {
        seq!['b', 'o']
    } else if i == 60 {
        seq!['p', 'o']
    } else if i == 61 {
        seq!['m', 'a']
    } else if i == 62 {
        seq!['m', 'i']
    } else if i == 63 {
        seq!['m', 'u']
    } else if i == 64 {
        seq!['m', 'e']
    } else if i == 65 {
        seq!['m', 'o']
    } else if i == 66 {
        seq!['Y', 'A']
    } else if i == 67 {
        seq!['y', 'a']
    } else if i == 68 {
        seq!['Y', 'U']
    } else if i == 69 {
        seq!['y', 'u']
    } else if i == 70 {
        seq!['Y', 'O']
    } else if i == 71 {
        seq!['y', 'o']
    } else if i == 72 {
        seq!['r', 'a']
    } else if i == 73 {
        seq!['r', 'i']
    } else if i == 74 {
        seq!['r', 'u']
    } else if i == 75 {
        seq!['r', 'e']
    } else if i == 76 {
        seq!['r', 'o']
    } else if i == 77 {
        seq!['W', 'A']
    } else if i == 78 {
        seq!['w', 'a']
    } else if i == 79 {
        seq!['w', 'i']
    } else if i == 80 {
        seq!['w', 'e']
    } else if i == 81 {
        seq!['w', 'o']
    } else if i == 82 {
        seq!['n']
    } else {
        seq![]
    }
}

pub(crate) fn hepburn_exec(i: usize) -> (r: Vec<char>)
    requires
        i < 83,
    ensures
        r@ == hepburn(i as int),
{
    match i {
        0 => vec!['a'],
        1 => vec!['a'],
        2 => vec!['i'],
        3 => vec!['i'],
        4 => vec!['u'],
        5 => vec!['u'],
        6 => vec!['e'],
        7 => vec!['e'],
        8 => vec!['o'],
        9 => vec!['o'],
        10 => vec!['k', 'a'],
        11 => vec!['g', 'a'],
        12 => vec!['k', 'i'],
        13 => vec!['g', 'i'],
        14 => vec!['k', 'u'],
        15 => vec!['g', 'u'],
        16 => vec!['k', 'e'],
        17 => vec!['g', 'e'],
        18 => vec!['k', 'o'],
        19 => vec!['g', 'o'],
        20 => vec!['s', 'a'],
        21 => vec!['z', 'a'],
        22 => vec!['s', 'h', 'i'],
        23 => vec!['j', 'i'],
        24 => vec!['s', 'u'],
        25 => vec!['z', 'u'],
        26 => vec!['s', 'e'],
        27 => vec!['z', 'e'],
        28 => vec!['s', 'o'],
        29 => vec!['z', 'o'],
        30 => vec!['t', 'a'],
        31 => vec!['d', 'a'],
        32 => vec!['c', 'h', 'i'],
        33 => vec!['j', 'i'],
        34 => vec!['T', 'S', 'U'],
        35 => vec!['t', 's', 'u'],
        36 => vec!['z', 'u'],
        37 => vec!['t', 'e'],
        38 => vec!['d', 'e'],
        39 => vec!['t', 'o'],
        40 => vec!['d', 'o'],
        41 => vec!['n', 'a'],
        42 => vec!['n', 'i'],
        43 => vec!['n', 'u'],
        44 => vec!['n', 'e'],
        45 => vec!['n', 'o'],
        46 => vec!['h', 'a'],
        47 => vec!['b', 'a'],
        48 => vec!['p', 'a'],
        49 => vec!['h', 'i'],
        50 => vec!['b', 'i'],
        51 => vec!['p', 'i'],
        52 => vec!['f', 'u'],
        53 => vec!['b', 'u'],
        54 => vec!['p', 'u'],
        55 => vec!['h', 'e'],
        56 => vec!['b', 'e'],
        57 => vec!['p', 'e'],
        58 => vec!['h', 'o'],
        59 => vec!['b', 'o'],
        60 => vec!['p', 'o'],
        61 => vec!['m', 'a'],
        62 => vec!['m', 'i'],
        63 => vec!['m', 'u'],
        64 => vec!['m', 'e'],
        65 => vec!['m', 'o'],
        66 => vec!['Y', 'A'],
        67 => vec!['y', 'a'],
        68 => vec!['Y', 'U'],
        69 => vec!['y', 'u'],
        70 => vec!['Y', 'O'],
        71 => vec!['y', 'o'],
        72 => vec!['r', 'a'],
        73 => vec!['r', 'i'],
        74 => vec!['r', 'u'],
        75 => vec!['r', 'e'],
        76 => vec!['r', 'o'],
        77 => vec!['W', 'A'],
        78 => vec!['w', 'a'],
        79 => vec!['w', 'i'],
        80 => vec!['w', 'e'],
        81 => vec!['w', 'o'],
        82 => vec!['n'],
        _ => vec![],
    }
}

/// Revised Romanization of the initial consonant with index `i`.
pub open spec fn hangul_initial(i: int) -> Seq<char> {
    if i == 0 {
        seq!['g']
    } else if i == 1 {
        seq!['k', 'k']
    } else if i == 2 {
        seq!['n']
    } else if i == 3 {
        seq!['d']
    } else if i == 4 {
        seq!['t', 't']
    } else if i == 5 {
        seq!['r']
    } else if i == 6 {
        seq!['m']
    } else if i == 7 {
        seq!['b']
    } else if i == 8 {
        seq!['p', 'p']
    } else if i == 9 {
        seq!['s']
    } else if i == 10 {
        seq!['s', 's']
    } else if i == 11 {
        seq![]
    } else if i == 12 {
        seq!['j']
    } else if i == 13 {
        seq!['j', 'j']
    } else if i == 14 {
        seq!['c', 'h']
    } else if i == 15 {
        seq!['k']
    } else if i == 16 {
        seq!['t']
    } else if i == 17 {
        seq!['p']
    } else if i == 18 {
        seq!['h']
    } else {
        seq![]
    }
}

pub(crate) fn hangul_initial_exec(i: usize) -> (r: Vec<char>)
    requires
        i < 19,
    ensures
        r@ == hangul_initial(i as int),
{
    match i {
        0 => vec!['g'],
        1 => vec!['k', 'k'],
        2 => vec!['n'],
        3 => vec!['d'],
        4 => vec!['t', 't'],
        5 => vec!['r'],
        6 => vec!['m'],
        7 => vec!['b'],
        8 => vec!['p', 'p'],
        9 => vec!['s'],
        10 => vec!['s', 's'],
        11 => vec![],
        12 => vec!['j'],
        13 => vec!['j', 'j'],
        14 => vec!['c', 'h'],
        15 => vec!['k'],
        16 => vec!['t'],
        17 => vec!['p'],
        18 => vec!['h'],
        _ => vec![],
    }
}

/// Revised Romanization of the medial vowel with index `i`.
pub open spec fn hangul_vowel(i: int) -> Seq<char> {
    if i == 0 {
        seq!['a']
    } else if i == 1 {
        seq!['a', 'e']
    } else if i == 2 {
        seq!['y', 'a']
    } else if i == 3 {
        seq!['y', 'a', 'e']
    } else if i == 4 {
        seq!['e', 'o']
    } else if i == 5 {
        seq!['e']
    } else if i == 6 {
        seq!['y', 'e', 'o']
    } else if i == 7 {
        seq!['y', 'e']
    } else if i == 8 {
        seq!['o']
    } else if i == 9 {
        seq!['w', 'a']
    } else if i == 10 {
        seq!['w', 'a', 'e']
    } else if i == 11 {
        seq!['o', 'e']
    } else if i == 12 {
        seq!['y', 'o']
    } else if i == 13 {
        seq!['u']
    } else if i == 14 {
        seq!['w', 'o']
    } else if i == 15 {
        seq!['w', 'e']
    } else if i == 16 {
        seq!['w', 'i']
    } else if i == 17 {
        seq!['y', 'u']
    } else if i == 18 {
        seq!['e', 'u']
    } else if i == 19 {
        seq!['u', 'i']
    } else if i == 20 {
        seq!['i']
    } else {
        seq![]
    }
}

pub(crate) fn hangul_vowel_exec(i: usize) -> (r: Vec<char>)
    requires
        i < 21,
    ensures
        r@ == hangul_vowel(i as int),
{
    match i {
        0 => vec!['a'],
        1 => vec!['a', 'e'],
        2 => vec!['y', 'a'],
        3 => vec!['y', 'a', 'e'],
        4 => vec!['e', 'o'],
        5 => vec!['e'],
        6 => vec!['y', 'e', 'o'],
        7 => vec!['y', 'e'],
        8 => vec!['o'],
        9 => vec!['w', 'a'],
        10 => vec!['w', 'a', 'e'],
        11 => vec!['o', 'e'],
        12 => vec!['y', 'o'],
        13 => vec!['u'],
        14 => vec!['w', 'o'],
        15 => vec!['w', 'e'],
        16 => vec!['w', 'i'],
        17 => vec!['y', 'u'],
        18 => vec!['e', 'u'],
        19 => vec!['u', 'i'],
        20 => vec!['i'],
        _ => vec![],
    }
}

/// Revised Romanization of the final consonant with index `i`.
pub open spec fn hangul_final(i: int) -> Seq<char> {
    if i == 0 {
        seq![]
    } else if i == 1 {
        seq!['k']
    } else if i == 2 {
        seq!['k', 'k']
    } else if i == 3 {
        seq!['k', 's']
    } else if i == 4 {
        seq!['n']
    } else if i == 5 {
        seq!['n', 'j']
    } else if i == 6 {
        seq!['n', 'h']
    } else if i == 7 {
        seq!['t']
    } else if i == 8 {
        seq!['l']
    } else if i == 9 {
        seq!['l', 'k']
    } else if i == 10 {
        seq!['l', 'm']
    } else if i == 11 {
        seq!['l', 'b']
    } else if i == 12 {
        seq!['l', 's']
    } else if i == 13 {
        seq!['l', 't']
    } else if i == 14 {
        seq!['l', 'p']
    } else if i == 15 {
        seq!['l', 'h']
    } else if i == 16 {
        seq!['m']
    } else if i == 17 {
        seq!['p']
    } else if i == 18 {
        seq!['p', 's']
    } else if i == 19 {
        seq!['t']
    } else if i == 20 {
        seq!['t']
    } else if i == 21 {
        seq!['n', 'g']
    } else if i == 22 {
        seq!['t']
    } else if i == 23 {
        seq!['t']
    } else if i == 24 {
        seq!['k']
    } else if i == 25 {
        seq!['t']
    } else if i == 26 {
        seq!['p']
    } else if i == 27 {
        seq!['h']
    } else {
        seq![]
    }
}

pub(crate) fn hangul_final_exec(i: usize) -> (r: Vec<char>)
    requires
        i < 28,
    ensures
        r@ == hangul_final(i as int),
{
    match i {
        0 => vec![],
        1 => vec!['k'],
        2 => vec!['k', 'k'],
        3 => vec!['k', 's'],
        4 => vec!['n'],
        5 => vec!['n', 'j'],
        6 => vec!['n', 'h'],
        7 => vec!['t'],
        8 => vec!['l'],
        9 => vec!['l', 'k'],
        10 => vec!['l', 'm'],
        11 => vec!['l', 'b'],
        12 => vec!['l', 's'],
        13 => vec!['l', 't'],
        14 => vec!['l', 'p'],
        15 => vec!['l', 'h'],
        16 => vec!['m'],
        17 => vec!['p'],
        18 => vec!['p', 's'],
        19 => vec!['t'],
        20 => vec!['t'],
        21 => vec!['n', 'g'],
        22 => vec!['t'],
        23 => vec!['t'],
        24 => vec!['k'],
        25 => vec!['t'],
        26 => vec!['p'],
        27 => vec!['h'],
        _ => vec![],
    }
}

/// ISO 9 / ALA-LC transliteration of one Cyrillic letter, when it has one.
pub open spec fn cyrillic_letter(c: char) -> Option<Seq<char>> {
    if c == '\u{430}' {
        Some(seq!['a'])
    } else if c == '\u{431}' {
        Some(seq!['b'])
    } else if c == '\u{432}' {
        Some(seq!['v'])
    } else if c == '\u{433}' {
        Some(seq!['g'])
    } else if c == '\u{434}' {
        Some(seq!['d'])
    } else if c == '\u{435}' {
        Some(seq!['e'])
    } else if c == '\u{451}' {
        Some(seq!['y', 'o'])
    } else if c == '\u{436}' {
        Some(seq!['z', 'h'])
    } else if c == '\u{437}' {
        Some(seq!['z'])
    } else if c == '\u{438}' {
        Some(seq!['i'])
    } else if c == '\u{439}' {
        Some(seq!['y'])
    } else if c == '\u{43a}' {
        Some(seq!['k'])
    } else if c == '\u{43b}' {
        Some(seq!['l'])
    } else if c == '\u{43c}' {
        Some(seq!['m'])
    } else if c == '\u{43d}' {
        Some(seq!['n'])
    } else if c == '\u{43e}' {
        Some(seq!['o'])
    } else if c == '\u{43f}' {
        Some(seq!['p'])
    } else if c == '\u{440}' {
        Some(seq!['r'])
    } else if c == '\u{441}' {
        Some(seq!['s'])
    } else if c == '\u{442}' {
        Some(seq!['t'])
    } else if c == '\u{443}' {
        Some(seq!['u'])
    } else if c == '\u{444}' {
        Some(seq!['f'])
    } else if c == '\u{445}' {
        Some(seq!['k', 'h'])
    } else if c == '\u{446}' {
        Some(seq!['t', 's'])
    } else if c == '\u{447}' {
        Some(seq!['c', 'h'])
    } else if c == '\u{448}' {
        Some(seq!['s', 'h'])
    } else if c == '\u{449}' {
        Some(seq!['s', 'h', 'c', 'h'])
    } else if c == '\u{44a}' {
        Some(seq![])
    } else if c == '\u{44b}' {
        Some(seq!['y'])
    } else if c == '\u{44c}' {
        Some(seq![])
    } else if c == '\u{44d}' {
        Some(seq!['e'])
    } else if c == '\u{44e}' {
        Some(seq!['y', 'u'])
    } else if c == '\u{44f}' {
        Some(seq!['y', 'a'])
    } else if c == '\u{410}' {
        Some(seq!['A'])
    } else if c == '\u{411}' {
        Some(seq!['B'])
    } else if c == '\u{412}' {
        Some(seq!['V'])
    } else if c == '\u{413}' {
        Some(seq!['G'])
    } else if c == '\u{414}' {
        Some(seq!['D'])
    } else if c == '\u{415}' {
        Some(seq!['E'])
    } else if c == '\u{401}' {
        Some(seq!['Y', 'o'])
    } else if c == '\u{416}' {
        Some(seq!['Z', 'h'])
    } else if c == '\u{417}' {
        Some(seq!['Z'])
    } else if c == '\u{418}' {
        Some(seq!['I'])
    } else if c == '\u{419}' {
        Some(seq!['Y'])
    } else if c == '\u{41a}' {
        Some(seq!['K'])
    } else if c == '\u{41b}' {
        Some(seq!['L'])
    } else if c == '\u{41c}' {
        Some(seq!['M'])
    } else if c == '\u{41d}' {
        Some(seq!['N'])
    } else if c == '\u{41e}' {
        Some(seq!['O'])
    } else if c == '\u{41f}' {
        Some(seq!['P'])
    } else if c == '\u{420}' {
        Some(seq!['R'])
    } else if c == '\u{421}' {
        Some(seq!['S'])
    } else if c == '\u{422}' {
        Some(seq!['T'])
    } else if c == '\u{423}' {
        Some(seq!['U'])
    } else if c == '\u{424}' {
        Some(seq!['F'])
    } else if c == '\u{425}' {
        Some(seq!['K', 'h'])
    } else if c == '\u{426}' {
        Some(seq!['T', 's'])
    } else if c == '\u{427}' {
        Some(seq!['C', 'h'])
    } else if c == '\u{428}' {
        Some(seq!['S', 'h'])
    } else if c == '\u{429}' {
        Some(seq!['S', 'h', 'c', 'h'])
    } else if c == '\u{42a}' {
        Some(seq![])
    } else if c == '\u{42b}' {
        Some(seq!['Y'])
    } else if c == '\u{42c}' {
        Some(seq![])
    } else if c == '\u{42d}' {
        Some(seq!['E'])
    } else if c == '\u{42e}' {
        Some(seq!['Y', 'u'])
    } else if c == '\u{42f}' {
        Some(seq!['Y', 'a'])
    } else if c == '\u{456}' {
        Some(seq!['i'])
    } else if c == '\u{457}' {
        Some(seq!['y', 'i'])
    } else if c == '\u{454}' {
        Some(seq!['y', 'e'])
    } else if c == '\u{491}' {
        Some(seq!['g'])
    } else if c == '\u{406}' {
        Some(seq!['I'])
    } else if c == '\u{407}' {
        Some(seq!['Y', 'i'])
    } else if c == '\u{404}' {
        Some(seq!['Y', 'e'])
    } else if c == '\u{490}' {
        Some(seq!['G'])
    } else if c == '\u{452}' {
        Some(seq!['d', 'j'])
    } else if c == '\u{458}' {
        Some(seq!['j'])
    } else if c == '\u{459}' {
        Some(seq!['l', 'j'])
    } else if c == '\u{45a}' {
        Some(seq!['n', 'j'])
    } else if c == '\u{45b}' {
        Some(seq!['c'])
    } else if c == '\u{45f}' {
        Some(seq!['d', 'z'])
    } else if c == '\u{402}' {
        Some(seq!['D', 'j'])
    } else if c == '\u{408}' {
        Some(seq!['J'])
    } else if c == '\u{409}' {
        Some(seq!['L', 'j'])
    } else if c == '\u{40a}' {
        Some(seq!['N', 'j'])
    } else if c == '\u{40b}' {
        Some(seq!['C'])
    } else if c == '\u{40f}' {
        Some(seq!['D', 'z'])
    } else {
        None
    }
}

pub(crate) fn cyrillic_letter_exec(c: char) -> (r: Option<Vec<char>>)
    ensures
        match r {
            Some(v) => cyrillic_letter(c) == Some(v@),
            None => cyrillic_letter(c) is None,
        },
{
    match c {
        '\u{430}' => Some(vec!['a']),
        '\u{431}' => Some(vec!['b']),
        '\u{432}' => Some(vec!['v']),
        '\u{433}' => Some(vec!['g']),
        '\u{434}' => Some(vec!['d']),
        '\u{435}' => Some(vec!['e']),
        '\u{451}' => Some(vec!['y', 'o']),
        '\u{436}' => Some(vec!['z', 'h']),
        '\u{437}' => Some(vec!['z']),
        '\u{438}' => Some(vec!['i']),
        '\u{439}' => Some(vec!['y']),
        '\u{43a}' => Some(vec!['k']),
        '\u{43b}' => Some(vec!['l']),
        '\u{43c}' => Some(vec!['m']),
        '\u{43d}' => Some(vec!['n']),
        '\u{43e}' => Some(vec!['o']),
        '\u{43f}' => Some(vec!['p']),
        '\u{440}' => Some(vec!['r']),
        '\u{441}' => Some(vec!['s']),
        '\u{442}' => Some(vec!['t']),
        '\u{443}' => Some(vec!['u']),
        '\u{444}' => Some(vec!['f']),
        '\u{445}' => Some(vec!['k', 'h']),
        '\u{446}' => Some(vec!['t', 's']),
        '\u{447}' => Some(vec!['c', 'h']),
        '\u{448}' => Some(vec!['s', 'h']),
        '\u{449}' => Some(vec!['s', 'h', 'c', 'h']),
        '\u{44a}' => Some(vec![]),
        '\u{44b}' => Some(vec!['y']),
        '\u{44c}' => Some(vec![]),
        '\u{44d}' => Some(vec!['e']),
        '\u{44e}' => Some(vec!['y', 'u']),
        '\u{44f}' => Some(vec!['y', 'a']),
        '\u{410}' => Some(vec!['A']),
        '\u{411}' => Some(vec!['B']),
        '\u{412}' => Some(vec!['V']),
        '\u{413}' => Some(vec!['G']),
        '\u{414}' => Some(vec!['D']),
        '\u{415}' => Some(vec!['E']),
        '\u{401}' => Some(vec!['Y', 'o']),
        '\u{416}' => Some(vec!['Z', 'h']),
        '\u{417}' => Some(vec!['Z']),
        '\u{418}' => Some(vec!['I']),
        '\u{419}' => Some(vec!['Y']),
        '\u{41a}' => Some(vec!['K']),
        '\u{41b}' => Some(vec!['L']),
        '\u{41c}' => Some(vec!['M']),
        '\u{41d}' => Some(vec!['N']),
        '\u{41e}' => Some(vec!['O']),
        '\u{41f}' => Some(vec!['P']),
        '\u{420}' => Some(vec!['R']),
        '\u{421}' => Some(vec!['S']),
        '\u{422}' => Some(vec!['T']),
        '\u{423}' => Some(vec!['U']),
        '\u{424}' => Some(vec!['F']),
        '\u{425}' => Some(vec!['K', 'h']),
        '\u{426}' => Some(vec!['T', 's']),
        '\u{427}' => Some(vec!['C', 'h']),
        '\u{428}' => Some(vec!['S', 'h']),
        '\u{429}' => Some(vec!['S', 'h', 'c', 'h']),
        '\u{42a}' => Some(vec![]),
        '\u{42b}' => Some(vec!['Y']),
        '\u{42c}' => Some(vec![]),
        '\u{42d}' => Some(vec!['E']),
        '\u{42e}' => Some(vec!['Y', 'u']),
        '\u{42f}' => Some(vec!['Y', 'a']),
        '\u{456}' => Some(vec!['i']),
        '\u{457}' => Some(vec!['y', 'i']),
        '\u{454}' => Some(vec!['y', 'e']),
        '\u{491}' => Some(vec!['g']),
        '\u{406}' => Some(vec!['I']),
        '\u{407}' => Some(vec!['Y', 'i']),
        '\u{404}' => Some(vec!['Y', 'e']),
        '\u{490}' => Some(vec!['G']),
        '\u{452}' => Some(vec!['d', 'j']),
        '\u{458}' => Some(vec!['j']),
        '\u{459}' => Some(vec!['l', 'j']),
        '\u{45a}' => Some(vec!['n', 'j']),
        '\u{45b}' => Some(vec!['c']),
        '\u{45f}' => Some(vec!['d', 'z']),
        '\u{402}' => Some(vec!['D', 'j']),
        '\u{408}' => Some(vec!['J']),
        '\u{409}' => Some(vec!['L', 'j']),
        '\u{40a}' => Some(vec!['N', 'j']),
        '\u{40b}' => Some(vec!['C']),
        '\u{40f}' => Some(vec!['D', 'z']),
        _ => None,
    }
}

/// Transliteration of one Greek letter, when it has one.
pub open spec fn greek_letter(c: char) -> Option<Seq<char>> {
    if c == '\u{3b1}' {
        Some(seq!['a'])
    } else if c == '\u{3b2}' {
        Some(seq!['v'])
    } else if c == '\u{3b3}' {
        Some(seq!['g'])
    } else if c == '\u{3b4}' {
        Some(seq!['d'])
    } else if c == '\u{3b5}' {
        Some(seq!['e'])
    } else if c == '\u{3b6}' {
        Some(seq!['z'])
    } else if c == '\u{3b7}' {
        Some(seq!['i'])
    } else if c == '\u{3b8}' {
        Some(seq!['t', 'h'])
    } else if c == '\u{3b9}' {
        Some(seq!['i'])
    } else if c == '\u{3ba}' {
        Some(seq!['k'])
    } else if c == '\u{3bb}' {
        Some(seq!['l'])
    } else if c == '\u{3bc}' {
        Some(seq!['m'])
    } else if c == '\u{3bd}' {
        Some(seq!['n'])
    } else if c == '\u{3be}' {
        Some(seq!['x'])
    } else if c == '\u{3bf}' {
        Some(seq!['o'])
    } else if c == '\u{3c0}' {
        Some(seq!['p'])
    } else if c == '\u{3c1}' {
        Some(seq!['r'])
    } else if c == '\u{3c3}' {
        Some(seq!['s'])
    } else if c == '\u{3c2}' {
        Some(seq!['s'])
    } else if c == '\u{3c4}' {
        Some(seq!['t'])
    } else if c == '\u{3c5}' {
        Some(seq!['y'])
    } else if c == '\u{3c6}' {
        Some(seq!['f'])
    } else if c == '\u{3c7}' {
        Some(seq!['c', 'h'])
    } else if c == '\u{3c8}' {
        Some(seq!['p', 's'])
    } else if c == '\u{3c9}' {
        Some(seq!['o'])
    } else if c == '\u{391}' {
        Some(seq!['A'])
    } else if c == '\u{392}' {
        Some(seq!['V'])
    } else if c == '\u{393}' {
        Some(seq!['G'])
    } else if c == '\u{394}' {
        Some(seq!['D'])
    } else if c == '\u{395}' {
        Some(seq!['E'])
    } else if c == '\u{396}' {
        Some(seq!['Z'])
    } else if c == '\u{397}' {
        Some(seq!['I'])
    } else if c == '\u{398}' {
        Some(seq!['T', 'h'])
    } else if c == '\u{399}' {
        Some(seq!['I'])
    } else if c == '\u{39a}' {
        Some(seq!['K'])
    } else if c == '\u{39b}' {
        Some(seq!['L'])
    } else if c == '\u{39c}' {
        Some(seq!['M'])
    } else if c == '\u{39d}' {
        Some(seq!['N'])
    } else if c == '\u{39e}' {
        Some(seq!['X'])
    } else if c == '\u{39f}' {
        Some(seq!['O'])
    } else if c == '\u{3a0}' {
        Some(seq!['P'])
    } else if c == '\u{3a1}' {
        Some(seq!['R'])
    } else if c == '\u{3a3}' {
        Some(seq!['S'])
    } else if c == '\u{3a4}' {
        Some(seq!['T'])
    } else if c == '\u{3a5}' {
        Some(seq!['Y'])
    } else if c == '\u{3a6}' {
        Some(seq!['F'])
    } else if c == '\u{3a7}' {
        Some(seq!['C', 'h'])
    } else if c == '\u{3a8}' {
        Some(seq!['P', 's'])
    } else if c == '\u{3a9}' {
        Some(seq!['O'])
    } else if c == '\u{3ac}' {
        Some(seq!['a'])
    } else if c == '\u{3ad}' {
        Some(seq!['e'])
    } else if c == '\u{3ae}' {
        Some(seq!['i'])
    } else if c == '\u{3af}' {
        Some(seq!['i'])
    } else if c == '\u{3cc}' {
        Some(seq!['o'])
    } else if c == '\u{3cd}' {
        Some(seq!['y'])
    } else if c == '\u{3ce}' {
        Some(seq!['o'])
    } else if c == '\u{386}' {
        Some(seq!['A'])
    } else if c == '\u{388}' {
        Some(seq!['E'])
    } else if c == '\u{389}' {
        Some(seq!['I'])
    } else if c == '\u{38a}' {
        Some(seq!['I'])
    } else if c == '\u{38c}' {
        Some(seq!['O'])
    } else if c == '\u{38e}' {
        Some(seq!['Y'])
    } else if c == '\u{38f}' {
        Some(seq!['O'])
    } else if c == '\u{3ca}' {
        Some(seq!['i'])
    } else if c == '\u{3cb}' {
        Some(seq!['y'])
    } else if c == '\u{390}' {
        Some(seq!['i'])
    } else if c == '\u{3b0}' {
        Some(seq!['y'])
    } else if c == '\u{3aa}' {
        Some(seq!['I'])
    } else if c == '\u{3ab}' {
        Some(seq!['Y'])
    } else {
        None
    }
}

pub(crate) fn greek_letter_exec(c: char) -> (r: Option<Vec<char>>)
    ensures
        match r {
            Some(v) => greek_letter(c) == Some(v@),
            None => greek_letter(c) is None,
        },
{
    match c {
        '\u{3b1}' => Some(vec!['a']),
        '\u{3b2}' => Some(vec!['v']),
        '\u{3b3}' => Some(vec!['g']),
        '\u{3b4}' => Some(vec!['d']),
        '\u{3b5}' => Some(vec!['e']),
        '\u{3b6}' => Some(vec!['z']),
        '\u{3b7}' => Some(vec!['i']),
        '\u{3b8}' => Some(vec!['t', 'h']),
        '\u{3b9}' => Some(vec!['i']),
        '\u{3ba}' => Some(vec!['k']),
        '\u{3bb}' => Some(vec!['l']),
        '\u{3bc}' => Some(vec!['m']),
        '\u{3bd}' => Some(vec!['n']),
        '\u{3be}' => Some(vec!['x']),
        '\u{3bf}' => Some(vec!['o']),
        '\u{3c0}' => Some(vec!['p']),
        '\u{3c1}' => Some(vec!['r']),
        '\u{3c3}' => Some(vec!['s']),
        '\u{3c2}' => Some(vec!['s']),
        '\u{3c4}' => Some(vec!['t']),
        '\u{3c5}' => Some(vec!['y']),
        '\u{3c6}' => Some(vec!['f']),
        '\u{3c7}' => Some(vec!['c', 'h']),
        '\u{3c8}' => Some(vec!['p', 's']),
        '\u{3c9}' => Some(vec!['o']),
        '\u{391}' => Some(vec!['A']),
        '\u{392}' => Some(vec!['V']),
        '\u{393}' => Some(vec!['G']),
        '\u{394}' => Some(vec!['D']),
        '\u{395}' => Some(vec!['E']),
        '\u{396}' => Some(vec!['Z']),
        '\u{397}' => Some(vec!['I']),
        '\u{398}' => Some(vec!['T', 'h']),
        '\u{399}' => Some(vec!['I']),
        '\u{39a}' => Some(vec!['K']),
        '\u{39b}' => Some(vec!['L']),
        '\u{39c}' => Some(vec!['M']),
        '\u{39d}' => Some(vec!['N']),
        '\u{39e}' => Some(vec!['X']),
        '\u{39f}' => Some(vec!['O']),
        '\u{3a0}' => Some(vec!['P']),
        '\u{3a1}' => Some(vec!['R']),
        '\u{3a3}' => Some(vec!['S']),
        '\u{3a4}' => Some(vec!['T']),
        '\u{3a5}' => Some(vec!['Y']),
        '\u{3a6}' => Some(vec!['F']),
        '\u{3a7}' => Some(vec!['C', 'h']),
        '\u{3a8}' => Some(vec!['P', 's']),
        '\u{3a9}' => Some(vec!['O']),
        '\u{3ac}' => Some(vec!['a']),
        '\u{3ad}' => Some(vec!['e']),
        '\u{3ae}' => Some(vec!['i']),
        '\u{3af}' => Some(vec!['i']),
        '\u{3cc}' => Some(vec!['o']),
        '\u{3cd}' => Some(vec!['y']),
        '\u{3ce}' => Some(vec!['o']),
        '\u{386}' => Some(vec!['A']),
        '\u{388}' => Some(vec!['E']),
        '\u{389}' => Some(vec!['I']),
        '\u{38a}' => Some(vec!['I']),
        '\u{38c}' => Some(vec!['O']),
        '\u{38e}' => Some(vec!['Y']),
        '\u{38f}' => Some(vec!['O']),
        '\u{3ca}' => Some(vec!['i']),
        '\u{3cb}' => Some(vec!['y']),
        '\u{390}' => Some(vec!['i']),
        '\u{3b0}' => Some(vec!['y']),
        '\u{3aa}' => Some(vec!['I']),
        '\u{3ab}' => Some(vec!['Y']),
        _ => None,
    }
}

} // verus!
