use sonora::romanize::{
    detect_script, romanize, romanize_chinese, romanize_cyrillic, romanize_greek, romanize_japanese,
    romanize_japanese_segmented, romanize_korean, JapaneseToken, Script,
};

#[test]
fn detects_each_script() {
    assert_eq!(detect_script("夜に駆ける"), Script::Japanese);
    assert_eq!(detect_script("ヨルニカケル"), Script::Japanese);
    assert_eq!(detect_script("봄날"), Script::Korean);
    assert_eq!(detect_script("你好世界"), Script::Chinese);
    assert_eq!(detect_script("Привет мир"), Script::Cyrillic);
    assert_eq!(detect_script("Καλημέρα"), Script::Greek);
    assert_eq!(detect_script("Just a song"), Script::Latin);
    assert_eq!(detect_script("123 !!!"), Script::Other);
}

#[test]
fn kana_romanizes_with_hepburn_contractions() {
    assert_eq!(romanize_japanese("さくら"), "sakura");
    assert_eq!(romanize_japanese("しんぶん"), "shinbun");
    assert_eq!(romanize_japanese("きょ"), "kyo");
    // きょう is kyo + the long-vowel う, so the ASCII form keeps both.
    assert_eq!(romanize_japanese("きょう"), "kyou");
    assert_eq!(romanize_japanese("しゃしん"), "shashin");
    assert_eq!(romanize_japanese("ちょっと"), "chotto");
    assert_eq!(romanize_japanese("がっこう"), "gakkou");
    assert_eq!(romanize_japanese("コーヒー"), "koohii");
    assert_eq!(romanize_japanese("ふじさん"), "fujisan");
    // ん takes an apostrophe before a vowel to keep the syllables apart.
    assert_eq!(romanize_japanese("しんいち"), "shin'ichi");
    assert_eq!(romanize_japanese("しんぶん"), "shinbun");
}

#[test]
fn hangul_uses_revised_romanization() {
    assert_eq!(romanize_korean("안녕"), "annyeong");
    assert_eq!(romanize_korean("한국"), "hanguk");
    assert_eq!(romanize_korean("사랑"), "sarang");
    // Final consonant then a null onset keeps both syllables intact.
    assert_eq!(romanize_korean("음악"), "eumak");
}

#[test]
fn chinese_produces_pinyin_with_tone_marks() {
    let out = romanize_chinese("你好");
    assert_eq!(out, "nǐhǎo");
    // Non-Han characters survive the round trip.
    let mixed = romanize_chinese("你好, world!");
    assert!(mixed.starts_with("nǐhǎo"), "got {mixed}");
    assert!(mixed.ends_with(", world!"), "got {mixed}");
}

#[test]
fn cyrillic_and_greek_transliterate() {
    assert_eq!(romanize_cyrillic("Привет"), "Privet");
    assert_eq!(romanize_cyrillic("Москва"), "Moskva");
    assert_eq!(romanize_greek("Καλημέρα"), "Kalimera");
}

#[test]
fn latin_lines_are_returned_untouched() {
    assert_eq!(romanize("Just a song"), "Just a song");
    assert_eq!(romanize(""), "");
}

#[test]
fn kana_outside_the_dictionary_keeps_kanji_as_they_are() {
    assert_eq!(romanize_japanese("ヨル"), "yoru");
    assert_eq!(romanize_japanese("夜に"), "夜ni");
}

#[test]
fn segmented_japanese_uses_token_readings() {
    let tokens = vec![
        JapaneseToken { start: 0, end: 1, reading: Some("ヨル".chars().collect()) },
        JapaneseToken { start: 1, end: 2, reading: Some("ニ".chars().collect()) },
        JapaneseToken { start: 2, end: 5, reading: Some("カケル".chars().collect()) },
    ];
    assert_eq!(romanize_japanese_segmented("夜に駆ける", &tokens), "yorunikakeru");
}

#[test]
fn each_line_goes_to_the_romanizer_of_its_script() {
    for line in ["夜に駆ける", "ヨルニカケル", "봄날", "你好世界", "Привет мир", "Καλημέρα", "Just a song", ""] {
        let expected = match detect_script(line) {
            Script::Japanese => romanize_japanese(line),
            Script::Korean => romanize_korean(line),
            Script::Chinese => romanize_chinese(line),
            Script::Cyrillic => romanize_cyrillic(line),
            Script::Greek => romanize_greek(line),
            Script::Latin | Script::Other => line.to_string(),
        };
        assert_eq!(romanize(line), expected, "line {line:?}");
    }
    assert_eq!(romanize("Just a song"), "Just a song");
    assert_eq!(romanize(""), "");
}
