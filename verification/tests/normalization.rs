use romajiagent::normalization::{
    converted_or_original, hiragana_or_original, normalize_input, normalize_whitespace,
    replace_runs, romaji_runs_of, romaji_runs_to_hiragana,
};

#[test]
fn normalize_collapses_whitespace() {
    assert_eq!(
        normalize_whitespace("  kyou   mtg\tde\nhanasita todo  "),
        "kyou mtg de hanasita todo"
    );
}

#[test]
fn romaji_to_kana_keeps_phonetic_anchor() {
    let input = normalize_input("konoguraino kakikata anara dou??");
    assert!(input.kana_candidate.contains("このぐらいの"));
    assert!(input.kana_candidate.contains("かきかた"));
    assert!(input.kana_candidate.contains("あなら"));
    assert!(input.kana_candidate.contains("どう"));
}

#[test]
fn preserves_punctuation_and_existing_japanese() {
    let input = normalize_input("今日は konogurai??");
    assert!(input.kana_candidate.contains("今日は"));
    assert!(input.kana_candidate.ends_with("??"));
}

#[test]
fn keeps_memory_terms_available_in_raw_input() {
    let input = normalize_input("kyou mtg de todo");
    assert!(input.normalized_raw.contains("mtg"));
    assert!(input.raw.contains("mtg"));
}

#[test]
fn preserves_english_like_tokens() {
    let input = normalize_input("romajinara english wo include suru kakikata ki naru.");
    assert!(input.kana_candidate.contains("ろまじなら"));
    assert!(input.kana_candidate.contains("english"));
    assert!(input.kana_candidate.contains("を"));
    assert!(input.kana_candidate.contains("include"));
    assert!(input.kana_candidate.contains("する"));
}

#[test]
fn normal_form_of_nothing_is_nothing() {
    assert_eq!(normalize_whitespace(""), "");
    assert_eq!(normalize_whitespace(" \t\r\n\u{3000}"), "");
}

#[test]
fn ideographic_space_separates_words() {
    assert_eq!(normalize_whitespace("kyou\u{3000}wa\u{a0}ii"), "kyou wa ii");
}

#[test]
fn zero_width_space_does_not_separate_words() {
    assert_eq!(normalize_whitespace("kyou\u{200b}wa"), "kyou\u{200b}wa");
}

#[test]
fn normal_form_is_its_own_normal_form() {
    let once = normalize_whitespace("  a  b\tc ");
    assert_eq!(normalize_whitespace(&once), once);
}

#[test]
fn normal_form_agrees_with_split_whitespace() {
    for code in 0u32..0x11_0000 {
        if let Some(c) = char::from_u32(code) {
            if c.is_whitespace() {
                assert_eq!(normalize_whitespace(&format!("a{c}b")), "a b");
            }
        }
    }
    for c in ['\u{200b}', '\u{feff}', '\u{180e}', 'x', '・', '\u{1c}', '\u{7f}'] {
        assert_eq!(normalize_whitespace(&format!("a{c}b")), format!("a{c}b"));
    }
}

#[test]
fn raw_input_is_kept() {
    let input = normalize_input("  kyou  ");
    assert_eq!(input.raw, "  kyou  ");
    assert_eq!(input.normalized_raw, "kyou");
    assert_eq!(input.kana_candidate, "きょう");
}

#[test]
fn runs_of_romaji_hold_letters_apostrophes_and_hyphens() {
    assert_eq!(romaji_runs_of("kin'you-bi 3ji da!"), vec!["kin'you-bi", "ji", "da"]);
    assert_eq!(romaji_runs_of("今日 123"), Vec::<String>::new());
}

#[test]
fn runs_are_replaced_in_place() {
    let readings = vec!["A".to_string(), "B".to_string()];
    assert_eq!(replace_runs("x, y!", &readings), "A, B!");
}

#[test]
fn reading_is_a_conversion_or_the_run_itself() {
    assert_eq!(hiragana_or_original("sushi"), "すし");
    assert_eq!(hiragana_or_original("mtg"), "mtg");
    assert_eq!(hiragana_or_original("ｶﾞﾊﾟｳﾞﾄﾞ"), "がぱゔど");
    assert_eq!(converted_or_original("mtg", "mtg"), "mtg");
    assert_eq!(converted_or_original("ka", "か"), "か");
    assert_eq!(converted_or_original("kax", "かx"), "kax");
}

#[test]
fn text_without_romaji_reads_as_itself() {
    assert_eq!(romaji_runs_to_hiragana("今日は 12 時？"), "今日は 12 時？");
}

#[test]
fn reading_goes_word_by_word() {
    let whole = normalize_input("sushi mtg kyou").kana_candidate;
    let words: Vec<String> = ["sushi", "mtg", "kyou"]
        .iter()
        .map(|word| normalize_input(word).kana_candidate)
        .collect();
    assert_eq!(whole, words.join(" "));
}

#[test]
fn no_reading_is_half_converted() {
    for run in ["english", "include", "xyz", "kyou", "q", "shigoto"] {
        let kana = hiragana_or_original(run);
        assert!(kana == run || !kana.chars().any(|c| c.is_ascii_alphabetic()));
    }
}
