// Tests of the text utilities: normalisation, digits, verse keys.

use hafiz_assistant_backend::{
    arabic_to_latin_digits, clean_text_for_search, contains_arabic, count_characters, count_words,
    extract_root_words, extract_verse_key, format_verse_key, latin_to_arabic_digits,
    normalize_alef_variations, normalize_arabic_text, parse_verse_key, remove_diacritics,
    validate_verse_key,
};

#[test]
fn test_normalize_alef_variations() {
    let text = "آمن أحد إله الله";
    let normalized = normalize_alef_variations(text);
    assert_eq!(normalized, "امن احد اله الله");
}

#[test]
fn test_remove_diacritics() {
    let text = "بِسْمِ اللَّهِ الرَّحْمَٰنِ الرَّحِيمِ";
    let clean = remove_diacritics(text);
    assert_eq!(clean, "بسم الله الرحمن الرحيم");
}

#[test]
fn test_normalize_arabic_text() {
    let text = "  بِسْمِ   اللَّهِ  ";
    let normalized = normalize_arabic_text(text);
    assert_eq!(normalized, "بسم الله");
}

#[test]
fn test_normalize_is_idempotent() {
    for text in ["  بِسْمِ   اللَّهِ  ", "آمن\tأحد\n", "", "hello  world "] {
        let once = normalize_arabic_text(text);
        let twice = normalize_arabic_text(&once);
        assert_eq!(once, twice);
    }
}

#[test]
fn test_arabic_to_latin_digits() {
    let text = "سورة ١ آية ٢";
    let converted = arabic_to_latin_digits(text);
    assert_eq!(converted, "سورة 1 آية 2");
}

#[test]
fn test_latin_to_arabic_digits() {
    assert_eq!(latin_to_arabic_digits("surah 1 ayah 2"), "surah ١ ayah ٢");
}

#[test]
fn test_parse_verse_key() {
    assert_eq!(parse_verse_key("1:1"), Some((1, 1)));
    assert_eq!(parse_verse_key("114:6"), Some((114, 6)));
    assert_eq!(parse_verse_key("invalid"), None);
}

#[test]
fn test_extract_verse_key() {
    assert_eq!(extract_verse_key("1:1"), Some("1:1".to_string()));
    assert_eq!(extract_verse_key("  2:255  "), Some("2:255".to_string()));
    assert_eq!(extract_verse_key("invalid"), None);
}

#[test]
fn test_extract_verse_key_rejects_out_of_range() {
    assert_eq!(extract_verse_key("115:1"), None);
    assert_eq!(extract_verse_key("0:1"), None);
    assert_eq!(extract_verse_key("1:0"), None);
}

#[test]
fn test_validate_verse_key() {
    assert!(validate_verse_key("1:1"));
    assert!(validate_verse_key("114:6"));
    assert!(!validate_verse_key("115:1"));
    assert!(!validate_verse_key("invalid"));
}

#[test]
fn test_format_verse_key() {
    assert_eq!(format_verse_key(2, 255), "2:255");
    assert_eq!(format_verse_key(114, 6), "114:6");
}

#[test]
fn test_contains_arabic() {
    assert!(contains_arabic("الله"));
    assert!(contains_arabic("Hello الله"));
    assert!(!contains_arabic("Hello World"));
}

#[test]
fn test_count_words() {
    let text = "بسم الله الرحمن الرحيم";
    assert_eq!(count_words(text), 4);
}

#[test]
fn test_count_characters_skips_marks_and_spaces() {
    assert_eq!(count_characters("بِسْمِ اللَّهِ"), 7);
}

#[test]
fn test_extract_root_words() {
    let words = extract_root_words("  بِسْمِ   اللَّهِ  ");
    assert_eq!(words, ["بسم", "الله"]);
}

#[test]
fn test_clean_text_for_search_lowercases() {
    assert_eq!(clean_text_for_search("  Hello   WORLD  "), "hello world");
}
