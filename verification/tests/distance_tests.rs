// Tests of edit distance and the scaled similarity scores, and of the
// record parsers on hand-built JSON trees.

use hafiz_assistant_backend::{levenshtein_distance, string_similarity, DataLoader, HafizError};
use hafiz_assistant_backend::json::JsonValue;

#[test]
fn test_levenshtein_distance() {
    assert_eq!(levenshtein_distance("hello", "hello"), 0);
    assert_eq!(levenshtein_distance("hello", "helo"), 1);
    assert_eq!(levenshtein_distance("hello", "world"), 4);
}

#[test]
fn test_levenshtein_is_symmetric() {
    assert_eq!(
        levenshtein_distance("kitten", "sitting"),
        levenshtein_distance("sitting", "kitten")
    );
    assert_eq!(levenshtein_distance("kitten", "sitting"), 3);
}

#[test]
fn test_string_similarity() {
    // the scale stands for a similarity of 1.0 in millionths
    assert!(string_similarity("hello", "hello") > 900000);
    assert!(string_similarity("hello", "helo") > 700000);
    assert!(string_similarity("hello", "world") < 300000);
}

#[test]
fn test_string_similarity_empty_is_zero() {
    assert_eq!(string_similarity("", "anything"), 0);
    assert_eq!(string_similarity("anything", ""), 0);
}

#[test]
fn test_helper_methods() {
    let loader = DataLoader;

    let juz = loader.find_juz_for_id(1, &Vec::new());
    println!("Juz for 1:1: {}", juz);
    assert!(juz >= 1 && juz <= 30);

    let hizb = loader.find_hizb_for_id(1, &Vec::new());
    println!("Hizb for 1:1: {}", hizb);
    assert!(hizb >= 1);

    let page = loader.estimate_page_for_verse("1:1");
    println!("Page for 1:1: {}", page);
    assert_eq!(page, 1);

    let page2 = loader.estimate_page_for_verse("2:255");
    println!("Page for 2:255 (Ayat al-Kursi): {}", page2);
    assert!(page2 > 1);

    if let Some(id) = loader.verse_key_to_id("1:1") {
        println!("Verse ID for 1:1: {}", id);
        assert!(id > 0);
    }

    let sajda = loader.find_sajda_for_verse("1:1", &JsonValue::Null);
    println!("Sajda for 1:1: {:?}", sajda.is_some());
    assert!(sajda.is_none());
}

#[test]
fn test_parse_ayah_data_basic() {
    let loader = DataLoader;

    let mock_ayah = JsonValue::Obj(vec![
        ("id".to_string(), JsonValue::UInt(1)),
        ("verse_key".to_string(), JsonValue::Str("1:1".to_string())),
        (
            "text".to_string(),
            JsonValue::Str("بِسْمِ اللَّهِ الرَّحْمَٰنِ الرَّحِيمِ".to_string()),
        ),
    ]);

    let parsed = loader.parse_ayah_data_from_metadata(
        &mock_ayah,
        &Vec::new(),
        &Vec::new(),
        &Vec::new(),
        &Vec::new(),
        &Vec::new(),
        &Vec::new(),
        &Vec::new(),
        &JsonValue::Null,
    );

    if let Some(ayah_data) = parsed {
        println!("Successfully parsed ayah data:");
        println!("  Verse key: {}", ayah_data.verse_key);
        println!("  Surah: {}", ayah_data.surah_number);
        println!("  Ayah: {}", ayah_data.ayah_number);
        println!("  Juz: {}", ayah_data.juz_number);
        println!("  Page: {}", ayah_data.page_number);
        println!("  Text: {}", ayah_data.text_arab);

        assert_eq!(ayah_data.verse_key, "1:1");
        assert_eq!(ayah_data.surah_number, 1);
        assert_eq!(ayah_data.ayah_number, 1);
        assert!(ayah_data.juz_number >= 1);
        assert!(ayah_data.page_number >= 1);
        assert_eq!(ayah_data.text_arab, "بِسْمِ اللَّهِ الرَّحْمَٰنِ الرَّحِيمِ");
    } else {
        panic!("Failed to parse mock ayah data");
    }
}

#[test]
fn test_parse_json_rejects_malformed_text() {
    let loader = DataLoader;
    assert!(hafiz_assistant_backend::json::parse_json("{not json").is_none());
    let tree = hafiz_assistant_backend::json::parse_json("{\"a\": 7}").unwrap();
    match tree.get("a") {
        Some(JsonValue::UInt(u)) => assert_eq!(*u, 7),
        _ => panic!("expected a number under the key"),
    }
    let _ = loader;
}

#[test]
fn test_word_range_estimates() {
    let loader = DataLoader;
    let (text, keys) = loader.get_text_and_verses_for_word_range(1, 40);
    assert_eq!(text, "Text for words 1-40");
    assert_eq!(keys, ["1:1", "1:2", "1:3", "1:4"]);
    let (text2, keys2) = loader.get_text_and_verses_for_word_range(54, 81);
    assert_eq!(text2, "Text for words 54-81");
    assert_eq!(keys2, ["1:4", "1:5", "1:6", "1:7"]);
}

#[test]
fn test_page_estimate_breakpoints() {
    let loader = DataLoader;
    assert_eq!(loader.estimate_page_for_verse("2:255"), 48);
    assert_eq!(loader.estimate_page_for_verse("10:3"), 208);
    assert_eq!(loader.estimate_page_for_verse("50:1"), 260);
    assert_eq!(loader.estimate_page_for_verse("not a key"), 1);
}

#[test]
fn test_verse_key_to_id_formula() {
    let loader = DataLoader;
    assert_eq!(loader.verse_key_to_id("1:1"), Some(1));
    assert_eq!(loader.verse_key_to_id("2:255"), Some(555));
    assert_eq!(loader.verse_key_to_id("garbage"), None);
}

#[test]
fn test_error_messages() {
    assert_eq!(
        HafizError::DataNotFound("x".to_string()).message(),
        "Data not found: x"
    );
    assert_eq!(
        HafizError::InvalidSurahNumber(115).message(),
        "Invalid surah number: 115"
    );
    assert_eq!(
        HafizError::InvalidPageNumber(700).message(),
        "Invalid page number: 700"
    );
    assert_eq!(
        HafizError::InvalidVerseKey("9:999".to_string()).message(),
        "Invalid verse key: 9:999"
    );
    assert_eq!(
        HafizError::InvalidJuzNumber(31).message(),
        "Invalid juz number: 31"
    );
    assert_eq!(
        HafizError::DatabaseError("broken".to_string()).message(),
        "Database error: broken"
    );
    assert_eq!(
        HafizError::ParseError("bad row".to_string()).message(),
        "Parse error: bad row"
    );
    assert_eq!(
        HafizError::IoError("short read".to_string()).message(),
        "IO error: short read"
    );
}
