// End-to-end tests: loading a small corpus from raw JSON texts and
// querying it.

use hafiz_assistant_backend::{
    advanced_search, fuzzy_search, get_ayah_data, get_ayahs_by_juz, get_ayahs_by_page,
    get_ayahs_by_surah, get_all_surahs, get_page_containing_verse, get_page_data, get_pages_range,
    get_quran_statistics, get_random_ayah, get_surah_info, get_total_pages, get_verses_in_page,
    initialize_data, reset_data, search_ayahs_by_range, search_ayahs_by_text,
    search_ayahs_by_theme, search_ayahs_by_translation, search_ayahs_by_transliteration,
    search_similar_ayahs, QuranContext, SourceTexts,
};

fn ayah_entry(id: u32, key: &str, text: &str) -> String {
    format!(
        "\"{}\": {{\"id\": {}, \"verse_key\": \"{}\", \"text\": \"{}\"}}",
        id, id, key, text
    )
}

fn sources() -> SourceTexts {
    let mut verses: Vec<String> = Vec::new();
    let chapter1 = [
        "بِسْمِ اللَّهِ الرَّحْمَٰنِ الرَّحِيمِ",
        "الْحَمْدُ لِلَّهِ رَبِّ الْعَالَمِينَ",
        "الرَّحْمَٰنِ الرَّحِيمِ",
        "مَالِكِ يَوْمِ الدِّينِ",
        "إِيَّاكَ نَعْبُدُ وَإِيَّاكَ نَسْتَعِينُ",
        "اهْدِنَا الصِّرَاطَ الْمُسْتَقِيمَ",
        "صِرَاطَ الَّذِينَ أَنْعَمْتَ عَلَيْهِمْ",
    ];
    for (i, t) in chapter1.iter().enumerate() {
        verses.push(ayah_entry(1 + i as u32, &format!("1:{}", i + 1), t));
    }
    let chapter114 = [
        "قل اعوذ برب الناس",
        "ملك الناس",
        "اله الناس",
        "من شر الوسواس الخناس",
        "الذي يوسوس في صدور الناس",
        "من الجنة والناس",
    ];
    for (i, t) in chapter114.iter().enumerate() {
        verses.push(ayah_entry(6231 + i as u32, &format!("114:{}", i + 1), t));
    }
    let ayah_metadata = format!("{{{}}}", verses.join(", "));

    let surah_info = r#"{
        "1": {"id": 1, "name_simple": "Al-Fatihah", "name_arabic": "الفاتحة",
              "name_english": "The Opener", "revelation_order": 5,
              "revelation_place": "makkah", "verses_count": 7, "bismillah_pre": false},
        "114": {"id": 114, "name_simple": "An-Nas", "name_arabic": "الناس",
                "name_english": "Mankind", "revelation_order": 21,
                "revelation_place": "makkah", "verses_count": 6, "bismillah_pre": true}
    }"#
        .to_string();

    let surah_names = r#"{"chapters": [
        {"id": 1, "name_simple": "Al-Fatihah", "name_arabic": "الفاتحة",
         "revelation_order": 5, "revelation_place": "makkah",
         "verses_count": 7, "bismillah_pre": false},
        {"id": 114, "name_simple": "An-Nas", "name_arabic": "الناس",
         "revelation_order": 21, "revelation_place": "makkah",
         "verses_count": 6, "bismillah_pre": true}
    ]}"#
        .to_string();

    let mut tr: Vec<String> = Vec::new();
    tr.push("\"1:1\": {\"text\": \"In the name of Allah the Merciful\"}".to_string());
    tr.push("\"1:2\": {\"text\": \"All praise is due to Allah Lord of the worlds\"}".to_string());
    tr.push("\"114:1\": {\"text\": \"Say I seek refuge in the Lord of mankind\"}".to_string());
    let translation = format!("{{{}}}", tr.join(", "));

    let transliteration = r#"{
        "1:1": "Bismillahir rahmanir rahim",
        "1:2": {"text": "Alhamdu lillahi rabbil alamin"}
    }"#
        .to_string();

    let pages_layout = r#"{"objects": [
        {"name": "other", "rows": []},
        {"name": "pages", "rows": [
            [1, 1, "surah_name", 1, 0, 0, 1],
            [1, 2, "ayah", 0, 1, 40, null],
            [1, 3, "ayah", 0, 54, 81, null]
        ]}
    ]}"#
        .to_string();

    let juz = r#"{"juzs": [
        {"id": 1, "first_verse_id": 1, "last_verse_id": 148, "verses_count": 148,
         "name_arabic": "", "name_simple": ""},
        {"id": 30, "first_verse_id": 5673, "last_verse_id": 6236, "verses_count": 564,
         "name_arabic": "", "name_simple": ""}
    ]}"#
        .to_string();

    let hizb = r#"{"hizbs": [
        {"id": 1, "first_verse_id": 1, "last_verse_id": 74, "verses_count": 74},
        {"id": 60, "first_verse_id": 6130, "last_verse_id": 6236, "verses_count": 107}
    ]}"#
        .to_string();

    let rub = r#"[
        {"id": 1, "first_verse_id": 1, "last_verse_id": 25},
        {"id": 240, "first_verse_id": 6207, "last_verse_id": 6236}
    ]"#
        .to_string();

    let ruku = r#"{"rukus": [
        {"id": 1, "surah_number": 1, "first_verse_id": 1, "last_verse_id": 7, "verses_count": 7},
        {"id": 556, "surah_number": 114, "first_verse_id": 6231, "last_verse_id": 6236,
         "verses_count": 6}
    ]}"#
        .to_string();

    let manzil = r#"{"manzils": [
        {"id": 1, "first_verse_id": 1, "last_verse_id": 669, "verses_count": 669},
        {"id": 7, "first_verse_id": 5272, "last_verse_id": 6236, "verses_count": 965}
    ]}"#
        .to_string();

    let sajda = r#"{"sajdas": [
        {"id": 1, "verse_key": "114:1", "type": "recommended",
         "recommended": true, "obligatory": false}
    ]}"#
        .to_string();

    let phrase_verses = r#"{"refuge": [6231, 1]}"#.to_string();

    let matching_ayahs = r#"{
        "1:1": [
            {"matched_ayah_key": "114:1", "matched_words_count": 2, "coverage": 50,
             "score": 80, "match_words": [[0, 1]]},
            {"matched_ayah_key": "1:1", "matched_words_count": 4, "coverage": 100,
             "score": 100, "match_words": []}
        ],
        "114:2": [
            {"matched_ayah_key": "1:1", "matched_words_count": 1, "coverage": 25,
             "score": 60, "match_words": []}
        ]
    }"#
        .to_string();

    SourceTexts {
        ayah_metadata,
        surah_names,
        surah_info,
        translation,
        transliteration,
        pages_layout,
        juz,
        hizb,
        rub,
        ruku,
        manzil,
        sajda,
        phrase_verses,
        matching_ayahs,
    }
}

fn loaded_context() -> QuranContext {
    let mut ctx = QuranContext::new();
    initialize_data(&mut ctx, &sources()).expect("loading the test corpus must succeed");
    ctx
}

#[test]
fn processing_test_initialize_data() {
    let mut ctx = QuranContext::new();
    reset_data(&mut ctx);
    let result = initialize_data(&mut ctx, &sources());
    println!("Initialize data result: {:?}", result);
}

#[test]
fn lib_test_initialize_data() {
    let mut ctx = QuranContext::new();
    assert!(initialize_data(&mut ctx, &sources()).is_ok());
}

#[test]
fn test_get_ayah_data() {
    let ctx = loaded_context();
    let ayah = get_ayah_data(&ctx, "1:1");
    assert!(ayah.is_some());
}

#[test]
fn test_search_functions() {
    let ctx = loaded_context();
    let _results = search_ayahs_by_text(&ctx, "الله", 5);
    assert!(true);
}

#[test]
fn test_initialize_is_idempotent() {
    let mut ctx = QuranContext::new();
    assert!(initialize_data(&mut ctx, &sources()).is_ok());
    assert!(initialize_data(&mut ctx, &sources()).is_ok());
    assert_eq!(get_ayahs_by_surah(&ctx, 1).len(), 7);
}

#[test]
fn test_get_verse_numbers_follow_key() {
    let ctx = loaded_context();
    for key in ["1:1", "1:7", "114:6"] {
        let a = get_ayah_data(&ctx, key).expect("stored verse");
        let (c, v) = hafiz_assistant_backend::parse_verse_key(key).unwrap();
        assert_eq!(a.surah_number, c);
        assert_eq!(a.ayah_number, v);
        assert_eq!(a.verse_key, key);
    }
}

#[test]
fn test_group_numbers_resolved_by_interval() {
    let ctx = loaded_context();
    let first = get_ayah_data(&ctx, "1:1").unwrap();
    assert_eq!(first.juz_number, 1);
    assert_eq!(first.hizb_number, 1);
    assert_eq!(first.rub_number, 1);
    assert_eq!(first.ruku_number, 1);
    assert_eq!(first.manzil_number, 1);
    let last = get_ayah_data(&ctx, "114:6").unwrap();
    assert_eq!(last.juz_number, 30);
    assert_eq!(last.hizb_number, 60);
    assert_eq!(last.ruku_number, 44);
    assert_eq!(last.manzil_number, 7);
}

#[test]
fn test_translation_merged_by_key() {
    let ctx = loaded_context();
    let a = get_ayah_data(&ctx, "1:1").unwrap();
    assert_eq!(a.translation_id, "In the name of Allah the Merciful");
    assert_eq!(a.transliteration, "Bismillahir rahmanir rahim");
    let b = get_ayah_data(&ctx, "1:2").unwrap();
    assert_eq!(b.transliteration, "Alhamdu lillahi rabbil alamin");
    let c = get_ayah_data(&ctx, "1:3").unwrap();
    assert_eq!(c.translation_id, "");
}

#[test]
fn test_sajda_lookup_by_key() {
    let ctx = loaded_context();
    let marked = get_ayah_data(&ctx, "114:1").unwrap();
    let sajda = marked.sajda.expect("marked verse");
    assert_eq!(sajda.sajda_type, "recommended");
    assert!(sajda.recommended);
    assert!(!sajda.obligatory);
    assert!(get_ayah_data(&ctx, "1:1").unwrap().sajda.is_none());
}

#[test]
fn test_get_surah_info() {
    let ctx = loaded_context();
    let s = get_surah_info(&ctx, 114).unwrap();
    assert_eq!(s.name_simple, "An-Nas");
    assert_eq!(s.verses_count, 6);
    assert!(get_surah_info(&ctx, 2).is_none());
    assert_eq!(get_all_surahs(&ctx).len(), 2);
}

#[test]
fn test_get_ayahs_by_juz() {
    let ctx = loaded_context();
    let in_juz30 = get_ayahs_by_juz(&ctx, 30);
    assert_eq!(in_juz30.len(), 6);
    for a in &in_juz30 {
        assert_eq!(a.surah_number, 114);
    }
}

#[test]
fn test_statistics_defaults() {
    let ctx = loaded_context();
    let s = get_quran_statistics(&ctx).unwrap();
    assert_eq!(s.total_surahs, 114);
    assert_eq!(s.total_ayahs, 6236);
    assert_eq!(s.total_pages, 604);
}

#[test]
fn test_random_ayah_is_member() {
    let ctx = loaded_context();
    let a = get_random_ayah(&ctx).expect("nonempty corpus");
    assert!(get_ayah_data(&ctx, &a.verse_key).is_some());
}

#[test]
fn test_uninitialized_queries_are_empty() {
    let ctx = QuranContext::new();
    assert!(get_ayah_data(&ctx, "1:1").is_none());
    assert!(get_surah_info(&ctx, 1).is_none());
    assert_eq!(get_ayahs_by_surah(&ctx, 1).len(), 0);
    assert_eq!(search_ayahs_by_text(&ctx, "x", 5).len(), 0);
    assert_eq!(get_total_pages(&ctx), 0);
    assert!(get_random_ayah(&ctx).is_none());
}

#[test]
fn test_search_text_scenario() {
    let ctx = loaded_context();
    let results = search_ayahs_by_text(&ctx, "Allah", 5);
    assert!(results.len() <= 5);
    assert!(!results.is_empty());
    for a in &results {
        let hit = a.text_arab.contains("allah") || a.text_uthmani.contains("allah")
            || a.translation_id.to_lowercase().contains("allah")
            || a.transliteration.to_lowercase().contains("allah");
        assert!(hit);
    }
}

#[test]
fn test_search_translation_case_insensitive() {
    let ctx = loaded_context();
    let results = search_ayahs_by_translation(&ctx, "ALLAH", 10);
    assert_eq!(results.len(), 2);
    let none = search_ayahs_by_translation(&ctx, "zzz", 10);
    assert!(none.is_empty());
}

#[test]
fn test_search_transliteration() {
    let ctx = loaded_context();
    let results = search_ayahs_by_transliteration(&ctx, "BISMI", 10);
    assert_eq!(results.len(), 1);
    assert_eq!(results[0].verse_key, "1:1");
}

#[test]
fn test_search_range_same_chapter() {
    let ctx = loaded_context();
    let results = search_ayahs_by_range(&ctx, "1:2", "1:4");
    let keys: Vec<&str> = results.iter().map(|a| a.verse_key.as_str()).collect();
    assert_eq!(keys, ["1:2", "1:3", "1:4"]);
}

#[test]
fn test_search_range_across_chapters_sorted() {
    let ctx = loaded_context();
    let results = search_ayahs_by_range(&ctx, "1:6", "114:2");
    let keys: Vec<&str> = results.iter().map(|a| a.verse_key.as_str()).collect();
    assert_eq!(keys, ["1:6", "1:7", "114:1", "114:2"]);
}

#[test]
fn test_search_range_malformed_is_empty() {
    let ctx = loaded_context();
    assert!(search_ayahs_by_range(&ctx, "nonsense", "1:4").is_empty());
    assert!(search_ayahs_by_range(&ctx, "1:1", "also bad").is_empty());
}

#[test]
fn test_search_range_idempotent() {
    let ctx = loaded_context();
    let first = search_ayahs_by_range(&ctx, "1:1", "114:6");
    let second = search_ayahs_by_range(&ctx, "1:1", "114:6");
    assert_eq!(first.len(), second.len());
    for (a, b) in first.iter().zip(second.iter()) {
        assert_eq!(a.verse_key, b.verse_key);
    }
}

#[test]
fn test_search_theme() {
    let ctx = loaded_context();
    let results = search_ayahs_by_theme(&ctx, "refuge", 10);
    let keys: Vec<&str> = results.iter().map(|a| a.verse_key.as_str()).collect();
    assert_eq!(keys, ["114:1", "1:1"]);
    let capped = search_ayahs_by_theme(&ctx, "refuge", 1);
    assert_eq!(capped.len(), 1);
    assert!(search_ayahs_by_theme(&ctx, "unknown", 10).is_empty());
}

#[test]
fn test_advanced_search_chapter_only() {
    let ctx = loaded_context();
    let results = advanced_search(&ctx, None, None, Some(1), None, 50);
    assert_eq!(results.len(), 7);
    let keys: Vec<&str> = results.iter().map(|a| a.verse_key.as_str()).collect();
    assert_eq!(keys, ["1:1", "1:2", "1:3", "1:4", "1:5", "1:6", "1:7"]);
    let capped = advanced_search(&ctx, None, None, Some(1), None, 3);
    assert_eq!(capped.len(), 3);
}

#[test]
fn test_advanced_search_conjunctive() {
    let ctx = loaded_context();
    let both = advanced_search(&ctx, None, Some("Allah"), Some(1), None, 50);
    assert_eq!(both.len(), 2);
    let none = advanced_search(&ctx, None, Some("Allah"), Some(114), None, 50);
    assert!(none.is_empty());
}

#[test]
fn test_similar_search_bidirectional_sorted() {
    let ctx = loaded_context();
    let results = search_similar_ayahs(&ctx, "1:1", 10);
    assert_eq!(results.len(), 2);
    assert_eq!(results[0].ayah_data.verse_key, "114:1");
    assert_eq!(results[0].similarity_score, 80);
    assert_eq!(results[0].matching_type, "direct");
    assert_eq!(results[1].ayah_data.verse_key, "114:2");
    assert_eq!(results[1].similarity_score, 60);
    assert_eq!(results[1].matching_type, "reverse");
}

#[test]
fn test_similar_search_truncates_to_limit() {
    let ctx = loaded_context();
    let top = search_similar_ayahs(&ctx, "1:1", 1);
    assert_eq!(top.len(), 1);
    assert_eq!(top[0].similarity_score, 80);
    assert_eq!(top[0].coverage, 50);
    assert_eq!(top[0].matched_words_count, 2);
}

#[test]
fn test_similar_search_excludes_self() {
    let ctx = loaded_context();
    for a in search_similar_ayahs(&ctx, "1:1", 10) {
        assert_ne!(a.ayah_data.verse_key, "1:1");
    }
}

#[test]
fn test_fuzzy_search_finds_close_text() {
    let ctx = loaded_context();
    let results = fuzzy_search(&ctx, "اعوذ برب الناس", 5);
    assert!(!results.is_empty());
    assert_eq!(results[0].verse_key, "114:1");
    assert!(fuzzy_search(&ctx, "qwertyuiop", 5).is_empty());
}

#[test]
fn test_page_queries() {
    let ctx = loaded_context();
    assert_eq!(get_total_pages(&ctx), 1);
    let page = get_page_data(&ctx, 1).expect("stored page");
    assert_eq!(page.page_number, 1);
    assert_eq!(page.lines.len(), 3);
    assert_eq!(page.lines[0].line_type, "surah_name");
    assert_eq!(page.surah_headers.len(), 1);
    assert_eq!(page.surah_headers[0].name_simple, "Al-Fatihah");
    assert!(get_page_data(&ctx, 2).is_none());
    assert_eq!(get_pages_range(&ctx, 1, 10).len(), 1);
    assert_eq!(get_page_containing_verse(&ctx, "1:2"), Some(1));
    assert_eq!(get_page_containing_verse(&ctx, "114:9"), None);
}

#[test]
fn test_page_verses_match_derived_pages() {
    let ctx = loaded_context();
    let keys = get_verses_in_page(&ctx, 1);
    let ks: Vec<&str> = keys.iter().map(|s| s.as_str()).collect();
    assert_eq!(ks, ["1:1", "1:2", "1:3", "1:4", "1:5", "1:6", "1:7"]);
    let derived: Vec<String> = get_ayahs_by_page(&ctx, 1)
        .into_iter()
        .map(|a| a.verse_key)
        .collect();
    for k in &keys {
        assert!(derived.contains(k));
    }
    assert_eq!(derived.len(), keys.len());
}

#[test]
fn test_validation_rejects_unknown_chapter() {
    let mut src = sources();
    // keep chapter 114's verses but drop its chapter record
    src.surah_info = r#"{
        "1": {"id": 1, "name_simple": "Al-Fatihah", "name_arabic": "الفاتحة",
              "name_english": "The Opener", "revelation_order": 5,
              "revelation_place": "makkah", "verses_count": 7, "bismillah_pre": false}
    }"#
        .to_string();
    let mut ctx = QuranContext::new();
    let r = initialize_data(&mut ctx, &src);
    assert!(r.is_err());
    let msg = r.unwrap_err();
    assert!(msg.starts_with("Data validation failed: Invalid surah number 114 in ayah 114:"));
    assert!(get_ayah_data(&ctx, "1:1").is_none());
}

#[test]
fn test_validation_rejects_empty_tables() {
    let mut src = sources();
    src.ayah_metadata = "{}".to_string();
    let mut ctx = QuranContext::new();
    let r = initialize_data(&mut ctx, &src);
    assert_eq!(r.unwrap_err(), "Data validation failed: No ayah data found");

    let mut src2 = sources();
    src2.surah_info = "{}".to_string();
    let mut ctx2 = QuranContext::new();
    let r2 = initialize_data(&mut ctx2, &src2);
    assert_eq!(r2.unwrap_err(), "Data validation failed: No surah info found");
}

#[test]
fn test_malformed_table_reads_as_missing() {
    let mut src = sources();
    src.matching_ayahs = "not json at all".to_string();
    src.phrase_verses = "".to_string();
    let mut ctx = QuranContext::new();
    assert!(initialize_data(&mut ctx, &src).is_ok());
    assert!(search_similar_ayahs(&ctx, "1:1", 10).is_empty());
    assert!(search_ayahs_by_theme(&ctx, "refuge", 10).is_empty());
}
