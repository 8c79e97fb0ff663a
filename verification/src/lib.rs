//! Offline lookup and search over a fixed corpus of scripture records:
//! chapters, verses, translations, transliterations, structural
//! groupings and page layout, with a query layer for exact, ranged,
//! thematic and fuzzy search.

pub mod bundle;
pub mod distance;
pub mod json;
pub mod laws;
pub mod loader;
pub mod order;
pub mod processing;
pub mod search;
pub mod structures;
pub mod text;

pub use crate::bundle::QuranCoreDataBundle;
pub use crate::distance::levenshtein_distance;
pub use crate::distance::string_similarity;
pub use crate::loader::DataLoader;
pub use crate::loader::SourceTexts;
pub use crate::processing::{
    QuranContext, initialize_data, reset_data, get_data_bundle, get_ayah_data, get_surah_info,
    get_ayahs_by_surah, get_ayahs_by_juz, get_ayahs_by_page, get_quran_statistics, get_all_surahs,
    get_random_ayah, get_page_data, get_total_pages, get_pages_range, get_page_containing_verse,
    get_verses_in_page,
};
pub use crate::search::{
    search_ayahs_by_text, search_similar_ayahs, search_ayahs_by_translation,
    search_ayahs_by_transliteration, search_ayahs_by_range, search_ayahs_by_theme,
    advanced_search, fuzzy_search,
};
pub use crate::structures::{
    AyahData, AyahMetadata, SajdaInfo, SurahInfo, SurahNameMetadata, MatchingAyah,
    SimilarAyahWithText, RenderedPage, PageLine, SurahHeader, JuzInfo, HizbInfo, RukuInfo,
    ManzilInfo, SearchResult, QuranStatistics, AppConfig, HafizError, HafizResult,
};
pub use crate::text::{
    normalize_arabic_text, normalize_alef_variations, remove_diacritics, is_arabic_diacritic,
    extract_root_words, contains_arabic, is_arabic_letter, arabic_to_latin_digits,
    latin_to_arabic_digits, clean_text_for_search, extract_verse_key, format_verse_key,
    parse_verse_key, validate_verse_key, count_words, count_characters,
};
