//! The record types of the corpus: verses, chapters, structural groups,
//! prostration marks, rendered pages, cross-references and statistics.

use vstd::prelude::*;

verus! {

/// A prostration annotation on a verse.
pub struct SajdaInfo {
    pub id: u8,
    pub sajda_type: String,
    pub recommended: bool,
    pub obligatory: bool,
}

impl Clone for SajdaInfo {
    fn clone(&self) -> (r: Self)
        ensures
            r == *self,
    {
        SajdaInfo {
            id: self.id,
            sajda_type: self.sajda_type.clone(),
            recommended: self.recommended,
            obligatory: self.obligatory,
        }
    }
}

/// One verse with every derived attribute resolved.
pub struct AyahData {
    pub id: u32,
    pub surah_number: u16,
    pub ayah_number: u16,
    pub verse_key: String,
    pub text_arab: String,
    pub text_uthmani: String,
    pub translation_id: String,
    pub transliteration: String,
    pub surah_name: String,
    pub surah_name_arabic: String,
    pub juz_number: u8,
    pub hizb_number: u8,
    pub rub_number: u8,
    pub ruku_number: u8,
    pub manzil_number: u8,
    pub page_number: u16,
    pub line_number: u8,
    pub sajda: Option<SajdaInfo>,
}

impl Clone for AyahData {
    fn clone(&self) -> (r: Self)
        ensures
            r == *self,
    {
        AyahData {
            id: self.id,
            surah_number: self.surah_number,
            ayah_number: self.ayah_number,
            verse_key: self.verse_key.clone(),
            text_arab: self.text_arab.clone(),
            text_uthmani: self.text_uthmani.clone(),
            translation_id: self.translation_id.clone(),
            transliteration: self.transliteration.clone(),
            surah_name: self.surah_name.clone(),
            surah_name_arabic: self.surah_name_arabic.clone(),
            juz_number: self.juz_number,
            hizb_number: self.hizb_number,
            rub_number: self.rub_number,
            ruku_number: self.ruku_number,
            manzil_number: self.manzil_number,
            page_number: self.page_number,
            line_number: self.line_number,
            sajda: match &self.sajda {
                Some(s) => Some(s.clone()),
                None => None,
            },
        }
    }
}

/// A chapter record.
pub struct SurahInfo {
    pub id: u16,
    pub name_simple: String,
    pub name_arabic: String,
    pub name_english: String,
    pub revelation_order: u16,
    pub revelation_place: String,
    pub verses_count: u16,
    pub bismillah_pre: bool,
}

impl Clone for SurahInfo {
    fn clone(&self) -> (r: Self)
        ensures
            r == *self,
    {
        SurahInfo {
            id: self.id,
            name_simple: self.name_simple.clone(),
            name_arabic: self.name_arabic.clone(),
            name_english: self.name_english.clone(),
            revelation_order: self.revelation_order,
            revelation_place: self.revelation_place.clone(),
            verses_count: self.verses_count,
            bismillah_pre: self.bismillah_pre,
        }
    }
}

/// A verse entry as the raw metadata table carries it.
pub struct AyahMetadata {
    pub id: u32,
    pub surah_number: u16,
    pub ayah_number: u16,
    pub verse_key: String,
    pub text: String,
}

impl Clone for AyahMetadata {
    fn clone(&self) -> (r: Self)
        ensures
            r == *self,
    {
        AyahMetadata {
            id: self.id,
            surah_number: self.surah_number,
            ayah_number: self.ayah_number,
            verse_key: self.verse_key.clone(),
            text: self.text.clone(),
        }
    }
}

/// A chapter-name entry as the raw chapter table carries it.
pub struct SurahNameMetadata {
    pub id: u16,
    pub name_simple: String,
    pub name_arabic: String,
    pub revelation_order: u16,
    pub revelation_place: String,
    pub verses_count: u16,
    pub bismillah_pre: bool,
}

impl Clone for SurahNameMetadata {
    fn clone(&self) -> (r: Self)
        ensures
            r == *self,
    {
        SurahNameMetadata {
            id: self.id,
            name_simple: self.name_simple.clone(),
            name_arabic: self.name_arabic.clone(),
            revelation_order: self.revelation_order,
            revelation_place: self.revelation_place.clone(),
            verses_count: self.verses_count,
            bismillah_pre: self.bismillah_pre,
        }
    }
}

/// A directed cross-reference edge to a similar verse.
pub struct MatchingAyah {
    pub matched_ayah_key: String,
    pub matched_words_count: u32,
    pub coverage: u32,
    pub score: u32,
    pub match_words: Vec<Vec<u32>>,
}

/// Field-wise equality of cross-reference edges; the word ranges are
/// compared by contents.
pub open spec fn matching_eqv(a: MatchingAyah, b: MatchingAyah) -> bool {
    &&& a.matched_ayah_key == b.matched_ayah_key
    &&& a.matched_words_count == b.matched_words_count
    &&& a.coverage == b.coverage
    &&& a.score == b.score
    &&& a.match_words.deep_view() == b.match_words.deep_view()
}

impl Clone for MatchingAyah {
    fn clone(&self) -> (r: Self)
        ensures
            matching_eqv(r, *self),
    {
        let mut ranges: Vec<Vec<u32>> = Vec::new();
        let n: usize = self.match_words.len();
        for i in 0..n
            invariant
                n == self.match_words@.len(),
                ranges@.len() == i,
                forall|j: int| 0 <= j < i ==> ranges@[j]@ == #[trigger] self.match_words@[j]@,
        {
            ranges.push(self.match_words[i].clone());
        }
        proof {
            assert(ranges.deep_view() =~= self.match_words.deep_view());
        }
        MatchingAyah {
            matched_ayah_key: self.matched_ayah_key.clone(),
            matched_words_count: self.matched_words_count,
            coverage: self.coverage,
            score: self.score,
            match_words: ranges,
        }
    }
}

/// A similar verse found by cross-reference search.  The similarity is
/// the edge's score, a percentage from 0 to 100.
pub struct SimilarAyahWithText {
    pub ayah_data: AyahData,
    pub similarity_score: u32,
    pub matching_words: Vec<String>,
    pub matching_type: String,
    pub matched_words_count: u32,
    pub coverage: u32,
}

/// One rendered line of a page.
pub struct PageLine {
    pub line_number: u8,
    pub line_type: String,
    pub text: String,
    pub is_centered: bool,
    pub verse_keys: Vec<String>,
}

/// Field-wise equality of page lines; verse keys are compared by
/// contents.
pub open spec fn line_eqv(a: PageLine, b: PageLine) -> bool {
    &&& a.line_number == b.line_number
    &&& a.line_type == b.line_type
    &&& a.text == b.text
    &&& a.is_centered == b.is_centered
    &&& a.verse_keys@ == b.verse_keys@
}

impl Clone for PageLine {
    fn clone(&self) -> (r: Self)
        ensures
            line_eqv(r, *self),
    {
        let mut keys: Vec<String> = Vec::new();
        let n: usize = self.verse_keys.len();
        for i in 0..n
            invariant
                n == self.verse_keys@.len(),
                keys@.len() == i,
                forall|j: int| 0 <= j < i ==> keys@[j] == #[trigger] self.verse_keys@[j],
        {
            keys.push(self.verse_keys[i].clone());
        }
        proof {
            assert(keys@ =~= self.verse_keys@);
        }
        PageLine {
            line_number: self.line_number,
            line_type: self.line_type.clone(),
            text: self.text.clone(),
            is_centered: self.is_centered,
            verse_keys: keys,
        }
    }
}

/// A chapter header appearing on a page.
pub struct SurahHeader {
    pub surah_number: u16,
    pub name_arabic: String,
    pub name_simple: String,
    pub line_number: u8,
}

impl Clone for SurahHeader {
    fn clone(&self) -> (r: Self)
        ensures
            r == *self,
    {
        SurahHeader {
            surah_number: self.surah_number,
            name_arabic: self.name_arabic.clone(),
            name_simple: self.name_simple.clone(),
            line_number: self.line_number,
        }
    }
}

/// One page of the rendered layout: its lines in line order and the
/// chapter headers it shows.
pub struct RenderedPage {
    pub page_number: u16,
    pub lines: Vec<PageLine>,
    pub surah_headers: Vec<SurahHeader>,
}

/// Field-wise equality of rendered pages, with lines compared by
/// [`line_eqv`].
pub open spec fn page_eqv(a: RenderedPage, b: RenderedPage) -> bool {
    &&& a.page_number == b.page_number
    &&& a.lines@.len() == b.lines@.len()
    &&& forall|i: int| 0 <= i < a.lines@.len() ==> line_eqv(#[trigger] a.lines@[i], b.lines@[i])
    &&& a.surah_headers@ == b.surah_headers@
}

impl Clone for RenderedPage {
    fn clone(&self) -> (r: Self)
        ensures
            page_eqv(r, *self),
    {
        let mut lines: Vec<PageLine> = Vec::new();
        let n: usize = self.lines.len();
        for i in 0..n
            invariant
                n == self.lines@.len(),
                lines@.len() == i,
                forall|j: int| 0 <= j < i ==> line_eqv(#[trigger] lines@[j], self.lines@[j]),
        {
            lines.push(self.lines[i].clone());
        }
        let mut headers: Vec<SurahHeader> = Vec::new();
        let m: usize = self.surah_headers.len();
        for i in 0..m
            invariant
                m == self.surah_headers@.len(),
                headers@.len() == i,
                forall|j: int| 0 <= j < i ==> headers@[j] == #[trigger] self.surah_headers@[j],
        {
            headers.push(self.surah_headers[i].clone());
        }
        proof {
            assert(headers@ =~= self.surah_headers@);
        }
        RenderedPage { page_number: self.page_number, lines, surah_headers: headers }
    }
}

/// A structural group of the coarsest partition (thirty parts).
pub struct JuzInfo {
    pub id: u8,
    pub first_verse_id: u32,
    pub last_verse_id: u32,
    pub verses_count: u16,
    pub name_arabic: String,
    pub name_simple: String,
}

impl Clone for JuzInfo {
    fn clone(&self) -> (r: Self)
        ensures
            r == *self,
    {
        JuzInfo {
            id: self.id,
            first_verse_id: self.first_verse_id,
            last_verse_id: self.last_verse_id,
            verses_count: self.verses_count,
            name_arabic: self.name_arabic.clone(),
            name_simple: self.name_simple.clone(),
        }
    }
}

/// A structural group of the sixty-part partition.
#[derive(Clone, Copy)]
pub struct HizbInfo {
    pub id: u8,
    pub first_verse_id: u32,
    pub last_verse_id: u32,
    pub verses_count: u16,
}

/// A structural group of the passage partition.
#[derive(Clone, Copy)]
pub struct RukuInfo {
    pub id: u8,
    pub surah_number: u16,
    pub first_verse_id: u32,
    pub last_verse_id: u32,
    pub verses_count: u16,
}

/// A structural group of the seven-part partition.
#[derive(Clone, Copy)]
pub struct ManzilInfo {
    pub id: u8,
    pub first_verse_id: u32,
    pub last_verse_id: u32,
    pub verses_count: u16,
}

/// A batch of search results with bookkeeping fields.
pub struct SearchResult {
    pub ayahs: Vec<AyahData>,
    pub total_results: usize,
    pub search_time_ms: u64,
    pub query: String,
    pub search_type: String,
}

/// Corpus-wide counts.
pub struct QuranStatistics {
    pub total_surahs: u16,
    pub total_ayahs: u32,
    pub total_words: u32,
    pub total_letters: u32,
    pub total_pages: u16,
    pub total_juz: u8,
    pub total_hizb: u8,
    pub total_ruku: u16,
    pub total_manzil: u8,
    pub total_sajda: u8,
}

impl Clone for QuranStatistics {
    fn clone(&self) -> (r: Self)
        ensures
            r == *self,
    {
        QuranStatistics {
            total_surahs: self.total_surahs,
            total_ayahs: self.total_ayahs,
            total_words: self.total_words,
            total_letters: self.total_letters,
            total_pages: self.total_pages,
            total_juz: self.total_juz,
            total_hizb: self.total_hizb,
            total_ruku: self.total_ruku,
            total_manzil: self.total_manzil,
            total_sajda: self.total_sajda,
        }
    }
}

/// The fixed corpus-wide counts that a fresh statistics record carries.
pub open spec fn is_default_statistics(s: QuranStatistics) -> bool {
    &&& s.total_surahs == 114
    &&& s.total_ayahs == 6236
    &&& s.total_words == 77430
    &&& s.total_letters == 323670
    &&& s.total_pages == 604
    &&& s.total_juz == 30
    &&& s.total_hizb == 60
    &&& s.total_ruku == 556
    &&& s.total_manzil == 7
    &&& s.total_sajda == 15
}

impl Default for QuranStatistics {
    /// The fixed counts of the corpus this library serves.
    fn default() -> (r: Self)
        ensures
            is_default_statistics(r),
    {
        QuranStatistics {
            total_surahs: 114,
            total_ayahs: 6236,
            total_words: 77430,
            total_letters: 323670,
            total_pages: 604,
            total_juz: 30,
            total_hizb: 60,
            total_ruku: 556,
            total_manzil: 7,
            total_sajda: 15,
        }
    }
}

/// Application presentation settings.
pub struct AppConfig {
    pub language: String,
    pub translation_source: String,
    pub font_size: u8,
    pub theme: String,
    pub page_layout: String,
}

/// The error taxonomy of the library.
#[derive(Debug)]
pub enum HafizError {
    DataNotFound(String),
    InvalidVerseKey(String),
    InvalidSurahNumber(u16),
    InvalidJuzNumber(u8),
    InvalidPageNumber(u16),
    DatabaseError(String),
    ParseError(String),
    IoError(String),
}

impl HafizError {
    /// A human-readable description of the error.
    pub fn message(&self) -> (r: String)
        ensures
            r@ == match *self {
                HafizError::DataNotFound(ref m) => "Data not found: "@ + m@,
                HafizError::InvalidVerseKey(ref k) => "Invalid verse key: "@ + k@,
                HafizError::InvalidSurahNumber(n) => "Invalid surah number: "@
                    + crate::text::dec_digits(n as nat),
                HafizError::InvalidJuzNumber(n) => "Invalid juz number: "@
                    + crate::text::dec_digits(n as nat),
                HafizError::InvalidPageNumber(n) => "Invalid page number: "@
                    + crate::text::dec_digits(n as nat),
                HafizError::DatabaseError(ref m) => "Database error: "@ + m@,
                HafizError::ParseError(ref m) => "Parse error: "@ + m@,
                HafizError::IoError(ref m) => "IO error: "@ + m@,
            },
    {
        match self {
            HafizError::DataNotFound(m) => String::from_str("Data not found: ").concat(m.as_str()),
            HafizError::InvalidVerseKey(k) => String::from_str("Invalid verse key: ").concat(
                k.as_str(),
            ),
            HafizError::InvalidSurahNumber(n) => String::from_str("Invalid surah number: ").concat(
                crate::text::u64_to_string(*n as u64).as_str(),
            ),
            HafizError::InvalidJuzNumber(n) => String::from_str("Invalid juz number: ").concat(
                crate::text::u64_to_string(*n as u64).as_str(),
            ),
            HafizError::InvalidPageNumber(n) => String::from_str("Invalid page number: ").concat(
                crate::text::u64_to_string(*n as u64).as_str(),
            ),
            HafizError::DatabaseError(m) => String::from_str("Database error: ").concat(m.as_str()),
            HafizError::ParseError(m) => String::from_str("Parse error: ").concat(m.as_str()),
            HafizError::IoError(m) => String::from_str("IO error: ").concat(m.as_str()),
        }
    }
}

/// Result alias for operations that fail with a [`HafizError`].
pub type HafizResult<T> = Result<T, HafizError>;

/// Mathematical image of a prostration annotation.
pub struct SajdaInfoV {
    pub id: u8,
    pub sajda_type: Seq<char>,
    pub recommended: bool,
    pub obligatory: bool,
}

impl View for SajdaInfo {
    type V = SajdaInfoV;

    open spec fn view(&self) -> SajdaInfoV {
        SajdaInfoV {
            id: self.id,
            sajda_type: self.sajda_type@,
            recommended: self.recommended,
            obligatory: self.obligatory,
        }
    }
}

impl DeepView for SajdaInfo {
    type V = SajdaInfoV;

    open spec fn deep_view(&self) -> SajdaInfoV {
        self.view()
    }
}

/// Mathematical image of a verse record.
pub struct AyahDataV {
    pub id: u32,
    pub surah_number: u16,
    pub ayah_number: u16,
    pub verse_key: Seq<char>,
    pub text_arab: Seq<char>,
    pub text_uthmani: Seq<char>,
    pub translation_id: Seq<char>,
    pub transliteration: Seq<char>,
    pub surah_name: Seq<char>,
    pub surah_name_arabic: Seq<char>,
    pub juz_number: u8,
    pub hizb_number: u8,
    pub rub_number: u8,
    pub ruku_number: u8,
    pub manzil_number: u8,
    pub page_number: u16,
    pub line_number: u8,
    pub sajda: Option<SajdaInfoV>,
}

impl View for AyahData {
    type V = AyahDataV;

    open spec fn view(&self) -> AyahDataV {
        AyahDataV {
            id: self.id,
            surah_number: self.surah_number,
            ayah_number: self.ayah_number,
            verse_key: self.verse_key@,
            text_arab: self.text_arab@,
            text_uthmani: self.text_uthmani@,
            translation_id: self.translation_id@,
            transliteration: self.transliteration@,
            surah_name: self.surah_name@,
            surah_name_arabic: self.surah_name_arabic@,
            juz_number: self.juz_number,
            hizb_number: self.hizb_number,
            rub_number: self.rub_number,
            ruku_number: self.ruku_number,
            manzil_number: self.manzil_number,
            page_number: self.page_number,
            line_number: self.line_number,
            sajda: self.sajda.deep_view(),
        }
    }
}

impl DeepView for AyahData {
    type V = AyahDataV;

    open spec fn deep_view(&self) -> AyahDataV {
        self.view()
    }
}

/// Mathematical image of a chapter record.
pub struct SurahInfoV {
    pub id: u16,
    pub name_simple: Seq<char>,
    pub name_arabic: Seq<char>,
    pub name_english: Seq<char>,
    pub revelation_order: u16,
    pub revelation_place: Seq<char>,
    pub verses_count: u16,
    pub bismillah_pre: bool,
}

impl View for SurahInfo {
    type V = SurahInfoV;

    open spec fn view(&self) -> SurahInfoV {
        SurahInfoV {
            id: self.id,
            name_simple: self.name_simple@,
            name_arabic: self.name_arabic@,
            name_english: self.name_english@,
            revelation_order: self.revelation_order,
            revelation_place: self.revelation_place@,
            verses_count: self.verses_count,
            bismillah_pre: self.bismillah_pre,
        }
    }
}

impl DeepView for SurahInfo {
    type V = SurahInfoV;

    open spec fn deep_view(&self) -> SurahInfoV {
        self.view()
    }
}

/// Mathematical image of a raw verse entry.
pub struct AyahMetadataV {
    pub id: u32,
    pub surah_number: u16,
    pub ayah_number: u16,
    pub verse_key: Seq<char>,
    pub text: Seq<char>,
}

impl View for AyahMetadata {
    type V = AyahMetadataV;

    open spec fn view(&self) -> AyahMetadataV {
        AyahMetadataV {
            id: self.id,
            surah_number: self.surah_number,
            ayah_number: self.ayah_number,
            verse_key: self.verse_key@,
            text: self.text@,
        }
    }
}

impl DeepView for AyahMetadata {
    type V = AyahMetadataV;

    open spec fn deep_view(&self) -> AyahMetadataV {
        self.view()
    }
}

/// Mathematical image of a raw chapter-name entry.
pub struct SurahNameMetadataV {
    pub id: u16,
    pub name_simple: Seq<char>,
    pub name_arabic: Seq<char>,
    pub revelation_order: u16,
    pub revelation_place: Seq<char>,
    pub verses_count: u16,
    pub bismillah_pre: bool,
}

impl View for SurahNameMetadata {
    type V = SurahNameMetadataV;

    open spec fn view(&self) -> SurahNameMetadataV {
        SurahNameMetadataV {
            id: self.id,
            name_simple: self.name_simple@,
            name_arabic: self.name_arabic@,
            revelation_order: self.revelation_order,
            revelation_place: self.revelation_place@,
            verses_count: self.verses_count,
            bismillah_pre: self.bismillah_pre,
        }
    }
}

impl DeepView for SurahNameMetadata {
    type V = SurahNameMetadataV;

    open spec fn deep_view(&self) -> SurahNameMetadataV {
        self.view()
    }
}

/// Mathematical image of a cross-reference edge.
pub struct MatchingAyahV {
    pub matched_ayah_key: Seq<char>,
    pub matched_words_count: u32,
    pub coverage: u32,
    pub score: u32,
    pub match_words: Seq<Seq<u32>>,
}

impl View for MatchingAyah {
    type V = MatchingAyahV;

    open spec fn view(&self) -> MatchingAyahV {
        MatchingAyahV {
            matched_ayah_key: self.matched_ayah_key@,
            matched_words_count: self.matched_words_count,
            coverage: self.coverage,
            score: self.score,
            match_words: self.match_words.deep_view(),
        }
    }
}

impl DeepView for MatchingAyah {
    type V = MatchingAyahV;

    open spec fn deep_view(&self) -> MatchingAyahV {
        self.view()
    }
}

/// Mathematical image of a page line.
pub struct PageLineV {
    pub line_number: u8,
    pub line_type: Seq<char>,
    pub text: Seq<char>,
    pub is_centered: bool,
    pub verse_keys: Seq<Seq<char>>,
}

impl View for PageLine {
    type V = PageLineV;

    open spec fn view(&self) -> PageLineV {
        PageLineV {
            line_number: self.line_number,
            line_type: self.line_type@,
            text: self.text@,
            is_centered: self.is_centered,
            verse_keys: self.verse_keys.deep_view(),
        }
    }
}

impl DeepView for PageLine {
    type V = PageLineV;

    open spec fn deep_view(&self) -> PageLineV {
        self.view()
    }
}

/// Mathematical image of a chapter header on a page.
pub struct SurahHeaderV {
    pub surah_number: u16,
    pub name_arabic: Seq<char>,
    pub name_simple: Seq<char>,
    pub line_number: u8,
}

impl View for SurahHeader {
    type V = SurahHeaderV;

    open spec fn view(&self) -> SurahHeaderV {
        SurahHeaderV {
            surah_number: self.surah_number,
            name_arabic: self.name_arabic@,
            name_simple: self.name_simple@,
            line_number: self.line_number,
        }
    }
}

impl DeepView for SurahHeader {
    type V = SurahHeaderV;

    open spec fn deep_view(&self) -> SurahHeaderV {
        self.view()
    }
}

/// Mathematical image of a rendered page.
pub struct RenderedPageV {
    pub page_number: u16,
    pub lines: Seq<PageLineV>,
    pub surah_headers: Seq<SurahHeaderV>,
}

impl View for RenderedPage {
    type V = RenderedPageV;

    open spec fn view(&self) -> RenderedPageV {
        RenderedPageV {
            page_number: self.page_number,
            lines: self.lines.deep_view(),
            surah_headers: self.surah_headers.deep_view(),
        }
    }
}

impl DeepView for RenderedPage {
    type V = RenderedPageV;

    open spec fn deep_view(&self) -> RenderedPageV {
        self.view()
    }
}

/// Mathematical image of a thirty-part group record.
pub struct JuzInfoV {
    pub id: u8,
    pub first_verse_id: u32,
    pub last_verse_id: u32,
    pub verses_count: u16,
    pub name_arabic: Seq<char>,
    pub name_simple: Seq<char>,
}

impl View for JuzInfo {
    type V = JuzInfoV;

    open spec fn view(&self) -> JuzInfoV {
        JuzInfoV {
            id: self.id,
            first_verse_id: self.first_verse_id,
            last_verse_id: self.last_verse_id,
            verses_count: self.verses_count,
            name_arabic: self.name_arabic@,
            name_simple: self.name_simple@,
        }
    }
}

impl DeepView for JuzInfo {
    type V = JuzInfoV;

    open spec fn deep_view(&self) -> JuzInfoV {
        self.view()
    }
}

/// Field-wise line equality carries over to the views.
pub proof fn lemma_line_eqv_view(a: PageLine, b: PageLine)
    requires
        line_eqv(a, b),
    ensures
        a@ == b@,
{
    assert(a.verse_keys.deep_view() =~= b.verse_keys.deep_view());
}

/// Field-wise page equality carries over to the views.
pub proof fn lemma_page_eqv_view(a: RenderedPage, b: RenderedPage)
    requires
        page_eqv(a, b),
    ensures
        a@ == b@,
{
    assert forall|i: int| 0 <= i < a.lines@.len() implies a.lines.deep_view()[i]
        == b.lines.deep_view()[i] by {
        lemma_line_eqv_view(a.lines@[i], b.lines@[i]);
    }
    assert(a.lines.deep_view() =~= b.lines.deep_view());
    assert(a.surah_headers.deep_view() =~= b.surah_headers.deep_view());
}

impl DeepView for HizbInfo {
    type V = HizbInfo;

    open spec fn deep_view(&self) -> HizbInfo {
        *self
    }
}

impl DeepView for RukuInfo {
    type V = RukuInfo;

    open spec fn deep_view(&self) -> RukuInfo {
        *self
    }
}

impl DeepView for ManzilInfo {
    type V = ManzilInfo;

    open spec fn deep_view(&self) -> ManzilInfo {
        *self
    }
}

} // verus!
