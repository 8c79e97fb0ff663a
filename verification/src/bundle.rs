//! The unified in-memory aggregate of all parsed corpus records, with
//! its accessors, validation and the cross-reference similarity search.

use vstd::prelude::*;
use crate::structures::{
    AyahData, AyahMetadata, JuzInfo, HizbInfo, RukuInfo, ManzilInfo, MatchingAyah, QuranStatistics,
    RenderedPage, SajdaInfo, SimilarAyahWithText, SurahInfo, SurahNameMetadata,
};
use crate::text::{spec_contains_sub, str_contains_sub, lower_of, to_lowercase};
use crate::json::str_eq_str;
use crate::order::{spec_sort_order, sort_order, take_at_most, lemma_take_at_most_push};

verus! {

/// The single long-lived aggregate: every parsed table, keyed
/// collections held as vectors in load order.
pub struct QuranCoreDataBundle {
    pub ayah_metadata: Vec<AyahMetadata>,
    pub ayah_data: Vec<AyahData>,
    pub surah_names: Vec<SurahNameMetadata>,
    pub surah_info: Vec<SurahInfo>,
    pub phrase_verses: Vec<(String, Vec<u32>)>,
    pub matching_ayahs: Vec<(String, Vec<MatchingAyah>)>,
    pub indonesian_translation: Vec<(String, String)>,
    pub transliteration: Vec<(String, String)>,
    pub rendered_pages: Vec<RenderedPage>,
    pub juz_info: Vec<JuzInfo>,
    pub hizb_info: Vec<HizbInfo>,
    pub ruku_info: Vec<RukuInfo>,
    pub manzil_info: Vec<ManzilInfo>,
    pub sajda_info: Vec<SajdaInfo>,
    pub statistics: QuranStatistics,
}

/// The first verse whose key reads `key`, if any.
pub open spec fn spec_find_ayah(ayahs: Seq<AyahData>, key: Seq<char>) -> Option<AyahData>
    decreases ayahs.len(),
{
    if ayahs.len() == 0 {
        Option::None
    } else if ayahs[0].verse_key@ == key {
        Option::Some(ayahs[0])
    } else {
        spec_find_ayah(ayahs.drop_first(), key)
    }
}

/// The first chapter record numbered `n`, if any.
pub open spec fn spec_find_surah(surahs: Seq<SurahInfo>, n: u16) -> Option<SurahInfo>
    decreases surahs.len(),
{
    if surahs.len() == 0 {
        Option::None
    } else if surahs[0].id == n {
        Option::Some(surahs[0])
    } else {
        spec_find_surah(surahs.drop_first(), n)
    }
}

/// Whether a chapter record numbered `n` exists.
pub open spec fn surah_exists(surahs: Seq<SurahInfo>, n: u16) -> bool {
    spec_find_surah(surahs, n) is Some
}

/// Whether the verse matches a text query: the query occurs in the
/// primary text, the alternate text, the lowercased translation or the
/// lowercased transliteration.
pub open spec fn ayah_matches_text(a: AyahData, q: Seq<char>) -> bool {
    ||| spec_contains_sub(a.text_arab@, q)
    ||| spec_contains_sub(a.text_uthmani@, q)
    ||| spec_contains_sub(lower_of(a.translation_id@), q)
    ||| spec_contains_sub(lower_of(a.transliteration@), q)
}

/// The edge list stored under `key`: the value of the first adjacency
/// entry with that source key, empty when there is none.
pub open spec fn spec_edges_for(entries: Seq<(String, Vec<MatchingAyah>)>, key: Seq<char>) -> Seq<
    MatchingAyah,
>
    decreases entries.len(),
{
    if entries.len() == 0 {
        Seq::empty()
    } else if entries[0].0@ == key {
        entries[0].1@
    } else {
        spec_edges_for(entries.drop_first(), key)
    }
}

/// A similarity candidate: the found verse, the edge's score,
/// matched-word count and coverage, and whether the queried verse was
/// the edge's source (`true`) or its target.
pub open spec fn spec_forward_cands(
    edges: Seq<MatchingAyah>,
    ayahs: Seq<AyahData>,
    key: Seq<char>,
) -> Seq<(AyahData, u32, u32, u32, bool)>
    decreases edges.len(),
{
    if edges.len() == 0 {
        Seq::empty()
    } else {
        let rest = spec_forward_cands(edges.drop_last(), ayahs, key);
        let e = edges.last();
        if e.matched_ayah_key@ != key {
            match spec_find_ayah(ayahs, e.matched_ayah_key@) {
                Option::Some(a) => rest.push((a, e.score, e.matched_words_count, e.coverage, true)),
                Option::None => rest,
            }
        } else {
            rest
        }
    }
}

/// The candidates one adjacency entry contributes in the reverse
/// direction: one per edge pointing at the queried key, when the
/// entry's source verse exists.
pub open spec fn spec_reverse_edge_cands(
    edges: Seq<MatchingAyah>,
    src: Option<AyahData>,
    key: Seq<char>,
) -> Seq<(AyahData, u32, u32, u32, bool)>
    decreases edges.len(),
{
    if edges.len() == 0 {
        Seq::empty()
    } else {
        let rest = spec_reverse_edge_cands(edges.drop_last(), src, key);
        let e = edges.last();
        if e.matched_ayah_key@ == key {
            match src {
                Option::Some(a) => rest.push(
                    (a, e.score, e.matched_words_count, e.coverage, false),
                ),
                Option::None => rest,
            }
        } else {
            rest
        }
    }
}

/// All reverse candidates, in adjacency order, skipping the entry of
/// the queried key itself.
pub open spec fn spec_reverse_cands(
    entries: Seq<(String, Vec<MatchingAyah>)>,
    ayahs: Seq<AyahData>,
    key: Seq<char>,
) -> Seq<(AyahData, u32, u32, u32, bool)>
    decreases entries.len(),
{
    if entries.len() == 0 {
        Seq::empty()
    } else {
        let rest = spec_reverse_cands(entries.drop_last(), ayahs, key);
        let en = entries.last();
        if en.0@ == key {
            rest
        } else {
            rest + spec_reverse_edge_cands(en.1@, spec_find_ayah(ayahs, en.0@), key)
        }
    }
}

/// Every similarity candidate of the queried key, forward edges first.
pub open spec fn spec_similar_cands(
    entries: Seq<(String, Vec<MatchingAyah>)>,
    ayahs: Seq<AyahData>,
    key: Seq<char>,
) -> Seq<(AyahData, u32, u32, u32, bool)> {
    spec_forward_cands(spec_edges_for(entries, key), ayahs, key) + spec_reverse_cands(
        entries,
        ayahs,
        key,
    )
}

/// Sort keys that order candidates by descending score, ties by
/// discovery order.
pub open spec fn desc_score_keys(c: Seq<(AyahData, u32, u32, u32, bool)>) -> Seq<u64> {
    Seq::new(c.len(), |i: int| (u64::MAX - c[i].1) as u64)
}

/// The candidates of the queried key in the order similarity search
/// returns them.
pub open spec fn spec_similar_sorted(
    entries: Seq<(String, Vec<MatchingAyah>)>,
    ayahs: Seq<AyahData>,
    key: Seq<char>,
) -> Seq<(AyahData, u32, u32, u32, bool)> {
    let c = spec_similar_cands(entries, ayahs, key);
    spec_sort_order(desc_score_keys(c)).map_values(|p: (u64, usize)| c[p.1 as int])
}

/// Whether a returned similar-verse record carries exactly the fields
/// of the given candidate.
pub open spec fn similar_matches_desc(
    x: SimilarAyahWithText,
    d: (AyahData, u32, u32, u32, bool),
) -> bool {
    &&& x.ayah_data == d.0
    &&& x.similarity_score == d.1
    &&& x.matched_words_count == d.2
    &&& x.coverage == d.3
    &&& x.matching_words@ == Seq::<String>::empty()
    &&& x.matching_type@ == (if d.4 {
        "direct"@
    } else {
        "reverse"@
    })
}

impl QuranCoreDataBundle {
    /// An empty bundle with the corpus-wide default statistics.
    pub fn new() -> (r: Self)
        ensures
            r.ayah_metadata@ == Seq::<AyahMetadata>::empty(),
            r.ayah_data@ == Seq::<AyahData>::empty(),
            r.surah_names@ == Seq::<SurahNameMetadata>::empty(),
            r.surah_info@ == Seq::<SurahInfo>::empty(),
            r.phrase_verses@ == Seq::<(String, Vec<u32>)>::empty(),
            r.matching_ayahs@ == Seq::<(String, Vec<MatchingAyah>)>::empty(),
            r.indonesian_translation@ == Seq::<(String, String)>::empty(),
            r.transliteration@ == Seq::<(String, String)>::empty(),
            r.rendered_pages@ == Seq::<RenderedPage>::empty(),
            r.juz_info@ == Seq::<JuzInfo>::empty(),
            r.hizb_info@ == Seq::<HizbInfo>::empty(),
            r.ruku_info@ == Seq::<RukuInfo>::empty(),
            r.manzil_info@ == Seq::<ManzilInfo>::empty(),
            r.sajda_info@ == Seq::<SajdaInfo>::empty(),
            crate::structures::is_default_statistics(r.statistics),
    {
        QuranCoreDataBundle {
            ayah_metadata: Vec::new(),
            ayah_data: Vec::new(),
            surah_names: Vec::new(),
            surah_info: Vec::new(),
            phrase_verses: Vec::new(),
            matching_ayahs: Vec::new(),
            indonesian_translation: Vec::new(),
            transliteration: Vec::new(),
            rendered_pages: Vec::new(),
            juz_info: Vec::new(),
            hizb_info: Vec::new(),
            ruku_info: Vec::new(),
            manzil_info: Vec::new(),
            sajda_info: Vec::new(),
            statistics: QuranStatistics::default(),
        }
    }

    /// The verse stored under the given key, if any.
    #[verifier::loop_isolation(false)]
    pub fn get_ayah_data(&self, verse_key: &str) -> (r: Option<&AyahData>)
        ensures
            match r {
                Option::Some(a) => spec_find_ayah(self.ayah_data@, verse_key@) == Option::Some(*a),
                Option::None => spec_find_ayah(self.ayah_data@, verse_key@) is None,
            },
    {
        let n: usize = self.ayah_data.len();
        proof {
            assert(self.ayah_data@.skip(0) =~= self.ayah_data@);
        }
        for i in 0..n
            invariant
                spec_find_ayah(self.ayah_data@, verse_key@) == spec_find_ayah(
                    self.ayah_data@.skip(i as int),
                    verse_key@,
                ),
            decreases n - i,
        {
            proof {
                assert(self.ayah_data@.skip(i as int)[0] == self.ayah_data@[i as int]);
                assert(self.ayah_data@.skip(i as int).drop_first() =~= self.ayah_data@.skip(i + 1));
            }
            if str_eq_str(self.ayah_data[i].verse_key.as_str(), verse_key) {
                return Some(&self.ayah_data[i]);
            }
        }
        proof {
            assert(self.ayah_data@.skip(n as int) =~= Seq::<AyahData>::empty());
        }
        None
    }

    /// The chapter record numbered `surah_number`, if any.
    #[verifier::loop_isolation(false)]
    pub fn get_surah_info(&self, surah_number: u16) -> (r: Option<&SurahInfo>)
        ensures
            match r {
                Option::Some(s) => spec_find_surah(self.surah_info@, surah_number) == Option::Some(
                    *s,
                ),
                Option::None => spec_find_surah(self.surah_info@, surah_number) is None,
            },
    {
        let n: usize = self.surah_info.len();
        proof {
            assert(self.surah_info@.skip(0) =~= self.surah_info@);
        }
        for i in 0..n
            invariant
                spec_find_surah(self.surah_info@, surah_number) == spec_find_surah(
                    self.surah_info@.skip(i as int),
                    surah_number,
                ),
            decreases n - i,
        {
            proof {
                assert(self.surah_info@.skip(i as int)[0] == self.surah_info@[i as int]);
                assert(self.surah_info@.skip(i as int).drop_first() =~= self.surah_info@.skip(
                    i + 1,
                ));
            }
            if self.surah_info[i].id == surah_number {
                return Some(&self.surah_info[i]);
            }
        }
        proof {
            assert(self.surah_info@.skip(n as int) =~= Seq::<SurahInfo>::empty());
        }
        None
    }

    /// All verses of the given chapter, in bundle order.
    pub fn get_ayahs_by_surah(&self, surah_number: u16) -> (r: Vec<AyahData>)
        ensures
            r@ == self.ayah_data@.filter(|a: AyahData| a.surah_number == surah_number),
    {
        let mut results: Vec<AyahData> = Vec::new();
        let n: usize = self.ayah_data.len();
        for i in 0..n
            invariant
                n == self.ayah_data@.len(),
                results@ == self.ayah_data@.take(i as int).filter(
                    |a: AyahData| a.surah_number == surah_number,
                ),
            decreases n - i,
        {
            proof {
                assert(self.ayah_data@.take(i + 1).drop_last() =~= self.ayah_data@.take(i as int));
                assert(self.ayah_data@.take(i + 1).last() == self.ayah_data@[i as int]);
                reveal(Seq::filter);
            }
            if self.ayah_data[i].surah_number == surah_number {
                results.push(self.ayah_data[i].clone());
            }
        }
        proof {
            assert(self.ayah_data@.take(n as int) =~= self.ayah_data@);
        }
        results
    }

    /// All verses of the given thirty-part group, in bundle order.
    pub fn get_ayahs_by_juz(&self, juz_number: u8) -> (r: Vec<AyahData>)
        ensures
            r@ == self.ayah_data@.filter(|a: AyahData| a.juz_number == juz_number),
    {
        let mut results: Vec<AyahData> = Vec::new();
        let n: usize = self.ayah_data.len();
        for i in 0..n
            invariant
                n == self.ayah_data@.len(),
                results@ == self.ayah_data@.take(i as int).filter(
                    |a: AyahData| a.juz_number == juz_number,
                ),
            decreases n - i,
        {
            proof {
                assert(self.ayah_data@.take(i + 1).drop_last() =~= self.ayah_data@.take(i as int));
                assert(self.ayah_data@.take(i + 1).last() == self.ayah_data@[i as int]);
                reveal(Seq::filter);
            }
            if self.ayah_data[i].juz_number == juz_number {
                results.push(self.ayah_data[i].clone());
            }
        }
        proof {
            assert(self.ayah_data@.take(n as int) =~= self.ayah_data@);
        }
        results
    }

    /// All verses whose derived page number is `page_number`, in bundle
    /// order.
    pub fn get_ayahs_by_page(&self, page_number: u16) -> (r: Vec<AyahData>)
        ensures
            r@ == self.ayah_data@.filter(|a: AyahData| a.page_number == page_number),
    {
        let mut results: Vec<AyahData> = Vec::new();
        let n: usize = self.ayah_data.len();
        for i in 0..n
            invariant
                n == self.ayah_data@.len(),
                results@ == self.ayah_data@.take(i as int).filter(
                    |a: AyahData| a.page_number == page_number,
                ),
            decreases n - i,
        {
            proof {
                assert(self.ayah_data@.take(i + 1).drop_last() =~= self.ayah_data@.take(i as int));
                assert(self.ayah_data@.take(i + 1).last() == self.ayah_data@[i as int]);
                reveal(Seq::filter);
            }
            if self.ayah_data[i].page_number == page_number {
                results.push(self.ayah_data[i].clone());
            }
        }
        proof {
            assert(self.ayah_data@.take(n as int) =~= self.ayah_data@);
        }
        results
    }

    /// The first verses matching the query in one of the four searched
    /// fields, in bundle order, at most `limit` of them.  The query is
    /// expected already lowercased; the translation and transliteration
    /// are lowercased before the comparison.
    pub fn search_ayahs_by_text(&self, query: &str, limit: usize) -> (r: Vec<AyahData>)
        ensures
            r@ == take_at_most(
                self.ayah_data@.filter(|a: AyahData| ayah_matches_text(a, query@)),
                limit as int,
            ),
    {
        let mut results: Vec<AyahData> = Vec::new();
        let n: usize = self.ayah_data.len();
        let qchars = crate::text::str_chars(query);
        for i in 0..n
            invariant
                n == self.ayah_data@.len(),
                qchars@ == query@,
                results@ == take_at_most(
                    self.ayah_data@.take(i as int).filter(
                        |a: AyahData| ayah_matches_text(a, query@),
                    ),
                    limit as int,
                ),
                results@.len() <= limit,
            decreases n - i,
        {
            let ghost pred = |a: AyahData| ayah_matches_text(a, query@);
            let ghost prefix = self.ayah_data@.take(i as int).filter(pred);
            proof {
                assert(self.ayah_data@.take(i + 1).drop_last() =~= self.ayah_data@.take(i as int));
                assert(self.ayah_data@.take(i + 1).last() == self.ayah_data@[i as int]);
                reveal(Seq::filter);
                lemma_take_at_most_push(prefix, self.ayah_data@[i as int], limit as int);
                prefix.lemma_filter_len(pred);
                self.ayah_data@.take(i as int).lemma_filter_len(pred);
            }
            let a = &self.ayah_data[i];
            if results.len() < limit {
                let tl = to_lowercase(a.translation_id.as_str());
                let xl = to_lowercase(a.transliteration.as_str());
                let hit = str_contains_sub(a.text_arab.as_str(), query) || str_contains_sub(
                    a.text_uthmani.as_str(),
                    query,
                ) || str_contains_sub(tl.as_str(), query) || str_contains_sub(
                    xl.as_str(),
                    query,
                );
                if hit {
                    results.push(a.clone());
                }
            } else {
                proof {
                    assert(take_at_most(
                        self.ayah_data@.take(i + 1).filter(pred),
                        limit as int,
                    ) == results@);
                }
            }
        }
        proof {
            assert(self.ayah_data@.take(n as int) =~= self.ayah_data@);
        }
        results
    }

    /// The cross-reference edge list stored under the queried key, if
    /// any.
    #[verifier::loop_isolation(false)]
    fn find_edges(&self, verse_key: &str) -> (r: Option<&Vec<MatchingAyah>>)
        ensures
            match r {
                Option::Some(v) => spec_edges_for(self.matching_ayahs@, verse_key@) == v@,
                Option::None => spec_edges_for(self.matching_ayahs@, verse_key@) == Seq::<
                    MatchingAyah,
                >::empty(),
            },
    {
        let n: usize = self.matching_ayahs.len();
        proof {
            assert(self.matching_ayahs@.skip(0) =~= self.matching_ayahs@);
        }
        for i in 0..n
            invariant
                spec_edges_for(self.matching_ayahs@, verse_key@) == spec_edges_for(
                    self.matching_ayahs@.skip(i as int),
                    verse_key@,
                ),
            decreases n - i,
        {
            proof {
                assert(self.matching_ayahs@.skip(i as int)[0] == self.matching_ayahs@[i as int]);
                assert(self.matching_ayahs@.skip(i as int).drop_first()
                    =~= self.matching_ayahs@.skip(i + 1));
            }
            if str_eq_str(self.matching_ayahs[i].0.as_str(), verse_key) {
                return Some(&self.matching_ayahs[i].1);
            }
        }
        proof {
            assert(self.matching_ayahs@.skip(n as int) =~= Seq::<(String, Vec<MatchingAyah>)>::empty());
        }
        None
    }

    /// Similar verses of the queried key: edges where it is the source,
    /// united with edges where it is the target found by a full scan,
    /// self-edges excluded; sorted by descending score, ties in
    /// discovery order, truncated to `limit`.
    pub fn search_similar_ayahs(&self, verse_key: &str, limit: usize) -> (r: Vec<
        SimilarAyahWithText,
    >)
        ensures
            ({
                let sorted = spec_similar_sorted(self.matching_ayahs@, self.ayah_data@, verse_key@);
                &&& r@.len() == take_at_most(sorted, limit as int).len()
                &&& forall|k: int|
                    0 <= k < r@.len() ==> similar_matches_desc(#[trigger] r@[k], sorted[k])
            }),
    {
        let ghost entries = self.matching_ayahs@;
        let ghost ayahs = self.ayah_data@;
        let ghost key = verse_key@;
        let mut cands: Vec<(AyahData, u32, u32, u32, bool)> = Vec::new();

        // forward direction: the queried key's own edge list
        match self.find_edges(verse_key) {
            Some(edges) => {
                let m: usize = edges.len();
                for j in 0..m
                    invariant
                        m == edges@.len(),
                        edges@ == spec_edges_for(entries, key),
                        entries == self.matching_ayahs@,
                        ayahs == self.ayah_data@,
                        key == verse_key@,
                        cands@ == spec_forward_cands(edges@.take(j as int), ayahs, key),
                    decreases m - j,
                {
                    proof {
                        assert(edges@.take(j + 1).drop_last() =~= edges@.take(j as int));
                        assert(edges@.take(j + 1).last() == edges@[j as int]);
                    }
                    let e = &edges[j];
                    if !str_eq_str(e.matched_ayah_key.as_str(), verse_key) {
                        match self.get_ayah_data(e.matched_ayah_key.as_str()) {
                            Some(a) => {
                                cands.push(
                                    (a.clone(), e.score, e.matched_words_count, e.coverage, true),
                                );
                            },
                            None => {},
                        }
                    }
                }
                proof {
                    assert(edges@.take(m as int) =~= edges@);
                }
            },
            None => {
                proof {
                    assert(spec_forward_cands(spec_edges_for(entries, key), ayahs, key)
                        == Seq::<(AyahData, u32, u32, u32, bool)>::empty());
                }
            },
        }
        let ghost fwd = spec_forward_cands(spec_edges_for(entries, key), ayahs, key);
        proof {
            assert(cands@ == fwd);
        }

        // reverse direction: full scan over the adjacency
        let n: usize = self.matching_ayahs.len();
        for i in 0..n
            invariant
                n == self.matching_ayahs@.len(),
                entries == self.matching_ayahs@,
                ayahs == self.ayah_data@,
                key == verse_key@,
                fwd == spec_forward_cands(spec_edges_for(entries, key), ayahs, key),
                cands@ == fwd + spec_reverse_cands(entries.take(i as int), ayahs, key),
            decreases n - i,
        {
            proof {
                assert(entries.take(i + 1).drop_last() =~= entries.take(i as int));
                assert(entries.take(i + 1).last() == entries[i as int]);
            }
            if !str_eq_str(self.matching_ayahs[i].0.as_str(), verse_key) {
                let src = self.get_ayah_data(self.matching_ayahs[i].0.as_str());
                let ghost src_spec = spec_find_ayah(ayahs, entries[i as int].0@);
                let edges = &self.matching_ayahs[i].1;
                let m: usize = edges.len();
                for j in 0..m
                    invariant
                        m == edges@.len(),
                        edges@ == entries[i as int].1@,
                        i < n,
                        n == self.matching_ayahs@.len(),
                        entries == self.matching_ayahs@,
                        ayahs == self.ayah_data@,
                        key == verse_key@,
                        src_spec == spec_find_ayah(ayahs, entries[i as int].0@),
                        match src {
                            Option::Some(a) => src_spec == Option::Some(*a),
                            Option::None => src_spec is None,
                        },
                        fwd == spec_forward_cands(spec_edges_for(entries, key), ayahs, key),
                        cands@ == fwd + spec_reverse_cands(entries.take(i as int), ayahs, key)
                            + spec_reverse_edge_cands(edges@.take(j as int), src_spec, key),
                    decreases m - j,
                {
                    proof {
                        assert(edges@.take(j + 1).drop_last() =~= edges@.take(j as int));
                        assert(edges@.take(j + 1).last() == edges@[j as int]);
                    }
                    let e = &edges[j];
                    if str_eq_str(e.matched_ayah_key.as_str(), verse_key) {
                        match src {
                            Some(a) => {
                                let ghost before = cands@;
                                cands.push(
                                    (a.clone(), e.score, e.matched_words_count, e.coverage, false),
                                );
                                proof {
                                    assert(cands@ =~= fwd + spec_reverse_cands(
                                        entries.take(i as int),
                                        ayahs,
                                        key,
                                    ) + spec_reverse_edge_cands(
                                        edges@.take(j + 1),
                                        src_spec,
                                        key,
                                    ));
                                }
                            },
                            None => {},
                        }
                    }
                }
                proof {
                    assert(edges@.take(m as int) =~= edges@);
                    assert(cands@ =~= fwd + (spec_reverse_cands(entries.take(i as int), ayahs, key)
                        + spec_reverse_edge_cands(entries[i as int].1@, src_spec, key)));
                    assert(spec_reverse_cands(entries.take(i + 1), ayahs, key)
                        == spec_reverse_cands(entries.take(i as int), ayahs, key)
                        + spec_reverse_edge_cands(entries[i as int].1@, src_spec, key));
                    assert(cands@ =~= fwd + spec_reverse_cands(entries.take(i + 1), ayahs, key));
                }
            } else {
                proof {
                    assert(spec_reverse_cands(entries.take(i + 1), ayahs, key)
                        == spec_reverse_cands(entries.take(i as int), ayahs, key));
                }
            }
        }
        proof {
            assert(entries.take(n as int) =~= entries);
        }
        let ghost allc = spec_similar_cands(entries, ayahs, key);
        proof {
            assert(cands@ == allc);
        }

        // order by descending score, ties by discovery order
        let cn: usize = cands.len();
        let mut skeys: Vec<u64> = Vec::new();
        for i in 0..cn
            invariant
                cn == cands@.len(),
                skeys@.len() == i,
                forall|q: int| 0 <= q < i ==> skeys@[q] == (u64::MAX - cands@[q].1) as u64,
            decreases cn - i,
        {
            skeys.push(u64::MAX - (cands[i].1 as u64));
        }
        proof {
            assert(skeys@ =~= desc_score_keys(cands@));
        }
        let order = sort_order(&skeys);
        let ghost sorted = spec_similar_sorted(entries, ayahs, key);
        proof {
            assert(order@ == spec_sort_order(desc_score_keys(allc)));
            assert(sorted == order@.map_values(|p: (u64, usize)| allc[p.1 as int]));
            assert(sorted.len() == order@.len());
        }

        let total: usize = order.len();
        let cap: usize = if limit < total {
            limit
        } else {
            total
        };
        let mut results: Vec<SimilarAyahWithText> = Vec::new();
        for k in 0..cap
            invariant
                cap <= total,
                total == order@.len(),
                cn == cands@.len(),
                order@ == spec_sort_order(desc_score_keys(cands@)),
                order@.len() == cands@.len(),
                cands@ == allc,
                sorted == order@.map_values(|p: (u64, usize)| allc[p.1 as int]),
                forall|q: int|
                    0 <= q < order@.len() ==> (#[trigger] order@[q]).1 < cands@.len(),
                results@.len() == k,
                forall|q: int|
                    0 <= q < k ==> similar_matches_desc(#[trigger] results@[q], sorted[q]),
            decreases cap - k,
        {
            let idx: usize = order[k].1;
            let c = &cands[idx];
            let typ = if c.4 {
                String::from_str("direct")
            } else {
                String::from_str("reverse")
            };
            results.push(
                SimilarAyahWithText {
                    ayah_data: c.0.clone(),
                    similarity_score: c.1,
                    matching_words: Vec::new(),
                    matching_type: typ,
                    matched_words_count: c.2,
                    coverage: c.3,
                },
            );
            proof {
                assert(sorted[k as int] == allc[order@[k as int].1 as int]);
            }
        }
        results
    }

    /// Validation of the bundle: there is at least one verse, at least
    /// one chapter, and every verse's chapter number has a chapter
    /// record.
    #[verifier::loop_isolation(false)]
    pub fn validate(&self) -> (r: Result<(), String>)
        ensures
            r is Ok <==> (self.ayah_data@.len() > 0 && self.surah_info@.len() > 0 && forall|i: int|
                0 <= i < self.ayah_data@.len() ==> surah_exists(
                    self.surah_info@,
                    (#[trigger] self.ayah_data@[i]).surah_number,
                )),
            match r {
                Result::Ok(_) => true,
                Result::Err(e) => {
                    if self.ayah_data@.len() == 0 {
                        e@ == "No ayah data found"@
                    } else if self.surah_info@.len() == 0 {
                        e@ == "No surah info found"@
                    } else {
                        exists|i: int|
                            {
                                &&& 0 <= i < self.ayah_data@.len()
                                &&& !surah_exists(
                                    self.surah_info@,
                                    (#[trigger] self.ayah_data@[i]).surah_number,
                                )
                                &&& (forall|j: int|
                                    0 <= j < i ==> surah_exists(
                                        self.surah_info@,
                                        (#[trigger] self.ayah_data@[j]).surah_number,
                                    ))
                                &&& e@ == "Invalid surah number "@ + crate::text::dec_digits(
                                    self.ayah_data@[i].surah_number as nat,
                                ) + " in ayah "@ + self.ayah_data@[i].verse_key@
                            }
                    }
                },
            },
    {
        if self.ayah_data.len() == 0 {
            return Err(String::from_str("No ayah data found"));
        }
        if self.surah_info.len() == 0 {
            return Err(String::from_str("No surah info found"));
        }
        let n: usize = self.ayah_data.len();
        for i in 0..n
            invariant
                forall|j: int|
                    0 <= j < i ==> surah_exists(
                        self.surah_info@,
                        (#[trigger] self.ayah_data@[j]).surah_number,
                    ),
            decreases n - i,
        {
            let a = &self.ayah_data[i];
            match self.get_surah_info(a.surah_number) {
                Some(_) => {},
                None => {
                    let mut msg = String::from_str("Invalid surah number ");
                    msg.append(crate::text::u64_to_string(a.surah_number as u64).as_str());
                    msg.append(" in ayah ");
                    msg.append(a.verse_key.as_str());
                    proof {
                        assert(msg@ =~= "Invalid surah number "@ + crate::text::dec_digits(
                            a.surah_number as nat,
                        ) + " in ayah "@ + a.verse_key@);
                    }
                    return Err(msg);
                },
            }
        }
        Ok(())
    }
}

} // verus!
