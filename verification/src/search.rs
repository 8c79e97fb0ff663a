//! The query layer: text, translation, transliteration, ranged,
//! thematic, multi-criteria and fuzzy search over the loaded bundle.

use vstd::prelude::*;
use crate::processing::QuranContext;
use crate::structures::{AyahData, SimilarAyahWithText};
use crate::text::{
    lower_of, spec_contains_sub, spec_normalize, str_contains_sub, to_lowercase,
    normalize_arabic_text, seq_words, split_words,
};
use crate::order::{spec_sort_order, sort_order, spec_assemble, take_at_most, lemma_take_at_most_push};
use crate::distance::{spec_fuzzy_score, calculate_fuzzy_score};

verus! {

/// The first verses matching the normalised, lowercased query, at most
/// `limit`; empty when uninitialised.
#[verifier::loop_isolation(false)]
pub fn search_ayahs_by_text(ctx: &QuranContext, query: &str, limit: usize) -> (r: Vec<AyahData>)
    ensures
        r@ == match ctx.data {
            Option::Some(b) => take_at_most(
                b.ayah_data@.filter(
                    |a: AyahData| crate::bundle::ayah_matches_text(
                        a,
                        lower_of(spec_normalize(query@)),
                    ),
                ),
                limit as int,
            ),
            Option::None => Seq::<AyahData>::empty(),
        },
{
    match &ctx.data {
        Some(b) => {
            let normalized = normalize_arabic_text(query);
            let lowered = to_lowercase(normalized.as_str());
            b.search_ayahs_by_text(lowered.as_str(), limit)
        },
        None => Vec::new(),
    }
}

/// Similar verses of the key, by cross-reference edges in both
/// directions; empty when uninitialised.
pub fn search_similar_ayahs(ctx: &QuranContext, verse_key: &str, limit: usize) -> (r: Vec<
    SimilarAyahWithText,
>)
    ensures
        match ctx.data {
            Option::Some(b) => {
                let sorted = crate::bundle::spec_similar_sorted(
                    b.matching_ayahs@,
                    b.ayah_data@,
                    verse_key@,
                );
                &&& r@.len() == take_at_most(sorted, limit as int).len()
                &&& forall|k: int|
                    0 <= k < r@.len() ==> crate::bundle::similar_matches_desc(
                        #[trigger] r@[k],
                        sorted[k],
                    )
            },
            Option::None => r@ == Seq::<SimilarAyahWithText>::empty(),
        },
{
    match &ctx.data {
        Some(b) => b.search_similar_ayahs(verse_key, limit),
        None => Vec::new(),
    }
}

/// Whether the verse's lowercased translation holds the lowercased
/// query.
pub open spec fn translation_matches(a: AyahData, q: Seq<char>) -> bool {
    spec_contains_sub(lower_of(a.translation_id@), lower_of(q))
}

/// The first verses whose translation holds the query,
/// case-insensitively, at most `limit`.
#[verifier::loop_isolation(false)]
pub fn search_ayahs_by_translation(ctx: &QuranContext, query: &str, limit: usize) -> (r: Vec<
    AyahData,
>)
    ensures
        r@ == match ctx.data {
            Option::Some(b) => take_at_most(
                b.ayah_data@.filter(|a: AyahData| translation_matches(a, query@)),
                limit as int,
            ),
            Option::None => Seq::<AyahData>::empty(),
        },
{
    match &ctx.data {
        Some(b) => {
            let lowered = to_lowercase(query);
            let ghost pred = |a: AyahData| translation_matches(a, query@);
            let mut results: Vec<AyahData> = Vec::new();
            let n: usize = b.ayah_data.len();
            for i in 0..n
                invariant
                    n == b.ayah_data@.len(),
                    lowered@ == lower_of(query@),
                    results@ == take_at_most(
                        b.ayah_data@.take(i as int).filter(pred),
                        limit as int,
                    ),
                    results@.len() <= limit,
                decreases n - i,
            {
                let ghost prefix = b.ayah_data@.take(i as int).filter(pred);
                proof {
                    assert(b.ayah_data@.take(i + 1).drop_last() =~= b.ayah_data@.take(i as int));
                    assert(b.ayah_data@.take(i + 1).last() == b.ayah_data@[i as int]);
                    reveal(Seq::filter);
                    lemma_take_at_most_push(prefix, b.ayah_data@[i as int], limit as int);
                    prefix.lemma_filter_len(pred);
                    b.ayah_data@.take(i as int).lemma_filter_len(pred);
                }
                if results.len() < limit {
                    let a = &b.ayah_data[i];
                    let tl = to_lowercase(a.translation_id.as_str());
                    if str_contains_sub(tl.as_str(), lowered.as_str()) {
                        results.push(a.clone());
                    }
                }
            }
            proof {
                assert(b.ayah_data@.take(n as int) =~= b.ayah_data@);
            }
            results
        },
        None => Vec::new(),
    }
}

/// Whether the verse's lowercased transliteration holds the lowercased
/// query.
pub open spec fn transliteration_matches(a: AyahData, q: Seq<char>) -> bool {
    spec_contains_sub(lower_of(a.transliteration@), lower_of(q))
}

/// The first verses whose transliteration holds the query,
/// case-insensitively, at most `limit`.
#[verifier::loop_isolation(false)]
pub fn search_ayahs_by_transliteration(ctx: &QuranContext, query: &str, limit: usize) -> (r: Vec<
    AyahData,
>)
    ensures
        r@ == match ctx.data {
            Option::Some(b) => take_at_most(
                b.ayah_data@.filter(|a: AyahData| transliteration_matches(a, query@)),
                limit as int,
            ),
            Option::None => Seq::<AyahData>::empty(),
        },
{
    match &ctx.data {
        Some(b) => {
            let lowered = to_lowercase(query);
            let ghost pred = |a: AyahData| transliteration_matches(a, query@);
            let mut results: Vec<AyahData> = Vec::new();
            let n: usize = b.ayah_data.len();
            for i in 0..n
                invariant
                    n == b.ayah_data@.len(),
                    lowered@ == lower_of(query@),
                    results@ == take_at_most(
                        b.ayah_data@.take(i as int).filter(pred),
                        limit as int,
                    ),
                    results@.len() <= limit,
                decreases n - i,
            {
                let ghost prefix = b.ayah_data@.take(i as int).filter(pred);
                proof {
                    assert(b.ayah_data@.take(i + 1).drop_last() =~= b.ayah_data@.take(i as int));
                    assert(b.ayah_data@.take(i + 1).last() == b.ayah_data@[i as int]);
                    reveal(Seq::filter);
                    lemma_take_at_most_push(prefix, b.ayah_data@[i as int], limit as int);
                    prefix.lemma_filter_len(pred);
                    b.ayah_data@.take(i as int).lemma_filter_len(pred);
                }
                if results.len() < limit {
                    let a = &b.ayah_data[i];
                    let tl = to_lowercase(a.transliteration.as_str());
                    if str_contains_sub(tl.as_str(), lowered.as_str()) {
                        results.push(a.clone());
                    }
                }
            }
            proof {
                assert(b.ayah_data@.take(n as int) =~= b.ayah_data@);
            }
            results
        },
        None => Vec::new(),
    }
}

/// Whether a verse lies in the requested range: inside the verse
/// interval when both ends name one chapter, otherwise at or after the
/// start in its chapter, at or before the end in its chapter, or in any
/// chapter strictly between.
pub open spec fn in_verse_range(a: AyahData, ss: u16, sa: u16, es: u16, ea: u16) -> bool {
    if ss == es {
        a.surah_number == ss && sa <= a.ayah_number <= ea
    } else {
        ||| (a.surah_number == ss && a.ayah_number >= sa)
        ||| (a.surah_number == es && a.ayah_number <= ea)
        ||| (ss < a.surah_number && a.surah_number < es)
    }
}

/// The sort key ordering verses by chapter then verse.
pub open spec fn spec_verse_order_keys(c: Seq<AyahData>) -> Seq<u64> {
    Seq::new(c.len(), |i: int| ((c[i].surah_number as u64) * 65536 + (c[i].ayah_number as u64)) as u64)
}

/// The verses of the range sorted ascending by chapter and verse.
pub open spec fn spec_range_results(ayahs: Seq<AyahData>, ss: u16, sa: u16, es: u16, ea: u16) -> Seq<
    AyahData,
> {
    let c = ayahs.filter(|a: AyahData| in_verse_range(a, ss, sa, es, ea));
    spec_assemble(c, spec_sort_order(spec_verse_order_keys(c)))
}

/// The verses between two keys, sorted ascending by chapter and verse;
/// empty when either key is malformed or the context uninitialised.
#[verifier::loop_isolation(false)]
pub fn search_ayahs_by_range(ctx: &QuranContext, start_verse: &str, end_verse: &str) -> (r: Vec<
    AyahData,
>)
    ensures
        r@ == match ctx.data {
            Option::Some(b) => match (
                crate::text::spec_parse_verse_key(start_verse@),
                crate::text::spec_parse_verse_key(end_verse@),
            ) {
                (Option::Some((ss, sa)), Option::Some((es, ea))) => spec_range_results(
                    b.ayah_data@,
                    ss,
                    sa,
                    es,
                    ea,
                ),
                _ => Seq::<AyahData>::empty(),
            },
            Option::None => Seq::<AyahData>::empty(),
        },
{
    match &ctx.data {
        Some(b) => {
            let sk = crate::text::parse_verse_key(start_verse);
            let ek = crate::text::parse_verse_key(end_verse);
            match (sk, ek) {
                (Some((ss, sa)), Some((es, ea))) => {
                    let ghost pred = |a: AyahData| in_verse_range(a, ss, sa, es, ea);
                    let mut cands: Vec<AyahData> = Vec::new();
                    let n: usize = b.ayah_data.len();
                    for i in 0..n
                        invariant
                            n == b.ayah_data@.len(),
                            cands@ == b.ayah_data@.take(i as int).filter(pred),
                        decreases n - i,
                    {
                        proof {
                            assert(b.ayah_data@.take(i + 1).drop_last() =~= b.ayah_data@.take(
                                i as int,
                            ));
                            assert(b.ayah_data@.take(i + 1).last() == b.ayah_data@[i as int]);
                            reveal(Seq::filter);
                        }
                        let a = &b.ayah_data[i];
                        let hit: bool = if ss == es {
                            a.surah_number == ss && sa <= a.ayah_number && a.ayah_number <= ea
                        } else {
                            (a.surah_number == ss && a.ayah_number >= sa) || (a.surah_number == es
                                && a.ayah_number <= ea) || (ss < a.surah_number && a.surah_number
                                < es)
                        };
                        if hit {
                            cands.push(a.clone());
                        }
                    }
                    proof {
                        assert(b.ayah_data@.take(n as int) =~= b.ayah_data@);
                    }
                    let cn: usize = cands.len();
                    let mut keys: Vec<u64> = Vec::new();
                    for i in 0..cn
                        invariant
                            cn == cands@.len(),
                            keys@.len() == i,
                            forall|q: int|
                                0 <= q < i ==> keys@[q] == ((cands@[q].surah_number as u64) * 65536
                                    + (cands@[q].ayah_number as u64)) as u64,
                        decreases cn - i,
                    {
                        keys.push(
                            (cands[i].surah_number as u64) * 65536 + (cands[i].ayah_number as u64),
                        );
                    }
                    proof {
                        assert(keys@ =~= spec_verse_order_keys(cands@));
                    }
                    let order = sort_order(&keys);
                    proof {
                        crate::order::lemma_assemble_pointwise(cands@, order@);
                    }
                    let k: usize = order.len();
                    let mut out: Vec<AyahData> = Vec::new();
                    for w in 0..k
                        invariant
                            k == order@.len(),
                            cn == cands@.len(),
                            cands@ == b.ayah_data@.filter(pred),
                            order@ == spec_sort_order(spec_verse_order_keys(cands@)),
                            order@.len() == cands@.len(),
                            forall|q: int| 0 <= q < k ==> (#[trigger] order@[q]).1 < cn,
                            out@.len() == w,
                            forall|q: int|
                                0 <= q < w ==> #[trigger] out@[q] == spec_assemble(
                                    cands@,
                                    order@,
                                )[q],
                        decreases k - w,
                    {
                        let idx: usize = order[w].1;
                        out.push(cands[idx].clone());
                    }
                    proof {
                        assert(out@ =~= spec_assemble(cands@, order@));
                    }
                    out
                },
                _ => Vec::new(),
            }
        },
        None => Vec::new(),
    }
}

/// The first verse whose identifier is `id`, if any.
pub open spec fn spec_find_ayah_by_id(ayahs: Seq<AyahData>, id: u32) -> Option<AyahData>
    decreases ayahs.len(),
{
    if ayahs.len() == 0 {
        Option::None
    } else if ayahs[0].id == id {
        Option::Some(ayahs[0])
    } else {
        spec_find_ayah_by_id(ayahs.drop_first(), id)
    }
}

/// The verses that the listed identifiers resolve to, in list order,
/// missing identifiers skipped.
pub open spec fn spec_theme_results(ayahs: Seq<AyahData>, ids: Seq<u32>) -> Seq<AyahData>
    decreases ids.len(),
{
    if ids.len() == 0 {
        Seq::empty()
    } else {
        let rest = spec_theme_results(ayahs, ids.drop_last());
        match spec_find_ayah_by_id(ayahs, ids.last()) {
            Option::Some(a) => rest.push(a),
            Option::None => rest,
        }
    }
}

/// The verse-id list stored under the first theme entry named `theme`.
pub open spec fn spec_theme_ids(entries: Seq<(String, Vec<u32>)>, theme: Seq<char>) -> Seq<u32>
    decreases entries.len(),
{
    if entries.len() == 0 {
        Seq::empty()
    } else if entries[0].0@ == theme {
        entries[0].1@
    } else {
        spec_theme_ids(entries.drop_first(), theme)
    }
}

/// The verses of a theme: the first `limit` listed identifiers,
/// resolved to verses where they exist.
#[verifier::loop_isolation(false)]
pub fn search_ayahs_by_theme(ctx: &QuranContext, theme: &str, limit: usize) -> (r: Vec<AyahData>)
    ensures
        r@ == match ctx.data {
            Option::Some(b) => {
                let ids = spec_theme_ids(b.phrase_verses@, theme@);
                spec_theme_results(b.ayah_data@, take_at_most(ids, limit as int))
            },
            Option::None => Seq::<AyahData>::empty(),
        },
{
    match &ctx.data {
        Some(b) => {
            let ghost entries = b.phrase_verses@;
            let mut ids_opt: Option<&Vec<u32>> = None;
            let pn: usize = b.phrase_verses.len();
            proof {
                assert(entries.skip(0) =~= entries);
            }
            let mut i: usize = 0;
            while i < pn
                invariant
                    i <= pn,
                    pn == entries.len(),
                    ids_opt is None || i == pn,
                    match ids_opt {
                        Option::Some(v) => spec_theme_ids(entries, theme@) == v@,
                        Option::None => spec_theme_ids(entries, theme@) == spec_theme_ids(
                            entries.skip(i as int),
                            theme@,
                        ),
                    },
                decreases pn - i,
            {
                proof {
                    assert(entries.skip(i as int)[0] == entries[i as int]);
                    assert(entries.skip(i as int).drop_first() =~= entries.skip(i + 1));
                }
                if crate::json::str_eq_str(b.phrase_verses[i].0.as_str(), theme) {
                    ids_opt = Some(&b.phrase_verses[i].1);
                    i = pn;
                } else {
                    i = i + 1;
                }
            }
            proof {
                if ids_opt is None {
                    assert(entries.skip(pn as int) =~= Seq::<(String, Vec<u32>)>::empty());
                }
            }
            let mut results: Vec<AyahData> = Vec::new();
            match ids_opt {
                Some(ids) => {
                    let m: usize = ids.len();
                    let cap: usize = if limit < m {
                        limit
                    } else {
                        m
                    };
                    let ghost taken = take_at_most(ids@, limit as int);
                    proof {
                        assert(taken.len() == cap);
                        assert(taken.take(0) =~= Seq::<u32>::empty());
                    }
                    for j in 0..cap
                        invariant
                            cap <= m,
                            m == ids@.len(),
                            taken == take_at_most(ids@, limit as int),
                            taken.len() == cap,
                            forall|q: int| 0 <= q < cap ==> taken[q] == ids@[q],
                            results@ == spec_theme_results(b.ayah_data@, taken.take(j as int)),
                        decreases cap - j,
                    {
                        proof {
                            assert(taken.take(j + 1).drop_last() =~= taken.take(j as int));
                            assert(taken.take(j + 1).last() == taken[j as int]);
                        }
                        match find_ayah_by_id(&b.ayah_data, ids[j]) {
                            Some(a) => {
                                results.push(a.clone());
                            },
                            None => {},
                        }
                    }
                    proof {
                        assert(taken.take(cap as int) =~= taken);
                    }
                    results
                },
                None => {
                    proof {
                        assert(take_at_most(spec_theme_ids(entries, theme@), limit as int)
                            =~= Seq::<u32>::empty());
                    }
                    results
                },
            }
        },
        None => Vec::new(),
    }
}

/// The first stored verse with the given identifier.
#[verifier::loop_isolation(false)]
fn find_ayah_by_id<'a>(ayahs: &'a Vec<AyahData>, id: u32) -> (r: Option<&'a AyahData>)
    ensures
        match r {
            Option::Some(a) => spec_find_ayah_by_id(ayahs@, id) == Option::Some(*a),
            Option::None => spec_find_ayah_by_id(ayahs@, id) is None,
        },
{
    let n: usize = ayahs.len();
    proof {
        assert(ayahs@.skip(0) =~= ayahs@);
    }
    for i in 0..n
        invariant
            spec_find_ayah_by_id(ayahs@, id) == spec_find_ayah_by_id(ayahs@.skip(i as int), id),
        decreases n - i,
    {
        proof {
            assert(ayahs@.skip(i as int)[0] == ayahs@[i as int]);
            assert(ayahs@.skip(i as int).drop_first() =~= ayahs@.skip(i + 1));
        }
        if ayahs[i].id == id {
            return Some(&ayahs[i]);
        }
    }
    proof {
        assert(ayahs@.skip(n as int) =~= Seq::<AyahData>::empty());
    }
    None
}

/// Whether a verse meets every supplied criterion of a multi-criteria
/// search; an omitted criterion is a wildcard.
pub open spec fn advanced_matches(
    a: AyahData,
    text_query: Option<Seq<char>>,
    translation_query: Option<Seq<char>>,
    surah_number: Option<u16>,
    juz_number: Option<u8>,
) -> bool {
    &&& match text_query {
        Option::Some(t) => spec_contains_sub(a.text_arab@, spec_normalize(t))
            || spec_contains_sub(a.text_uthmani@, spec_normalize(t)),
        Option::None => true,
    }
    &&& match translation_query {
        Option::Some(t) => spec_contains_sub(lower_of(a.translation_id@), lower_of(t)),
        Option::None => true,
    }
    &&& match surah_number {
        Option::Some(sn) => a.surah_number == sn,
        Option::None => true,
    }
    &&& match juz_number {
        Option::Some(jn) => a.juz_number == jn,
        Option::None => true,
    }
}

/// Conjunctive multi-criteria search: the first verses meeting every
/// supplied criterion, at most `limit`.
#[verifier::loop_isolation(false)]
pub fn advanced_search(
    ctx: &QuranContext,
    text_query: Option<&str>,
    translation_query: Option<&str>,
    surah_number: Option<u16>,
    juz_number: Option<u8>,
    limit: usize,
) -> (r: Vec<AyahData>)
    ensures
        ({
            let tq = match text_query {
                Option::Some(t) => Option::Some(t@),
                Option::None => Option::<Seq<char>>::None,
            };
            let rq = match translation_query {
                Option::Some(t) => Option::Some(t@),
                Option::None => Option::<Seq<char>>::None,
            };
            r@ == match ctx.data {
                Option::Some(b) => take_at_most(
                    b.ayah_data@.filter(
                        |a: AyahData| advanced_matches(a, tq, rq, surah_number, juz_number),
                    ),
                    limit as int,
                ),
                Option::None => Seq::<AyahData>::empty(),
            }
        }),
{
    let ghost tq = match text_query {
        Option::Some(t) => Option::Some(t@),
        Option::None => Option::<Seq<char>>::None,
    };
    let ghost rq = match translation_query {
        Option::Some(t) => Option::Some(t@),
        Option::None => Option::<Seq<char>>::None,
    };
    match &ctx.data {
        Some(b) => {
            let normalized_text: Option<String> = match text_query {
                Some(t) => Some(normalize_arabic_text(t)),
                None => None,
            };
            let lowered_translation: Option<String> = match translation_query {
                Some(t) => Some(to_lowercase(t)),
                None => None,
            };
            let ghost pred = |a: AyahData| advanced_matches(a, tq, rq, surah_number, juz_number);
            let mut results: Vec<AyahData> = Vec::new();
            let n: usize = b.ayah_data.len();
            for i in 0..n
                invariant
                    n == b.ayah_data@.len(),
                    tq == (match text_query {
                        Option::Some(t) => Option::Some(t@),
                        Option::None => Option::<Seq<char>>::None,
                    }),
                    rq == (match translation_query {
                        Option::Some(t) => Option::Some(t@),
                        Option::None => Option::<Seq<char>>::None,
                    }),
                    match (normalized_text, text_query) {
                        (Option::Some(sx), Option::Some(t)) => sx@ == spec_normalize(t@),
                        (Option::None, Option::None) => true,
                        _ => false,
                    },
                    match (lowered_translation, translation_query) {
                        (Option::Some(sx), Option::Some(t)) => sx@ == lower_of(t@),
                        (Option::None, Option::None) => true,
                        _ => false,
                    },
                    results@ == take_at_most(
                        b.ayah_data@.take(i as int).filter(pred),
                        limit as int,
                    ),
                    results@.len() <= limit,
                decreases n - i,
            {
                let ghost prefix = b.ayah_data@.take(i as int).filter(pred);
                proof {
                    assert(b.ayah_data@.take(i + 1).drop_last() =~= b.ayah_data@.take(i as int));
                    assert(b.ayah_data@.take(i + 1).last() == b.ayah_data@[i as int]);
                    reveal(Seq::filter);
                    lemma_take_at_most_push(prefix, b.ayah_data@[i as int], limit as int);
                    prefix.lemma_filter_len(pred);
                    b.ayah_data@.take(i as int).lemma_filter_len(pred);
                }
                if results.len() < limit {
                    let a = &b.ayah_data[i];
                    let text_ok: bool = match &normalized_text {
                        Some(t) => str_contains_sub(a.text_arab.as_str(), t.as_str())
                            || str_contains_sub(a.text_uthmani.as_str(), t.as_str()),
                        None => true,
                    };
                    let translation_ok: bool = match &lowered_translation {
                        Some(t) => {
                            let tl = to_lowercase(a.translation_id.as_str());
                            str_contains_sub(tl.as_str(), t.as_str())
                        },
                        None => true,
                    };
                    let surah_ok: bool = match surah_number {
                        Some(sn) => a.surah_number == sn,
                        None => true,
                    };
                    let juz_ok: bool = match juz_number {
                        Some(jn) => a.juz_number == jn,
                        None => true,
                    };
                    if text_ok && translation_ok && surah_ok && juz_ok {
                        results.push(a.clone());
                    }
                }
            }
            proof {
                assert(b.ayah_data@.take(n as int) =~= b.ayah_data@);
            }
            results
        },
        None => Vec::new(),
    }
}

/// The fuzzy score of a verse against the normalised query's tokens.
pub open spec fn spec_ayah_fuzzy_score(a: AyahData, qwords: Seq<Seq<char>>) -> nat {
    spec_fuzzy_score(qwords, seq_words(a.text_arab@))
}

/// The verses with a positive fuzzy score, paired with their scores, in
/// bundle order.
pub open spec fn spec_fuzzy_cands(ayahs: Seq<AyahData>, qwords: Seq<Seq<char>>) -> Seq<
    (AyahData, u64),
>
    decreases ayahs.len(),
{
    if ayahs.len() == 0 {
        Seq::empty()
    } else {
        let rest = spec_fuzzy_cands(ayahs.drop_last(), qwords);
        let sc = spec_ayah_fuzzy_score(ayahs.last(), qwords);
        if sc > 0 {
            rest.push((ayahs.last(), sc as u64))
        } else {
            rest
        }
    }
}

/// The sort keys ordering fuzzy candidates by descending score.
pub open spec fn spec_fuzzy_keys(c: Seq<(AyahData, u64)>) -> Seq<u64> {
    Seq::new(c.len(), |i: int| (u64::MAX - c[i].1) as u64)
}

/// The verses of the sorted candidate prefix.
pub open spec fn spec_fuzzy_firsts(c: Seq<(AyahData, u64)>) -> Seq<AyahData>
    decreases c.len(),
{
    if c.len() == 0 {
        Seq::empty()
    } else {
        spec_fuzzy_firsts(c.drop_last()).push(c.last().0)
    }
}

proof fn lemma_fuzzy_firsts_pointwise(c: Seq<(AyahData, u64)>)
    ensures
        spec_fuzzy_firsts(c).len() == c.len(),
        forall|i: int| 0 <= i < c.len() ==> spec_fuzzy_firsts(c)[i] == (#[trigger] c[i]).0,
    decreases c.len(),
{
    if c.len() > 0 {
        lemma_fuzzy_firsts_pointwise(c.drop_last());
        assert forall|i: int| 0 <= i < c.len() implies spec_fuzzy_firsts(c)[i] == (
        #[trigger] c[i]).0 by {
            if i < c.len() - 1 {
                assert(c.drop_last()[i] == c[i]);
                assert(spec_fuzzy_firsts(c)[i] == spec_fuzzy_firsts(c.drop_last())[i]);
            }
        }
    }
}

/// Fuzzy search: the verses whose primary text's tokens best match the
/// normalised query's tokens above the threshold, sorted by descending
/// mean similarity, ties in bundle order, truncated to `limit`.
#[verifier::loop_isolation(false)]
pub fn fuzzy_search(ctx: &QuranContext, query: &str, limit: usize) -> (r: Vec<AyahData>)
    ensures
        match ctx.data {
            Option::Some(b) => {
                let cands = spec_fuzzy_cands(b.ayah_data@, seq_words(spec_normalize(query@)));
                let sorted = spec_assemble(cands, spec_sort_order(spec_fuzzy_keys(cands)));
                r@ == spec_fuzzy_firsts(take_at_most(sorted, limit as int))
            },
            Option::None => r@ == Seq::<AyahData>::empty(),
        },
{
    match &ctx.data {
        Some(b) => {
            let normalized = normalize_arabic_text(query);
            let query_words = split_words(normalized.as_str());
            let ghost qws = seq_words(spec_normalize(query@));
            proof {
                assert(query_words.deep_view() == qws);
            }
            let mut cands: Vec<(AyahData, u64)> = Vec::new();
            let n: usize = b.ayah_data.len();
            proof {
                assert(cands@ =~= spec_fuzzy_cands(b.ayah_data@.take(0), qws));
            }
            for i in 0..n
                invariant
                    n == b.ayah_data@.len(),
                    query_words.deep_view() == qws,
                    cands@ == spec_fuzzy_cands(b.ayah_data@.take(i as int), qws),
                decreases n - i,
            {
                proof {
                    assert(b.ayah_data@.take(i + 1).drop_last() =~= b.ayah_data@.take(i as int));
                    assert(b.ayah_data@.take(i + 1).last() == b.ayah_data@[i as int]);
                }
                let a = &b.ayah_data[i];
                let ayah_words = split_words(a.text_arab.as_str());
                let score = calculate_fuzzy_score(&query_words, &ayah_words);
                if score > 0 {
                    cands.push((a.clone(), score));
                }
            }
            proof {
                assert(b.ayah_data@.take(n as int) =~= b.ayah_data@);
            }
            let ghost call = spec_fuzzy_cands(b.ayah_data@, qws);
            let cn: usize = cands.len();
            let mut keys: Vec<u64> = Vec::new();
            for i in 0..cn
                invariant
                    cn == cands@.len(),
                    keys@.len() == i,
                    forall|q: int| 0 <= q < i ==> keys@[q] == (u64::MAX - cands@[q].1) as u64,
                decreases cn - i,
            {
                keys.push(u64::MAX - cands[i].1);
            }
            proof {
                assert(keys@ =~= spec_fuzzy_keys(cands@));
            }
            let order = sort_order(&keys);
            proof {
                crate::order::lemma_assemble_pointwise(cands@, order@);
            }
            let ghost sorted = spec_assemble(call, spec_sort_order(spec_fuzzy_keys(call)));
            let total: usize = order.len();
            let cap: usize = if limit < total {
                limit
            } else {
                total
            };
            let mut out: Vec<AyahData> = Vec::new();
            proof {
                lemma_fuzzy_firsts_pointwise(take_at_most(sorted, limit as int));
                assert(take_at_most(sorted, limit as int).len() == cap);
                assert forall|q: int| 0 <= q < cap implies take_at_most(sorted, limit as int)[q]
                    == sorted[q] by {}
            }
            for w in 0..cap
                invariant
                    cap <= total,
                    total == order@.len(),
                    cn == cands@.len(),
                    cands@ == call,
                    order@ == spec_sort_order(spec_fuzzy_keys(cands@)),
                    order@.len() == cands@.len(),
                    forall|q: int| 0 <= q < total ==> (#[trigger] order@[q]).1 < cn,
                    sorted == spec_assemble(call, order@),
                    sorted.len() == order@.len(),
                    forall|q: int|
                        0 <= q < sorted.len() ==> sorted[q] == call[(#[trigger] order@[q]).1 as int],
                    out@.len() == w,
                    forall|q: int| 0 <= q < w ==> #[trigger] out@[q] == sorted[q].0,
                decreases cap - w,
            {
                let idx: usize = order[w].1;
                out.push(cands[idx].0.clone());
            }
            proof {
                lemma_fuzzy_firsts_pointwise(take_at_most(sorted, limit as int));
                assert(out@ =~= spec_fuzzy_firsts(take_at_most(sorted, limit as int)));
            }
            out
        },
        None => Vec::new(),
    }
}

} // verus!
