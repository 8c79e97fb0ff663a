//! The stated laws of the library: properties that relate several
//! functions, proved once and for all inputs.

use vstd::prelude::*;
use crate::structures::{AyahData, AyahDataV};
use crate::bundle::{
    QuranCoreDataBundle, spec_find_ayah, spec_similar_sorted, spec_similar_cands,
    spec_forward_cands, spec_reverse_cands, spec_reverse_edge_cands, desc_score_keys,
};
use crate::json::JsonValue;
use crate::structures::{JuzInfoV, HizbInfo, RukuInfo, ManzilInfo, MatchingAyah};
use crate::order::{lemma_sort_order_range, lemma_sort_order_keys};

verus! {

/// A successful key lookup returns a stored verse carrying exactly the
/// searched key.
pub proof fn lemma_find_ayah_key(ayahs: Seq<AyahData>, key: Seq<char>)
    ensures
        match spec_find_ayah(ayahs, key) {
            Option::Some(a) => a.verse_key@ == key && exists|i: int|
                0 <= i < ayahs.len() && ayahs[i] == a,
            Option::None => true,
        },
    decreases ayahs.len(),
{
    if ayahs.len() > 0 {
        if ayahs[0].verse_key@ == key {
            assert(ayahs[0] == ayahs[0]);
        } else {
            lemma_find_ayah_key(ayahs.drop_first(), key);
            match spec_find_ayah(ayahs.drop_first(), key) {
                Option::Some(a) => {
                    let i = choose|i: int|
                        0 <= i < ayahs.drop_first().len() && ayahs.drop_first()[i] == a;
                    assert(ayahs[i + 1] == a);
                },
                Option::None => {},
            }
        }
    }
}

/// Every record that a filtered collection keeps satisfies what its
/// parser guarantees of parsed records.
pub proof fn lemma_collect_post<E, T>(
    entries: Seq<E>,
    f: spec_fn(E) -> Option<T>,
    pred: spec_fn(T) -> bool,
)
    requires
        forall|e: E| (#[trigger] f(e)) is Some ==> pred(f(e)->0),
    ensures
        forall|i: int|
            0 <= i < crate::loader::spec_collect(entries, f).len() ==> pred(
                #[trigger] crate::loader::spec_collect(entries, f)[i],
            ),
    decreases entries.len(),
{
    if entries.len() > 0 {
        lemma_collect_post(entries.drop_last(), f, pred);
        let c = crate::loader::spec_collect(entries, f);
        let rest = crate::loader::spec_collect(entries.drop_last(), f);
        assert forall|i: int| 0 <= i < c.len() implies pred(#[trigger] c[i]) by {
            match f(entries.last()) {
                Option::Some(x) => {
                    if i < rest.len() {
                        assert(c[i] == rest[i]);
                    } else {
                        assert(c[i] == x);
                    }
                },
                Option::None => {
                    assert(c[i] == rest[i]);
                },
            }
        }
    }
}

/// Every verse the loader assembles carries a key that parses back to
/// its own chapter and verse numbers.
pub proof fn lemma_loaded_ayahs_consistent(
    t: JsonValue,
    translations: Seq<(Seq<char>, Seq<char>)>,
    transliterations: Seq<(Seq<char>, Seq<char>)>,
    juzs: Seq<JuzInfoV>,
    hizbs: Seq<HizbInfo>,
    rubs: Seq<(u8, u32, u32)>,
    rukus: Seq<RukuInfo>,
    manzils: Seq<ManzilInfo>,
    sajda_table: JsonValue,
)
    ensures
        forall|i: int|
            0 <= i < crate::loader::spec_load_ayah_data(
                t,
                translations,
                transliterations,
                juzs,
                hizbs,
                rubs,
                rukus,
                manzils,
                sajda_table,
            ).len() ==> {
                let a = #[trigger] crate::loader::spec_load_ayah_data(
                    t,
                    translations,
                    transliterations,
                    juzs,
                    hizbs,
                    rubs,
                    rukus,
                    manzils,
                    sajda_table,
                )[i];
                crate::text::spec_parse_verse_key(a.verse_key) == Option::Some(
                    (a.surah_number, a.ayah_number),
                )
            },
{
    let f = |v: JsonValue|
        crate::loader::spec_parse_ayah_data(
            v,
            translations,
            transliterations,
            juzs,
            hizbs,
            rubs,
            rukus,
            manzils,
            sajda_table,
        );
    let pred = |a: AyahDataV|
        crate::text::spec_parse_verse_key(a.verse_key) == Option::Some(
            (a.surah_number, a.ayah_number),
        );
    assert forall|e: JsonValue| (#[trigger] f(e)) is Some implies pred(f(e)->0) by {}
    lemma_collect_post(crate::loader::spec_ayah_entries(t), f, pred);
}

/// For every valid verse key of a bundle loaded from source texts, the
/// verse found under the key carries the key's own chapter and verse
/// numbers.
pub proof fn lemma_get_verse_numbers(
    b: QuranCoreDataBundle,
    src: crate::loader::SourceTexts,
    key: Seq<char>,
    c: u16,
    v: u16,
    a: AyahData,
)
    requires
        crate::loader::bundle_matches_sources(b, src),
        crate::text::spec_parse_verse_key(key) == Option::Some((c, v)),
        spec_find_ayah(b.ayah_data@, key) == Option::Some(a),
    ensures
        a.surah_number == c,
        a.ayah_number == v,
{
    lemma_find_ayah_key(b.ayah_data@, key);
    let i = choose|i: int| 0 <= i < b.ayah_data@.len() && b.ayah_data@[i] == a;
    lemma_loaded_ayahs_consistent(
        crate::loader::spec_tree_of(src.ayah_metadata@),
        crate::loader::spec_load_translation(crate::loader::spec_tree_of(src.translation@)),
        crate::loader::spec_load_transliteration(
            crate::loader::spec_tree_of(src.transliteration@),
        ),
        crate::loader::spec_load_juz_info(crate::loader::spec_tree_of(src.juz@)),
        crate::loader::spec_load_hizb_info(crate::loader::spec_tree_of(src.hizb@)),
        crate::loader::spec_load_rub_entries(crate::loader::spec_tree_of(src.rub@)),
        crate::loader::spec_load_ruku_info(crate::loader::spec_tree_of(src.ruku@)),
        crate::loader::spec_load_manzil_info(crate::loader::spec_tree_of(src.manzil@)),
        crate::loader::spec_tree_of(src.sajda@),
    );
    assert(b.ayah_data.deep_view()[i] == b.ayah_data@[i]@);
    assert(a@.verse_key == a.verse_key@);
    assert(crate::text::spec_parse_verse_key(a.verse_key@) == Option::Some(
        (a.surah_number, a.ayah_number),
    ));
}

/// Ranged search is deterministic: two results of the same search over
/// the same bundle are the same ordered sequence.
pub proof fn lemma_range_search_deterministic(
    r1: Seq<AyahData>,
    r2: Seq<AyahData>,
    ayahs: Seq<AyahData>,
    ss: u16,
    sa: u16,
    es: u16,
    ea: u16,
)
    requires
        r1 == crate::search::spec_range_results(ayahs, ss, sa, es, ea),
        r2 == crate::search::spec_range_results(ayahs, ss, sa, es, ea),
    ensures
        r1 == r2,
{
}

proof fn proof_filter_len(ayahs: Seq<AyahData>, ss: u16, sa: u16, es: u16, ea: u16)
    requires
        ayahs.len() <= usize::MAX,
    ensures
        ayahs.filter(|a: AyahData| crate::search::in_verse_range(a, ss, sa, es, ea)).len()
            <= usize::MAX,
{
    ayahs.lemma_filter_len(|a: AyahData| crate::search::in_verse_range(a, ss, sa, es, ea));
}

proof fn lemma_forward_cands_exclude_self(
    edges: Seq<MatchingAyah>,
    ayahs: Seq<AyahData>,
    key: Seq<char>,
)
    ensures
        forall|k: int|
            0 <= k < spec_forward_cands(edges, ayahs, key).len() ==> (
            #[trigger] spec_forward_cands(edges, ayahs, key)[k]).0.verse_key@ != key,
    decreases edges.len(),
{
    if edges.len() > 0 {
        lemma_forward_cands_exclude_self(edges.drop_last(), ayahs, key);
        let c = spec_forward_cands(edges, ayahs, key);
        let rest = spec_forward_cands(edges.drop_last(), ayahs, key);
        let e = edges.last();
        assert forall|k: int| 0 <= k < c.len() implies (#[trigger] c[k]).0.verse_key@ != key by {
            if e.matched_ayah_key@ != key && spec_find_ayah(ayahs, e.matched_ayah_key@) is Some {
                if k < rest.len() {
                    assert(c[k] == rest[k]);
                } else {
                    lemma_find_ayah_key(ayahs, e.matched_ayah_key@);
                    assert(c[k].0.verse_key@ == e.matched_ayah_key@);
                }
            } else {
                assert(c[k] == rest[k]);
            }
        }
    }
}

proof fn lemma_reverse_edge_cands_exclude_self(
    edges: Seq<MatchingAyah>,
    src: Option<AyahData>,
    src_key: Seq<char>,
    ayahs: Seq<AyahData>,
    key: Seq<char>,
)
    requires
        src_key != key,
        src is Some ==> spec_find_ayah(ayahs, src_key) == src,
    ensures
        forall|k: int|
            0 <= k < spec_reverse_edge_cands(edges, src, key).len() ==> (
            #[trigger] spec_reverse_edge_cands(edges, src, key)[k]).0.verse_key@ != key,
    decreases edges.len(),
{
    if edges.len() > 0 {
        lemma_reverse_edge_cands_exclude_self(edges.drop_last(), src, src_key, ayahs, key);
        let c = spec_reverse_edge_cands(edges, src, key);
        let rest = spec_reverse_edge_cands(edges.drop_last(), src, key);
        let e = edges.last();
        assert forall|k: int| 0 <= k < c.len() implies (#[trigger] c[k]).0.verse_key@ != key by {
            if e.matched_ayah_key@ == key && src is Some {
                if k < rest.len() {
                    assert(c[k] == rest[k]);
                } else {
                    lemma_find_ayah_key(ayahs, src_key);
                    assert(c[k].0.verse_key@ == src_key);
                }
            } else {
                assert(c[k] == rest[k]);
            }
        }
    }
}

proof fn lemma_reverse_cands_exclude_self(
    entries: Seq<(String, Vec<MatchingAyah>)>,
    ayahs: Seq<AyahData>,
    key: Seq<char>,
)
    ensures
        forall|k: int|
            0 <= k < spec_reverse_cands(entries, ayahs, key).len() ==> (
            #[trigger] spec_reverse_cands(entries, ayahs, key)[k]).0.verse_key@ != key,
    decreases entries.len(),
{
    if entries.len() > 0 {
        lemma_reverse_cands_exclude_self(entries.drop_last(), ayahs, key);
        let c = spec_reverse_cands(entries, ayahs, key);
        let rest = spec_reverse_cands(entries.drop_last(), ayahs, key);
        let en = entries.last();
        if en.0@ == key {
        } else {
            lemma_reverse_edge_cands_exclude_self(
                en.1@,
                spec_find_ayah(ayahs, en.0@),
                en.0@,
                ayahs,
                key,
            );
        }
        assert forall|k: int| 0 <= k < c.len() implies (#[trigger] c[k]).0.verse_key@ != key by {
            if en.0@ == key {
                assert(c[k] == rest[k]);
            } else {
                let part = spec_reverse_edge_cands(en.1@, spec_find_ayah(ayahs, en.0@), key);
                if k < rest.len() {
                    assert(c[k] == rest[k]);
                } else {
                    assert(c[k] == part[k - rest.len()]);
                }
            }
        }
    }
}

/// Similar-verse results come out sorted by descending score: in the
/// order similarity search returns its candidates, an earlier candidate
/// never scores below a later one.
pub proof fn lemma_similar_sorted_descending(
    entries: Seq<(String, Vec<MatchingAyah>)>,
    ayahs: Seq<AyahData>,
    key: Seq<char>,
)
    requires
        spec_similar_cands(entries, ayahs, key).len() <= usize::MAX,
    ensures
        forall|i: int, j: int|
            0 <= i < j < spec_similar_sorted(entries, ayahs, key).len() ==> (
            #[trigger] spec_similar_sorted(entries, ayahs, key)[i]).1 >= (
            #[trigger] spec_similar_sorted(entries, ayahs, key)[j]).1,
{
    let cands = spec_similar_cands(entries, ayahs, key);
    let keys = desc_score_keys(cands);
    let ord = crate::order::spec_sort_order(keys);
    let sorted = spec_similar_sorted(entries, ayahs, key);
    lemma_sort_order_keys(keys);
    assert forall|i: int, j: int| 0 <= i < j < sorted.len() implies (#[trigger] sorted[i]).1 >= (
    #[trigger] sorted[j]).1 by {
        assert(sorted[i] == cands[ord[i].1 as int]);
        assert(sorted[j] == cands[ord[j].1 as int]);
        assert(keys[ord[i].1 as int] == ord[i].0);
        assert(keys[ord[j].1 as int] == ord[j].0);
        assert(ord[i].0 <= ord[j].0);
        assert(keys[ord[i].1 as int] == (u64::MAX - cands[ord[i].1 as int].1) as u64);
        assert(keys[ord[j].1 as int] == (u64::MAX - cands[ord[j].1 as int].1) as u64);
    }
}

/// Ranged search results come out sorted ascending by chapter, then
/// verse.
pub proof fn lemma_range_results_sorted(
    ayahs: Seq<AyahData>,
    ss: u16,
    sa: u16,
    es: u16,
    ea: u16,
)
    requires
        ayahs.len() <= usize::MAX,
    ensures
        forall|i: int, j: int|
            0 <= i < j < crate::search::spec_range_results(ayahs, ss, sa, es, ea).len() ==> {
                let a = #[trigger] crate::search::spec_range_results(ayahs, ss, sa, es, ea)[i];
                let b = #[trigger] crate::search::spec_range_results(ayahs, ss, sa, es, ea)[j];
                a.surah_number < b.surah_number || (a.surah_number == b.surah_number
                    && a.ayah_number <= b.ayah_number)
            },
{
    let c = ayahs.filter(|a: AyahData| crate::search::in_verse_range(a, ss, sa, es, ea));
    let keys = crate::search::spec_verse_order_keys(c);
    let ord = crate::order::spec_sort_order(keys);
    let sorted = crate::search::spec_range_results(ayahs, ss, sa, es, ea);
    proof_filter_len(ayahs, ss, sa, es, ea);
    lemma_sort_order_keys(keys);
    crate::order::lemma_assemble_pointwise(c, ord);
    assert forall|i: int, j: int| #![trigger sorted[i], sorted[j]] 0 <= i < j
        < sorted.len() implies {
        let a = sorted[i];
        let b = sorted[j];
        a.surah_number < b.surah_number || (a.surah_number == b.surah_number && a.ayah_number
            <= b.ayah_number)
    } by {
        assert(sorted[i] == c[ord[i].1 as int]);
        assert(sorted[j] == c[ord[j].1 as int]);
        assert(keys[ord[i].1 as int] == ord[i].0);
        assert(keys[ord[j].1 as int] == ord[j].0);
        assert(ord[i].0 <= ord[j].0);
        let a = c[ord[i].1 as int];
        let b = c[ord[j].1 as int];
        assert(ord[i].0 == (a.surah_number as u64) * 65536 + (a.ayah_number as u64));
        assert(ord[j].0 == (b.surah_number as u64) * 65536 + (b.ayah_number as u64));
        assert(a.surah_number < b.surah_number || (a.surah_number == b.surah_number
            && a.ayah_number <= b.ayah_number)) by (nonlinear_arith)
            requires
                (a.surah_number as u64) * 65536 + (a.ayah_number as u64) <= (b.surah_number as u64)
                    * 65536 + (b.ayah_number as u64),
                a.ayah_number < 65536,
                b.ayah_number < 65536,
        ;
    }
}

/// Similar-verse search never lists the queried verse among its own
/// results: every candidate in the returned order carries a key other
/// than the queried one.
pub proof fn lemma_similar_excludes_self(
    entries: Seq<(String, Vec<MatchingAyah>)>,
    ayahs: Seq<AyahData>,
    key: Seq<char>,
)
    ensures
        forall|k: int|
            0 <= k < spec_similar_sorted(entries, ayahs, key).len() ==> (
            #[trigger] spec_similar_sorted(entries, ayahs, key)[k]).0.verse_key@ != key,
{
    let cands = spec_similar_cands(entries, ayahs, key);
    lemma_forward_cands_exclude_self(
        crate::bundle::spec_edges_for(entries, key),
        ayahs,
        key,
    );
    lemma_reverse_cands_exclude_self(entries, ayahs, key);
    assert forall|k: int| 0 <= k < cands.len() implies (#[trigger] cands[k]).0.verse_key@
        != key by {
        let fwd = spec_forward_cands(crate::bundle::spec_edges_for(entries, key), ayahs, key);
        let rev = spec_reverse_cands(entries, ayahs, key);
        if k < fwd.len() {
            assert(cands[k] == fwd[k]);
        } else {
            assert(cands[k] == rev[k - fwd.len()]);
        }
    }
    lemma_sort_order_range(desc_score_keys(cands));
    let ord = crate::order::spec_sort_order(desc_score_keys(cands));
    let sorted = spec_similar_sorted(entries, ayahs, key);
    assert(desc_score_keys(cands).len() == cands.len());
    assert forall|k: int| 0 <= k < sorted.len() implies (#[trigger] sorted[k]).0.verse_key@
        != key by {
        assert(sorted[k] == cands[ord[k].1 as int]);
        assert(ord[k].1 < cands.len());
    }
}

} // verus!
