//! Record parsers: each raw table, already parsed as a JSON tree, is
//! turned into typed records.  A malformed record is skipped, an
//! unrecognised table shape yields an empty collection, and every
//! source is accepted in the shapes the corpus is known to use.

use vstd::prelude::*;
use crate::json::JsonValue;
use crate::structures::{
    AyahMetadata, AyahMetadataV, JuzInfo, JuzInfoV, HizbInfo, RukuInfo, ManzilInfo, MatchingAyah,
    MatchingAyahV, SajdaInfo, SajdaInfoV, SurahInfo, SurahInfoV, SurahNameMetadata,
    SurahNameMetadataV,
};

verus! {

/// Loader of the corpus tables from their JSON trees.
pub struct DataLoader;

/// The text a JSON node holds, or empty when it is not a string.
pub open spec fn str_or_empty(v: JsonValue) -> Seq<char> {
    match v {
        JsonValue::Str(s) => s@,
        _ => Seq::empty(),
    }
}

/// The boolean a JSON node holds, or `true` when it is not a boolean.
pub open spec fn bool_or_true(v: JsonValue) -> bool {
    match v {
        JsonValue::Bool(b) => b,
        _ => true,
    }
}

/// The records of a table that is either an object (its values, in
/// entry order) or a bare array.
pub open spec fn spec_table_entries(t: JsonValue) -> Seq<JsonValue> {
    match t {
        JsonValue::Obj(o) => o@.map_values(|p: (String, JsonValue)| p.1),
        JsonValue::Arr(a) => a@,
        _ => Seq::empty(),
    }
}

/// The records of a table that wraps its rows in an array under `key`,
/// with a bare array accepted as the second shape.
pub open spec fn spec_keyed_entries(t: JsonValue, key: Seq<char>) -> Seq<JsonValue> {
    match t.spec_get(key) {
        Option::Some(JsonValue::Arr(a)) => a@,
        _ => match t {
            JsonValue::Arr(b) => b@,
            _ => Seq::empty(),
        },
    }
}

impl DataLoader {
    /// The table's records under the object-or-array shapes.
    #[verifier::loop_isolation(false)]
    fn table_entries<'a>(&self, t: &'a JsonValue) -> (r: Vec<&'a JsonValue>)
        ensures
            r@.len() == spec_table_entries(*t).len(),
            forall|j: int| 0 <= j < r@.len() ==> *(#[trigger] r@[j]) == spec_table_entries(*t)[j],
    {
        let mut items: Vec<&JsonValue> = Vec::new();
        match t {
            JsonValue::Obj(o) => {
                let n: usize = o.len();
                for i in 0..n
                    invariant
                        items@.len() == i,
                        forall|j: int|
                            0 <= j < i ==> *(#[trigger] items@[j]) == spec_table_entries(*t)[j],
                    decreases n - i,
                {
                    items.push(&o[i].1);
                }
            },
            JsonValue::Arr(a) => {
                let n: usize = a.len();
                for i in 0..n
                    invariant
                        items@.len() == i,
                        forall|j: int|
                            0 <= j < i ==> *(#[trigger] items@[j]) == spec_table_entries(*t)[j],
                    decreases n - i,
                {
                    items.push(&a[i]);
                }
            },
            _ => {},
        }
        items
    }

    /// The table's records under the keyed-array-or-bare-array shapes.
    #[verifier::loop_isolation(false)]
    fn keyed_entries<'a>(&self, t: &'a JsonValue, key: &str) -> (r: Vec<&'a JsonValue>)
        ensures
            r@.len() == spec_keyed_entries(*t, key@).len(),
            forall|j: int|
                0 <= j < r@.len() ==> *(#[trigger] r@[j]) == spec_keyed_entries(*t, key@)[j],
    {
        let mut items: Vec<&JsonValue> = Vec::new();
        let arr: Option<&Vec<JsonValue>> = match t.get(key) {
            Some(node) => match node.as_array() {
                Some(a) => Some(a),
                None => match t.as_array() {
                    Some(b) => Some(b),
                    None => None,
                },
            },
            None => match t.as_array() {
                Some(b) => Some(b),
                None => None,
            },
        };
        match arr {
            Some(a) => {
                let n: usize = a.len();
                for i in 0..n
                    invariant
                        a@ == spec_keyed_entries(*t, key@),
                        items@.len() == i,
                        forall|j: int|
                            0 <= j < i ==> *(#[trigger] items@[j]) == spec_keyed_entries(
                                *t,
                                key@,
                            )[j],
                    decreases n - i,
                {
                    items.push(&a[i]);
                }
            },
            None => {},
        }
        items
    }
}

/// The records that parse, in table order.
pub open spec fn spec_collect<E, T>(entries: Seq<E>, f: spec_fn(E) -> Option<T>) -> Seq<T>
    decreases entries.len(),
{
    if entries.len() == 0 {
        Seq::empty()
    } else {
        let rest = spec_collect(entries.drop_last(), f);
        match f(entries.last()) {
            Option::Some(x) => rest.push(x),
            Option::None => rest,
        }
    }
}

/// What one raw chapter record yields under the chapter-name parser.
pub open spec fn spec_parse_surah_name(v: JsonValue) -> Option<SurahNameMetadataV> {
    match (
        v.spec_get_u64("id"@),
        v.spec_get_str("name_simple"@),
        v.spec_get_str("name_arabic"@),
        v.spec_get_u64("revelation_order"@),
        v.spec_get_str("revelation_place"@),
        v.spec_get_u64("verses_count"@),
        v.spec_get_bool("bismillah_pre"@),
    ) {
        (
            Option::Some(id),
            Option::Some(ns),
            Option::Some(na),
            Option::Some(ro),
            Option::Some(rp),
            Option::Some(vc),
            Option::Some(bp),
        ) => Option::Some(
            SurahNameMetadataV {
                id: id as u16,
                name_simple: ns,
                name_arabic: na,
                revelation_order: ro as u16,
                revelation_place: rp,
                verses_count: vc as u16,
                bismillah_pre: bp,
            },
        ),
        _ => Option::None,
    }
}

/// What one raw chapter record yields under the chapter-info parser:
/// the English name may be any present value (non-strings read as
/// empty), and a present non-boolean invocation flag reads as `true`.
pub open spec fn spec_parse_surah_info(v: JsonValue) -> Option<SurahInfoV> {
    match (
        v.spec_get_u64("id"@),
        v.spec_get_str("name_simple"@),
        v.spec_get_str("name_arabic"@),
        v.spec_get("name_english"@),
        v.spec_get_u64("revelation_order"@),
        v.spec_get_str("revelation_place"@),
        v.spec_get_u64("verses_count"@),
        v.spec_get("bismillah_pre"@),
    ) {
        (
            Option::Some(id),
            Option::Some(ns),
            Option::Some(na),
            Option::Some(ne),
            Option::Some(ro),
            Option::Some(rp),
            Option::Some(vc),
            Option::Some(bp),
        ) => Option::Some(
            SurahInfoV {
                id: id as u16,
                name_simple: ns,
                name_arabic: na,
                name_english: str_or_empty(ne),
                revelation_order: ro as u16,
                revelation_place: rp,
                verses_count: vc as u16,
                bismillah_pre: bool_or_true(bp),
            },
        ),
        _ => Option::None,
    }
}

/// What one raw verse entry yields under the metadata parser.
pub open spec fn spec_parse_ayah_metadata(v: JsonValue) -> Option<AyahMetadataV> {
    match (
        v.spec_get_u64("id"@),
        v.spec_get_u64("surah_number"@),
        v.spec_get_u64("ayah_number"@),
        v.spec_get_str("verse_key"@),
        v.spec_get_str("text"@),
    ) {
        (
            Option::Some(id),
            Option::Some(sn),
            Option::Some(an),
            Option::Some(vk),
            Option::Some(tx),
        ) => Option::Some(
            AyahMetadataV {
                id: id as u32,
                surah_number: sn as u16,
                ayah_number: an as u16,
                verse_key: vk,
                text: tx,
            },
        ),
        _ => Option::None,
    }
}

/// What one raw group record yields under the thirty-part parser: the
/// two names may be any present values, non-strings reading as empty.
pub open spec fn spec_parse_juz(v: JsonValue) -> Option<JuzInfoV> {
    match (
        v.spec_get_u64("id"@),
        v.spec_get_u64("first_verse_id"@),
        v.spec_get_u64("last_verse_id"@),
        v.spec_get_u64("verses_count"@),
        v.spec_get("name_arabic"@),
        v.spec_get("name_simple"@),
    ) {
        (
            Option::Some(id),
            Option::Some(fv),
            Option::Some(lv),
            Option::Some(vc),
            Option::Some(na),
            Option::Some(ns),
        ) => Option::Some(
            JuzInfoV {
                id: id as u8,
                first_verse_id: fv as u32,
                last_verse_id: lv as u32,
                verses_count: vc as u16,
                name_arabic: str_or_empty(na),
                name_simple: str_or_empty(ns),
            },
        ),
        _ => Option::None,
    }
}

/// What one raw group record yields under the sixty-part parser.
pub open spec fn spec_parse_hizb(v: JsonValue) -> Option<HizbInfo> {
    match (
        v.spec_get_u64("id"@),
        v.spec_get_u64("first_verse_id"@),
        v.spec_get_u64("last_verse_id"@),
        v.spec_get_u64("verses_count"@),
    ) {
        (Option::Some(id), Option::Some(fv), Option::Some(lv), Option::Some(vc)) => Option::Some(
            HizbInfo {
                id: id as u8,
                first_verse_id: fv as u32,
                last_verse_id: lv as u32,
                verses_count: vc as u16,
            },
        ),
        _ => Option::None,
    }
}

/// What one raw group record yields under the passage parser.
pub open spec fn spec_parse_ruku(v: JsonValue) -> Option<RukuInfo> {
    match (
        v.spec_get_u64("id"@),
        v.spec_get_u64("surah_number"@),
        v.spec_get_u64("first_verse_id"@),
        v.spec_get_u64("last_verse_id"@),
        v.spec_get_u64("verses_count"@),
    ) {
        (
            Option::Some(id),
            Option::Some(sn),
            Option::Some(fv),
            Option::Some(lv),
            Option::Some(vc),
        ) => Option::Some(
            RukuInfo {
                id: id as u8,
                surah_number: sn as u16,
                first_verse_id: fv as u32,
                last_verse_id: lv as u32,
                verses_count: vc as u16,
            },
        ),
        _ => Option::None,
    }
}

/// What one raw group record yields under the seven-part parser.
pub open spec fn spec_parse_manzil(v: JsonValue) -> Option<ManzilInfo> {
    match (
        v.spec_get_u64("id"@),
        v.spec_get_u64("first_verse_id"@),
        v.spec_get_u64("last_verse_id"@),
        v.spec_get_u64("verses_count"@),
    ) {
        (Option::Some(id), Option::Some(fv), Option::Some(lv), Option::Some(vc)) => Option::Some(
            ManzilInfo {
                id: id as u8,
                first_verse_id: fv as u32,
                last_verse_id: lv as u32,
                verses_count: vc as u16,
            },
        ),
        _ => Option::None,
    }
}

/// What one raw prostration record yields under the table parser.
pub open spec fn spec_parse_sajda(v: JsonValue) -> Option<SajdaInfoV> {
    match (
        v.spec_get_u64("id"@),
        v.spec_get_str("type"@),
        v.spec_get_bool("recommended"@),
        v.spec_get_bool("obligatory"@),
    ) {
        (Option::Some(id), Option::Some(ty), Option::Some(re), Option::Some(ob)) => Option::Some(
            SajdaInfoV { id: id as u8, sajda_type: ty, recommended: re, obligatory: ob },
        ),
        _ => Option::None,
    }
}

/// What the chapter-name table yields: the parsed entries of the array
/// under `chapters`.
pub open spec fn spec_load_surah_names(t: JsonValue) -> Seq<SurahNameMetadataV> {
    spec_collect(spec_keyed_entries(t, "chapters"@), |v: JsonValue| spec_parse_surah_name(v))
}

/// What the chapter-info table yields, under its object or array shape.
pub open spec fn spec_load_surah_info(t: JsonValue) -> Seq<SurahInfoV> {
    spec_collect(spec_table_entries(t), |v: JsonValue| spec_parse_surah_info(v))
}

/// What the thirty-part table yields.
pub open spec fn spec_load_juz_info(t: JsonValue) -> Seq<JuzInfoV> {
    spec_collect(spec_keyed_entries(t, "juzs"@), |v: JsonValue| spec_parse_juz(v))
}

/// What the sixty-part table yields.
pub open spec fn spec_load_hizb_info(t: JsonValue) -> Seq<HizbInfo> {
    spec_collect(spec_keyed_entries(t, "hizbs"@), |v: JsonValue| spec_parse_hizb(v))
}

/// What the passage table yields.
pub open spec fn spec_load_ruku_info(t: JsonValue) -> Seq<RukuInfo> {
    spec_collect(spec_keyed_entries(t, "rukus"@), |v: JsonValue| spec_parse_ruku(v))
}

/// What the seven-part table yields.
pub open spec fn spec_load_manzil_info(t: JsonValue) -> Seq<ManzilInfo> {
    spec_collect(spec_keyed_entries(t, "manzils"@), |v: JsonValue| spec_parse_manzil(v))
}

/// What the prostration table yields.
pub open spec fn spec_load_sajda_info(t: JsonValue) -> Seq<SajdaInfoV> {
    spec_collect(spec_keyed_entries(t, "sajdas"@), |v: JsonValue| spec_parse_sajda(v))
}

/// The entries of a key-to-value table: the pairs of the object, empty
/// under any other shape.
pub open spec fn spec_obj_pairs(t: JsonValue) -> Seq<(String, JsonValue)> {
    match t {
        JsonValue::Obj(o) => o@,
        _ => Seq::empty(),
    }
}

/// What one translation entry yields: the value's `text` field.
pub open spec fn spec_parse_translation_pair(p: (String, JsonValue)) -> Option<
    (Seq<char>, Seq<char>),
> {
    match p.1.spec_get_str("text"@) {
        Option::Some(tx) => Option::Some((p.0@, tx)),
        Option::None => Option::None,
    }
}

/// What one transliteration entry yields: a bare string value, or a
/// value with a `text` field.
pub open spec fn spec_parse_transliteration_pair(p: (String, JsonValue)) -> Option<
    (Seq<char>, Seq<char>),
> {
    match p.1 {
        JsonValue::Str(s) => Option::Some((p.0@, s@)),
        _ => match p.1.spec_get_str("text"@) {
            Option::Some(tx) => Option::Some((p.0@, tx)),
            Option::None => Option::None,
        },
    }
}

/// An unsigned integer element, truncated to thirty-two bits.
pub open spec fn spec_parse_u32_item(v: JsonValue) -> Option<u32> {
    match v {
        JsonValue::UInt(u) => Option::Some(u as u32),
        _ => Option::<u32>::None,
    }
}

/// The unsigned integers of an array, others skipped, truncated to
/// thirty-two bits.
pub open spec fn spec_u32_list(items: Seq<JsonValue>) -> Seq<u32> {
    spec_collect(items, |v: JsonValue| spec_parse_u32_item(v))
}

/// A word-position range: an array element holding the integers of an
/// inner array.
pub open spec fn spec_parse_range_item(v: JsonValue) -> Option<Seq<u32>> {
    match v {
        JsonValue::Arr(inner) => Option::Some(spec_u32_list(inner@)),
        _ => Option::<Seq<u32>>::None,
    }
}

/// What one theme entry yields: the phrase and its verse-id list.
pub open spec fn spec_parse_phrase_pair(p: (String, JsonValue)) -> Option<(Seq<char>, Seq<u32>)> {
    match p.1 {
        JsonValue::Arr(a) => Option::Some((p.0@, spec_u32_list(a@))),
        _ => Option::None,
    }
}

/// What one raw cross-reference record yields.
pub open spec fn spec_parse_matching(v: JsonValue) -> Option<MatchingAyahV> {
    match (
        v.spec_get_str("matched_ayah_key"@),
        v.spec_get_u64("matched_words_count"@),
        v.spec_get_u64("coverage"@),
        v.spec_get_u64("score"@),
    ) {
        (Option::Some(k), Option::Some(mc), Option::Some(cv), Option::Some(sc)) => Option::Some(
            MatchingAyahV {
                matched_ayah_key: k,
                matched_words_count: mc as u32,
                coverage: cv as u32,
                score: sc as u32,
                match_words: match v.spec_get("match_words"@) {
                    Option::Some(JsonValue::Arr(arr)) => spec_collect(
                        arr@,
                        |it: JsonValue| spec_parse_range_item(it),
                    ),
                    _ => Seq::empty(),
                },
            },
        ),
        _ => Option::None,
    }
}

/// What one adjacency entry yields: the source key and its parsed edge
/// list; entries whose value is not an array are skipped.
pub open spec fn spec_parse_matching_pair(p: (String, JsonValue)) -> Option<
    (Seq<char>, Seq<MatchingAyahV>),
> {
    match p.1 {
        JsonValue::Arr(a) => Option::Some(
            (p.0@, spec_collect(a@, |v: JsonValue| spec_parse_matching(v))),
        ),
        _ => Option::None,
    }
}

/// What the translation table yields.
pub open spec fn spec_load_translation(t: JsonValue) -> Seq<(Seq<char>, Seq<char>)> {
    spec_collect(spec_obj_pairs(t), |p: (String, JsonValue)| spec_parse_translation_pair(p))
}

/// What the transliteration table yields.
pub open spec fn spec_load_transliteration(t: JsonValue) -> Seq<(Seq<char>, Seq<char>)> {
    spec_collect(spec_obj_pairs(t), |p: (String, JsonValue)| spec_parse_transliteration_pair(p))
}

/// What the theme table yields.
pub open spec fn spec_load_phrase_verses(t: JsonValue) -> Seq<(Seq<char>, Seq<u32>)> {
    spec_collect(spec_obj_pairs(t), |p: (String, JsonValue)| spec_parse_phrase_pair(p))
}

/// What the cross-reference table yields.
pub open spec fn spec_load_matching_ayahs(t: JsonValue) -> Seq<(Seq<char>, Seq<MatchingAyahV>)> {
    spec_collect(spec_obj_pairs(t), |p: (String, JsonValue)| spec_parse_matching_pair(p))
}

/// The thirty-part group containing the global verse id: the identifier
/// of the first record whose inclusive interval holds it, and 1 when no
/// interval does.
pub open spec fn spec_resolve_juz(entries: Seq<JuzInfoV>, id: u32) -> u8
    decreases entries.len(),
{
    if entries.len() == 0 {
        1
    } else if entries[0].first_verse_id <= id && id <= entries[0].last_verse_id {
        entries[0].id
    } else {
        spec_resolve_juz(entries.drop_first(), id)
    }
}

/// The sixty-part group containing the global verse id, defaulting to 1.
pub open spec fn spec_resolve_hizb(entries: Seq<HizbInfo>, id: u32) -> u8
    decreases entries.len(),
{
    if entries.len() == 0 {
        1
    } else if entries[0].first_verse_id <= id && id <= entries[0].last_verse_id {
        entries[0].id
    } else {
        spec_resolve_hizb(entries.drop_first(), id)
    }
}

/// The quarter group containing the global verse id, defaulting to 1;
/// a quarter record is the triple of its identifier and interval ends.
pub open spec fn spec_resolve_rub(entries: Seq<(u8, u32, u32)>, id: u32) -> u8
    decreases entries.len(),
{
    if entries.len() == 0 {
        1
    } else if entries[0].1 <= id && id <= entries[0].2 {
        entries[0].0
    } else {
        spec_resolve_rub(entries.drop_first(), id)
    }
}

/// The passage group containing the global verse id, defaulting to 1.
pub open spec fn spec_resolve_ruku(entries: Seq<RukuInfo>, id: u32) -> u8
    decreases entries.len(),
{
    if entries.len() == 0 {
        1
    } else if entries[0].first_verse_id <= id && id <= entries[0].last_verse_id {
        entries[0].id
    } else {
        spec_resolve_ruku(entries.drop_first(), id)
    }
}

/// The seven-part group containing the global verse id, defaulting to 1.
pub open spec fn spec_resolve_manzil(entries: Seq<ManzilInfo>, id: u32) -> u8
    decreases entries.len(),
{
    if entries.len() == 0 {
        1
    } else if entries[0].first_verse_id <= id && id <= entries[0].last_verse_id {
        entries[0].id
    } else {
        spec_resolve_manzil(entries.drop_first(), id)
    }
}

/// What one raw quarter record yields: interval ends required, the
/// identifier defaulting to 1.
pub open spec fn spec_parse_rub(v: JsonValue) -> Option<(u8, u32, u32)> {
    match (v.spec_get_u64("first_verse_id"@), v.spec_get_u64("last_verse_id"@)) {
        (Option::Some(fv), Option::Some(lv)) => Option::Some(
            (
                match v.spec_get_u64("id"@) {
                    Option::Some(id) => id as u8,
                    Option::None => 1,
                },
                fv as u32,
                lv as u32,
            ),
        ),
        _ => Option::None,
    }
}

/// What the quarter table yields.
pub open spec fn spec_load_rub_entries(t: JsonValue) -> Seq<(u8, u32, u32)> {
    spec_collect(spec_keyed_entries(t, "rub_el_hizbs"@), |v: JsonValue| spec_parse_rub(v))
}

/// The prostration mark of the verse with the given key: the first raw
/// entry carrying that key, its missing fields defaulted.
pub open spec fn spec_find_sajda(entries: Seq<JsonValue>, key: Seq<char>) -> Option<SajdaInfoV>
    decreases entries.len(),
{
    if entries.len() == 0 {
        Option::None
    } else if entries[0].spec_get_str("verse_key"@) == Option::Some(key) {
        Option::Some(
            SajdaInfoV {
                id: match entries[0].spec_get_u64("id"@) {
                    Option::Some(id) => id as u8,
                    Option::None => 1,
                },
                sajda_type: match entries[0].spec_get_str("type"@) {
                    Option::Some(t) => t,
                    Option::None => "recommended"@,
                },
                recommended: match entries[0].spec_get_bool("recommended"@) {
                    Option::Some(b) => b,
                    Option::None => true,
                },
                obligatory: match entries[0].spec_get_bool("obligatory"@) {
                    Option::Some(b) => b,
                    Option::None => false,
                },
            },
        )
    } else {
        spec_find_sajda(entries.drop_first(), key)
    }
}

/// The estimated page of a verse, from fixed chapter breakpoints: the
/// fallback when no layout data covers the verse.
pub open spec fn spec_estimate_page(sn: u16, an: u16) -> u16 {
    if sn == 1 {
        1
    } else if sn == 2 {
        if an <= 25 {
            2
        } else if an <= 50 {
            8
        } else if an <= 100 {
            16
        } else if an <= 200 {
            32
        } else {
            48
        }
    } else if sn == 3 {
        50
    } else if sn == 4 {
        77
    } else if sn == 5 {
        106
    } else if sn == 6 {
        128
    } else if sn == 7 {
        151
    } else if sn == 8 {
        177
    } else if sn == 9 {
        187
    } else if sn == 10 {
        208
    } else if sn == 0 {
        1
    } else {
        let p = ((sn - 1) * 53) / 10 + 1;
        if p > 604 {
            604
        } else {
            p as u16
        }
    }
}

/// What the verse-assembly step yields for one raw verse entry: the key
/// parsed into its numbers, both text variants from the `text` field,
/// translation and transliteration merged in by key, the five group
/// numbers resolved by interval containment of the global id, the page
/// estimated, and the prostration mark looked up by key.
pub open spec fn spec_parse_ayah_data(
    v: JsonValue,
    translations: Seq<(Seq<char>, Seq<char>)>,
    transliterations: Seq<(Seq<char>, Seq<char>)>,
    juzs: Seq<JuzInfoV>,
    hizbs: Seq<HizbInfo>,
    rubs: Seq<(u8, u32, u32)>,
    rukus: Seq<RukuInfo>,
    manzils: Seq<ManzilInfo>,
    sajda_table: JsonValue,
) -> Option<crate::structures::AyahDataV> {
    match (v.spec_get_str("verse_key"@), v.spec_get_u64("id"@), v.spec_get_str("text"@)) {
        (Option::Some(vk), Option::Some(id), Option::Some(tx)) => match crate::text::spec_parse_verse_key(
            vk,
        ) {
            Option::Some((sn, an)) => Option::Some(
                crate::structures::AyahDataV {
                    id: id as u32,
                    surah_number: sn,
                    ayah_number: an,
                    verse_key: vk,
                    text_arab: tx,
                    text_uthmani: tx,
                    translation_id: match spec_lookup_pair(translations, vk) {
                        Option::Some(t) => t,
                        Option::None => Seq::empty(),
                    },
                    transliteration: match spec_lookup_pair(transliterations, vk) {
                        Option::Some(t) => t,
                        Option::None => Seq::empty(),
                    },
                    surah_name: Seq::empty(),
                    surah_name_arabic: Seq::empty(),
                    juz_number: spec_resolve_juz(juzs, id as u32),
                    hizb_number: spec_resolve_hizb(hizbs, id as u32),
                    rub_number: spec_resolve_rub(rubs, id as u32),
                    ruku_number: spec_resolve_ruku(rukus, id as u32),
                    manzil_number: spec_resolve_manzil(manzils, id as u32),
                    page_number: spec_estimate_page(sn, an),
                    line_number: 1,
                    sajda: spec_find_sajda(spec_keyed_entries(sajda_table, "sajdas"@), vk),
                },
            ),
            Option::None => Option::None,
        },
        _ => Option::None,
    }
}

/// The entries of the raw verse table: an object's values, or the array
/// under `verses`.
pub open spec fn spec_ayah_entries(t: JsonValue) -> Seq<JsonValue> {
    match t {
        JsonValue::Obj(o) => o@.map_values(|p: (String, JsonValue)| p.1),
        _ => spec_keyed_entries(t, "verses"@),
    }
}

/// The value stored under the first pair whose key reads `key`.
pub open spec fn spec_lookup_pair(pairs: Seq<(Seq<char>, Seq<char>)>, key: Seq<char>) -> Option<
    Seq<char>,
>
    decreases pairs.len(),
{
    if pairs.len() == 0 {
        Option::None
    } else if pairs[0].0 == key {
        Option::Some(pairs[0].1)
    } else {
        spec_lookup_pair(pairs.drop_first(), key)
    }
}

impl DataLoader {
    fn parse_surah_name(&self, v: &JsonValue) -> (r: Option<SurahNameMetadata>)
        ensures
            match r {
                Option::Some(x) => spec_parse_surah_name(*v) == Option::Some(x@),
                Option::None => spec_parse_surah_name(*v) is None,
            },
    {
        let id = match v.get_u64("id") {
            Some(x) => x,
            None => {
                return None;
            },
        };
        let ns = match v.get_str("name_simple") {
            Some(x) => x.clone(),
            None => {
                return None;
            },
        };
        let na = match v.get_str("name_arabic") {
            Some(x) => x.clone(),
            None => {
                return None;
            },
        };
        let ro = match v.get_u64("revelation_order") {
            Some(x) => x,
            None => {
                return None;
            },
        };
        let rp = match v.get_str("revelation_place") {
            Some(x) => x.clone(),
            None => {
                return None;
            },
        };
        let vc = match v.get_u64("verses_count") {
            Some(x) => x,
            None => {
                return None;
            },
        };
        let bp = match v.get_bool("bismillah_pre") {
            Some(x) => x,
            None => {
                return None;
            },
        };
        Some(
            SurahNameMetadata {
                id: #[verifier::truncate] (id as u16),
                name_simple: ns,
                name_arabic: na,
                revelation_order: #[verifier::truncate] (ro as u16),
                revelation_place: rp,
                verses_count: #[verifier::truncate] (vc as u16),
                bismillah_pre: bp,
            },
        )
    }

    fn parse_surah_info(&self, v: &JsonValue) -> (r: Option<SurahInfo>)
        ensures
            match r {
                Option::Some(x) => spec_parse_surah_info(*v) == Option::Some(x@),
                Option::None => spec_parse_surah_info(*v) is None,
            },
    {
        let id = match v.get_u64("id") {
            Some(x) => x,
            None => {
                return None;
            },
        };
        let ns = match v.get_str("name_simple") {
            Some(x) => x.clone(),
            None => {
                return None;
            },
        };
        let na = match v.get_str("name_arabic") {
            Some(x) => x.clone(),
            None => {
                return None;
            },
        };
        let ne = match v.get("name_english") {
            Some(node) => match node.as_str() {
                Some(s) => s.clone(),
                None => String::new(),
            },
            None => {
                return None;
            },
        };
        let ro = match v.get_u64("revelation_order") {
            Some(x) => x,
            None => {
                return None;
            },
        };
        let rp = match v.get_str("revelation_place") {
            Some(x) => x.clone(),
            None => {
                return None;
            },
        };
        let vc = match v.get_u64("verses_count") {
            Some(x) => x,
            None => {
                return None;
            },
        };
        let bp = match v.get("bismillah_pre") {
            Some(node) => match node.as_bool() {
                Some(b) => b,
                None => true,
            },
            None => {
                return None;
            },
        };
        Some(
            SurahInfo {
                id: #[verifier::truncate] (id as u16),
                name_simple: ns,
                name_arabic: na,
                name_english: ne,
                revelation_order: #[verifier::truncate] (ro as u16),
                revelation_place: rp,
                verses_count: #[verifier::truncate] (vc as u16),
                bismillah_pre: bp,
            },
        )
    }

    fn parse_ayah_metadata(&self, v: &JsonValue) -> (r: Option<AyahMetadata>)
        ensures
            match r {
                Option::Some(x) => spec_parse_ayah_metadata(*v) == Option::Some(x@),
                Option::None => spec_parse_ayah_metadata(*v) is None,
            },
    {
        let id = match v.get_u64("id") {
            Some(x) => x,
            None => {
                return None;
            },
        };
        let sn = match v.get_u64("surah_number") {
            Some(x) => x,
            None => {
                return None;
            },
        };
        let an = match v.get_u64("ayah_number") {
            Some(x) => x,
            None => {
                return None;
            },
        };
        let vk = match v.get_str("verse_key") {
            Some(x) => x.clone(),
            None => {
                return None;
            },
        };
        let tx = match v.get_str("text") {
            Some(x) => x.clone(),
            None => {
                return None;
            },
        };
        Some(
            AyahMetadata {
                id: #[verifier::truncate] (id as u32),
                surah_number: #[verifier::truncate] (sn as u16),
                ayah_number: #[verifier::truncate] (an as u16),
                verse_key: vk,
                text: tx,
            },
        )
    }

    fn parse_juz_info(&self, v: &JsonValue) -> (r: Option<JuzInfo>)
        ensures
            match r {
                Option::Some(x) => spec_parse_juz(*v) == Option::Some(x@),
                Option::None => spec_parse_juz(*v) is None,
            },
    {
        let id = match v.get_u64("id") {
            Some(x) => x,
            None => {
                return None;
            },
        };
        let fv = match v.get_u64("first_verse_id") {
            Some(x) => x,
            None => {
                return None;
            },
        };
        let lv = match v.get_u64("last_verse_id") {
            Some(x) => x,
            None => {
                return None;
            },
        };
        let vc = match v.get_u64("verses_count") {
            Some(x) => x,
            None => {
                return None;
            },
        };
        let na = match v.get("name_arabic") {
            Some(node) => match node.as_str() {
                Some(s) => s.clone(),
                None => String::new(),
            },
            None => {
                return None;
            },
        };
        let ns = match v.get("name_simple") {
            Some(node) => match node.as_str() {
                Some(s) => s.clone(),
                None => String::new(),
            },
            None => {
                return None;
            },
        };
        Some(
            JuzInfo {
                id: #[verifier::truncate] (id as u8),
                first_verse_id: #[verifier::truncate] (fv as u32),
                last_verse_id: #[verifier::truncate] (lv as u32),
                verses_count: #[verifier::truncate] (vc as u16),
                name_arabic: na,
                name_simple: ns,
            },
        )
    }

    fn parse_hizb_info(&self, v: &JsonValue) -> (r: Option<HizbInfo>)
        ensures
            r == spec_parse_hizb(*v),
    {
        let id = match v.get_u64("id") {
            Some(x) => x,
            None => {
                return None;
            },
        };
        let fv = match v.get_u64("first_verse_id") {
            Some(x) => x,
            None => {
                return None;
            },
        };
        let lv = match v.get_u64("last_verse_id") {
            Some(x) => x,
            None => {
                return None;
            },
        };
        let vc = match v.get_u64("verses_count") {
            Some(x) => x,
            None => {
                return None;
            },
        };
        Some(
            HizbInfo {
                id: #[verifier::truncate] (id as u8),
                first_verse_id: #[verifier::truncate] (fv as u32),
                last_verse_id: #[verifier::truncate] (lv as u32),
                verses_count: #[verifier::truncate] (vc as u16),
            },
        )
    }

    fn parse_ruku_info(&self, v: &JsonValue) -> (r: Option<RukuInfo>)
        ensures
            r == spec_parse_ruku(*v),
    {
        let id = match v.get_u64("id") {
            Some(x) => x,
            None => {
                return None;
            },
        };
        let sn = match v.get_u64("surah_number") {
            Some(x) => x,
            None => {
                return None;
            },
        };
        let fv = match v.get_u64("first_verse_id") {
            Some(x) => x,
            None => {
                return None;
            },
        };
        let lv = match v.get_u64("last_verse_id") {
            Some(x) => x,
            None => {
                return None;
            },
        };
        let vc = match v.get_u64("verses_count") {
            Some(x) => x,
            None => {
                return None;
            },
        };
        Some(
            RukuInfo {
                id: #[verifier::truncate] (id as u8),
                surah_number: #[verifier::truncate] (sn as u16),
                first_verse_id: #[verifier::truncate] (fv as u32),
                last_verse_id: #[verifier::truncate] (lv as u32),
                verses_count: #[verifier::truncate] (vc as u16),
            },
        )
    }

    fn parse_manzil_info(&self, v: &JsonValue) -> (r: Option<ManzilInfo>)
        ensures
            r == spec_parse_manzil(*v),
    {
        let id = match v.get_u64("id") {
            Some(x) => x,
            None => {
                return None;
            },
        };
        let fv = match v.get_u64("first_verse_id") {
            Some(x) => x,
            None => {
                return None;
            },
        };
        let lv = match v.get_u64("last_verse_id") {
            Some(x) => x,
            None => {
                return None;
            },
        };
        let vc = match v.get_u64("verses_count") {
            Some(x) => x,
            None => {
                return None;
            },
        };
        Some(
            ManzilInfo {
                id: #[verifier::truncate] (id as u8),
                first_verse_id: #[verifier::truncate] (fv as u32),
                last_verse_id: #[verifier::truncate] (lv as u32),
                verses_count: #[verifier::truncate] (vc as u16),
            },
        )
    }

    fn parse_sajda_info(&self, v: &JsonValue) -> (r: Option<SajdaInfo>)
        ensures
            match r {
                Option::Some(x) => spec_parse_sajda(*v) == Option::Some(x@),
                Option::None => spec_parse_sajda(*v) is None,
            },
    {
        let id = match v.get_u64("id") {
            Some(x) => x,
            None => {
                return None;
            },
        };
        let ty = match v.get_str("type") {
            Some(x) => x.clone(),
            None => {
                return None;
            },
        };
        let re = match v.get_bool("recommended") {
            Some(x) => x,
            None => {
                return None;
            },
        };
        let ob = match v.get_bool("obligatory") {
            Some(x) => x,
            None => {
                return None;
            },
        };
        Some(
            SajdaInfo {
                id: #[verifier::truncate] (id as u8),
                sajda_type: ty,
                recommended: re,
                obligatory: ob,
            },
        )
    }

    /// Chapter-name records of the chapter table.
    #[verifier::loop_isolation(false)]
    pub fn load_surah_names(&self, table: &JsonValue) -> (r: Vec<SurahNameMetadata>)
        ensures
            r.deep_view() == spec_load_surah_names(*table),
    {
        let ghost f = |v: JsonValue| spec_parse_surah_name(v);
        let ghost es = spec_keyed_entries(*table, "chapters"@);
        let entries = self.keyed_entries(table, "chapters");
        let n: usize = entries.len();
        let mut out: Vec<SurahNameMetadata> = Vec::new();
        proof {
            assert(out.deep_view() =~= spec_collect(es.take(0), f));
        }
        for i in 0..n
            invariant
                n == entries@.len(),
                entries@.len() == es.len(),
                forall|j: int| 0 <= j < n ==> *(#[trigger] entries@[j]) == es[j],
                out.deep_view() == spec_collect(es.take(i as int), f),
            decreases n - i,
        {
            proof {
                assert(es.take(i + 1).drop_last() =~= es.take(i as int));
                assert(es.take(i + 1).last() == es[i as int]);
            }
            let ghost prev = out.deep_view();
            match self.parse_surah_name(entries[i]) {
                Some(x) => {
                    let ghost xv = x@;
                    out.push(x);
                    proof {
                        assert(out.deep_view() =~= prev.push(xv));
                    }
                },
                None => {},
            }
        }
        proof {
            assert(es.take(n as int) =~= es);
        }
        out
    }

    /// Chapter records of the chapter-info table.
    #[verifier::loop_isolation(false)]
    pub fn load_surah_info(&self, table: &JsonValue) -> (r: Vec<SurahInfo>)
        ensures
            r.deep_view() == spec_load_surah_info(*table),
    {
        let ghost f = |v: JsonValue| spec_parse_surah_info(v);
        let ghost es = spec_table_entries(*table);
        let entries = self.table_entries(table);
        let n: usize = entries.len();
        let mut out: Vec<SurahInfo> = Vec::new();
        proof {
            assert(out.deep_view() =~= spec_collect(es.take(0), f));
        }
        for i in 0..n
            invariant
                n == entries@.len(),
                entries@.len() == es.len(),
                forall|j: int| 0 <= j < n ==> *(#[trigger] entries@[j]) == es[j],
                out.deep_view() == spec_collect(es.take(i as int), f),
            decreases n - i,
        {
            proof {
                assert(es.take(i + 1).drop_last() =~= es.take(i as int));
                assert(es.take(i + 1).last() == es[i as int]);
            }
            let ghost prev = out.deep_view();
            match self.parse_surah_info(entries[i]) {
                Some(x) => {
                    let ghost xv = x@;
                    out.push(x);
                    proof {
                        assert(out.deep_view() =~= prev.push(xv));
                    }
                },
                None => {},
            }
        }
        proof {
            assert(es.take(n as int) =~= es);
        }
        out
    }

    /// Thirty-part group records.
    #[verifier::loop_isolation(false)]
    pub fn load_juz_info(&self, table: &JsonValue) -> (r: Vec<JuzInfo>)
        ensures
            r.deep_view() == spec_load_juz_info(*table),
    {
        let ghost f = |v: JsonValue| spec_parse_juz(v);
        let ghost es = spec_keyed_entries(*table, "juzs"@);
        let entries = self.keyed_entries(table, "juzs");
        let n: usize = entries.len();
        let mut out: Vec<JuzInfo> = Vec::new();
        proof {
            assert(out.deep_view() =~= spec_collect(es.take(0), f));
        }
        for i in 0..n
            invariant
                n == entries@.len(),
                entries@.len() == es.len(),
                forall|j: int| 0 <= j < n ==> *(#[trigger] entries@[j]) == es[j],
                out.deep_view() == spec_collect(es.take(i as int), f),
            decreases n - i,
        {
            proof {
                assert(es.take(i + 1).drop_last() =~= es.take(i as int));
                assert(es.take(i + 1).last() == es[i as int]);
            }
            let ghost prev = out.deep_view();
            match self.parse_juz_info(entries[i]) {
                Some(x) => {
                    let ghost xv = x@;
                    out.push(x);
                    proof {
                        assert(out.deep_view() =~= prev.push(xv));
                    }
                },
                None => {},
            }
        }
        proof {
            assert(es.take(n as int) =~= es);
        }
        out
    }

    /// Sixty-part group records.
    #[verifier::loop_isolation(false)]
    pub fn load_hizb_info(&self, table: &JsonValue) -> (r: Vec<HizbInfo>)
        ensures
            r.deep_view() == spec_load_hizb_info(*table),
    {
        let ghost f = |v: JsonValue| spec_parse_hizb(v);
        let ghost es = spec_keyed_entries(*table, "hizbs"@);
        let entries = self.keyed_entries(table, "hizbs");
        let n: usize = entries.len();
        let mut out: Vec<HizbInfo> = Vec::new();
        proof {
            assert(out.deep_view() =~= spec_collect(es.take(0), f));
        }
        for i in 0..n
            invariant
                n == entries@.len(),
                entries@.len() == es.len(),
                forall|j: int| 0 <= j < n ==> *(#[trigger] entries@[j]) == es[j],
                out.deep_view() == spec_collect(es.take(i as int), f),
            decreases n - i,
        {
            proof {
                assert(es.take(i + 1).drop_last() =~= es.take(i as int));
                assert(es.take(i + 1).last() == es[i as int]);
            }
            let ghost prev = out.deep_view();
            match self.parse_hizb_info(entries[i]) {
                Some(x) => {
                    out.push(x);
                    proof {
                        assert(out.deep_view() =~= prev.push(x));
                    }
                },
                None => {},
            }
        }
        proof {
            assert(es.take(n as int) =~= es);
        }
        out
    }

    /// Passage group records.
    #[verifier::loop_isolation(false)]
    pub fn load_ruku_info(&self, table: &JsonValue) -> (r: Vec<RukuInfo>)
        ensures
            r.deep_view() == spec_load_ruku_info(*table),
    {
        let ghost f = |v: JsonValue| spec_parse_ruku(v);
        let ghost es = spec_keyed_entries(*table, "rukus"@);
        let entries = self.keyed_entries(table, "rukus");
        let n: usize = entries.len();
        let mut out: Vec<RukuInfo> = Vec::new();
        proof {
            assert(out.deep_view() =~= spec_collect(es.take(0), f));
        }
        for i in 0..n
            invariant
                n == entries@.len(),
                entries@.len() == es.len(),
                forall|j: int| 0 <= j < n ==> *(#[trigger] entries@[j]) == es[j],
                out.deep_view() == spec_collect(es.take(i as int), f),
            decreases n - i,
        {
            proof {
                assert(es.take(i + 1).drop_last() =~= es.take(i as int));
                assert(es.take(i + 1).last() == es[i as int]);
            }
            let ghost prev = out.deep_view();
            match self.parse_ruku_info(entries[i]) {
                Some(x) => {
                    out.push(x);
                    proof {
                        assert(out.deep_view() =~= prev.push(x));
                    }
                },
                None => {},
            }
        }
        proof {
            assert(es.take(n as int) =~= es);
        }
        out
    }

    /// Seven-part group records.
    #[verifier::loop_isolation(false)]
    pub fn load_manzil_info(&self, table: &JsonValue) -> (r: Vec<ManzilInfo>)
        ensures
            r.deep_view() == spec_load_manzil_info(*table),
    {
        let ghost f = |v: JsonValue| spec_parse_manzil(v);
        let ghost es = spec_keyed_entries(*table, "manzils"@);
        let entries = self.keyed_entries(table, "manzils");
        let n: usize = entries.len();
        let mut out: Vec<ManzilInfo> = Vec::new();
        proof {
            assert(out.deep_view() =~= spec_collect(es.take(0), f));
        }
        for i in 0..n
            invariant
                n == entries@.len(),
                entries@.len() == es.len(),
                forall|j: int| 0 <= j < n ==> *(#[trigger] entries@[j]) == es[j],
                out.deep_view() == spec_collect(es.take(i as int), f),
            decreases n - i,
        {
            proof {
                assert(es.take(i + 1).drop_last() =~= es.take(i as int));
                assert(es.take(i + 1).last() == es[i as int]);
            }
            let ghost prev = out.deep_view();
            match self.parse_manzil_info(entries[i]) {
                Some(x) => {
                    out.push(x);
                    proof {
                        assert(out.deep_view() =~= prev.push(x));
                    }
                },
                None => {},
            }
        }
        proof {
            assert(es.take(n as int) =~= es);
        }
        out
    }

    /// Prostration records.
    #[verifier::loop_isolation(false)]
    pub fn load_sajda_info(&self, table: &JsonValue) -> (r: Vec<SajdaInfo>)
        ensures
            r.deep_view() == spec_load_sajda_info(*table),
    {
        let ghost f = |v: JsonValue| spec_parse_sajda(v);
        let ghost es = spec_keyed_entries(*table, "sajdas"@);
        let entries = self.keyed_entries(table, "sajdas");
        let n: usize = entries.len();
        let mut out: Vec<SajdaInfo> = Vec::new();
        proof {
            assert(out.deep_view() =~= spec_collect(es.take(0), f));
        }
        for i in 0..n
            invariant
                n == entries@.len(),
                entries@.len() == es.len(),
                forall|j: int| 0 <= j < n ==> *(#[trigger] entries@[j]) == es[j],
                out.deep_view() == spec_collect(es.take(i as int), f),
            decreases n - i,
        {
            proof {
                assert(es.take(i + 1).drop_last() =~= es.take(i as int));
                assert(es.take(i + 1).last() == es[i as int]);
            }
            let ghost prev = out.deep_view();
            match self.parse_sajda_info(entries[i]) {
                Some(x) => {
                    let ghost xv = x@;
                    out.push(x);
                    proof {
                        assert(out.deep_view() =~= prev.push(xv));
                    }
                },
                None => {},
            }
        }
        proof {
            assert(es.take(n as int) =~= es);
        }
        out
    }

    #[verifier::loop_isolation(false)]
    fn parse_matching_ayah(&self, v: &JsonValue) -> (r: Option<MatchingAyah>)
        ensures
            match r {
                Option::Some(x) => spec_parse_matching(*v) == Option::Some(x@),
                Option::None => spec_parse_matching(*v) is None,
            },
    {
        let k = match v.get_str("matched_ayah_key") {
            Some(x) => x.clone(),
            None => {
                return None;
            },
        };
        let mc = match v.get_u64("matched_words_count") {
            Some(x) => x,
            None => {
                return None;
            },
        };
        let cv = match v.get_u64("coverage") {
            Some(x) => x,
            None => {
                return None;
            },
        };
        let sc = match v.get_u64("score") {
            Some(x) => x,
            None => {
                return None;
            },
        };
        let mut ranges: Vec<Vec<u32>> = Vec::new();
        proof {
            assert(ranges.deep_view() =~= Seq::<Seq<u32>>::empty());
        }
        match v.get("match_words") {
            Some(node) => {
                match node.as_array() {
                    Some(arr) => {
                        let ghost f = |it: JsonValue| spec_parse_range_item(it);
                        let n: usize = arr.len();
                        for i in 0..n
                            invariant
                                n == arr@.len(),
                                ranges.deep_view() == spec_collect(arr@.take(i as int), f),
                            decreases n - i,
                        {
                            proof {
                                assert(arr@.take(i + 1).drop_last() =~= arr@.take(i as int));
                                assert(arr@.take(i + 1).last() == arr@[i as int]);
                            }
                            let ghost prev = ranges.deep_view();
                            match arr[i].as_array() {
                                Some(inner) => {
                                    let ghost g = |v: JsonValue| spec_parse_u32_item(v);
                                    let m: usize = inner.len();
                                    let mut nums: Vec<u32> = Vec::new();
                                    for j in 0..m
                                        invariant
                                            m == inner@.len(),
                                            nums@ == spec_collect(inner@.take(j as int), g),
                                        decreases m - j,
                                    {
                                        proof {
                                            assert(inner@.take(j + 1).drop_last() =~= inner@.take(
                                                j as int,
                                            ));
                                            assert(inner@.take(j + 1).last() == inner@[j as int]);
                                        }
                                        match inner[j].as_u64() {
                                            Some(u) => {
                                                nums.push(#[verifier::truncate] (u as u32));
                                            },
                                            None => {},
                                        }
                                    }
                                    proof {
                                        assert(inner@.take(m as int) =~= inner@);
                                    }
                                    let ghost nv = nums@;
                                    proof {
                                        assert(nums.deep_view() =~= nums@);
                                    }
                                    ranges.push(nums);
                                    proof {
                                        assert(ranges.deep_view() =~= prev.push(nv));
                                    }
                                },
                                None => {},
                            }
                        }
                        proof {
                            assert(arr@.take(n as int) =~= arr@);
                        }
                    },
                    None => {},
                }
            },
            None => {},
        }
        Some(
            MatchingAyah {
                matched_ayah_key: k,
                matched_words_count: #[verifier::truncate] (mc as u32),
                coverage: #[verifier::truncate] (cv as u32),
                score: #[verifier::truncate] (sc as u32),
                match_words: ranges,
            },
        )
    }

    /// Translation entries: verse key to translated text.
    #[verifier::loop_isolation(false)]
    pub fn load_indonesian_translation(&self, table: &JsonValue) -> (r: Vec<(String, String)>)
        ensures
            r.deep_view() == spec_load_translation(*table),
    {
        let ghost f = |p: (String, JsonValue)| spec_parse_translation_pair(p);
        let ghost es = spec_obj_pairs(*table);
        let mut out: Vec<(String, String)> = Vec::new();
        proof {
            assert(out.deep_view() =~= spec_collect(es.take(0), f));
        }
        match table {
            JsonValue::Obj(o) => {
                let n: usize = o.len();
                for i in 0..n
                    invariant
                        n == o@.len(),
                        es == o@,
                        out.deep_view() == spec_collect(es.take(i as int), f),
                    decreases n - i,
                {
                    proof {
                        assert(es.take(i + 1).drop_last() =~= es.take(i as int));
                        assert(es.take(i + 1).last() == es[i as int]);
                    }
                    let ghost prev = out.deep_view();
                    match o[i].1.get_str("text") {
                        Some(tx) => {
                            let key = o[i].0.clone();
                            let text = tx.clone();
                            let ghost pv = (key@, text@);
                            out.push((key, text));
                            proof {
                                assert(out.deep_view() =~= prev.push(pv));
                            }
                        },
                        None => {},
                    }
                }
                proof {
                    assert(es.take(n as int) =~= es);
                }
            },
            _ => {},
        }
        out
    }

    /// Transliteration entries: verse key to transliterated text, the
    /// value either a bare string or an object with a `text` field.
    #[verifier::loop_isolation(false)]
    pub fn load_transliteration(&self, table: &JsonValue) -> (r: Vec<(String, String)>)
        ensures
            r.deep_view() == spec_load_transliteration(*table),
    {
        let ghost f = |p: (String, JsonValue)| spec_parse_transliteration_pair(p);
        let ghost es = spec_obj_pairs(*table);
        let mut out: Vec<(String, String)> = Vec::new();
        proof {
            assert(out.deep_view() =~= spec_collect(es.take(0), f));
        }
        match table {
            JsonValue::Obj(o) => {
                let n: usize = o.len();
                for i in 0..n
                    invariant
                        n == o@.len(),
                        es == o@,
                        out.deep_view() == spec_collect(es.take(i as int), f),
                    decreases n - i,
                {
                    proof {
                        assert(es.take(i + 1).drop_last() =~= es.take(i as int));
                        assert(es.take(i + 1).last() == es[i as int]);
                    }
                    let ghost prev = out.deep_view();
                    let text_opt: Option<String> = match o[i].1.as_str() {
                        Some(s) => Some(s.clone()),
                        None => match o[i].1.get_str("text") {
                            Some(tx) => Some(tx.clone()),
                            None => None,
                        },
                    };
                    match text_opt {
                        Some(text) => {
                            let key = o[i].0.clone();
                            let ghost pv = (key@, text@);
                            out.push((key, text));
                            proof {
                                assert(out.deep_view() =~= prev.push(pv));
                            }
                        },
                        None => {},
                    }
                }
                proof {
                    assert(es.take(n as int) =~= es);
                }
            },
            _ => {},
        }
        out
    }

    /// Theme entries: phrase to verse-id list.
    #[verifier::loop_isolation(false)]
    pub fn load_phrase_verses(&self, table: &JsonValue) -> (r: Vec<(String, Vec<u32>)>)
        ensures
            r.deep_view() == spec_load_phrase_verses(*table),
    {
        let ghost f = |p: (String, JsonValue)| spec_parse_phrase_pair(p);
        let ghost es = spec_obj_pairs(*table);
        let mut out: Vec<(String, Vec<u32>)> = Vec::new();
        proof {
            assert(out.deep_view() =~= spec_collect(es.take(0), f));
        }
        match table {
            JsonValue::Obj(o) => {
                let n: usize = o.len();
                for i in 0..n
                    invariant
                        n == o@.len(),
                        es == o@,
                        out.deep_view() == spec_collect(es.take(i as int), f),
                    decreases n - i,
                {
                    proof {
                        assert(es.take(i + 1).drop_last() =~= es.take(i as int));
                        assert(es.take(i + 1).last() == es[i as int]);
                    }
                    let ghost prev = out.deep_view();
                    match o[i].1.as_array() {
                        Some(items) => {
                            let ghost g = |v: JsonValue| spec_parse_u32_item(v);
                            let m: usize = items.len();
                            let mut ids: Vec<u32> = Vec::new();
                            for j in 0..m
                                invariant
                                    m == items@.len(),
                                    ids@ == spec_collect(items@.take(j as int), g),
                                decreases m - j,
                            {
                                proof {
                                    assert(items@.take(j + 1).drop_last() =~= items@.take(
                                        j as int,
                                    ));
                                    assert(items@.take(j + 1).last() == items@[j as int]);
                                }
                                match items[j].as_u64() {
                                    Some(u) => {
                                        ids.push(#[verifier::truncate] (u as u32));
                                    },
                                    None => {},
                                }
                            }
                            proof {
                                assert(items@.take(m as int) =~= items@);
                            }
                            let key = o[i].0.clone();
                            let ghost pv = (key@, ids@);
                            proof {
                                assert(ids.deep_view() =~= ids@);
                            }
                            out.push((key, ids));
                            proof {
                                assert(out.deep_view() =~= prev.push(pv));
                            }
                        },
                        None => {},
                    }
                }
                proof {
                    assert(es.take(n as int) =~= es);
                }
            },
            _ => {},
        }
        out
    }

    /// Cross-reference entries: source verse key to its edge list.
    #[verifier::loop_isolation(false)]
    pub fn load_matching_ayahs(&self, table: &JsonValue) -> (r: Vec<(String, Vec<MatchingAyah>)>)
        ensures
            r.deep_view() == spec_load_matching_ayahs(*table),
    {
        let ghost f = |p: (String, JsonValue)| spec_parse_matching_pair(p);
        let ghost es = spec_obj_pairs(*table);
        let mut out: Vec<(String, Vec<MatchingAyah>)> = Vec::new();
        proof {
            assert(out.deep_view() =~= spec_collect(es.take(0), f));
        }
        match table {
            JsonValue::Obj(o) => {
                let n: usize = o.len();
                for i in 0..n
                    invariant
                        n == o@.len(),
                        es == o@,
                        out.deep_view() == spec_collect(es.take(i as int), f),
                    decreases n - i,
                {
                    proof {
                        assert(es.take(i + 1).drop_last() =~= es.take(i as int));
                        assert(es.take(i + 1).last() == es[i as int]);
                    }
                    let ghost prev = out.deep_view();
                    match o[i].1.as_array() {
                        Some(items) => {
                            let ghost g = |w: JsonValue| spec_parse_matching(w);
                            let m: usize = items.len();
                            let mut edges: Vec<MatchingAyah> = Vec::new();
                            for j in 0..m
                                invariant
                                    m == items@.len(),
                                    edges.deep_view() == spec_collect(items@.take(j as int), g),
                                decreases m - j,
                            {
                                proof {
                                    assert(items@.take(j + 1).drop_last() =~= items@.take(
                                        j as int,
                                    ));
                                    assert(items@.take(j + 1).last() == items@[j as int]);
                                }
                                let ghost eprev = edges.deep_view();
                                match self.parse_matching_ayah(&items[j]) {
                                    Some(x) => {
                                        let ghost xv = x@;
                                        edges.push(x);
                                        proof {
                                            assert(edges.deep_view() =~= eprev.push(xv));
                                        }
                                    },
                                    None => {},
                                }
                            }
                            proof {
                                assert(items@.take(m as int) =~= items@);
                            }
                            let key = o[i].0.clone();
                            let ghost pv = (key@, edges.deep_view());
                            out.push((key, edges));
                            proof {
                                assert(out.deep_view() =~= prev.push(pv));
                            }
                        },
                        None => {},
                    }
                }
                proof {
                    assert(es.take(n as int) =~= es);
                }
            },
            _ => {},
        }
        out
    }
}

impl DataLoader {
    /// The thirty-part group of a global verse id, by interval lookup.
    #[verifier::loop_isolation(false)]
    pub fn find_juz_for_id(&self, verse_id: u32, juzs: &Vec<JuzInfo>) -> (r: u8)
        ensures
            r == spec_resolve_juz(juzs.deep_view(), verse_id),
    {
        let ghost dv = juzs.deep_view();
        let n: usize = juzs.len();
        proof {
            assert(dv.skip(0) =~= dv);
        }
        for i in 0..n
            invariant
                spec_resolve_juz(dv, verse_id) == spec_resolve_juz(dv.skip(i as int), verse_id),
            decreases n - i,
        {
            proof {
                assert(dv.skip(i as int)[0] == dv[i as int]);
                assert(dv.skip(i as int).drop_first() =~= dv.skip(i + 1));
            }
            if juzs[i].first_verse_id <= verse_id && verse_id <= juzs[i].last_verse_id {
                return juzs[i].id;
            }
        }
        proof {
            assert(dv.skip(n as int) =~= Seq::<JuzInfoV>::empty());
        }
        1
    }

    /// The sixty-part group of a global verse id, by interval lookup.
    #[verifier::loop_isolation(false)]
    pub fn find_hizb_for_id(&self, verse_id: u32, hizbs: &Vec<HizbInfo>) -> (r: u8)
        ensures
            r == spec_resolve_hizb(hizbs.deep_view(), verse_id),
    {
        let ghost dv = hizbs.deep_view();
        let n: usize = hizbs.len();
        proof {
            assert(dv.skip(0) =~= dv);
        }
        for i in 0..n
            invariant
                spec_resolve_hizb(dv, verse_id) == spec_resolve_hizb(dv.skip(i as int), verse_id),
            decreases n - i,
        {
            proof {
                assert(dv.skip(i as int)[0] == dv[i as int]);
                assert(dv.skip(i as int).drop_first() =~= dv.skip(i + 1));
            }
            if hizbs[i].first_verse_id <= verse_id && verse_id <= hizbs[i].last_verse_id {
                return hizbs[i].id;
            }
        }
        proof {
            assert(dv.skip(n as int) =~= Seq::<HizbInfo>::empty());
        }
        1
    }

    /// The quarter group of a global verse id, by interval lookup.
    #[verifier::loop_isolation(false)]
    pub fn find_rub_for_id(&self, verse_id: u32, rubs: &Vec<(u8, u32, u32)>) -> (r: u8)
        ensures
            r == spec_resolve_rub(rubs.deep_view(), verse_id),
    {
        let ghost dv = rubs.deep_view();
        let n: usize = rubs.len();
        proof {
            assert(dv =~= rubs@);
            assert(dv.skip(0) =~= dv);
        }
        for i in 0..n
            invariant
                dv == rubs@,
                spec_resolve_rub(dv, verse_id) == spec_resolve_rub(dv.skip(i as int), verse_id),
            decreases n - i,
        {
            proof {
                assert(dv.skip(i as int)[0] == dv[i as int]);
                assert(dv.skip(i as int).drop_first() =~= dv.skip(i + 1));
            }
            if rubs[i].1 <= verse_id && verse_id <= rubs[i].2 {
                return rubs[i].0;
            }
        }
        proof {
            assert(dv.skip(n as int) =~= Seq::<(u8, u32, u32)>::empty());
        }
        1
    }

    /// The passage group of a global verse id, by interval lookup.
    #[verifier::loop_isolation(false)]
    pub fn find_ruku_for_id(&self, verse_id: u32, rukus: &Vec<RukuInfo>) -> (r: u8)
        ensures
            r == spec_resolve_ruku(rukus.deep_view(), verse_id),
    {
        let ghost dv = rukus.deep_view();
        let n: usize = rukus.len();
        proof {
            assert(dv.skip(0) =~= dv);
        }
        for i in 0..n
            invariant
                spec_resolve_ruku(dv, verse_id) == spec_resolve_ruku(dv.skip(i as int), verse_id),
            decreases n - i,
        {
            proof {
                assert(dv.skip(i as int)[0] == dv[i as int]);
                assert(dv.skip(i as int).drop_first() =~= dv.skip(i + 1));
            }
            if rukus[i].first_verse_id <= verse_id && verse_id <= rukus[i].last_verse_id {
                return rukus[i].id;
            }
        }
        proof {
            assert(dv.skip(n as int) =~= Seq::<RukuInfo>::empty());
        }
        1
    }

    /// The seven-part group of a global verse id, by interval lookup.
    #[verifier::loop_isolation(false)]
    pub fn find_manzil_for_id(&self, verse_id: u32, manzils: &Vec<ManzilInfo>) -> (r: u8)
        ensures
            r == spec_resolve_manzil(manzils.deep_view(), verse_id),
    {
        let ghost dv = manzils.deep_view();
        let n: usize = manzils.len();
        proof {
            assert(dv.skip(0) =~= dv);
        }
        for i in 0..n
            invariant
                spec_resolve_manzil(dv, verse_id) == spec_resolve_manzil(
                    dv.skip(i as int),
                    verse_id,
                ),
            decreases n - i,
        {
            proof {
                assert(dv.skip(i as int)[0] == dv[i as int]);
                assert(dv.skip(i as int).drop_first() =~= dv.skip(i + 1));
            }
            if manzils[i].first_verse_id <= verse_id && verse_id <= manzils[i].last_verse_id {
                return manzils[i].id;
            }
        }
        proof {
            assert(dv.skip(n as int) =~= Seq::<ManzilInfo>::empty());
        }
        1
    }

    /// Quarter records, as identifier and interval triples.
    #[verifier::loop_isolation(false)]
    pub fn load_rub_entries(&self, table: &JsonValue) -> (r: Vec<(u8, u32, u32)>)
        ensures
            r@ == spec_load_rub_entries(*table),
    {
        let ghost f = |v: JsonValue| spec_parse_rub(v);
        let ghost es = spec_keyed_entries(*table, "rub_el_hizbs"@);
        let entries = self.keyed_entries(table, "rub_el_hizbs");
        let n: usize = entries.len();
        let mut out: Vec<(u8, u32, u32)> = Vec::new();
        proof {
            assert(out@ =~= spec_collect(es.take(0), f));
        }
        for i in 0..n
            invariant
                n == entries@.len(),
                entries@.len() == es.len(),
                forall|j: int| 0 <= j < n ==> *(#[trigger] entries@[j]) == es[j],
                out@ == spec_collect(es.take(i as int), f),
            decreases n - i,
        {
            proof {
                assert(es.take(i + 1).drop_last() =~= es.take(i as int));
                assert(es.take(i + 1).last() == es[i as int]);
            }
            let v = entries[i];
            let fv = v.get_u64("first_verse_id");
            let lv = v.get_u64("last_verse_id");
            match (fv, lv) {
                (Some(f0), Some(l0)) => {
                    let id: u8 = match v.get_u64("id") {
                        Some(x) => #[verifier::truncate] (x as u8),
                        None => 1,
                    };
                    out.push(
                        (
                            id,
                            #[verifier::truncate] (f0 as u32),
                            #[verifier::truncate] (l0 as u32),
                        ),
                    );
                },
                _ => {},
            }
        }
        proof {
            assert(es.take(n as int) =~= es);
        }
        out
    }

    /// The prostration mark stored for the given verse key, if any.
    #[verifier::loop_isolation(false)]
    pub fn find_sajda_for_verse(&self, verse_key: &str, table: &JsonValue) -> (r: Option<
        SajdaInfo,
    >)
        ensures
            match r {
                Option::Some(s) => spec_find_sajda(spec_keyed_entries(*table, "sajdas"@), verse_key@)
                    == Option::Some(s@),
                Option::None => spec_find_sajda(spec_keyed_entries(*table, "sajdas"@), verse_key@)
                    is None,
            },
    {
        let ghost es = spec_keyed_entries(*table, "sajdas"@);
        let entries = self.keyed_entries(table, "sajdas");
        let n: usize = entries.len();
        proof {
            assert(es.skip(0) =~= es);
        }
        for i in 0..n
            invariant
                n == entries@.len(),
                entries@.len() == es.len(),
                forall|j: int| 0 <= j < n ==> *(#[trigger] entries@[j]) == es[j],
                spec_find_sajda(es, verse_key@) == spec_find_sajda(es.skip(i as int), verse_key@),
            decreases n - i,
        {
            proof {
                assert(es.skip(i as int)[0] == es[i as int]);
                assert(es.skip(i as int).drop_first() =~= es.skip(i + 1));
            }
            let v = entries[i];
            let is_hit: bool = match v.get_str("verse_key") {
                Some(k) => crate::json::str_eq_str(k.as_str(), verse_key),
                None => false,
            };
            if is_hit {
                let id: u8 = match v.get_u64("id") {
                    Some(x) => #[verifier::truncate] (x as u8),
                    None => 1,
                };
                let ty: String = match v.get_str("type") {
                    Some(t) => t.clone(),
                    None => String::from_str("recommended"),
                };
                let re: bool = match v.get_bool("recommended") {
                    Some(b) => b,
                    None => true,
                };
                let ob: bool = match v.get_bool("obligatory") {
                    Some(b) => b,
                    None => false,
                };
                return Some(SajdaInfo { id, sajda_type: ty, recommended: re, obligatory: ob });
            }
        }
        proof {
            assert(es.skip(n as int) =~= Seq::<JsonValue>::empty());
        }
        None
    }

    /// The estimated page of a verse key, by fixed chapter breakpoints;
    /// page 1 for a key that does not parse.
    pub fn estimate_page_for_verse(&self, verse_key: &str) -> (r: u16)
        ensures
            r == match crate::text::spec_parse_verse_key(verse_key@) {
                Option::Some((sn, an)) => spec_estimate_page(sn, an),
                Option::None => 1,
            },
    {
        match crate::text::parse_verse_key(verse_key) {
            Some((sn, an)) => {
                if sn == 1 {
                    1
                } else if sn == 2 {
                    if an <= 25 {
                        2
                    } else if an <= 50 {
                        8
                    } else if an <= 100 {
                        16
                    } else if an <= 200 {
                        32
                    } else {
                        48
                    }
                } else if sn == 3 {
                    50
                } else if sn == 4 {
                    77
                } else if sn == 5 {
                    106
                } else if sn == 6 {
                    128
                } else if sn == 7 {
                    151
                } else if sn == 8 {
                    177
                } else if sn == 9 {
                    187
                } else if sn == 10 {
                    208
                } else if sn == 0 {
                    1
                } else {
                    let p: u32 = ((sn - 1) as u32 * 53) / 10 + 1;
                    if p > 604 {
                        604
                    } else {
                        p as u16
                    }
                }
            },
            None => 1,
        }
    }

    /// The rough global id of a verse key: three hundred slots for each
    /// chapter; `None` when the key does not parse or its chapter is 0.
    pub fn verse_key_to_id(&self, verse_key: &str) -> (r: Option<u32>)
        ensures
            r == match crate::text::spec_parse_verse_key(verse_key@) {
                Option::Some((sn, an)) => if sn >= 1 {
                    Option::Some((((sn - 1) * 300 + an) as u32))
                } else {
                    Option::<u32>::None
                },
                Option::None => Option::<u32>::None,
            },
    {
        match crate::text::parse_verse_key(verse_key) {
            Some((sn, an)) => {
                if sn >= 1 {
                    Some((sn as u32 - 1) * 300 + an as u32)
                } else {
                    None
                }
            },
            None => None,
        }
    }

    /// Assembles one verse record from its raw entry, the translation
    /// and transliteration tables, the five group tables and the raw
    /// prostration table.
    pub fn parse_ayah_data_from_metadata(
        &self,
        verse: &JsonValue,
        translations: &Vec<(String, String)>,
        transliterations: &Vec<(String, String)>,
        juzs: &Vec<JuzInfo>,
        hizbs: &Vec<HizbInfo>,
        rubs: &Vec<(u8, u32, u32)>,
        rukus: &Vec<RukuInfo>,
        manzils: &Vec<ManzilInfo>,
        sajda_table: &JsonValue,
    ) -> (r: Option<crate::structures::AyahData>)
        ensures
            ({
                let sv = spec_parse_ayah_data(
                    *verse,
                    translations.deep_view(),
                    transliterations.deep_view(),
                    juzs.deep_view(),
                    hizbs.deep_view(),
                    rubs.deep_view(),
                    rukus.deep_view(),
                    manzils.deep_view(),
                    *sajda_table,
                );
                match r {
                    Option::Some(a) => sv == Option::Some(a@),
                    Option::None => sv is None,
                }
            }),
    {
        proof {
            assert(rubs.deep_view() =~= rubs@);
        }
        let vk = match verse.get_str("verse_key") {
            Some(x) => x.clone(),
            None => {
                return None;
            },
        };
        let id = match verse.get_u64("id") {
            Some(x) => x,
            None => {
                return None;
            },
        };
        let tx = match verse.get_str("text") {
            Some(x) => x.clone(),
            None => {
                return None;
            },
        };
        let (sn, an) = match crate::text::parse_verse_key(vk.as_str()) {
            Some(p) => p,
            None => {
                return None;
            },
        };
        let id32: u32 = #[verifier::truncate] (id as u32);
        let translation = match lookup_pair(translations, vk.as_str()) {
            Some(t) => t.clone(),
            None => String::new(),
        };
        let transliteration = match lookup_pair(transliterations, vk.as_str()) {
            Some(t) => t.clone(),
            None => String::new(),
        };
        let sajda = self.find_sajda_for_verse(vk.as_str(), sajda_table);
        let page = self.estimate_page_for_verse(vk.as_str());
        Some(
            crate::structures::AyahData {
                id: id32,
                surah_number: sn,
                ayah_number: an,
                verse_key: vk,
                text_arab: tx.clone(),
                text_uthmani: tx,
                translation_id: translation,
                transliteration,
                surah_name: String::new(),
                surah_name_arabic: String::new(),
                juz_number: self.find_juz_for_id(id32, juzs),
                hizb_number: self.find_hizb_for_id(id32, hizbs),
                rub_number: self.find_rub_for_id(id32, rubs),
                ruku_number: self.find_ruku_for_id(id32, rukus),
                manzil_number: self.find_manzil_for_id(id32, manzils),
                page_number: page,
                line_number: 1,
                sajda,
            },
        )
    }
}

/// The identifiers of verse entries, as sort keys.
pub open spec fn spec_am_ids(c: Seq<AyahMetadataV>) -> Seq<u64> {
    Seq::new(c.len(), |i: int| c[i].id as u64)
}

/// What the raw verse table yields under the metadata parser: the
/// entries that parse, sorted ascending by identifier.
pub open spec fn spec_load_ayah_metadata(t: JsonValue) -> Seq<AyahMetadataV> {
    let c = spec_collect(spec_ayah_entries(t), |v: JsonValue| spec_parse_ayah_metadata(v));
    crate::order::spec_sort_order(spec_am_ids(c)).map_values(|p: (u64, usize)| c[p.1 as int])
}

/// What the verse table yields under full assembly, in table order.
pub open spec fn spec_load_ayah_data(
    t: JsonValue,
    translations: Seq<(Seq<char>, Seq<char>)>,
    transliterations: Seq<(Seq<char>, Seq<char>)>,
    juzs: Seq<JuzInfoV>,
    hizbs: Seq<HizbInfo>,
    rubs: Seq<(u8, u32, u32)>,
    rukus: Seq<RukuInfo>,
    manzils: Seq<ManzilInfo>,
    sajda_table: JsonValue,
) -> Seq<crate::structures::AyahDataV> {
    spec_collect(
        spec_ayah_entries(t),
        |v: JsonValue|
            spec_parse_ayah_data(
                v,
                translations,
                transliterations,
                juzs,
                hizbs,
                rubs,
                rukus,
                manzils,
                sajda_table,
            ),
    )
}

impl DataLoader {
    /// The records of the raw verse table, under its object or wrapped
    /// array shape.
    #[verifier::loop_isolation(false)]
    fn ayah_entries<'a>(&self, t: &'a JsonValue) -> (r: Vec<&'a JsonValue>)
        ensures
            r@.len() == spec_ayah_entries(*t).len(),
            forall|j: int| 0 <= j < r@.len() ==> *(#[trigger] r@[j]) == spec_ayah_entries(*t)[j],
    {
        match t {
            JsonValue::Obj(_) => self.table_entries(t),
            _ => self.keyed_entries(t, "verses"),
        }
    }

    /// Raw verse entries, sorted ascending by identifier.
    #[verifier::loop_isolation(false)]
    pub fn load_ayah_metadata(&self, table: &JsonValue) -> (r: Vec<AyahMetadata>)
        ensures
            r.deep_view() == spec_load_ayah_metadata(*table),
    {
        let ghost f = |v: JsonValue| spec_parse_ayah_metadata(v);
        let ghost es = spec_ayah_entries(*table);
        let entries = self.ayah_entries(table);
        let n: usize = entries.len();
        let mut items: Vec<AyahMetadata> = Vec::new();
        proof {
            assert(items.deep_view() =~= spec_collect(es.take(0), f));
        }
        for i in 0..n
            invariant
                n == entries@.len(),
                entries@.len() == es.len(),
                forall|j: int| 0 <= j < n ==> *(#[trigger] entries@[j]) == es[j],
                items.deep_view() == spec_collect(es.take(i as int), f),
            decreases n - i,
        {
            proof {
                assert(es.take(i + 1).drop_last() =~= es.take(i as int));
                assert(es.take(i + 1).last() == es[i as int]);
            }
            let ghost prev = items.deep_view();
            match self.parse_ayah_metadata(entries[i]) {
                Some(x) => {
                    let ghost xv = x@;
                    items.push(x);
                    proof {
                        assert(items.deep_view() =~= prev.push(xv));
                    }
                },
                None => {},
            }
        }
        proof {
            assert(es.take(n as int) =~= es);
        }
        let ghost c = spec_collect(es, f);

        let m: usize = items.len();
        let mut keys: Vec<u64> = Vec::new();
        for i in 0..m
            invariant
                m == items@.len(),
                items.deep_view() == c,
                keys@.len() == i,
                forall|q: int| 0 <= q < i ==> keys@[q] == c[q].id as u64,
            decreases m - i,
        {
            proof {
                assert(items.deep_view()[i as int] == items@[i as int]@);
            }
            keys.push(items[i].id as u64);
        }
        proof {
            assert(keys@ =~= spec_am_ids(c));
        }
        let order = crate::order::sort_order(&keys);
        let mut out: Vec<AyahMetadata> = Vec::new();
        let k: usize = order.len();
        for i in 0..k
            invariant
                k == order@.len(),
                order@ == crate::order::spec_sort_order(spec_am_ids(c)),
                m == items@.len(),
                items.deep_view() == c,
                c.len() == m,
                forall|q: int| 0 <= q < k ==> (#[trigger] order@[q]).1 < m,
                out@.len() == i,
                forall|q: int|
                    0 <= q < i ==> (#[trigger] out@[q])@ == c[order@[q].1 as int],
            decreases k - i,
        {
            let idx: usize = order[i].1;
            out.push(items[idx].clone());
            proof {
                assert(items.deep_view()[idx as int] == items@[idx as int]@);
            }
        }
        proof {
            assert(out.deep_view() =~= crate::order::spec_sort_order(spec_am_ids(c)).map_values(
                |p: (u64, usize)| c[p.1 as int],
            ));
        }
        out
    }

    /// The fully assembled verse records of the corpus, in table order.
    #[verifier::loop_isolation(false)]
    pub fn load_ayah_data(
        &self,
        table: &JsonValue,
        translations: &Vec<(String, String)>,
        transliterations: &Vec<(String, String)>,
        juzs: &Vec<JuzInfo>,
        hizbs: &Vec<HizbInfo>,
        rubs: &Vec<(u8, u32, u32)>,
        rukus: &Vec<RukuInfo>,
        manzils: &Vec<ManzilInfo>,
        sajda_table: &JsonValue,
    ) -> (r: Vec<crate::structures::AyahData>)
        ensures
            r.deep_view() == spec_load_ayah_data(
                *table,
                translations.deep_view(),
                transliterations.deep_view(),
                juzs.deep_view(),
                hizbs.deep_view(),
                rubs.deep_view(),
                rukus.deep_view(),
                manzils.deep_view(),
                *sajda_table,
            ),
    {
        let ghost f = |v: JsonValue|
            spec_parse_ayah_data(
                v,
                translations.deep_view(),
                transliterations.deep_view(),
                juzs.deep_view(),
                hizbs.deep_view(),
                rubs.deep_view(),
                rukus.deep_view(),
                manzils.deep_view(),
                *sajda_table,
            );
        let ghost es = spec_ayah_entries(*table);
        let entries = self.ayah_entries(table);
        let n: usize = entries.len();
        let mut out: Vec<crate::structures::AyahData> = Vec::new();
        proof {
            assert(out.deep_view() =~= spec_collect(es.take(0), f));
        }
        for i in 0..n
            invariant
                n == entries@.len(),
                entries@.len() == es.len(),
                forall|j: int| 0 <= j < n ==> *(#[trigger] entries@[j]) == es[j],
                out.deep_view() == spec_collect(es.take(i as int), f),
            decreases n - i,
        {
            proof {
                assert(es.take(i + 1).drop_last() =~= es.take(i as int));
                assert(es.take(i + 1).last() == es[i as int]);
            }
            let ghost prev = out.deep_view();
            match self.parse_ayah_data_from_metadata(
                entries[i],
                translations,
                transliterations,
                juzs,
                hizbs,
                rubs,
                rukus,
                manzils,
                sajda_table,
            ) {
                Some(x) => {
                    let ghost xv = x@;
                    out.push(x);
                    proof {
                        assert(out.deep_view() =~= prev.push(xv));
                    }
                },
                None => {},
            }
        }
        proof {
            assert(es.take(n as int) =~= es);
        }
        out
    }
}

/// A parsed layout row at view level: page, line, line type, centering
/// flag, first and last word id, and the chapter number if recorded.
pub type PageRowV = (u16, u8, Seq<char>, bool, u32, u32, Option<u16>);

/// A parsed layout row: page, line, line type, centering flag, first
/// and last word id, and the chapter number if recorded.
pub type PageRow = (u16, u8, String, bool, u32, u32, Option<u16>);

/// The number a JSON node holds, or zero.
pub open spec fn u64_or_zero(v: JsonValue) -> u64 {
    match v {
        JsonValue::UInt(u) => u,
        _ => 0,
    }
}

/// What one raw layout row yields: an array of at least seven columns,
/// numbers defaulting to zero and the line type to empty.
pub open spec fn spec_parse_page_row(v: JsonValue) -> Option<PageRowV> {
    match v {
        JsonValue::Arr(a) => if a@.len() >= 7 {
            Option::Some(
                (
                    u64_or_zero(a@[0]) as u16,
                    u64_or_zero(a@[1]) as u8,
                    str_or_empty(a@[2]),
                    u64_or_zero(a@[3]) == 1,
                    u64_or_zero(a@[4]) as u32,
                    u64_or_zero(a@[5]) as u32,
                    match a@[6] {
                        JsonValue::UInt(u) => Option::Some(u as u16),
                        _ => Option::<u16>::None,
                    },
                ),
            )
        } else {
            Option::None
        },
        _ => Option::None,
    }
}

/// The row array of the first table named `pages` in the layout
/// database, or empty.
pub open spec fn spec_pages_rows_of(tables: Seq<JsonValue>) -> Seq<JsonValue>
    decreases tables.len(),
{
    if tables.len() == 0 {
        Seq::empty()
    } else if tables[0].spec_get_str("name"@) == Option::Some("pages"@) {
        match tables[0].spec_get("rows"@) {
            Option::Some(JsonValue::Arr(rows)) => rows@,
            _ => Seq::empty(),
        }
    } else {
        spec_pages_rows_of(tables.drop_first())
    }
}

/// The raw rows of the layout database table.
pub open spec fn spec_layout_rows(t: JsonValue) -> Seq<JsonValue> {
    match t.spec_get("objects"@) {
        Option::Some(JsonValue::Arr(tables)) => spec_pages_rows_of(tables@),
        _ => Seq::empty(),
    }
}

/// The parsed rows of the layout database table.
pub open spec fn spec_parsed_rows(t: JsonValue) -> Seq<PageRowV> {
    spec_collect(spec_layout_rows(t), |v: JsonValue| spec_parse_page_row(v))
}

/// The placeholder text of a word-range line.
pub open spec fn spec_word_range_text(first: u32, last: u32) -> Seq<char> {
    "Text for words "@ + crate::text::dec_digits(first as nat) + "-"@ + crate::text::dec_digits(
        last as nat,
    )
}

/// The first estimated global verse id of a word range.
pub open spec fn spec_range_start(first: u32) -> int {
    if first == 0 {
        1
    } else {
        (first - 1) * 100 / 1342 + 1
    }
}

/// The last estimated global verse id of a word range, rounded up.
pub open spec fn spec_range_end(last: u32) -> int {
    if last == 0 {
        1
    } else {
        ((last - 1) * 100 + 1341) / 1342 + 1
    }
}

/// The verse key estimated for one global verse id: the first seven ids
/// belong to chapter one, the next 286 to chapter two, later ids to no
/// key at all.
pub open spec fn spec_range_key(vid: int) -> Seq<Seq<char>> {
    if vid <= 7 {
        seq![
            crate::text::dec_digits(1) + seq![':'] + crate::text::dec_digits(vid as nat),
        ]
    } else if vid - 7 <= 286 {
        seq![
            crate::text::dec_digits(2) + seq![':'] + crate::text::dec_digits((vid - 7) as nat),
        ]
    } else {
        Seq::empty()
    }
}

pub open spec fn spec_keys_from(vid: int, stop: int) -> Seq<Seq<char>>
    decreases stop - vid + 1,
{
    if vid > stop {
        Seq::empty()
    } else {
        spec_range_key(vid) + spec_keys_from(vid + 1, stop)
    }
}

/// The verse keys estimated for a word range: at most four ids starting
/// at the range's first estimate.
pub open spec fn spec_range_keys(first: u32, last: u32) -> Seq<Seq<char>> {
    let start = spec_range_start(first);
    let end = spec_range_end(last);
    let stop = if end < start + 3 {
        end
    } else {
        start + 3
    };
    spec_keys_from(start, stop)
}

/// The first chapter record numbered `n` at view level.
pub open spec fn spec_find_surah_v(surahs: Seq<SurahInfoV>, n: u16) -> Option<SurahInfoV>
    decreases surahs.len(),
{
    if surahs.len() == 0 {
        Option::None
    } else if surahs[0].id == n {
        Option::Some(surahs[0])
    } else {
        spec_find_surah_v(surahs.drop_first(), n)
    }
}

/// The rendered line one layout row yields.
pub open spec fn spec_line_for(row: PageRowV, surahs: Seq<SurahInfoV>) -> crate::structures::PageLineV {
    let (text, keys): (Seq<char>, Seq<Seq<char>>) = if row.2 == "surah_name"@ {
        match row.6 {
            Option::Some(sn) => match spec_find_surah_v(surahs, sn) {
                Option::Some(si) => (si.name_arabic, Seq::empty()),
                Option::None => (
                    "Surah "@ + crate::text::dec_digits(sn as nat),
                    Seq::empty(),
                ),
            },
            Option::None => (Seq::empty(), Seq::empty()),
        }
    } else if row.2 == "ayah"@ && row.4 > 0 && row.5 > 0 {
        (spec_word_range_text(row.4, row.5), spec_range_keys(row.4, row.5))
    } else {
        (Seq::empty(), Seq::empty())
    };
    crate::structures::PageLineV {
        line_number: row.1,
        line_type: row.2,
        text: text,
        is_centered: row.3,
        verse_keys: keys,
    }
}

/// The chapter header one layout row yields, if it is a chapter-name
/// row whose chapter has a record.
pub open spec fn spec_header_for(row: PageRowV, surahs: Seq<SurahInfoV>) -> Seq<
    crate::structures::SurahHeaderV,
> {
    if row.2 == "surah_name"@ {
        match row.6 {
            Option::Some(sn) => match spec_find_surah_v(surahs, sn) {
                Option::Some(si) => seq![
                    crate::structures::SurahHeaderV {
                        surah_number: sn,
                        name_arabic: si.name_arabic,
                        name_simple: si.name_simple,
                        line_number: row.1,
                    },
                ],
                Option::None => Seq::empty(),
            },
            Option::None => Seq::empty(),
        }
    } else {
        Seq::empty()
    }
}

/// The chapter headers of a page's rows, in row order.
pub open spec fn spec_headers_for(rows: Seq<PageRowV>, surahs: Seq<SurahInfoV>) -> Seq<
    crate::structures::SurahHeaderV,
>
    decreases rows.len(),
{
    if rows.len() == 0 {
        Seq::empty()
    } else {
        spec_headers_for(rows.drop_last(), surahs) + spec_header_for(rows.last(), surahs)
    }
}

/// The keys that order a page's rows by line number, ties in row order.
pub open spec fn spec_line_keys(rows: Seq<PageRowV>) -> Seq<u64> {
    Seq::new(rows.len(), |i: int| rows[i].1 as u64)
}

/// The rows carrying page number `p`, in table order.
pub open spec fn spec_rows_of_page(parsed: Seq<PageRowV>, p: u16) -> Seq<PageRowV>
    decreases parsed.len(),
{
    if parsed.len() == 0 {
        Seq::empty()
    } else {
        let rest = spec_rows_of_page(parsed.drop_last(), p);
        if parsed.last().0 == p {
            rest.push(parsed.last())
        } else {
            rest
        }
    }
}

/// The rows of one page sorted by line number.
pub open spec fn spec_page_rows_sorted(parsed: Seq<PageRowV>, p: u16) -> Seq<PageRowV> {
    crate::order::spec_assemble(
        spec_rows_of_page(parsed, p),
        crate::order::spec_sort_order(spec_line_keys(spec_rows_of_page(parsed, p))),
    )
}

/// The rendered lines of the given rows, in order.
pub open spec fn spec_lines_for(rows: Seq<PageRowV>, surahs: Seq<SurahInfoV>) -> Seq<
    crate::structures::PageLineV,
>
    decreases rows.len(),
{
    if rows.len() == 0 {
        Seq::empty()
    } else {
        spec_lines_for(rows.drop_last(), surahs).push(spec_line_for(rows.last(), surahs))
    }
}

pub proof fn lemma_lines_for_pointwise(rows: Seq<PageRowV>, surahs: Seq<SurahInfoV>)
    ensures
        spec_lines_for(rows, surahs).len() == rows.len(),
        forall|i: int|
            0 <= i < rows.len() ==> spec_lines_for(rows, surahs)[i] == spec_line_for(
                #[trigger] rows[i],
                surahs,
            ),
    decreases rows.len(),
{
    if rows.len() > 0 {
        lemma_lines_for_pointwise(rows.drop_last(), surahs);
        assert forall|i: int| 0 <= i < rows.len() implies spec_lines_for(rows, surahs)[i]
            == spec_line_for(#[trigger] rows[i], surahs) by {
            if i < rows.len() - 1 {
                assert(rows.drop_last()[i] == rows[i]);
                assert(spec_lines_for(rows, surahs)[i] == spec_lines_for(
                    rows.drop_last(),
                    surahs,
                )[i]);
            }
        }
    }
}

/// The rendered page built for page number `p`.
pub open spec fn spec_build_page(parsed: Seq<PageRowV>, p: u16, surahs: Seq<SurahInfoV>) -> crate::structures::RenderedPageV {
    crate::structures::RenderedPageV {
        page_number: p,
        lines: spec_lines_for(spec_page_rows_sorted(parsed, p), surahs),
        surah_headers: spec_headers_for(spec_page_rows_sorted(parsed, p), surahs),
    }
}

/// The distinct page numbers of the parsed rows, in first-appearance
/// order.
pub open spec fn spec_distinct_pages(parsed: Seq<PageRowV>) -> Seq<u16>
    decreases parsed.len(),
{
    if parsed.len() == 0 {
        Seq::empty()
    } else {
        let rest = spec_distinct_pages(parsed.drop_last());
        if rest.contains(parsed.last().0) {
            rest
        } else {
            rest.push(parsed.last().0)
        }
    }
}

/// The page numbers as sort keys.
pub open spec fn spec_page_keys(d: Seq<u16>) -> Seq<u64> {
    Seq::new(d.len(), |i: int| d[i] as u64)
}

/// The distinct page numbers sorted ascending.
pub open spec fn spec_sorted_pages(parsed: Seq<PageRowV>) -> Seq<u16> {
    crate::order::spec_assemble(
        spec_distinct_pages(parsed),
        crate::order::spec_sort_order(spec_page_keys(spec_distinct_pages(parsed))),
    )
}

/// What the layout table yields: one rendered page per distinct page
/// number, pages ascending, lines sorted by line number.
pub open spec fn spec_pages_built(
    pages: Seq<u16>,
    parsed: Seq<PageRowV>,
    surahs: Seq<SurahInfoV>,
) -> Seq<crate::structures::RenderedPageV>
    decreases pages.len(),
{
    if pages.len() == 0 {
        Seq::empty()
    } else {
        spec_pages_built(pages.drop_last(), parsed, surahs).push(
            spec_build_page(parsed, pages.last(), surahs),
        )
    }
}

pub proof fn lemma_pages_built_pointwise(
    pages: Seq<u16>,
    parsed: Seq<PageRowV>,
    surahs: Seq<SurahInfoV>,
)
    ensures
        spec_pages_built(pages, parsed, surahs).len() == pages.len(),
        forall|i: int|
            0 <= i < pages.len() ==> spec_pages_built(pages, parsed, surahs)[i] == spec_build_page(
                parsed,
                #[trigger] pages[i],
                surahs,
            ),
    decreases pages.len(),
{
    if pages.len() > 0 {
        lemma_pages_built_pointwise(pages.drop_last(), parsed, surahs);
        assert forall|i: int| 0 <= i < pages.len() implies spec_pages_built(
            pages,
            parsed,
            surahs,
        )[i] == spec_build_page(parsed, #[trigger] pages[i], surahs) by {
            if i < pages.len() - 1 {
                assert(pages.drop_last()[i] == pages[i]);
                assert(spec_pages_built(pages, parsed, surahs)[i] == spec_pages_built(
                    pages.drop_last(),
                    parsed,
                    surahs,
                )[i]);
            }
        }
    }
}

pub open spec fn spec_load_pages(t: JsonValue, surahs: Seq<SurahInfoV>) -> Seq<
    crate::structures::RenderedPageV,
> {
    spec_pages_built(spec_sorted_pages(spec_parsed_rows(t)), spec_parsed_rows(t), surahs)
}

/// The views of a sequence of parsed layout rows.
pub open spec fn rows_dv(s: Seq<PageRow>) -> Seq<PageRowV> {
    s.map_values(|r: PageRow| r.deep_view())
}

impl DataLoader {
    /// The chapter record numbered `n` among the given records, if any.
    #[verifier::loop_isolation(false)]
    pub fn get_surah_info_by_number<'a>(&self, n: u16, surahs: &'a Vec<SurahInfo>) -> (r: Option<
        &'a SurahInfo,
    >)
        ensures
            match r {
                Option::Some(s) => spec_find_surah_v(surahs.deep_view(), n) == Option::Some(s@),
                Option::None => spec_find_surah_v(surahs.deep_view(), n) is None,
            },
    {
        let ghost dv = surahs.deep_view();
        let m: usize = surahs.len();
        proof {
            assert(dv.skip(0) =~= dv);
        }
        for i in 0..m
            invariant
                spec_find_surah_v(dv, n) == spec_find_surah_v(dv.skip(i as int), n),
            decreases m - i,
        {
            proof {
                assert(dv.skip(i as int)[0] == dv[i as int]);
                assert(dv.skip(i as int).drop_first() =~= dv.skip(i + 1));
            }
            if surahs[i].id == n {
                return Some(&surahs[i]);
            }
        }
        proof {
            assert(dv.skip(m as int) =~= Seq::<SurahInfoV>::empty());
        }
        None
    }

    /// The placeholder text and the estimated verse keys of a word
    /// range.
    #[verifier::loop_isolation(false)]
    pub fn get_text_and_verses_for_word_range(&self, first_word_id: u32, last_word_id: u32) -> (r:
        (String, Vec<String>))
        ensures
            r.0@ == spec_word_range_text(first_word_id, last_word_id),
            r.1.deep_view() == spec_range_keys(first_word_id, last_word_id),
    {
        let start: u64 = if first_word_id == 0 {
            1
        } else {
            ((first_word_id - 1) as u64 * 100) / 1342 + 1
        };
        let end: u64 = if last_word_id == 0 {
            1
        } else {
            ((last_word_id - 1) as u64 * 100 + 1341) / 1342 + 1
        };
        let stop: u64 = if end < start + 3 {
            end
        } else {
            start + 3
        };
        proof {
            assert(start == spec_range_start(first_word_id));
            assert(end == spec_range_end(last_word_id));
        }
        let mut keys: Vec<String> = Vec::new();
        let mut vid: u64 = start;
        proof {
            assert(keys.deep_view() + spec_keys_from(vid as int, stop as int) =~= spec_keys_from(
                start as int,
                stop as int,
            ));
        }
        while vid <= stop
            invariant
                start <= vid,
                vid == start || vid <= stop + 1,
                stop <= start + 3,
                spec_keys_from(start as int, stop as int) == keys.deep_view() + spec_keys_from(
                    vid as int,
                    stop as int,
                ),
            decreases stop + 1 - vid,
        {
            let ghost prev = keys.deep_view();
            if vid <= 7 {
                let k = crate::text::format_verse_key(1, vid as u16);
                let ghost kv = k@;
                keys.push(k);
                proof {
                    assert(keys.deep_view() =~= prev.push(kv));
                }
            } else if vid - 7 <= 286 {
                let k = crate::text::format_verse_key(2, (vid - 7) as u16);
                let ghost kv = k@;
                keys.push(k);
                proof {
                    assert(keys.deep_view() =~= prev.push(kv));
                }
            }
            proof {
                assert(spec_keys_from(vid as int, stop as int) == spec_range_key(vid as int)
                    + spec_keys_from(vid + 1, stop as int));
                assert(keys.deep_view() + spec_keys_from(vid + 1, stop as int) =~= spec_keys_from(
                    start as int,
                    stop as int,
                ));
            }
            vid = vid + 1;
        }
        proof {
            assert(spec_keys_from(vid as int, stop as int) =~= Seq::<Seq<char>>::empty());
            assert(keys.deep_view() =~= spec_range_keys(first_word_id, last_word_id));
        }
        let mut text = String::from_str("Text for words ");
        text.append(crate::text::u64_to_string(first_word_id as u64).as_str());
        text.append("-");
        text.append(crate::text::u64_to_string(last_word_id as u64).as_str());
        proof {
            assert(text@ =~= spec_word_range_text(first_word_id, last_word_id));
        }
        (text, keys)
    }

    /// The raw rows of the layout database: the `rows` array of the
    /// first table named `pages` under `objects`.
    #[verifier::loop_isolation(false)]
    fn layout_rows<'a>(&self, t: &'a JsonValue) -> (r: Vec<&'a JsonValue>)
        ensures
            r@.len() == spec_layout_rows(*t).len(),
            forall|j: int| 0 <= j < r@.len() ==> *(#[trigger] r@[j]) == spec_layout_rows(*t)[j],
    {
        let mut items: Vec<&JsonValue> = Vec::new();
        let tables: &Vec<JsonValue> = match t.get("objects") {
            Some(node) => match node.as_array() {
                Some(a) => a,
                None => {
                    return items;
                },
            },
            None => {
                return items;
            },
        };
        let ghost ts = tables@;
        let n: usize = tables.len();
        proof {
            assert(spec_layout_rows(*t) == spec_pages_rows_of(ts));
            assert(ts.skip(0) =~= ts);
        }
        let mut found: Option<&Vec<JsonValue>> = None;
        let mut i: usize = 0;
        while i < n
            invariant
                n == ts.len(),
                ts == tables@,
                i <= n,
                found is None || i == n,
                match found {
                    Option::Some(rows) => spec_pages_rows_of(ts) == rows@,
                    Option::None => spec_pages_rows_of(ts) == spec_pages_rows_of(
                        ts.skip(i as int),
                    ),
                },
            decreases n - i,
        {
            proof {
                assert(ts.skip(i as int)[0] == ts[i as int]);
                assert(ts.skip(i as int).drop_first() =~= ts.skip(i + 1));
            }
            let is_pages: bool = match tables[i].get_str("name") {
                Some(nm) => crate::json::str_eq_str(nm.as_str(), "pages"),
                None => false,
            };
            if is_pages {
                match tables[i].get("rows") {
                    Some(node) => match node.as_array() {
                        Some(rows) => {
                            found = Some(rows);
                        },
                        None => {
                            proof {
                                assert(spec_pages_rows_of(ts.skip(i as int)) =~= Seq::<
                                    JsonValue,
                                >::empty());
                            }
                            return items;
                        },
                    },
                    None => {
                        proof {
                            assert(spec_pages_rows_of(ts.skip(i as int)) =~= Seq::<
                                JsonValue,
                            >::empty());
                        }
                        return items;
                    },
                }
                i = n;
            } else {
                i = i + 1;
            }
        }
        match found {
            Some(rows) => {
                let m: usize = rows.len();
                for j in 0..m
                    invariant
                        rows@ == spec_pages_rows_of(ts),
                        items@.len() == j,
                        forall|q: int|
                            0 <= q < j ==> *(#[trigger] items@[q]) == spec_layout_rows(*t)[q],
                    decreases m - j,
                {
                    items.push(&rows[j]);
                }
                items
            },
            None => {
                proof {
                    assert(ts.skip(n as int) =~= Seq::<JsonValue>::empty());
                }
                items
            },
        }
    }

    fn parse_page_row(&self, v: &JsonValue) -> (r: Option<PageRow>)
        ensures
            match r {
                Option::Some(x) => spec_parse_page_row(*v) == Option::Some(x.deep_view()),
                Option::None => spec_parse_page_row(*v) is None,
            },
    {
        match v {
            JsonValue::Arr(a) => {
                if a.len() < 7 {
                    return None;
                }
                let page: u64 = match a[0].as_u64() {
                    Some(u) => u,
                    None => 0,
                };
                let line: u64 = match a[1].as_u64() {
                    Some(u) => u,
                    None => 0,
                };
                let ty: String = match a[2].as_str() {
                    Some(s) => s.clone(),
                    None => String::new(),
                };
                let centered: u64 = match a[3].as_u64() {
                    Some(u) => u,
                    None => 0,
                };
                let fw: u64 = match a[4].as_u64() {
                    Some(u) => u,
                    None => 0,
                };
                let lw: u64 = match a[5].as_u64() {
                    Some(u) => u,
                    None => 0,
                };
                let sn: Option<u16> = match a[6].as_u64() {
                    Some(u) => Some(#[verifier::truncate] (u as u16)),
                    None => None,
                };
                Some(
                    (
                        #[verifier::truncate] (page as u16),
                        #[verifier::truncate] (line as u8),
                        ty,
                        centered == 1,
                        #[verifier::truncate] (fw as u32),
                        #[verifier::truncate] (lw as u32),
                        sn,
                    ),
                )
            },
            _ => None,
        }
    }

    /// Builds the rendered page numbered `p` from the parsed rows.
    #[verifier::loop_isolation(false)]
    fn build_page(&self, rows: &Vec<PageRow>, p: u16, surahs: &Vec<SurahInfo>) -> (r:
        crate::structures::RenderedPage)
        ensures
            r@ == spec_build_page(rows_dv(rows@), p, surahs.deep_view()),
    {
        let ghost parsed = rows_dv(rows@);
        let ghost sv = surahs.deep_view();
        let n: usize = rows.len();
        let mut rows_p: Vec<PageRow> = Vec::new();
        proof {
            assert(rows_dv(rows_p@) =~= spec_rows_of_page(parsed.take(0), p));
        }
        for i in 0..n
            invariant
                n == rows@.len(),
                parsed == rows_dv(rows@),
                rows_dv(rows_p@) == spec_rows_of_page(parsed.take(i as int), p),
            decreases n - i,
        {
            proof {
                assert(parsed.take(i + 1).drop_last() =~= parsed.take(i as int));
                assert(parsed.take(i + 1).last() == parsed[i as int]);
                assert(parsed[i as int] == rows@[i as int].deep_view());
            }
            let ghost prev = rows_dv(rows_p@);
            if rows[i].0 == p {
                let rr = &rows[i];
                let copy: PageRow = (rr.0, rr.1, rr.2.clone(), rr.3, rr.4, rr.5, rr.6);
                proof {
                    assert(copy == rows@[i as int]);
                }
                rows_p.push(copy);
                proof {
                    assert(rows_dv(rows_p@) =~= prev.push(parsed[i as int]));
                }
            }
        }
        proof {
            assert(parsed.take(n as int) =~= parsed);
        }
        let ghost rpdv = rows_dv(rows_p@);

        let m: usize = rows_p.len();
        let mut keys: Vec<u64> = Vec::new();
        for i in 0..m
            invariant
                m == rows_p@.len(),
                keys@.len() == i,
                forall|q: int| 0 <= q < i ==> keys@[q] == rows_p@[q].1 as u64,
            decreases m - i,
        {
            keys.push(rows_p[i].1 as u64);
        }
        proof {
            assert(keys@ =~= spec_line_keys(rpdv));
        }
        let order = crate::order::sort_order(&keys);
        let ghost sorted = spec_page_rows_sorted(parsed, p);
        proof {
            assert(rpdv == spec_rows_of_page(parsed, p));
            assert(spec_line_keys(rpdv) == keys@);
            assert(order@ == crate::order::spec_sort_order(spec_line_keys(rpdv)));
            assert(sorted == crate::order::spec_assemble(rpdv, order@));
            crate::order::lemma_assemble_pointwise(rpdv, order@);
            assert(sorted.len() == order@.len());
        }

        let k: usize = order.len();
        let mut lines: Vec<crate::structures::PageLine> = Vec::new();
        let mut headers: Vec<crate::structures::SurahHeader> = Vec::new();
        for w in 0..k
            invariant
                k == order@.len(),
                m == rows_p@.len(),
                rpdv == rows_dv(rows_p@),
                sv == surahs.deep_view(),
                order@ == crate::order::spec_sort_order(spec_line_keys(rpdv)),
                order@.len() == rpdv.len(),
                forall|q: int| 0 <= q < k ==> (#[trigger] order@[q]).1 < m,
                sorted == spec_page_rows_sorted(parsed, p),
                sorted.len() == order@.len(),
                forall|q: int|
                    0 <= q < sorted.len() ==> sorted[q] == rpdv[(#[trigger] order@[q]).1 as int],
                lines@.len() == w,
                forall|q: int|
                    0 <= q < w ==> (#[trigger] lines@[q])@ == spec_line_for(sorted[q], sv),
                headers.deep_view() == spec_headers_for(sorted.take(w as int), sv),
            decreases k - w,
        {
            let idx: usize = order[w].1;
            let row = &rows_p[idx];
            let ghost rv = rpdv[idx as int];
            proof {
                assert(rv == sorted[w as int]);
                assert(rv == rows_p@[idx as int].deep_view());
                assert(sorted.take(w + 1).drop_last() =~= sorted.take(w as int));
                assert(sorted.take(w + 1).last() == sorted[w as int]);
            }
            let ghost hprev = headers.deep_view();
            let mut text: String = String::new();
            let mut vkeys: Vec<String> = Vec::new();
            if crate::json::str_eq_str(row.2.as_str(), "surah_name") {
                match row.6 {
                    Some(sn) => {
                        match self.get_surah_info_by_number(sn, surahs) {
                            Some(si) => {
                                let ghost hv = crate::structures::SurahHeaderV {
                                    surah_number: sn,
                                    name_arabic: si.name_arabic@,
                                    name_simple: si.name_simple@,
                                    line_number: row.1,
                                };
                                headers.push(
                                    crate::structures::SurahHeader {
                                        surah_number: sn,
                                        name_arabic: si.name_arabic.clone(),
                                        name_simple: si.name_simple.clone(),
                                        line_number: row.1,
                                    },
                                );
                                proof {
                                    assert(headers.deep_view() =~= hprev.push(hv));
                                    assert(headers.deep_view() =~= spec_headers_for(
                                        sorted.take(w + 1),
                                        sv,
                                    ));
                                }
                                text = si.name_arabic.clone();
                            },
                            None => {
                                text = String::from_str("Surah ");
                                text.append(crate::text::u64_to_string(sn as u64).as_str());
                                proof {
                                    assert(text@ =~= "Surah "@ + crate::text::dec_digits(
                                        sn as nat,
                                    ));
                                }
                            },
                        }
                    },
                    None => {},
                }
            } else if crate::json::str_eq_str(row.2.as_str(), "ayah") && row.4 > 0 && row.5 > 0 {
                let tk = self.get_text_and_verses_for_word_range(row.4, row.5);
                text = tk.0;
                vkeys = tk.1;
            }
            proof {
                if !(rv.2 == "surah_name"@) {
                    assert(spec_header_for(rv, sv) =~= Seq::<
                        crate::structures::SurahHeaderV,
                    >::empty());
                }
                assert(headers.deep_view() =~= spec_headers_for(sorted.take(w + 1), sv));
                if rv.2 == "surah_name"@ || !(rv.2 == "ayah"@ && rv.4 > 0 && rv.5 > 0) {
                    assert(vkeys.deep_view() =~= Seq::<Seq<char>>::empty());
                }
            }
            let line = crate::structures::PageLine {
                line_number: row.1,
                line_type: row.2.clone(),
                text,
                is_centered: row.3,
                verse_keys: vkeys,
            };
            proof {
                assert(line@ == spec_line_for(rv, sv));
            }
            lines.push(line);
        }
        proof {
            assert(sorted.take(k as int) =~= sorted);
        }
        let page = crate::structures::RenderedPage { page_number: p, lines, surah_headers: headers };
        proof {
            lemma_lines_for_pointwise(sorted, sv);
            assert(page@.lines =~= spec_lines_for(sorted, sv));
            assert(page@ == spec_build_page(parsed, p, sv));
        }
        page
    }

    /// Groups the parsed layout rows by page number and builds each
    /// page, pages ascending, lines sorted by line number.
    #[verifier::loop_isolation(false)]
    pub fn parse_pages_from_database_rows(
        &self,
        rows: &Vec<PageRow>,
        surahs: &Vec<SurahInfo>,
    ) -> (r: Vec<crate::structures::RenderedPage>)
        ensures
            r.deep_view().len() == spec_sorted_pages(rows_dv(rows@)).len(),
            forall|q: int|
                0 <= q < r.deep_view().len() ==> r.deep_view()[q] == spec_build_page(
                    rows_dv(rows@),
                    spec_sorted_pages(rows_dv(rows@))[q],
                    surahs.deep_view(),
                ),
    {
        let ghost parsed = rows_dv(rows@);
        let ghost sv = surahs.deep_view();
        let n: usize = rows.len();
        let mut distinct: Vec<u16> = Vec::new();
        for i in 0..n
            invariant
                n == rows@.len(),
                parsed == rows_dv(rows@),
                distinct@ == spec_distinct_pages(parsed.take(i as int)),
            decreases n - i,
        {
            proof {
                assert(parsed.take(i + 1).drop_last() =~= parsed.take(i as int));
                assert(parsed.take(i + 1).last() == parsed[i as int]);
                assert(parsed[i as int].0 == rows@[i as int].0);
            }
            let page: u16 = rows[i].0;
            let mut seen: bool = false;
            let dn: usize = distinct.len();
            for q in 0..dn
                invariant
                    dn == distinct@.len(),
                    seen == exists|z: int| 0 <= z < q && distinct@[z] == page,
                decreases dn - q,
            {
                if distinct[q] == page {
                    seen = true;
                }
            }
            if !seen {
                distinct.push(page);
            }
        }
        proof {
            assert(parsed.take(n as int) =~= parsed);
        }
        let ghost d = spec_distinct_pages(parsed);
        proof {
            assert(distinct@ == d);
        }

        let dn: usize = distinct.len();
        let mut keys: Vec<u64> = Vec::new();
        for i in 0..dn
            invariant
                dn == distinct@.len(),
                distinct@ == d,
                keys@.len() == i,
                forall|q: int| 0 <= q < i ==> keys@[q] == d[q] as u64,
            decreases dn - i,
        {
            keys.push(distinct[i] as u64);
        }
        proof {
            assert(keys@ =~= spec_page_keys(d));
        }
        let order = crate::order::sort_order(&keys);
        let ghost pages_sorted = spec_sorted_pages(parsed);
        proof {
            assert(order@ == crate::order::spec_sort_order(spec_page_keys(d)));
            assert(pages_sorted == crate::order::spec_assemble(d, order@));
            crate::order::lemma_assemble_pointwise(d, order@);
            assert(pages_sorted.len() == order@.len());
        }

        let k: usize = order.len();
        let mut out: Vec<crate::structures::RenderedPage> = Vec::new();
        for w in 0..k
            invariant
                k == order@.len(),
                dn == distinct@.len(),
                distinct@ == d,
                parsed == rows_dv(rows@),
                sv == surahs.deep_view(),
                order@.len() == d.len(),
                forall|q: int| 0 <= q < k ==> (#[trigger] order@[q]).1 < dn,
                pages_sorted == spec_sorted_pages(parsed),
                pages_sorted.len() == order@.len(),
                forall|q: int|
                    0 <= q < pages_sorted.len() ==> pages_sorted[q] == d[(
                    #[trigger] order@[q]).1 as int],
                out@.len() == w,
                forall|q: int|
                    0 <= q < w ==> (#[trigger] out@[q])@ == spec_build_page(
                        parsed,
                        pages_sorted[q],
                        sv,
                    ),
            decreases k - w,
        {
            let idx: usize = order[w].1;
            let p: u16 = distinct[idx];
            proof {
                assert(pages_sorted[w as int] == d[idx as int]);
            }
            let page = self.build_page(rows, p, surahs);
            out.push(page);
        }
        proof {
            assert(out.deep_view().len() == pages_sorted.len());
        }
        out
    }

    /// The rendered pages of the layout database table.
    #[verifier::loop_isolation(false)]
    pub fn load_rendered_pages(&self, table: &JsonValue, surahs: &Vec<SurahInfo>) -> (r: Vec<
        crate::structures::RenderedPage,
    >)
        ensures
            r.deep_view() == spec_load_pages(*table, surahs.deep_view()),
    {
        let ghost f = |v: JsonValue| spec_parse_page_row(v);
        let ghost es = spec_layout_rows(*table);
        let raw = self.layout_rows(table);
        let n: usize = raw.len();
        let mut rows: Vec<PageRow> = Vec::new();
        proof {
            assert(rows_dv(rows@) =~= spec_collect(es.take(0), f));
        }
        for i in 0..n
            invariant
                n == raw@.len(),
                raw@.len() == es.len(),
                forall|j: int| 0 <= j < n ==> *(#[trigger] raw@[j]) == es[j],
                rows_dv(rows@) == spec_collect(es.take(i as int), f),
            decreases n - i,
        {
            proof {
                assert(es.take(i + 1).drop_last() =~= es.take(i as int));
                assert(es.take(i + 1).last() == es[i as int]);
            }
            let ghost prev = rows_dv(rows@);
            match self.parse_page_row(raw[i]) {
                Some(x) => {
                    let ghost xv = x.deep_view();
                    rows.push(x);
                    proof {
                        assert(rows_dv(rows@) =~= prev.push(xv));
                    }
                },
                None => {},
            }
        }
        proof {
            assert(es.take(n as int) =~= es);
            assert(rows_dv(rows@) == spec_parsed_rows(*table));
        }
        let pages = self.parse_pages_from_database_rows(&rows, surahs);
        proof {
            lemma_pages_built_pointwise(
                spec_sorted_pages(spec_parsed_rows(*table)),
                spec_parsed_rows(*table),
                surahs.deep_view(),
            );
            assert(pages.deep_view() =~= spec_load_pages(*table, surahs.deep_view()));
        }
        pages
    }
}

/// The raw texts of every source table, as the application hands them
/// to the loader.
pub struct SourceTexts {
    pub ayah_metadata: String,
    pub surah_names: String,
    pub surah_info: String,
    pub translation: String,
    pub transliteration: String,
    pub pages_layout: String,
    pub juz: String,
    pub hizb: String,
    pub rub: String,
    pub ruku: String,
    pub manzil: String,
    pub sajda: String,
    pub phrase_verses: String,
    pub matching_ayahs: String,
}

/// The JSON tree of a table text; a text that is not well-formed JSON
/// reads as `Null`, which every table parser maps to an empty
/// collection.
pub open spec fn spec_tree_of(s: Seq<char>) -> JsonValue {
    match crate::json::json_of(s) {
        Option::Some(t) => t,
        Option::None => JsonValue::Null,
    }
}

/// Whether a bundle holds exactly what loading the given source texts
/// yields.
pub open spec fn bundle_matches_sources(
    b: crate::bundle::QuranCoreDataBundle,
    src: SourceTexts,
) -> bool {
    &&& b.ayah_metadata.deep_view() == spec_load_ayah_metadata(spec_tree_of(src.ayah_metadata@))
    &&& b.surah_names.deep_view() == spec_load_surah_names(spec_tree_of(src.surah_names@))
    &&& b.surah_info.deep_view() == spec_load_surah_info(spec_tree_of(src.surah_info@))
    &&& b.indonesian_translation.deep_view() == spec_load_translation(
        spec_tree_of(src.translation@),
    )
    &&& b.transliteration.deep_view() == spec_load_transliteration(
        spec_tree_of(src.transliteration@),
    )
    &&& b.juz_info.deep_view() == spec_load_juz_info(spec_tree_of(src.juz@))
    &&& b.hizb_info.deep_view() == spec_load_hizb_info(spec_tree_of(src.hizb@))
    &&& b.ruku_info.deep_view() == spec_load_ruku_info(spec_tree_of(src.ruku@))
    &&& b.manzil_info.deep_view() == spec_load_manzil_info(spec_tree_of(src.manzil@))
    &&& b.sajda_info.deep_view() == spec_load_sajda_info(spec_tree_of(src.sajda@))
    &&& b.phrase_verses.deep_view() == spec_load_phrase_verses(spec_tree_of(src.phrase_verses@))
    &&& b.matching_ayahs.deep_view() == spec_load_matching_ayahs(
        spec_tree_of(src.matching_ayahs@),
    )
    &&& b.ayah_data.deep_view() == spec_load_ayah_data(
        spec_tree_of(src.ayah_metadata@),
        spec_load_translation(spec_tree_of(src.translation@)),
        spec_load_transliteration(spec_tree_of(src.transliteration@)),
        spec_load_juz_info(spec_tree_of(src.juz@)),
        spec_load_hizb_info(spec_tree_of(src.hizb@)),
        spec_load_rub_entries(spec_tree_of(src.rub@)),
        spec_load_ruku_info(spec_tree_of(src.ruku@)),
        spec_load_manzil_info(spec_tree_of(src.manzil@)),
        spec_tree_of(src.sajda@),
    )
    &&& b.rendered_pages.deep_view() == spec_load_pages(
        spec_tree_of(src.pages_layout@),
        spec_load_surah_info(spec_tree_of(src.surah_info@)),
    )
    &&& crate::structures::is_default_statistics(b.statistics)
}

impl DataLoader {
    /// Parses one table text, reading malformed JSON as a missing
    /// table.
    fn table_tree(&self, text: &str) -> (r: JsonValue)
        ensures
            r == spec_tree_of(text@),
    {
        match crate::json::parse_json(text) {
            Some(t) => t,
            None => JsonValue::Null,
        }
    }

    /// Loads every table and cross-references the verse records: the
    /// one-shot construction of the whole bundle from raw texts.
    pub fn load_all_data(&self, sources: &SourceTexts) -> (r: crate::bundle::QuranCoreDataBundle)
        ensures
            bundle_matches_sources(r, *sources),
    {
        let meta_tree = self.table_tree(sources.ayah_metadata.as_str());
        let names_tree = self.table_tree(sources.surah_names.as_str());
        let surah_tree = self.table_tree(sources.surah_info.as_str());
        let translation_tree = self.table_tree(sources.translation.as_str());
        let transliteration_tree = self.table_tree(sources.transliteration.as_str());
        let pages_tree = self.table_tree(sources.pages_layout.as_str());
        let juz_tree = self.table_tree(sources.juz.as_str());
        let hizb_tree = self.table_tree(sources.hizb.as_str());
        let rub_tree = self.table_tree(sources.rub.as_str());
        let ruku_tree = self.table_tree(sources.ruku.as_str());
        let manzil_tree = self.table_tree(sources.manzil.as_str());
        let sajda_tree = self.table_tree(sources.sajda.as_str());
        let phrase_tree = self.table_tree(sources.phrase_verses.as_str());
        let matching_tree = self.table_tree(sources.matching_ayahs.as_str());

        let ayah_metadata = self.load_ayah_metadata(&meta_tree);
        let surah_names = self.load_surah_names(&names_tree);
        let surah_info = self.load_surah_info(&surah_tree);
        let indonesian_translation = self.load_indonesian_translation(&translation_tree);
        let transliteration = self.load_transliteration(&transliteration_tree);
        let juz_info = self.load_juz_info(&juz_tree);
        let hizb_info = self.load_hizb_info(&hizb_tree);
        let rub_entries = self.load_rub_entries(&rub_tree);
        let ruku_info = self.load_ruku_info(&ruku_tree);
        let manzil_info = self.load_manzil_info(&manzil_tree);
        let sajda_info = self.load_sajda_info(&sajda_tree);
        let phrase_verses = self.load_phrase_verses(&phrase_tree);
        let matching_ayahs = self.load_matching_ayahs(&matching_tree);
        let ayah_data = self.load_ayah_data(
            &meta_tree,
            &indonesian_translation,
            &transliteration,
            &juz_info,
            &hizb_info,
            &rub_entries,
            &ruku_info,
            &manzil_info,
            &sajda_tree,
        );
        let rendered_pages = self.load_rendered_pages(&pages_tree, &surah_info);

        let bundle = crate::bundle::QuranCoreDataBundle {
            ayah_metadata,
            ayah_data,
            surah_names,
            surah_info,
            phrase_verses,
            matching_ayahs,
            indonesian_translation,
            transliteration,
            rendered_pages,
            juz_info,
            hizb_info,
            ruku_info,
            manzil_info,
            sajda_info,
            statistics: crate::structures::QuranStatistics::default(),
        };
        proof {
            assert(bundle.ayah_metadata.deep_view() == spec_load_ayah_metadata(
                spec_tree_of(sources.ayah_metadata@),
            ));
            assert(bundle.surah_names.deep_view() == spec_load_surah_names(
                spec_tree_of(sources.surah_names@),
            ));
            assert(bundle.surah_info.deep_view() == spec_load_surah_info(
                spec_tree_of(sources.surah_info@),
            ));
            assert(bundle.indonesian_translation.deep_view() == spec_load_translation(
                spec_tree_of(sources.translation@),
            ));
            assert(bundle.transliteration.deep_view() == spec_load_transliteration(
                spec_tree_of(sources.transliteration@),
            ));
            assert(bundle.juz_info.deep_view() == spec_load_juz_info(
                spec_tree_of(sources.juz@),
            ));
            assert(bundle.hizb_info.deep_view() == spec_load_hizb_info(
                spec_tree_of(sources.hizb@),
            ));
            assert(bundle.ruku_info.deep_view() == spec_load_ruku_info(
                spec_tree_of(sources.ruku@),
            ));
            assert(bundle.manzil_info.deep_view() == spec_load_manzil_info(
                spec_tree_of(sources.manzil@),
            ));
            assert(bundle.sajda_info.deep_view() == spec_load_sajda_info(
                spec_tree_of(sources.sajda@),
            ));
            assert(bundle.phrase_verses.deep_view() == spec_load_phrase_verses(
                spec_tree_of(sources.phrase_verses@),
            ));
            assert(bundle.matching_ayahs.deep_view() == spec_load_matching_ayahs(
                spec_tree_of(sources.matching_ayahs@),
            ));
            assert(bundle.rendered_pages.deep_view() =~= spec_load_pages(
                spec_tree_of(sources.pages_layout@),
                spec_load_surah_info(spec_tree_of(sources.surah_info@)),
            ));
            assert(crate::structures::is_default_statistics(bundle.statistics));
            assert(rub_entries.deep_view() =~= rub_entries@);
            assert(bundle.ayah_data.deep_view() == spec_load_ayah_data(
                spec_tree_of(sources.ayah_metadata@),
                spec_load_translation(spec_tree_of(sources.translation@)),
                spec_load_transliteration(spec_tree_of(sources.transliteration@)),
                spec_load_juz_info(spec_tree_of(sources.juz@)),
                spec_load_hizb_info(spec_tree_of(sources.hizb@)),
                spec_load_rub_entries(spec_tree_of(sources.rub@)),
                spec_load_ruku_info(spec_tree_of(sources.ruku@)),
                spec_load_manzil_info(spec_tree_of(sources.manzil@)),
                spec_tree_of(sources.sajda@),
            ));
        }
        bundle
    }
}

/// The translated or transliterated text stored for a verse key, if
/// any.
#[verifier::loop_isolation(false)]
pub(crate) fn lookup_pair<'a>(pairs: &'a Vec<(String, String)>, key: &str) -> (r: Option<
    &'a String,
>)
    ensures
        match r {
            Option::Some(t) => spec_lookup_pair(pairs.deep_view(), key@) == Option::Some(t@),
            Option::None => spec_lookup_pair(pairs.deep_view(), key@) is None,
        },
{
    let ghost dv = pairs.deep_view();
    let n: usize = pairs.len();
    proof {
        assert(dv.skip(0) =~= dv);
    }
    for i in 0..n
        invariant
            n == pairs@.len(),
            dv == pairs.deep_view(),
            dv.len() == n,
            spec_lookup_pair(dv, key@) == spec_lookup_pair(dv.skip(i as int), key@),
        decreases n - i,
    {
        proof {
            assert(dv.skip(i as int)[0] == dv[i as int]);
            assert(dv.skip(i as int).drop_first() =~= dv.skip(i + 1));
        }
        if crate::json::str_eq_str(pairs[i].0.as_str(), key) {
            return Some(&pairs[i].1);
        }
    }
    proof {
        assert(dv.skip(n as int) =~= Seq::<(Seq<char>, Seq<char>)>::empty());
    }
    None
}

} // verus!
