//! Lifecycle and read access: a context object holds the bundle once it
//! is loaded and validated, and every query reads through it.

use vstd::prelude::*;
use crate::bundle::{QuranCoreDataBundle, spec_find_ayah, spec_find_surah};
use crate::loader::{DataLoader, SourceTexts, bundle_matches_sources};
use crate::structures::{
    AyahData, SurahInfo, RenderedPage, RenderedPageV, PageLineV, QuranStatistics,
};
use crate::order::{spec_sort_order, sort_order, spec_assemble};

verus! {

/// The process-wide state, made explicit: the slot that holds the
/// bundle after a successful initialisation.
pub struct QuranContext {
    pub data: Option<QuranCoreDataBundle>,
}

/// Whether loading the given sources yields a bundle that passes
/// validation: at least one verse, at least one chapter, every verse's
/// chapter on record.
pub open spec fn sources_valid(src: SourceTexts) -> bool {
    let ayahs = crate::loader::spec_load_ayah_data(
        crate::loader::spec_tree_of(src.ayah_metadata@),
        crate::loader::spec_load_translation(crate::loader::spec_tree_of(src.translation@)),
        crate::loader::spec_load_transliteration(
            crate::loader::spec_tree_of(src.transliteration@),
        ),
        crate::loader::spec_load_juz_info(crate::loader::spec_tree_of(src.juz@)),
        crate::loader::spec_load_hizb_info(crate::loader::spec_tree_of(src.hizb@)),
        crate::loader::spec_load_rub_entries(crate::loader::spec_tree_of(src.rub@)),
        crate::loader::spec_load_ruku_info(crate::loader::spec_tree_of(src.ruku@)),
        crate::loader::spec_load_manzil_info(crate::loader::spec_tree_of(src.manzil@)),
        crate::loader::spec_tree_of(src.sajda@),
    );
    let surahs = crate::loader::spec_load_surah_info(
        crate::loader::spec_tree_of(src.surah_info@),
    );
    &&& ayahs.len() > 0
    &&& surahs.len() > 0
    &&& forall|i: int|
        0 <= i < ayahs.len() ==> exists|j: int|
            0 <= j < surahs.len() && (#[trigger] surahs[j]).id == (#[trigger] ayahs[i]).surah_number
}

impl QuranContext {
    /// A fresh, uninitialised context.
    pub fn new() -> (r: Self)
        ensures
            r.data is None,
    {
        QuranContext { data: None }
    }
}

/// Loads, validates and installs the bundle.  A second call on an
/// already initialised context is a successful no-op; a bundle that
/// fails validation leaves the context uninitialised.
pub fn initialize_data(ctx: &mut QuranContext, sources: &SourceTexts) -> (r: Result<(), String>)
    ensures
        old(ctx).data is Some ==> r is Ok && *final(ctx) == *old(ctx),
        old(ctx).data is None ==> {
            &&& (r is Ok <==> sources_valid(*sources))
            &&& (r is Ok ==> (final(ctx).data matches Option::Some(b) && bundle_matches_sources(
                b,
                *sources,
            )))
            &&& (r is Err ==> final(ctx).data is None)
        },
{
    if ctx.data.is_some() {
        return Ok(());
    }
    let loader = DataLoader;
    let bundle = loader.load_all_data(sources);
    proof {
        let dv = bundle.ayah_data.deep_view();
        assert(dv.len() == bundle.ayah_data@.len());
        assert forall|i: int| 0 <= i < bundle.ayah_data@.len() implies (
        #[trigger] bundle.ayah_data@[i])@ == dv[i] by {}
        let sv = bundle.surah_info.deep_view();
        assert(sv.len() == bundle.surah_info@.len());
        assert forall|j: int| 0 <= j < bundle.surah_info@.len() implies (
        #[trigger] bundle.surah_info@[j])@ == sv[j] by {}
    }
    match bundle.validate() {
        Ok(_) => {
            proof {
                let ayahs = bundle.ayah_data.deep_view();
                let surahs = bundle.surah_info.deep_view();
                assert forall|i: int| 0 <= i < ayahs.len() implies exists|j: int|
                    0 <= j < surahs.len() && (#[trigger] surahs[j]).id == (
                    #[trigger] ayahs[i]).surah_number by {
                    assert(crate::bundle::surah_exists(
                        bundle.surah_info@,
                        bundle.ayah_data@[i].surah_number,
                    ));
                    lemma_find_surah_index(bundle.surah_info@, bundle.ayah_data@[i].surah_number);
                    let j = choose|j: int|
                        0 <= j < bundle.surah_info@.len() && (
                        #[trigger] bundle.surah_info@[j]).id == bundle.ayah_data@[i].surah_number;
                    assert(surahs[j].id == ayahs[i].surah_number);
                }
            }
            ctx.data = Some(bundle);
            Ok(())
        },
        Err(e) => {
            proof {
                let ayahs = bundle.ayah_data.deep_view();
                let surahs = bundle.surah_info.deep_view();
                if ayahs.len() > 0 && surahs.len() > 0 {
                    let i = choose|i: int|
                        0 <= i < bundle.ayah_data@.len() && !crate::bundle::surah_exists(
                            bundle.surah_info@,
                            (#[trigger] bundle.ayah_data@[i]).surah_number,
                        );
                    if exists|j: int|
                        0 <= j < surahs.len() && (#[trigger] surahs[j]).id
                            == ayahs[i].surah_number {
                        let j = choose|j: int|
                            0 <= j < surahs.len() && (#[trigger] surahs[j]).id
                                == ayahs[i].surah_number;
                        lemma_find_surah_found(bundle.surah_info@, bundle.ayah_data@[i].surah_number, j);
                        assert(false);
                    }
                }
            }
            let mut msg = String::from_str("Data validation failed: ");
            msg.append(e.as_str());
            Err(msg)
        },
    }
}

/// A found chapter number has a witness index.
proof fn lemma_find_surah_index(surahs: Seq<SurahInfo>, n: u16)
    requires
        spec_find_surah(surahs, n) is Some,
    ensures
        exists|j: int| 0 <= j < surahs.len() && (#[trigger] surahs[j]).id == n,
    decreases surahs.len(),
{
    if surahs.len() > 0 {
        if surahs[0].id == n {
            assert(surahs[0].id == n);
        } else {
            lemma_find_surah_index(surahs.drop_first(), n);
            let j = choose|j: int|
                0 <= j < surahs.drop_first().len() && (#[trigger] surahs.drop_first()[j]).id == n;
            assert(surahs[j + 1].id == n);
        }
    }
}

/// A witness index makes the chapter lookup succeed.
proof fn lemma_find_surah_found(surahs: Seq<SurahInfo>, n: u16, j: int)
    requires
        0 <= j < surahs.len(),
        surahs[j].id == n,
    ensures
        spec_find_surah(surahs, n) is Some,
    decreases surahs.len(),
{
    if surahs.len() > 0 && surahs[0].id != n {
        assert(surahs.drop_first()[j - 1] == surahs[j]);
        lemma_find_surah_found(surahs.drop_first(), n, j - 1);
    }
}

/// Clears the context, for test isolation.
pub fn reset_data(ctx: &mut QuranContext)
    ensures
        final(ctx).data is None,
{
    ctx.data = None;
}

/// The installed bundle, if any.
pub fn get_data_bundle(ctx: &QuranContext) -> (r: Option<&QuranCoreDataBundle>)
    ensures
        match r {
            Option::Some(b) => ctx.data == Option::Some(*b),
            Option::None => ctx.data is None,
        },
{
    match &ctx.data {
        Some(b) => Some(b),
        None => None,
    }
}

/// The verse stored under the given key, owned.
pub fn get_ayah_data(ctx: &QuranContext, verse_key: &str) -> (r: Option<AyahData>)
    ensures
        r == match ctx.data {
            Option::Some(b) => spec_find_ayah(b.ayah_data@, verse_key@),
            Option::None => Option::<AyahData>::None,
        },
{
    match &ctx.data {
        Some(b) => match b.get_ayah_data(verse_key) {
            Some(a) => Some(a.clone()),
            None => None,
        },
        None => None,
    }
}

/// The chapter record numbered `surah_number`, owned.
pub fn get_surah_info(ctx: &QuranContext, surah_number: u16) -> (r: Option<SurahInfo>)
    ensures
        r == match ctx.data {
            Option::Some(b) => spec_find_surah(b.surah_info@, surah_number),
            Option::None => Option::<SurahInfo>::None,
        },
{
    match &ctx.data {
        Some(b) => match b.get_surah_info(surah_number) {
            Some(s) => Some(s.clone()),
            None => None,
        },
        None => None,
    }
}

/// All verses of the chapter, empty when uninitialised.
pub fn get_ayahs_by_surah(ctx: &QuranContext, surah_number: u16) -> (r: Vec<AyahData>)
    ensures
        r@ == match ctx.data {
            Option::Some(b) => b.ayah_data@.filter(|a: AyahData| a.surah_number == surah_number),
            Option::None => Seq::<AyahData>::empty(),
        },
{
    match &ctx.data {
        Some(b) => b.get_ayahs_by_surah(surah_number),
        None => Vec::new(),
    }
}

/// All verses of the thirty-part group, empty when uninitialised.
pub fn get_ayahs_by_juz(ctx: &QuranContext, juz_number: u8) -> (r: Vec<AyahData>)
    ensures
        r@ == match ctx.data {
            Option::Some(b) => b.ayah_data@.filter(|a: AyahData| a.juz_number == juz_number),
            Option::None => Seq::<AyahData>::empty(),
        },
{
    match &ctx.data {
        Some(b) => b.get_ayahs_by_juz(juz_number),
        None => Vec::new(),
    }
}

/// All verses of the derived page, empty when uninitialised.
pub fn get_ayahs_by_page(ctx: &QuranContext, page_number: u16) -> (r: Vec<AyahData>)
    ensures
        r@ == match ctx.data {
            Option::Some(b) => b.ayah_data@.filter(|a: AyahData| a.page_number == page_number),
            Option::None => Seq::<AyahData>::empty(),
        },
{
    match &ctx.data {
        Some(b) => b.get_ayahs_by_page(page_number),
        None => Vec::new(),
    }
}

/// The corpus statistics, when initialised.
pub fn get_quran_statistics(ctx: &QuranContext) -> (r: Option<QuranStatistics>)
    ensures
        match r {
            Option::Some(s) => ctx.data matches Option::Some(b) && s == b.statistics,
            Option::None => ctx.data is None,
        },
{
    match &ctx.data {
        Some(b) => Some(b.statistics.clone()),
        None => None,
    }
}

/// Every chapter record, in bundle order.
pub fn get_all_surahs(ctx: &QuranContext) -> (r: Vec<SurahInfo>)
    ensures
        r@ == match ctx.data {
            Option::Some(b) => b.surah_info@,
            Option::None => Seq::<SurahInfo>::empty(),
        },
{
    match &ctx.data {
        Some(b) => {
            let n: usize = b.surah_info.len();
            let mut out: Vec<SurahInfo> = Vec::new();
            for i in 0..n
                invariant
                    n == b.surah_info@.len(),
                    out@ == b.surah_info@.take(i as int),
                decreases n - i,
            {
                out.push(b.surah_info[i].clone());
                proof {
                    assert(out@ =~= b.surah_info@.take(i + 1));
                }
            }
            proof {
                assert(b.surah_info@.take(n as int) =~= b.surah_info@);
            }
            out
        },
        None => Vec::new(),
    }
}

/// One verse drawn at random from the bundle; `None` when the context
/// is uninitialised or the bundle holds no verses.
pub fn get_random_ayah(ctx: &QuranContext) -> (r: Option<AyahData>)
    ensures
        match ctx.data {
            Option::Some(b) => if b.ayah_data@.len() > 0 {
                r matches Option::Some(a) && exists|i: int|
                    0 <= i < b.ayah_data@.len() && a == b.ayah_data@[i]
            } else {
                r is None
            },
            Option::None => r is None,
        },
{
    match &ctx.data {
        Some(b) => {
            let n: usize = b.ayah_data.len();
            if n == 0 {
                return None;
            }
            let idx = random_below(n);
            Some(b.ayah_data[idx].clone())
        },
        None => None,
    }
}

/// The first stored page numbered `n`, if any.
pub open spec fn spec_find_page(pages: Seq<RenderedPage>, n: u16) -> Option<RenderedPage>
    decreases pages.len(),
{
    if pages.len() == 0 {
        Option::None
    } else if pages[0].page_number == n {
        Option::Some(pages[0])
    } else {
        spec_find_page(pages.drop_first(), n)
    }
}

/// The greatest stored page number, or 604 when no page is stored.
pub open spec fn spec_max_page(pages: Seq<RenderedPage>) -> u16
    decreases pages.len(),
{
    if pages.len() == 0 {
        604
    } else {
        let rest = spec_max_page(pages.drop_last());
        if pages.len() == 1 {
            pages[0].page_number
        } else if pages.last().page_number > rest {
            pages.last().page_number
        } else {
            rest
        }
    }
}

/// The rendered page numbered `page_number`, owned.
#[verifier::loop_isolation(false)]
pub fn get_page_data(ctx: &QuranContext, page_number: u16) -> (r: Option<RenderedPage>)
    ensures
        match ctx.data {
            Option::Some(b) => match spec_find_page(b.rendered_pages@, page_number) {
                Option::Some(p) => r matches Option::Some(rp) && rp@ == p@,
                Option::None => r is None,
            },
            Option::None => r is None,
        },
{
    match &ctx.data {
        Some(b) => {
            let n: usize = b.rendered_pages.len();
            proof {
                assert(b.rendered_pages@.skip(0) =~= b.rendered_pages@);
            }
            for i in 0..n
                invariant
                    spec_find_page(b.rendered_pages@, page_number) == spec_find_page(
                        b.rendered_pages@.skip(i as int),
                        page_number,
                    ),
                decreases n - i,
            {
                proof {
                    assert(b.rendered_pages@.skip(i as int)[0] == b.rendered_pages@[i as int]);
                    assert(b.rendered_pages@.skip(i as int).drop_first()
                        =~= b.rendered_pages@.skip(i + 1));
                }
                if b.rendered_pages[i].page_number == page_number {
                    let c = b.rendered_pages[i].clone();
                    proof {
                        crate::structures::lemma_page_eqv_view(c, b.rendered_pages@[i as int]);
                    }
                    return Some(c);
                }
            }
            proof {
                assert(b.rendered_pages@.skip(n as int) =~= Seq::<RenderedPage>::empty());
            }
            None
        },
        None => None,
    }
}

/// The number of pages: the greatest stored page number, 604 when no
/// layout was loaded, 0 when uninitialised.
#[verifier::loop_isolation(false)]
pub fn get_total_pages(ctx: &QuranContext) -> (r: u16)
    ensures
        r == match ctx.data {
            Option::Some(b) => spec_max_page(b.rendered_pages@),
            Option::None => 0u16,
        },
{
    match &ctx.data {
        Some(b) => {
            let n: usize = b.rendered_pages.len();
            if n == 0 {
                return 604;
            }
            let mut best: u16 = b.rendered_pages[0].page_number;
            proof {
                assert(b.rendered_pages@.take(1).drop_last() =~= b.rendered_pages@.take(0));
                assert(spec_max_page(b.rendered_pages@.take(1)) == best);
            }
            for i in 1..n
                invariant
                    1 <= i <= n,
                    best == spec_max_page(b.rendered_pages@.take(i as int)),
                decreases n - i,
            {
                proof {
                    assert(b.rendered_pages@.take(i + 1).drop_last() =~= b.rendered_pages@.take(
                        i as int,
                    ));
                    assert(b.rendered_pages@.take(i + 1).last() == b.rendered_pages@[i as int]);
                }
                if b.rendered_pages[i].page_number > best {
                    best = b.rendered_pages[i].page_number;
                }
            }
            proof {
                assert(b.rendered_pages@.take(n as int) =~= b.rendered_pages@);
            }
            best
        },
        None => 0,
    }
}

/// The stored pages whose number lies in the inclusive range, in store
/// order.
#[verifier::loop_isolation(false)]
pub fn get_pages_range(ctx: &QuranContext, start_page: u16, end_page: u16) -> (r: Vec<
    RenderedPage,
>)
    ensures
        match ctx.data {
            Option::Some(b) => {
                let f = b.rendered_pages@.filter(
                    |p: RenderedPage| start_page <= p.page_number <= end_page,
                );
                r@.len() == f.len() && forall|i: int| 0 <= i < f.len() ==> (#[trigger] r@[i])@
                    == f[i]@
            },
            Option::None => r@ == Seq::<RenderedPage>::empty(),
        },
{
    match &ctx.data {
        Some(b) => {
            let n: usize = b.rendered_pages.len();
            let ghost pred = |p: RenderedPage| start_page <= p.page_number <= end_page;
            let mut out: Vec<RenderedPage> = Vec::new();
            for i in 0..n
                invariant
                    n == b.rendered_pages@.len(),
                    out@.len() == b.rendered_pages@.take(i as int).filter(pred).len(),
                    forall|q: int|
                        0 <= q < out@.len() ==> (#[trigger] out@[q])@ == b.rendered_pages@.take(
                            i as int,
                        ).filter(pred)[q]@,
                decreases n - i,
            {
                proof {
                    assert(b.rendered_pages@.take(i + 1).drop_last() =~= b.rendered_pages@.take(
                        i as int,
                    ));
                    assert(b.rendered_pages@.take(i + 1).last() == b.rendered_pages@[i as int]);
                    reveal(Seq::filter);
                }
                let p = &b.rendered_pages[i];
                if start_page <= p.page_number && p.page_number <= end_page {
                    let c = p.clone();
                    proof {
                        crate::structures::lemma_page_eqv_view(c, b.rendered_pages@[i as int]);
                    }
                    out.push(c);
                }
            }
            proof {
                assert(b.rendered_pages@.take(n as int) =~= b.rendered_pages@);
            }
            out
        },
        None => Vec::new(),
    }
}

/// Whether a rendered line lists the verse key.
pub open spec fn line_has_key(l: PageLineV, key: Seq<char>) -> bool {
    exists|j: int| 0 <= j < l.verse_keys.len() && l.verse_keys[j] == key
}

/// Whether a page has a line listing the verse key.
pub open spec fn page_has_key(p: RenderedPageV, key: Seq<char>) -> bool {
    exists|i: int| 0 <= i < p.lines.len() && line_has_key(#[trigger] p.lines[i], key)
}

/// The number of the first stored page with a line listing the key.
pub open spec fn spec_page_containing(pages: Seq<RenderedPage>, key: Seq<char>) -> Option<u16>
    decreases pages.len(),
{
    if pages.len() == 0 {
        Option::None
    } else if page_has_key(pages[0]@, key) {
        Option::Some(pages[0].page_number)
    } else {
        spec_page_containing(pages.drop_first(), key)
    }
}

/// The page whose layout shows the verse, by recorded line membership.
#[verifier::loop_isolation(false)]
pub fn get_page_containing_verse(ctx: &QuranContext, verse_key: &str) -> (r: Option<u16>)
    ensures
        r == match ctx.data {
            Option::Some(b) => spec_page_containing(b.rendered_pages@, verse_key@),
            Option::None => Option::<u16>::None,
        },
{
    match &ctx.data {
        Some(b) => {
            let n: usize = b.rendered_pages.len();
            proof {
                assert(b.rendered_pages@.skip(0) =~= b.rendered_pages@);
            }
            for i in 0..n
                invariant
                    spec_page_containing(b.rendered_pages@, verse_key@) == spec_page_containing(
                        b.rendered_pages@.skip(i as int),
                        verse_key@,
                    ),
                decreases n - i,
            {
                proof {
                    assert(b.rendered_pages@.skip(i as int)[0] == b.rendered_pages@[i as int]);
                    assert(b.rendered_pages@.skip(i as int).drop_first()
                        =~= b.rendered_pages@.skip(i + 1));
                }
                let page = &b.rendered_pages[i];
                let ghost pv = page@;
                let ln: usize = page.lines.len();
                let mut hit: bool = false;
                for l in 0..ln
                    invariant
                        ln == page.lines@.len(),
                        pv == page@,
                        hit == exists|z: int|
                            0 <= z < l && line_has_key(#[trigger] pv.lines[z], verse_key@),
                    decreases ln - l,
                {
                    let line = &page.lines[l];
                    let kn: usize = line.verse_keys.len();
                    let mut line_hit: bool = false;
                    for q in 0..kn
                        invariant
                            kn == line.verse_keys@.len(),
                            line_hit == exists|z: int|
                                0 <= z < q && (#[trigger] line.verse_keys@[z])@ == verse_key@,
                        decreases kn - q,
                    {
                        if crate::json::str_eq_str(line.verse_keys[q].as_str(), verse_key) {
                            line_hit = true;
                        }
                    }
                    proof {
                        assert(pv.lines[l as int] == page.lines@[l as int]@);
                        assert(pv.lines[l as int].verse_keys.len() == line.verse_keys@.len());
                        assert forall|z: int| 0 <= z < kn implies pv.lines[l as int].verse_keys[z]
                            == (#[trigger] line.verse_keys@[z])@ by {}
                        assert(line_hit == line_has_key(pv.lines[l as int], verse_key@));
                    }
                    if line_hit {
                        hit = true;
                    }
                }
                if hit {
                    return Some(page.page_number);
                }
                proof {
                    assert(!page_has_key(pv, verse_key@));
                }
            }
            proof {
                assert(b.rendered_pages@.skip(n as int) =~= Seq::<RenderedPage>::empty());
            }
            None
        },
        None => None,
    }
}

/// The verse keys a page's lines list, in line order.
pub open spec fn spec_page_key_list(lines: Seq<PageLineV>) -> Seq<Seq<char>>
    decreases lines.len(),
{
    if lines.len() == 0 {
        Seq::empty()
    } else {
        spec_page_key_list(lines.drop_last()) + lines.last().verse_keys
    }
}

/// The keys with later duplicates dropped.
pub open spec fn spec_dedup_keys(keys: Seq<Seq<char>>) -> Seq<Seq<char>>
    decreases keys.len(),
{
    if keys.len() == 0 {
        Seq::empty()
    } else {
        let rest = spec_dedup_keys(keys.drop_last());
        if rest.contains(keys.last()) {
            rest
        } else {
            rest.push(keys.last())
        }
    }
}

/// The numeric rank a verse key sorts by: chapter then verse, with
/// unparseable keys first.
pub open spec fn spec_key_rank(k: Seq<char>) -> u64 {
    match crate::text::spec_parse_verse_key(k) {
        Option::Some((c, v)) => ((c as u64) * 65536 + (v as u64)) as u64,
        Option::None => 0,
    }
}

/// The ranks of a key list.
pub open spec fn spec_key_ranks(keys: Seq<Seq<char>>) -> Seq<u64> {
    Seq::new(keys.len(), |i: int| spec_key_rank(keys[i]))
}

/// The distinct verse keys of a page, sorted by chapter and verse.
pub open spec fn spec_verses_in_page(lines: Seq<PageLineV>) -> Seq<Seq<char>> {
    let d = spec_dedup_keys(spec_page_key_list(lines));
    spec_assemble(d, spec_sort_order(spec_key_ranks(d)))
}

/// The distinct verse keys that the page's lines cover, sorted by
/// chapter and verse; empty when the page is not stored or the context
/// uninitialised.
#[verifier::loop_isolation(false)]
#[verifier::rlimit(60)]
pub fn get_verses_in_page(ctx: &QuranContext, page_number: u16) -> (r: Vec<String>)
    ensures
        r.deep_view() == match ctx.data {
            Option::Some(b) => match spec_find_page(b.rendered_pages@, page_number) {
                Option::Some(p) => spec_verses_in_page(p@.lines),
                Option::None => Seq::<Seq<char>>::empty(),
            },
            Option::None => Seq::<Seq<char>>::empty(),
        },
{
    let mut out: Vec<String> = Vec::new();
    match get_page_data(ctx, page_number) {
        Some(page) => {
            let ghost lines = page@.lines;
            let ln: usize = page.lines.len();
            let mut all: Vec<String> = Vec::new();
            proof {
                assert(all.deep_view() =~= spec_page_key_list(lines.take(0)));
            }
            for l in 0..ln
                invariant
                    ln == page.lines@.len(),
                    lines == page@.lines,
                    all.deep_view() == spec_page_key_list(lines.take(l as int)),
                decreases ln - l,
            {
                proof {
                    assert(lines.take(l + 1).drop_last() =~= lines.take(l as int));
                    assert(lines.take(l + 1).last() == lines[l as int]);
                    assert(lines[l as int] == page.lines@[l as int]@);
                }
                let line = &page.lines[l];
                let kn: usize = line.verse_keys.len();
                for q in 0..kn
                    invariant
                        kn == line.verse_keys@.len(),
                        lines[l as int] == page.lines@[l as int]@,
                        line == page.lines@[l as int],
                        all.deep_view() == spec_page_key_list(lines.take(l as int))
                            + lines[l as int].verse_keys.take(q as int),
                    decreases kn - q,
                {
                    let ghost prev = all.deep_view();
                    let k = line.verse_keys[q].clone();
                    let ghost kv = k@;
                    all.push(k);
                    proof {
                        assert(all.deep_view() =~= prev.push(kv));
                        assert(lines[l as int].verse_keys.take(q + 1) =~= lines[
                            l as int
                        ].verse_keys.take(q as int).push(kv));
                        assert(all.deep_view() =~= spec_page_key_list(lines.take(l as int))
                            + lines[l as int].verse_keys.take(q + 1));
                    }
                }
                proof {
                    assert(lines[l as int].verse_keys.take(kn as int) =~= lines[
                        l as int
                    ].verse_keys);
                    assert(all.deep_view() =~= spec_page_key_list(lines.take(l + 1)));
                }
            }
            proof {
                assert(lines.take(ln as int) =~= lines);
            }
            let ghost allk = spec_page_key_list(lines);

            // drop duplicate keys, keeping first appearances
            let an: usize = all.len();
            let mut distinct: Vec<String> = Vec::new();
            proof {
                assert(distinct.deep_view() =~= spec_dedup_keys(allk.take(0)));
            }
            for i in 0..an
                invariant
                    an == all@.len(),
                    all.deep_view() == allk,
                    allk.len() == an,
                    distinct.deep_view() == spec_dedup_keys(allk.take(i as int)),
                decreases an - i,
            {
                proof {
                    assert(allk.take(i + 1).drop_last() =~= allk.take(i as int));
                    assert(allk.take(i + 1).last() == allk[i as int]);
                    assert(allk[i as int] == all@[i as int]@);
                }
                let dn: usize = distinct.len();
                let mut seen: bool = false;
                for q in 0..dn
                    invariant
                        dn == distinct@.len(),
                        distinct.deep_view().len() == dn,
                        forall|z: int|
                            0 <= z < dn ==> (#[trigger] distinct@[z])@ == distinct.deep_view()[z],
                        seen == exists|z: int|
                            0 <= z < q && distinct.deep_view()[z] == all@[i as int]@,
                    decreases dn - q,
                {
                    if crate::json::str_eq_str(distinct[q].as_str(), all[i].as_str()) {
                        seen = true;
                    }
                }
                let ghost prev = distinct.deep_view();
                if !seen {
                    let k = all[i].clone();
                    let ghost kv = k@;
                    distinct.push(k);
                    proof {
                        assert(distinct.deep_view() =~= prev.push(kv));
                    }
                }
            }
            proof {
                assert(allk.take(an as int) =~= allk);
            }
            let ghost d = spec_dedup_keys(allk);

            // sort by chapter and verse
            let dn: usize = distinct.len();
            let mut keys: Vec<u64> = Vec::new();
            for i in 0..dn
                invariant
                    dn == distinct@.len(),
                    distinct.deep_view() == d,
                    d.len() == dn,
                    keys@.len() == i,
                    forall|q: int| 0 <= q < i ==> keys@[q] == spec_key_rank(d[q]),
                decreases dn - i,
            {
                proof {
                    assert(d[i as int] == distinct@[i as int]@);
                }
                let rank: u64 = match crate::text::parse_verse_key(distinct[i].as_str()) {
                    Some((c, v)) => (c as u64) * 65536 + (v as u64),
                    None => 0,
                };
                keys.push(rank);
            }
            proof {
                assert(keys@ =~= spec_key_ranks(d));
            }
            let order = sort_order(&keys);
            proof {
                crate::order::lemma_assemble_pointwise(d, order@);
            }
            let k: usize = order.len();
            for w in 0..k
                invariant
                    k == order@.len(),
                    dn == distinct@.len(),
                    distinct.deep_view() == d,
                    d.len() == dn,
                    order@ == spec_sort_order(spec_key_ranks(d)),
                    order@.len() == d.len(),
                    forall|q: int| 0 <= q < k ==> (#[trigger] order@[q]).1 < dn,
                    out@.len() == w,
                    forall|q: int|
                        0 <= q < w ==> (#[trigger] out@[q])@ == spec_assemble(d, order@)[q],
                decreases k - w,
            {
                let idx: usize = order[w].1;
                out.push(distinct[idx].clone());
                proof {
                    assert(d[idx as int] == distinct@[idx as int]@);
                }
            }
            proof {
                assert(out.deep_view() =~= spec_assemble(d, order@));
            }
            out
        },
        None => {
            proof {
                assert(out.deep_view() =~= Seq::<Seq<char>>::empty());
            }
            out
        },
    }
}

/// Relies on `rand::rng` and `Rng::random_range`: a uniformly drawn
/// index strictly below `n`.
#[verifier::external_body]
fn random_below(n: usize) -> (r: usize)
    requires
        n > 0,
    ensures
        r < n,
{
    rand::Rng::random_range(&mut rand::rng(), 0..n)
}

} // verus!
