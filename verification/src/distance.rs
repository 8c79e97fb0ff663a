//! Edit distance over Unicode scalar sequences and the derived
//! similarity scores used by fuzzy search.
//!
//! Similarities are fixed-point numbers scaled by [`SIM_SCALE`]: the
//! value `1_000_000` stands for a perfect match.

use vstd::prelude::*;

verus! {

/// Fixed-point scale of similarity scores: this value stands for 1.0.
pub const SIM_SCALE: u64 = 1000000;

/// Scaled threshold above which a token pair counts as matched; stands
/// for a similarity of 0.6.
pub const MATCH_THRESHOLD: u64 = 600000;

pub open spec fn min3(a: nat, b: nat, c: nat) -> nat {
    if a <= b && a <= c {
        a
    } else if b <= c {
        b
    } else {
        c
    }
}

/// Classic edit distance: least number of character insertions,
/// deletions and substitutions turning `s` into `t`.
pub open spec fn spec_levenshtein(s: Seq<char>, t: Seq<char>) -> nat
    decreases s.len(), t.len(),
{
    if s.len() == 0 {
        t.len()
    } else if t.len() == 0 {
        s.len()
    } else {
        let cost: nat = if s.last() == t.last() {
            0
        } else {
            1
        };
        min3(
            spec_levenshtein(s.drop_last(), t) + 1,
            spec_levenshtein(s, t.drop_last()) + 1,
            spec_levenshtein(s.drop_last(), t.drop_last()) + cost,
        )
    }
}

/// The distance never exceeds the longer length.
pub proof fn lemma_levenshtein_le_max(s: Seq<char>, t: Seq<char>)
    ensures
        spec_levenshtein(s, t) <= if s.len() >= t.len() {
            s.len()
        } else {
            t.len()
        },
    decreases s.len(), t.len(),
{
    if s.len() == 0 || t.len() == 0 {
    } else {
        lemma_levenshtein_le_max(s.drop_last(), t.drop_last());
    }
}

/// The distance from a text to itself is zero.
pub proof fn lemma_levenshtein_self(s: Seq<char>)
    ensures
        spec_levenshtein(s, s) == 0,
    decreases s.len(),
{
    if s.len() > 0 {
        lemma_levenshtein_self(s.drop_last());
    }
}

/// The distance is symmetric in its arguments.
pub proof fn lemma_levenshtein_symmetric(s: Seq<char>, t: Seq<char>)
    ensures
        spec_levenshtein(s, t) == spec_levenshtein(t, s),
    decreases s.len() + t.len(),
{
    if s.len() > 0 && t.len() > 0 {
        lemma_levenshtein_symmetric(s.drop_last(), t);
        lemma_levenshtein_symmetric(s, t.drop_last());
        lemma_levenshtein_symmetric(s.drop_last(), t.drop_last());
    }
}

/// Edit distance between the character sequences of the two texts,
/// computed with the full dynamic-programming table.
pub fn levenshtein_distance(s1: &str, s2: &str) -> (r: usize)
    ensures
        r == spec_levenshtein(s1@, s2@),
{
    let chars1 = crate::text::str_chars(s1);
    let chars2 = crate::text::str_chars(s2);
    let len1: usize = chars1.len();
    let len2: usize = chars2.len();
    let mut matrix: Vec<Vec<usize>> = Vec::new();

    let mut row0: Vec<usize> = Vec::new();
    row0.push(0);
    for j in 0..len2
        invariant
            len2 == chars2@.len(),
            chars2@ == s2@,
            row0@.len() == j + 1,
            forall|q: int| 0 <= q <= j ==> row0@[q] == q,
        decreases len2 - j,
    {
        row0.push(j + 1);
    }
    proof {
        assert forall|q: int| 0 <= q <= len2 implies spec_levenshtein(
            s1@.take(0),
            s2@.take(q),
        ) == q by {
            assert(s1@.take(0).len() == 0);
        }
    }
    matrix.push(row0);

    for i0 in 0..len1
        invariant
            len1 == chars1@.len(),
            len2 == chars2@.len(),
            chars1@ == s1@,
            chars2@ == s2@,
            matrix@.len() == i0 + 1,
            forall|p: int| 0 <= p <= i0 ==> #[trigger] matrix@[p]@.len() == len2 + 1,
            forall|p: int, q: int|
                0 <= p <= i0 && 0 <= q <= len2 ==> #[trigger] matrix@[p]@[q] == spec_levenshtein(
                    s1@.take(p),
                    s2@.take(q),
                ),
        decreases len1 - i0,
    {
        let i: usize = i0 + 1;
        let mut row: Vec<usize> = Vec::new();
        row.push(i);
        proof {
            assert(s2@.take(0).len() == 0);
            assert(s1@.take(i as int).len() == i);
            assert(spec_levenshtein(s1@.take(i as int), s2@.take(0)) == i);
        }
        for j0 in 0..len2
            invariant
                len1 == chars1@.len(),
                len2 == chars2@.len(),
                chars1@ == s1@,
                chars2@ == s2@,
                1 <= i <= len1,
                i == i0 + 1,
                matrix@.len() == i,
                forall|p: int| 0 <= p < i ==> #[trigger] matrix@[p]@.len() == len2 + 1,
                forall|p: int, q: int|
                    0 <= p < i && 0 <= q <= len2 ==> #[trigger] matrix@[p]@[q] == spec_levenshtein(
                        s1@.take(p),
                        s2@.take(q),
                    ),
                row@.len() == j0 + 1,
                forall|q: int|
                    0 <= q <= j0 ==> #[trigger] row@[q] == spec_levenshtein(
                        s1@.take(i as int),
                        s2@.take(q),
                    ),
            decreases len2 - j0,
        {
            let j: usize = j0 + 1;
            let cost: usize = if chars1[i - 1] == chars2[j - 1] {
                0
            } else {
                1
            };
            let up: usize = matrix[i - 1][j];
            let left: usize = row[j - 1];
            let diag_base: usize = matrix[i - 1][j - 1];
            proof {
                let a = s1@.take(i as int);
                let b = s2@.take(j as int);
                assert(a.drop_last() =~= s1@.take(i - 1));
                assert(b.drop_last() =~= s2@.take(j - 1));
                assert(a.last() == s1@[i - 1]);
                assert(b.last() == s2@[j - 1]);
                lemma_levenshtein_le_max(a.drop_last(), b.drop_last());
                assert(diag_base + cost <= if a.drop_last().len() >= b.drop_last().len() {
                    a.drop_last().len() + 1
                } else {
                    b.drop_last().len() + 1
                });
            }
            let diag: usize = diag_base + cost;
            let md: usize = if up < left {
                up
            } else {
                left
            };
            let val: usize = if md < diag {
                md + 1
            } else {
                diag
            };
            proof {
                let a = s1@.take(i as int);
                let b = s2@.take(j as int);
                assert(spec_levenshtein(a, b) == min3(
                    spec_levenshtein(a.drop_last(), b) + 1,
                    spec_levenshtein(a, b.drop_last()) + 1,
                    spec_levenshtein(a.drop_last(), b.drop_last()) + (if a.last() == b.last() {
                        0nat
                    } else {
                        1nat
                    }),
                ));
                assert(val == spec_levenshtein(a, b));
            }
            row.push(val);
        }
        matrix.push(row);
    }
    proof {
        assert(s1@.take(len1 as int) =~= s1@);
        assert(s2@.take(len2 as int) =~= s2@);
    }
    matrix[len1][len2]
}

/// Scaled similarity of two texts: `SIM_SCALE * (max_len - distance) /
/// max_len`, and zero when either text is empty.
pub open spec fn spec_similarity(s: Seq<char>, t: Seq<char>) -> nat {
    if s.len() == 0 || t.len() == 0 {
        0
    } else {
        let max_len = if s.len() >= t.len() {
            s.len()
        } else {
            t.len()
        };
        (((max_len - spec_levenshtein(s, t)) as nat) * (SIM_SCALE as nat)) / (max_len as nat)
    }
}

/// A similarity never exceeds the scale.
pub proof fn lemma_similarity_le_scale(s: Seq<char>, t: Seq<char>)
    ensures
        spec_similarity(s, t) <= SIM_SCALE,
{
    if s.len() == 0 || t.len() == 0 {
    } else {
        let max_len = if s.len() >= t.len() {
            s.len()
        } else {
            t.len()
        };
        lemma_levenshtein_le_max(s, t);
        let num = (max_len - spec_levenshtein(s, t)) as nat;
        assert(num <= max_len);
        assert(num * SIM_SCALE as nat <= max_len * SIM_SCALE as nat) by (nonlinear_arith)
            requires
                num <= max_len,
        ;
        assert(max_len * SIM_SCALE as nat / max_len as nat == SIM_SCALE) by (nonlinear_arith)
            requires
                max_len >= 1,
        ;
        assert(num * SIM_SCALE as nat / max_len as nat <= max_len * SIM_SCALE as nat
            / max_len as nat) by (nonlinear_arith)
            requires
                num * SIM_SCALE as nat <= max_len * SIM_SCALE as nat,
                max_len >= 1,
        ;
    }
}

/// Scaled similarity of two texts, from their edit distance.
pub fn string_similarity(s1: &str, s2: &str) -> (r: u64)
    ensures
        r == spec_similarity(s1@, s2@),
{
    let chars1 = crate::text::str_chars(s1);
    let chars2 = crate::text::str_chars(s2);
    let len1: usize = chars1.len();
    let len2: usize = chars2.len();
    if len1 == 0 || len2 == 0 {
        return 0;
    }
    let max_len: usize = if len1 >= len2 {
        len1
    } else {
        len2
    };
    let d: usize = levenshtein_distance(s1, s2);
    proof {
        lemma_levenshtein_le_max(s1@, s2@);
    }
    let num: u64 = (max_len - d) as u64;
    let wide: u128 = (num as u128) * (SIM_SCALE as u128);
    let q: u128 = wide / (max_len as u128);
    proof {
        let numn = num as nat;
        let maxn = max_len as nat;
        assert(numn * SIM_SCALE as nat <= maxn * SIM_SCALE as nat) by (nonlinear_arith)
            requires
                numn <= maxn,
        ;
        assert(maxn * SIM_SCALE as nat / maxn == SIM_SCALE) by (nonlinear_arith)
            requires
                maxn >= 1,
        ;
        assert(numn * SIM_SCALE as nat / maxn <= maxn * SIM_SCALE as nat / maxn) by (
        nonlinear_arith)
            requires
                numn * SIM_SCALE as nat <= maxn * SIM_SCALE as nat,
                maxn >= 1,
        ;
        assert(q <= SIM_SCALE);
    }
    q as u64
}

/// Best scaled similarity between a query token and any candidate token;
/// zero when there are no candidates.
pub open spec fn spec_best_match(qw: Seq<char>, words: Seq<Seq<char>>) -> nat
    decreases words.len(),
{
    if words.len() == 0 {
        0
    } else {
        let rest = spec_best_match(qw, words.drop_last());
        let cur = spec_similarity(qw, words.last());
        if cur > rest {
            cur
        } else {
            rest
        }
    }
}

/// Sum of the best-match similarities of the query tokens whose best
/// match exceeds the threshold.
pub open spec fn spec_matched_sum(qwords: Seq<Seq<char>>, awords: Seq<Seq<char>>) -> nat
    decreases qwords.len(),
{
    if qwords.len() == 0 {
        0
    } else {
        let best = spec_best_match(qwords.last(), awords);
        spec_matched_sum(qwords.drop_last(), awords) + (if best > MATCH_THRESHOLD {
            best
        } else {
            0
        })
    }
}

/// Number of query tokens whose best match exceeds the threshold.
pub open spec fn spec_matched_count(qwords: Seq<Seq<char>>, awords: Seq<Seq<char>>) -> nat
    decreases qwords.len(),
{
    if qwords.len() == 0 {
        0
    } else {
        let best = spec_best_match(qwords.last(), awords);
        spec_matched_count(qwords.drop_last(), awords) + (if best > MATCH_THRESHOLD {
            1nat
        } else {
            0
        })
    }
}

/// Fuzzy score of a candidate: the mean scaled similarity of the matched
/// query tokens, zero when none matched.
pub open spec fn spec_fuzzy_score(qwords: Seq<Seq<char>>, awords: Seq<Seq<char>>) -> nat {
    if spec_matched_count(qwords, awords) == 0 {
        0
    } else {
        spec_matched_sum(qwords, awords) / spec_matched_count(qwords, awords)
    }
}

proof fn lemma_best_match_le_scale(qw: Seq<char>, words: Seq<Seq<char>>)
    ensures
        spec_best_match(qw, words) <= SIM_SCALE,
    decreases words.len(),
{
    if words.len() > 0 {
        lemma_best_match_le_scale(qw, words.drop_last());
        lemma_similarity_le_scale(qw, words.last());
    }
}

/// The fuzzy score of the query tokens against the candidate tokens.
pub(crate) fn calculate_fuzzy_score(query_words: &Vec<String>, ayah_words: &Vec<String>) -> (r:
    u64)
    ensures
        r == spec_fuzzy_score(query_words.deep_view(), ayah_words.deep_view()),
        r <= SIM_SCALE,
{
    let ghost qs = query_words.deep_view();
    let ghost ws = ayah_words.deep_view();
    let mut total: u128 = 0;
    let mut matches: usize = 0;
    let qn: usize = query_words.len();
    for i in 0..qn
        invariant
            qn == query_words@.len(),
            qs == query_words.deep_view(),
            ws == ayah_words.deep_view(),
            total == spec_matched_sum(qs.take(i as int), ws),
            matches == spec_matched_count(qs.take(i as int), ws),
            matches <= i,
            total <= matches * SIM_SCALE,
    {
        let qw: &String = &query_words[i];
        proof {
            assert(qs[i as int] == query_words@[i as int]@);
        }
        let mut best: u64 = 0;
        let an: usize = ayah_words.len();
        for k in 0..an
            invariant
                an == ayah_words@.len(),
                ws == ayah_words.deep_view(),
                qw@ == qs[i as int],
                i < qn,
                best == spec_best_match(qs[i as int], ws.take(k as int)),
                best <= SIM_SCALE,
        {
            proof {
                assert(ws[k as int] == ayah_words@[k as int]@);
                assert(ws.take(k + 1).drop_last() =~= ws.take(k as int));
                assert(ws.take(k + 1).last() == ws[k as int]);
                lemma_similarity_le_scale(qs[i as int], ws[k as int]);
            }
            let s = string_similarity(qw.as_str(), ayah_words[k].as_str());
            if s > best {
                best = s;
            }
        }
        proof {
            assert(ws.take(an as int) =~= ws);
            assert(qs.take(i + 1).drop_last() =~= qs.take(i as int));
            assert(qs.take(i + 1).last() == qs[i as int]);
            assert(matches * SIM_SCALE + SIM_SCALE == (matches + 1) * SIM_SCALE) by (
            nonlinear_arith);
            assert((matches + 1) * SIM_SCALE <= (usize::MAX as int + 1) * SIM_SCALE) by (
            nonlinear_arith)
                requires
                    matches + 1 <= usize::MAX as int + 1,
            ;
        }
        if best > MATCH_THRESHOLD {
            total = total + best as u128;
            matches = matches + 1;
        }
    }
    proof {
        assert(qs.take(qn as int) =~= qs);
    }
    if matches == 0 {
        0
    } else {
        let mean: u128 = total / (matches as u128);
        proof {
            assert(total / (matches as u128) <= SIM_SCALE) by (nonlinear_arith)
                requires
                    matches >= 1,
                    total <= matches * SIM_SCALE,
            ;
        }
        mean as u64
    }
}

} // verus!
